//! The processor specifications the disassembler knows: for each one, where
//! its SLEIGH files lie (relative to the specification data directory), which
//! family it belongs to and the identifier it is listed under.

use vstd::prelude::*;

verus! {

/// The processor families.
#[derive(Debug, Clone, Copy, PartialEq, Eq, Structural)]
pub enum UnidisArch {
    X86_64,
    Arm,
    Hexagon,
    Riscv,
    AArch64,
}

/// A processor specification: the paths of its processor specification, its
/// compiled sleigh specification and its loader opinions, relative to the data
/// directory; its family; and its identifier.
pub trait Arch {
    const PSPEC: &'static str;
    const SLA: &'static str;
    const OPINION: &'static str;
    const ARCH: UnidisArch;
    const ARCH_ID: &'static str;
}

/// The constants of one processor specification, as a value.
#[derive(Debug, Clone, Copy)]
pub struct ArchSpec {
    pub pspec: &'static str,
    pub sla: &'static str,
    pub opinion: &'static str,
    pub arch: UnidisArch,
    pub arch_id: &'static str,
}

/// The specification of `A` as a value.
pub open spec fn spec_of<A: Arch>() -> ArchSpec {
    ArchSpec { pspec: A::PSPEC, sla: A::SLA, opinion: A::OPINION, arch: A::ARCH, arch_id: A::ARCH_ID }
}

/// Reads the constants of `A` into a value.
pub fn arch_spec<A: Arch>() -> (s: ArchSpec)
    ensures
        s == spec_of::<A>(),
{
    ArchSpec { pspec: A::PSPEC, sla: A::SLA, opinion: A::OPINION, arch: A::ARCH, arch_id: A::ARCH_ID }
}

pub struct ArchX86;

impl Arch for ArchX86 {
    const PSPEC: &'static str = "x86-64.pspec";
    const SLA: &'static str = "x86-64.sla";
    const OPINION: &'static str = "x86.opinion";
    const ARCH: UnidisArch = UnidisArch::X86_64;
    const ARCH_ID: &'static str = "X86_64::LE::default";
}

pub struct ArchArmV8Le;

impl Arch for ArchArmV8Le {
    const PSPEC: &'static str = "ARM/data/languages/ARMCortex.pspec";
    const SLA: &'static str = "ARM/data/languages/ARM8_le.sla";
    const OPINION: &'static str = "ARM/data/languages/ARM.opinion";
    const ARCH: UnidisArch = UnidisArch::Arm;
    const ARCH_ID: &'static str = "ARM::LE::V8";
}

pub struct ArchArmV8Be;

impl Arch for ArchArmV8Be {
    const PSPEC: &'static str = "ARM/data/languages/ARMCortex.pspec";
    const SLA: &'static str = "ARM/data/languages/ARM8_be.sla";
    const OPINION: &'static str = "ARM/data/languages/ARM.opinion";
    const ARCH: UnidisArch = UnidisArch::Arm;
    const ARCH_ID: &'static str = "ARM::BE::V8";
}

pub struct ArchArmV8mBe;

impl Arch for ArchArmV8mBe {
    const PSPEC: &'static str = "ARM/data/languages/ARMCortex.pspec";
    const SLA: &'static str = "ARM/data/languages/ARM8m_be.sla";
    const OPINION: &'static str = "ARM/data/languages/ARM.opinion";
    const ARCH: UnidisArch = UnidisArch::Arm;
    const ARCH_ID: &'static str = "ARM::BE::V8m";
}

pub struct ArchArmV8mLe;

impl Arch for ArchArmV8mLe {
    const PSPEC: &'static str = "ARM/data/languages/ARMCortex.pspec";
    const SLA: &'static str = "ARM/data/languages/ARM8m_le.sla";
    const OPINION: &'static str = "ARM/data/languages/ARM.opinion";
    const ARCH: UnidisArch = UnidisArch::Arm;
    const ARCH_ID: &'static str = "ARM::LE::V8m";
}

pub struct ArchArmV7Le;

impl Arch for ArchArmV7Le {
    const PSPEC: &'static str = "ARM/data/languages/ARMCortex.pspec";
    const SLA: &'static str = "ARM/data/languages/ARM7_le.sla";
    const OPINION: &'static str = "ARM/data/languages/ARM.opinion";
    const ARCH: UnidisArch = UnidisArch::Arm;
    const ARCH_ID: &'static str = "ARM::LE::V7";
}

pub struct ArchArmV7Be;

impl Arch for ArchArmV7Be {
    const PSPEC: &'static str = "ARM/data/languages/ARMCortex.pspec";
    const SLA: &'static str = "ARM/data/languages/ARM7_be.sla";
    const OPINION: &'static str = "ARM/data/languages/ARM.opinion";
    const ARCH: UnidisArch = UnidisArch::Arm;
    const ARCH_ID: &'static str = "ARM::BE::V7";
}

pub struct ArchArmV6Le;

impl Arch for ArchArmV6Le {
    const PSPEC: &'static str = "ARM/data/languages/ARMCortex.pspec";
    const SLA: &'static str = "ARM/data/languages/ARM6_le.sla";
    const OPINION: &'static str = "ARM/data/languages/ARM.opinion";
    const ARCH: UnidisArch = UnidisArch::Arm;
    const ARCH_ID: &'static str = "ARM::LE::V6";
}

pub struct ArchArmV6Be;

impl Arch for ArchArmV6Be {
    const PSPEC: &'static str = "ARM/data/languages/ARMCortex.pspec";
    const SLA: &'static str = "ARM/data/languages/ARM6_be.sla";
    const OPINION: &'static str = "ARM/data/languages/ARM.opinion";
    const ARCH: UnidisArch = UnidisArch::Arm;
    const ARCH_ID: &'static str = "ARM::BE::V6";
}

pub struct ArchArmV5Le;

impl Arch for ArchArmV5Le {
    const PSPEC: &'static str = "ARM/data/languages/ARMCortex.pspec";
    const SLA: &'static str = "ARM/data/languages/ARM5_le.sla";
    const OPINION: &'static str = "ARM/data/languages/ARM.opinion";
    const ARCH: UnidisArch = UnidisArch::Arm;
    const ARCH_ID: &'static str = "ARM::LE::V5";
}

pub struct ArchArmV5Be;

impl Arch for ArchArmV5Be {
    const PSPEC: &'static str = "ARM/data/languages/ARMCortex.pspec";
    const SLA: &'static str = "ARM/data/languages/ARM5_be.sla";
    const OPINION: &'static str = "ARM/data/languages/ARM.opinion";
    const ARCH: UnidisArch = UnidisArch::Arm;
    const ARCH_ID: &'static str = "ARM::BE::V5";
}

pub struct ArchArmV5tLe;

impl Arch for ArchArmV5tLe {
    const PSPEC: &'static str = "ARM/data/languages/ARMCortex.pspec";
    const SLA: &'static str = "ARM/data/languages/ARM5t_le.sla";
    const OPINION: &'static str = "ARM/data/languages/ARM.opinion";
    const ARCH: UnidisArch = UnidisArch::Arm;
    const ARCH_ID: &'static str = "ARM::LE::V5t";
}

pub struct ArchArmV5tBe;

impl Arch for ArchArmV5tBe {
    const PSPEC: &'static str = "ARM/data/languages/ARMCortex.pspec";
    const SLA: &'static str = "ARM/data/languages/ARM5t_be.sla";
    const OPINION: &'static str = "ARM/data/languages/ARM.opinion";
    const ARCH: UnidisArch = UnidisArch::Arm;
    const ARCH_ID: &'static str = "ARM::BE::V5t";
}

pub struct ArchArmV4Le;

impl Arch for ArchArmV4Le {
    const PSPEC: &'static str = "ARM/data/languages/ARMCortex.pspec";
    const SLA: &'static str = "ARM/data/languages/ARM4_le.sla";
    const OPINION: &'static str = "ARM/data/languages/ARM.opinion";
    const ARCH: UnidisArch = UnidisArch::Arm;
    const ARCH_ID: &'static str = "ARM::LE::V4";
}

pub struct ArchArmV4Be;

impl Arch for ArchArmV4Be {
    const PSPEC: &'static str = "ARM/data/languages/ARMCortex.pspec";
    const SLA: &'static str = "ARM/data/languages/ARM4_be.sla";
    const OPINION: &'static str = "ARM/data/languages/ARM.opinion";
    const ARCH: UnidisArch = UnidisArch::Arm;
    const ARCH_ID: &'static str = "ARM::BE::V4";
}

pub struct ArchHexagon;

impl Arch for ArchHexagon {
    const PSPEC: &'static str = "Hexagon/data/languages/hexagon.pspec";
    const SLA: &'static str = "Hexagon/data/languages/hexagon.sla";
    const OPINION: &'static str = "Hexagon/data/languages/hexagon.opinion";
    const ARCH: UnidisArch = UnidisArch::Hexagon;
    const ARCH_ID: &'static str = "QDSP6::LE::default";
}

pub struct ArchRiscV64;

impl Arch for ArchRiscV64 {
    const PSPEC: &'static str = "RISCV/data/languages/RV64.pspec";
    const SLA: &'static str = "RISCV/data/languages/riscv.lp64d.sla";
    const OPINION: &'static str = "RISCV/data/languages/riscv.opinion";
    const ARCH: UnidisArch = UnidisArch::Riscv;
    const ARCH_ID: &'static str = "RISCV::64::LE::default";
}

pub struct ArchRiscV32;

impl Arch for ArchRiscV32 {
    const PSPEC: &'static str = "RISCV/data/languages/RV32.pspec";
    const SLA: &'static str = "RISCV/data/languages/riscv.ilp32d.sla";
    const OPINION: &'static str = "RISCV/data/languages/riscv.opinion";
    const ARCH: UnidisArch = UnidisArch::Riscv;
    const ARCH_ID: &'static str = "RISCV::32::LE::default";
}

pub struct ArchRiscV64Andestar;

impl Arch for ArchRiscV64Andestar {
    const PSPEC: &'static str = "RISCV/data/languages/RV64.pspec";
    const SLA: &'static str = "RISCV/data/languages/andestar_v5.sla";
    const OPINION: &'static str = "RISCV/data/languages/riscv.opinion";
    const ARCH: UnidisArch = UnidisArch::Riscv;
    const ARCH_ID: &'static str = "RISCV::64::LE::Andestar";
}

pub struct ArchAArch64Le;

impl Arch for ArchAArch64Le {
    const PSPEC: &'static str = "AARCH64/data/languages/AARCH64.pspec";
    const SLA: &'static str = "AARCH64/data/languages/AARCH64.sla";
    const OPINION: &'static str = "AARCH64/data/languages/AARCH64.opinion";
    const ARCH: UnidisArch = UnidisArch::AArch64;
    const ARCH_ID: &'static str = "AArch64::LE::default";
}

pub struct ArchAArch64Be;

impl Arch for ArchAArch64Be {
    const PSPEC: &'static str = "AARCH64/data/languages/AARCH64.pspec";
    const SLA: &'static str = "AARCH64/data/languages/AARCH64BE.sla";
    const OPINION: &'static str = "AARCH64/data/languages/AARCH64.opinion";
    const ARCH: UnidisArch = UnidisArch::AArch64;
    const ARCH_ID: &'static str = "AArch64::BE::default";
}

pub struct ArchAArch64Apple;

impl Arch for ArchAArch64Apple {
    const PSPEC: &'static str = "AARCH64/data/languages/AARCH64.pspec";
    const SLA: &'static str = "AARCH64/data/languages/AARCH64_AppleSilicon.sla";
    const OPINION: &'static str = "AARCH64/data/languages/AARCH64.opinion";
    const ARCH: UnidisArch = UnidisArch::AArch64;
    const ARCH_ID: &'static str = "AArch64::LE::Apple-Silicon";
}

/// The known processor specifications, in the order in which they are tried.
pub open spec fn spec_arches() -> Seq<ArchSpec> {
    seq![
        spec_of::<ArchX86>(),
        spec_of::<ArchArmV8mLe>(),
        spec_of::<ArchArmV8mBe>(),
        spec_of::<ArchArmV8Le>(),
        spec_of::<ArchArmV8Be>(),
        spec_of::<ArchArmV7Le>(),
        spec_of::<ArchArmV7Be>(),
        spec_of::<ArchArmV6Le>(),
        spec_of::<ArchArmV6Be>(),
        spec_of::<ArchArmV5Le>(),
        spec_of::<ArchArmV5Be>(),
        spec_of::<ArchArmV5tLe>(),
        spec_of::<ArchArmV5tBe>(),
        spec_of::<ArchArmV4Le>(),
        spec_of::<ArchArmV4Be>(),
        spec_of::<ArchHexagon>(),
        spec_of::<ArchRiscV64>(),
        spec_of::<ArchRiscV32>(),
        spec_of::<ArchRiscV64Andestar>(),
        spec_of::<ArchAArch64Le>(),
        spec_of::<ArchAArch64Be>(),
        spec_of::<ArchAArch64Apple>(),
    ]
}

/// The known processor specifications, in the order in which they are tried.
pub fn arches() -> (v: Vec<ArchSpec>)
    ensures
        v@ == spec_arches(),
{
    let mut v: Vec<ArchSpec> = Vec::new();
    v.push(arch_spec::<ArchX86>());
    v.push(arch_spec::<ArchArmV8mLe>());
    v.push(arch_spec::<ArchArmV8mBe>());
    v.push(arch_spec::<ArchArmV8Le>());
    v.push(arch_spec::<ArchArmV8Be>());
    v.push(arch_spec::<ArchArmV7Le>());
    v.push(arch_spec::<ArchArmV7Be>());
    v.push(arch_spec::<ArchArmV6Le>());
    v.push(arch_spec::<ArchArmV6Be>());
    v.push(arch_spec::<ArchArmV5Le>());
    v.push(arch_spec::<ArchArmV5Be>());
    v.push(arch_spec::<ArchArmV5tLe>());
    v.push(arch_spec::<ArchArmV5tBe>());
    v.push(arch_spec::<ArchArmV4Le>());
    v.push(arch_spec::<ArchArmV4Be>());
    v.push(arch_spec::<ArchHexagon>());
    v.push(arch_spec::<ArchRiscV64>());
    v.push(arch_spec::<ArchRiscV32>());
    v.push(arch_spec::<ArchRiscV64Andestar>());
    v.push(arch_spec::<ArchAArch64Le>());
    v.push(arch_spec::<ArchAArch64Be>());
    v.push(arch_spec::<ArchAArch64Apple>());
    v
}

/// The position in `spec_arches()` of the specification a family stands for
/// when only the family is given.
pub open spec fn spec_default_index(arch: UnidisArch) -> int {
    match arch {
        UnidisArch::X86_64 => 0,
        UnidisArch::Arm => 3,
        UnidisArch::Hexagon => 15,
        UnidisArch::Riscv => 16,
        UnidisArch::AArch64 => 19,
    }
}

/// The position in `arches()` of the specification a family stands for:
/// x86-64, ARMv8 little endian, Hexagon, 64-bit RISC-V, little-endian AArch64.
pub fn default_index(arch: UnidisArch) -> (i: usize)
    ensures
        i == spec_default_index(arch),
        i < spec_arches().len(),
{
    match arch {
        UnidisArch::X86_64 => 0,
        UnidisArch::Arm => 3,
        UnidisArch::Hexagon => 15,
        UnidisArch::Riscv => 16,
        UnidisArch::AArch64 => 19,
    }
}

/// The specification each family stands for: x86-64, little-endian ARMv8,
/// Hexagon, 64-bit RISC-V and little-endian AArch64.
pub proof fn lemma_default_specifications()
    ensures
        spec_arches()[spec_default_index(UnidisArch::X86_64)] == spec_of::<ArchX86>(),
        spec_arches()[spec_default_index(UnidisArch::Arm)] == spec_of::<ArchArmV8Le>(),
        spec_arches()[spec_default_index(UnidisArch::Hexagon)] == spec_of::<ArchHexagon>(),
        spec_arches()[spec_default_index(UnidisArch::Riscv)] == spec_of::<ArchRiscV64>(),
        spec_arches()[spec_default_index(UnidisArch::AArch64)] == spec_of::<ArchAArch64Le>(),
{
}

/// Each family stands for a specification of that family.
pub proof fn lemma_default_has_family(arch: UnidisArch)
    ensures
        spec_arches()[spec_default_index(arch)].arch == arch,
{
}

} // verus!

verus! {

/// The contents of one specification's files.
pub struct ArchFiles {
    pub pspec: String,
    pub sla: Vec<u8>,
    pub opinion: String,
}

/// The files of every known specification, in the order of `arches()`.
pub struct SpecLibrary {
    pub files: Vec<ArchFiles>,
}

impl SpecLibrary {
    /// There is one entry per known specification.
    pub open spec fn wf(&self) -> bool {
        self.files@.len() == spec_arches().len()
    }
}

} // verus!

verus! {

/// `s[n]` differs from every element before it, looking back `m` places.
pub open spec fn differs_back(s: Seq<Seq<char>>, n: int, m: int) -> bool
    decreases m,
{
    m <= 0 || (s[n - m] != s[n] && differs_back(s, n, m - 1))
}

/// `s[n]` differs from every element before it.
pub open spec fn absent_before(s: Seq<Seq<char>>, n: int) -> bool {
    differs_back(s, n, n)
}

proof fn lemma_differs_back(s: Seq<Seq<char>>, n: int, m: int)
    requires
        differs_back(s, n, m),
        m <= n,
    ensures
        forall|i: int| n - m <= i < n ==> s[i] != s[n],
    decreases m,
{
    if m > 0 {
        lemma_differs_back(s, n, m - 1);
    }
}

/// The identifiers of the known specifications, in order.
pub open spec fn spec_ids() -> Seq<Seq<char>> {
    spec_arches().map_values(|a: ArchSpec| a.arch_id@)
}

/// No two known specifications share an identifier.
pub proof fn lemma_ids_distinct()
    ensures
        forall|i: int, j: int| 0 <= i < j < spec_ids().len() ==> spec_ids()[i] != spec_ids()[j],
{
    let ids = seq![
        "X86_64::LE::default"@,
        "ARM::LE::V8m"@,
        "ARM::BE::V8m"@,
        "ARM::LE::V8"@,
        "ARM::BE::V8"@,
        "ARM::LE::V7"@,
        "ARM::BE::V7"@,
        "ARM::LE::V6"@,
        "ARM::BE::V6"@,
        "ARM::LE::V5"@,
        "ARM::BE::V5"@,
        "ARM::LE::V5t"@,
        "ARM::BE::V5t"@,
        "ARM::LE::V4"@,
        "ARM::BE::V4"@,
        "QDSP6::LE::default"@,
        "RISCV::64::LE::default"@,
        "RISCV::32::LE::default"@,
        "RISCV::64::LE::Andestar"@,
        "AArch64::LE::default"@,
        "AArch64::BE::default"@,
        "AArch64::LE::Apple-Silicon"@
    ];
    // The identifiers' lengths, and for those of equal length the characters
    // that tell them apart; then each is compared with those before it.
    reveal_strlit("X86_64::LE::default");
    assert("X86_64::LE::default"@.len() == 19);
    reveal_strlit("ARM::LE::V8m");
    assert("ARM::LE::V8m"@.len() == 12);
    reveal_strlit("ARM::BE::V8m");
    assert("ARM::BE::V8m"@.len() == 12);
    reveal_strlit("ARM::LE::V8");
    assert("ARM::LE::V8"@.len() == 11);
    reveal_strlit("ARM::BE::V8");
    assert("ARM::BE::V8"@.len() == 11);
    reveal_strlit("ARM::LE::V7");
    assert("ARM::LE::V7"@.len() == 11);
    reveal_strlit("ARM::BE::V7");
    assert("ARM::BE::V7"@.len() == 11);
    reveal_strlit("ARM::LE::V6");
    assert("ARM::LE::V6"@.len() == 11);
    reveal_strlit("ARM::BE::V6");
    assert("ARM::BE::V6"@.len() == 11);
    reveal_strlit("ARM::LE::V5");
    assert("ARM::LE::V5"@.len() == 11);
    reveal_strlit("ARM::BE::V5");
    assert("ARM::BE::V5"@.len() == 11);
    reveal_strlit("ARM::LE::V5t");
    assert("ARM::LE::V5t"@.len() == 12);
    reveal_strlit("ARM::BE::V5t");
    assert("ARM::BE::V5t"@.len() == 12);
    reveal_strlit("ARM::LE::V4");
    assert("ARM::LE::V4"@.len() == 11);
    reveal_strlit("ARM::BE::V4");
    assert("ARM::BE::V4"@.len() == 11);
    reveal_strlit("QDSP6::LE::default");
    assert("QDSP6::LE::default"@.len() == 18);
    reveal_strlit("RISCV::64::LE::default");
    assert("RISCV::64::LE::default"@.len() == 22);
    reveal_strlit("RISCV::32::LE::default");
    assert("RISCV::32::LE::default"@.len() == 22);
    reveal_strlit("RISCV::64::LE::Andestar");
    assert("RISCV::64::LE::Andestar"@.len() == 23);
    reveal_strlit("AArch64::LE::default");
    assert("AArch64::LE::default"@.len() == 20);
    reveal_strlit("AArch64::BE::default");
    assert("AArch64::BE::default"@.len() == 20);
    reveal_strlit("AArch64::LE::Apple-Silicon");
    assert("AArch64::LE::Apple-Silicon"@.len() == 26);
    assert("ARM::LE::V8m"@[5] == 'L');
    assert("ARM::LE::V8m"@[10] == '8');
    assert("ARM::BE::V8m"@[5] == 'B');
    assert("ARM::BE::V8m"@[10] == '8');
    assert("ARM::LE::V8"@[5] == 'L');
    assert("ARM::LE::V8"@[10] == '8');
    assert("ARM::BE::V8"@[5] == 'B');
    assert("ARM::BE::V8"@[10] == '8');
    assert("ARM::LE::V7"@[5] == 'L');
    assert("ARM::LE::V7"@[10] == '7');
    assert("ARM::BE::V7"@[5] == 'B');
    assert("ARM::BE::V7"@[10] == '7');
    assert("ARM::LE::V6"@[5] == 'L');
    assert("ARM::LE::V6"@[10] == '6');
    assert("ARM::BE::V6"@[5] == 'B');
    assert("ARM::BE::V6"@[10] == '6');
    assert("ARM::LE::V5"@[5] == 'L');
    assert("ARM::LE::V5"@[10] == '5');
    assert("ARM::BE::V5"@[5] == 'B');
    assert("ARM::BE::V5"@[10] == '5');
    assert("ARM::LE::V5t"@[5] == 'L');
    assert("ARM::LE::V5t"@[10] == '5');
    assert("ARM::BE::V5t"@[5] == 'B');
    assert("ARM::BE::V5t"@[10] == '5');
    assert("ARM::LE::V4"@[5] == 'L');
    assert("ARM::LE::V4"@[10] == '4');
    assert("ARM::BE::V4"@[5] == 'B');
    assert("ARM::BE::V4"@[10] == '4');
    assert("RISCV::64::LE::default"@[7] == '6');
    assert("RISCV::32::LE::default"@[7] == '3');
    assert("AArch64::LE::default"@[9] == 'L');
    assert("AArch64::BE::default"@[9] == 'B');
    assert(absent_before(ids, 1)) by { reveal_with_fuel(differs_back, 2); }
    assert(absent_before(ids, 2)) by { reveal_with_fuel(differs_back, 3); }
    assert(absent_before(ids, 3)) by { reveal_with_fuel(differs_back, 4); }
    assert(absent_before(ids, 4)) by { reveal_with_fuel(differs_back, 5); }
    assert(absent_before(ids, 5)) by { reveal_with_fuel(differs_back, 6); }
    assert(absent_before(ids, 6)) by { reveal_with_fuel(differs_back, 7); }
    assert(absent_before(ids, 7)) by { reveal_with_fuel(differs_back, 8); }
    assert(absent_before(ids, 8)) by { reveal_with_fuel(differs_back, 9); }
    assert(absent_before(ids, 9)) by { reveal_with_fuel(differs_back, 10); }
    assert(absent_before(ids, 10)) by { reveal_with_fuel(differs_back, 11); }
    assert(absent_before(ids, 11)) by { reveal_with_fuel(differs_back, 12); }
    assert(absent_before(ids, 12)) by { reveal_with_fuel(differs_back, 13); }
    assert(absent_before(ids, 13)) by { reveal_with_fuel(differs_back, 14); }
    assert(absent_before(ids, 14)) by { reveal_with_fuel(differs_back, 15); }
    assert(absent_before(ids, 15)) by { reveal_with_fuel(differs_back, 16); }
    assert(absent_before(ids, 16)) by { reveal_with_fuel(differs_back, 17); }
    assert(absent_before(ids, 17)) by { reveal_with_fuel(differs_back, 18); }
    assert(absent_before(ids, 18)) by { reveal_with_fuel(differs_back, 19); }
    assert(absent_before(ids, 19)) by { reveal_with_fuel(differs_back, 20); }
    assert(absent_before(ids, 20)) by { reveal_with_fuel(differs_back, 21); }
    assert(absent_before(ids, 21)) by { reveal_with_fuel(differs_back, 22); }
    assert(ids =~= spec_ids());
    assert forall|i: int, j: int| 0 <= i < j < ids.len() implies ids[i] != ids[j] by {
        lemma_differs_back(ids, j, j);
    }
}

} // verus!

