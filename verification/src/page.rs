//! The page of the web server: the choices of identifier it offers, and what
//! it answers to a submitted form.

use vstd::prelude::*;
use crate::arch::SpecLibrary;
use crate::archmap::{arch_map_get, get_arch_map, text_order, TextOrder};
use crate::archmap;
use crate::disasm::{decode_run, UniDis};
use crate::disasm;
use crate::numbers::{IntErrorKind, ParseIntError};
use crate::sleigh::EngineError;
use crate::web::{
    decode_hex_input, guess_arch, is_guess_request, listing_text, parse_base_addr, HexError,
};
use crate::web;

verus! {

/// The identifiers offered, in map order, each marked when it is the selected one.
pub open spec fn spec_choices(selected: Seq<char>) -> Seq<(Seq<char>, bool)> {
    archmap::spec_arch_map().map_values(|e: (Seq<char>, crate::arch::UnidisArch)| (e.0, e.0 == selected))
}

/// The view of a list of choices.
pub open spec fn choices_value(v: Seq<(String, bool)>) -> Seq<(Seq<char>, bool)> {
    v.map_values(|p: (String, bool)| (p.0@, p.1))
}

/// The identifiers of the map in order, each with whether it is `selected`.
pub fn arch_choices(selected: &str) -> (v: Vec<(String, bool)>)
    ensures
        choices_value(v@) == spec_choices(selected@),
{
    let m = get_arch_map();
    let ghost mv = archmap::map_value(m@);
    let mut v: Vec<(String, bool)> = Vec::new();
    let mut i: usize = 0;
    while i < m.len()
        invariant
            mv == archmap::map_value(m@),
            mv == archmap::spec_arch_map(),
            i <= m@.len(),
            choices_value(v@) == spec_choices(selected@).take(i as int),
        decreases m@.len() - i,
    {
        let key = m[i].0.as_str();
        let same = text_order(key, selected) == TextOrder::Same;
        v.push((m[i].0.clone(), same));
        proof {
            assert(mv[i as int].0 == key@);
            assert(spec_choices(selected@).take(i + 1) == spec_choices(selected@).take(i as int).push(spec_choices(selected@)[i as int]));
            assert(choices_value(v@) =~= spec_choices(selected@).take(i + 1));
        }
        i = i + 1;
    }
    proof {
        assert(spec_choices(selected@).take(i as int) == spec_choices(selected@));
    }
    v
}

/// What the page shows.
pub struct IndexPage {
    pub output: String,
    pub arches: Vec<(String, bool)>,
    pub input_data: String,
    pub with_bytes: bool,
    pub with_address: bool,
    pub output_title: String,
}

/// The page with the given contents, offering every identifier and marking
/// the selected one.
pub fn index_page(
    output: String,
    input_data: String,
    with_bytes: bool,
    with_address: bool,
    selected_arch: &str,
    output_title: String,
) -> (p: IndexPage)
    ensures
        p.output@ == output@,
        choices_value(p.arches@) == spec_choices(selected_arch@),
        p.input_data@ == input_data@,
        p.with_bytes == with_bytes,
        p.with_address == with_address,
        p.output_title@ == output_title@,
{
    IndexPage {
        output,
        arches: arch_choices(selected_arch),
        input_data,
        with_bytes,
        with_address,
        output_title,
    }
}

/// The page first shown: empty, both options on, nothing selected.
pub fn index_get_page() -> (p: IndexPage)
    ensures
        p.output@.len() == 0,
        choices_value(p.arches@) == spec_choices(Seq::<char>::empty()),
        p.input_data@.len() == 0,
        p.with_bytes,
        p.with_address,
        p.output_title@ == "Output"@,
{
    let none = "";
    proof {
        reveal_strlit("");
        assert(none@ =~= Seq::<char>::empty());
    }
    index_page(String::new(), String::new(), true, true, none, "Output".to_owned())
}

/// A submitted form. An option is on when its field is present.
pub struct DisReq {
    pub mode: String,
    pub input_data: String,
    pub arch: String,
    pub base_addr: String,
    pub with_bytes: Option<String>,
    pub with_addr: Option<String>,
}

/// What the server answers to a form.
pub enum PostOutcome {
    /// A bad request: the base address is not a number.
    BadBaseAddr(ParseIntError),
    /// A bad request: the input is not hexadecimal.
    BadHex(HexError),
    /// A bad request: the input holds more than the largest accepted number of bytes.
    TooLong,
    /// A bad request: no specification has the requested identifier.
    ArchNotFound,
    /// An engine could not be built.
    EngineFailed(EngineError),
    /// The page with the listing.
    Listing(IndexPage),
    /// The form asks for assembly at this base address.
    Assemble(u64),
}

/// The largest number of bytes the server disassembles.
pub const MAX_INPUT: usize = 128;

/// The title of the page that shows a listing.
pub open spec fn listing_title() -> Seq<char> {
    "Disassembly Output"@
}

/// The mode of a form that asks for disassembly.
pub open spec fn disassemble_mode() -> Seq<char> {
    "DISASSEMBLE"@
}

/// The answer to a submitted form. The base address is read first; a form
/// whose mode is not `DISASSEMBLE` asks for assembly. For disassembly the
/// input is read as hexadecimal (spaces ignored), at most `MAX_INPUT` bytes;
/// the family is guessed or looked up; the bytes are decoded from the start
/// until the end or the first failure, and the listing is shown on the page.
pub fn handle_post(req: &DisReq, lib: &SpecLibrary) -> (r: PostOutcome)
    requires
        lib.wf(),
    ensures
        web::request_base(req.base_addr@) is Err ==>
            (r matches PostOutcome::BadBaseAddr(e) && web::request_base(req.base_addr@) == Err::<int, IntErrorKind>(e.kind)),
        web::request_base(req.base_addr@) is Ok && req.mode@ != disassemble_mode() ==>
            (r matches PostOutcome::Assemble(b) && web::request_base(req.base_addr@) == Ok::<int, IntErrorKind>(b as int)),
        web::request_base(req.base_addr@) is Ok && req.mode@ == disassemble_mode()
            && web::request_bytes(req.input_data@) is Err ==>
            (r matches PostOutcome::BadHex(e) && web::request_bytes(req.input_data@) == Err::<Seq<u8>, HexError>(e)),
        web::request_base(req.base_addr@) is Ok && req.mode@ == disassemble_mode()
            && web::request_bytes(req.input_data@) is Ok && web::request_bytes(req.input_data@)->Ok_0.len() > MAX_INPUT
            ==> r is TooLong,
        web::request_base(req.base_addr@) is Ok && req.mode@ == disassemble_mode()
            && web::request_bytes(req.input_data@) is Ok && web::request_bytes(req.input_data@)->Ok_0.len() <= MAX_INPUT
            ==> {
            &&& req.arch@ != web::guess_label() && archmap::map_lookup(archmap::spec_arch_map(), req.arch@) is None
                ==> r is ArchNotFound
            &&& req.arch@ == web::guess_label()
                || archmap::map_lookup(archmap::spec_arch_map(), req.arch@) is Some
                ==> (r is Listing || r is EngineFailed)
            &&& req.arch@ == web::guess_label() ==> (r is EngineFailed <==> !web::all_families_build(*lib))
            &&& req.arch@ != web::guess_label() && archmap::map_lookup(archmap::spec_arch_map(), req.arch@) is Some
                ==> (r is EngineFailed <==> !disasm::family_builds(
                    *lib,
                    archmap::map_lookup(archmap::spec_arch_map(), req.arch@)->Some_0,
                ))
        },
        r matches PostOutcome::Listing(p) ==> {
            &&& web::request_base(req.base_addr@) matches Ok(b)
            &&& web::request_bytes(req.input_data@) matches Ok(x)
            &&& web::is_request_listing(p.output@, x, b as u64, req.with_addr is Some, req.with_bytes is Some, *lib, req.arch@)
            &&& choices_value(p.arches@) == spec_choices(req.arch@)
            &&& p.input_data@ == req.input_data@
            &&& p.with_bytes == req.with_bytes is Some
            &&& p.with_address == req.with_addr is Some
            &&& p.output_title@ == listing_title()
        },
{
    let base = match parse_base_addr(req.base_addr.as_str()) {
        Ok(b) => b,
        Err(e) => return PostOutcome::BadBaseAddr(e),
    };
    if text_order(req.mode.as_str(), "DISASSEMBLE") != TextOrder::Same {
        return PostOutcome::Assemble(base);
    }
    let x = match decode_hex_input(req.input_data.as_str()) {
        Ok(v) => v,
        Err(e) => return PostOutcome::BadHex(e),
    };
    if x.len() > MAX_INPUT {
        return PostOutcome::TooLong;
    }
    let family = if is_guess_request(req.arch.as_str()) {
        match guess_arch(x.as_slice(), lib) {
            Ok(a) => a,
            Err(e) => return PostOutcome::EngineFailed(e),
        }
    } else {
        let m = get_arch_map();
        match arch_map_get(&m, req.arch.as_str()) {
            Some(v) => v,
            None => return PostOutcome::ArchNotFound,
        }
    };
    let ghost xv = x@;
    let mut dis = match UniDis::new_arch(x, family, lib) {
        Ok(d) => d,
        Err(e) => return PostOutcome::EngineFailed(e),
    };
    assert(dis.spec_data() == xv && dis.spec_pos() == 0);
    let ghost u0 = dis;
    let run = decode_run(&mut dis);
    proof {
        disasm::lemma_fresh_run(u0, dis, (run.0@, run.1), xv, *lib, family);
        assert(web::run_ends(run.0@, xv, *lib, family));
    }
    let with_addr = req.with_addr.is_some();
    let with_bytes = req.with_bytes.is_some();
    let out = listing_text(&run.0, base, with_addr, with_bytes);
    proof {
        assert(web::request_base(req.base_addr@) == Ok::<int, IntErrorKind>(base as int));
        assert(web::request_bytes(req.input_data@) == Ok::<Seq<u8>, HexError>(xv));
        assert(web::is_run_listing(out@, xv, (base as int) as u64, with_addr, with_bytes, *lib, family));
        assert(web::is_request_listing(out@, xv, (base as int) as u64, with_addr, with_bytes, *lib, req.arch@));
    }
    let page = index_page(
        out,
        req.input_data.clone(),
        with_bytes,
        with_addr,
        req.arch.as_str(),
        "Disassembly Output".to_owned(),
    );
    PostOutcome::Listing(page)
}

} // verus!
