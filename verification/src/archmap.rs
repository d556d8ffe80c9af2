//! The known specifications keyed by identifier, in identifier order (the
//! order of a `BTreeMap<String, _>`).

use vstd::prelude::*;
use crate::arch::{arches, ArchSpec, UnidisArch};
use crate::arch;

verus! {

/// Whether `a` comes before `b` in the order of `str` (code point by code
/// point, a proper prefix first).
pub open spec fn lex_before(a: Seq<char>, b: Seq<char>) -> bool
    decreases a.len(),
{
    if a.len() == 0 {
        b.len() > 0
    } else if b.len() == 0 {
        false
    } else if a[0] != b[0] {
        (a[0] as u32) < (b[0] as u32)
    } else {
        lex_before(a.drop_first(), b.drop_first())
    }
}

pub proof fn lemma_lex_irreflexive(a: Seq<char>)
    ensures
        !lex_before(a, a),
    decreases a.len(),
{
    if a.len() > 0 {
        lemma_lex_irreflexive(a.drop_first());
    }
}

pub proof fn lemma_lex_asymmetric(a: Seq<char>, b: Seq<char>)
    ensures
        lex_before(a, b) ==> !lex_before(b, a),
    decreases a.len(),
{
    if a.len() > 0 && b.len() > 0 && a[0] == b[0] {
        lemma_lex_asymmetric(a.drop_first(), b.drop_first());
    }
}

pub proof fn lemma_lex_total(a: Seq<char>, b: Seq<char>)
    ensures
        a != b ==> lex_before(a, b) || lex_before(b, a),
    decreases a.len(),
{
    if a.len() > 0 && b.len() > 0 && a[0] == b[0] {
        lemma_lex_total(a.drop_first(), b.drop_first());
        if a.drop_first() == b.drop_first() {
            assert(a == seq![a[0]] + a.drop_first());
            assert(b == seq![b[0]] + b.drop_first());
        }
    } else if a.len() == 0 && b.len() == 0 {
        assert(a == b);
    } else if a.len() > 0 && b.len() > 0 {
        lemma_char_code_injective(a[0], b[0]);
    }
}

proof fn lemma_char_code_injective(x: char, y: char)
    ensures
        x != y ==> (x as u32) != (y as u32),
{

}

pub proof fn lemma_lex_transitive(a: Seq<char>, b: Seq<char>, c: Seq<char>)
    requires
        lex_before(a, b),
        lex_before(b, c),
    ensures
        lex_before(a, c),
    decreases a.len(),
{
    if a.len() > 0 && b.len() > 0 && c.len() > 0 && a[0] == b[0] && b[0] == c[0] {
        lemma_lex_transitive(a.drop_first(), b.drop_first(), c.drop_first());
    }
}

/// An identifier map as a list of entries.
pub type ArchMapValue = Seq<(Seq<char>, UnidisArch)>;

/// The keys strictly increase.
pub open spec fn strictly_sorted(m: ArchMapValue) -> bool {
    forall|i: int, j: int| 0 <= i < j < m.len() ==> lex_before(m[i].0, m[j].0)
}

/// `m` with `k` mapped to `v`: an entry with key `k` is replaced, otherwise
/// a new entry goes before the first larger key.
pub open spec fn map_insert(m: ArchMapValue, k: Seq<char>, v: UnidisArch) -> ArchMapValue
    decreases m.len(),
{
    if m.len() == 0 {
        seq![(k, v)]
    } else if m[0].0 == k {
        seq![(k, v)] + m.drop_first()
    } else if lex_before(k, m[0].0) {
        seq![(k, v)] + m
    } else {
        seq![m[0]] + map_insert(m.drop_first(), k, v)
    }
}

/// The value of the first entry with key `k`.
pub open spec fn map_lookup(m: ArchMapValue, k: Seq<char>) -> Option<UnidisArch>
    decreases m.len(),
{
    if m.len() == 0 {
        None
    } else if m[0].0 == k {
        Some(m[0].1)
    } else {
        map_lookup(m.drop_first(), k)
    }
}

/// The map made by inserting each specification's identifier and family in order.
pub open spec fn map_from(specs: Seq<ArchSpec>) -> ArchMapValue
    decreases specs.len(),
{
    if specs.len() == 0 {
        Seq::<(Seq<char>, UnidisArch)>::empty()
    } else {
        map_insert(map_from(specs.drop_last()), specs.last().arch_id@, specs.last().arch)
    }
}

/// The map of the known specifications.
pub open spec fn spec_arch_map() -> ArchMapValue {
    map_from(arch::spec_arches())
}

/// The family of the last specification, in order, with identifier `k`.
pub open spec fn last_with_id(specs: Seq<ArchSpec>, k: Seq<char>) -> Option<UnidisArch>
    decreases specs.len(),
{
    if specs.len() == 0 {
        None
    } else if specs.last().arch_id@ == k {
        Some(specs.last().arch)
    } else {
        last_with_id(specs.drop_last(), k)
    }
}

proof fn lemma_insert_keys(m: ArchMapValue, k: Seq<char>, v: UnidisArch)
    ensures
        forall|i: int| 0 <= i < map_insert(m, k, v).len() ==>
            (#[trigger] map_insert(m, k, v)[i]).0 == k
            || exists|j: int| 0 <= j < m.len() && m[j].0 == map_insert(m, k, v)[i].0,
    decreases m.len(),
{
    if m.len() > 0 && m[0].0 != k && !lex_before(k, m[0].0) {
        lemma_insert_keys(m.drop_first(), k, v);
        let r = map_insert(m, k, v);
        assert forall|i: int| 0 <= i < r.len() implies
            (#[trigger] r[i]).0 == k || exists|j: int| 0 <= j < m.len() && m[j].0 == r[i].0 by {
            if i == 0 {
                assert(m[0].0 == r[0].0);
            } else {
                let r2 = map_insert(m.drop_first(), k, v);
                assert(r[i] == r2[i - 1]);
                if r2[i - 1].0 != k {
                    let j = choose|j: int| 0 <= j < m.drop_first().len() && m.drop_first()[j].0 == r2[i - 1].0;
                    assert(m[j + 1].0 == r[i].0);
                }
            }
        }
    }
}

/// Inserting keeps the keys strictly increasing.
pub proof fn lemma_insert_sorted(m: ArchMapValue, k: Seq<char>, v: UnidisArch)
    requires
        strictly_sorted(m),
    ensures
        strictly_sorted(map_insert(m, k, v)),
    decreases m.len(),
{
    let r = map_insert(m, k, v);
    if m.len() == 0 {
    } else if m[0].0 == k {
        assert forall|i: int, j: int| 0 <= i < j < r.len() implies lex_before(r[i].0, r[j].0) by {
            assert(r[i].0 == m[i].0);
            assert(r[j].0 == m[j].0);
        }
    } else if lex_before(k, m[0].0) {
        assert forall|i: int, j: int| 0 <= i < j < r.len() implies lex_before(r[i].0, r[j].0) by {
            if i == 0 {
                if j > 1 {
                    lemma_lex_transitive(k, m[0].0, m[j - 1].0);
                }
            } else {
                assert(r[i] == m[i - 1]);
                assert(r[j] == m[j - 1]);
            }
        }
    } else {
        let t = m.drop_first();
        lemma_insert_sorted(t, k, v);
        lemma_insert_keys(t, k, v);
        lemma_lex_total(k, m[0].0);
        let r2 = map_insert(t, k, v);
        assert forall|i: int, j: int| 0 <= i < j < r.len() implies lex_before(r[i].0, r[j].0) by {
            if i == 0 {
                assert(r[j] == r2[j - 1]);
                if r2[j - 1].0 != k {
                    let q = choose|q: int| 0 <= q < t.len() && t[q].0 == r2[j - 1].0;
                    assert(m[q + 1].0 == r2[j - 1].0);
                }
            } else {
                assert(r[i] == r2[i - 1]);
                assert(r[j] == r2[j - 1]);
            }
        }
    }
}

/// Looking up after an insertion.
pub proof fn lemma_insert_lookup(m: ArchMapValue, k: Seq<char>, v: UnidisArch, q: Seq<char>)
    ensures
        map_lookup(map_insert(m, k, v), q) == if q == k { Some(v) } else { map_lookup(m, q) },
    decreases m.len(),
{
    let r = map_insert(m, k, v);
    if m.len() == 0 {
        assert(r[0] == (k, v));
        assert(map_lookup(r.drop_first(), q) is None);
        assert(map_lookup(r, q) == if q == k { Some(v) } else { map_lookup(r.drop_first(), q) });
    } else if m[0].0 == k {
        assert(r[0] == (k, v));
        assert(r.drop_first() == m.drop_first());
        assert(map_lookup(r, q) == if q == k { Some(v) } else { map_lookup(r.drop_first(), q) });
    } else if lex_before(k, m[0].0) {
        assert(r[0] == (k, v));
        assert(r.drop_first() == m);
        assert(map_lookup(r, q) == if q == k { Some(v) } else { map_lookup(r.drop_first(), q) });
    } else {
        lemma_insert_lookup(m.drop_first(), k, v, q);
        assert(r[0] == m[0]);
        assert(r.drop_first() == map_insert(m.drop_first(), k, v));
        assert(map_lookup(r, q) == if q == m[0].0 { Some(m[0].1) } else { map_lookup(r.drop_first(), q) });
    }
}

/// The map of any list of specifications has strictly increasing keys, and
/// each key maps to the family of the last specification with that
/// identifier.
pub proof fn lemma_map_from(specs: Seq<ArchSpec>, q: Seq<char>)
    ensures
        strictly_sorted(map_from(specs)),
        map_lookup(map_from(specs), q) == last_with_id(specs, q),
    decreases specs.len(),
{
    if specs.len() > 0 {
        lemma_map_from(specs.drop_last(), q);
        lemma_insert_sorted(map_from(specs.drop_last()), specs.last().arch_id@, specs.last().arch);
        lemma_insert_lookup(map_from(specs.drop_last()), specs.last().arch_id@, specs.last().arch, q);
    }
}

proof fn lemma_insert_at(m: ArchMapValue, k: Seq<char>, v: UnidisArch, p: int)
    requires
        0 <= p <= m.len(),
        forall|q: int| 0 <= q < p ==> lex_before(#[trigger] m[q].0, k),
        p < m.len() ==> !lex_before(m[p].0, k),
    ensures
        map_insert(m, k, v) == if p < m.len() && m[p].0 == k {
            m.update(p, (k, v))
        } else {
            m.insert(p, (k, v))
        },
    decreases p,
{
    if p == 0 {
        if m.len() == 0 {
            assert(m.insert(0, (k, v)) == seq![(k, v)]);
        } else if m[0].0 == k {
            assert(m.update(0, (k, v)) == seq![(k, v)] + m.drop_first());
        } else {
            lemma_lex_total(k, m[0].0);
            assert(m.insert(0, (k, v)) == seq![(k, v)] + m);
        }
    } else {
        lemma_lex_irreflexive(k);
        lemma_lex_asymmetric(m[0].0, k);
        assert(lex_before(m[0].0, k));
        let t = m.drop_first();
        assert forall|q: int| 0 <= q < p - 1 implies lex_before(#[trigger] t[q].0, k) by {
            assert(t[q] == m[q + 1]);
        }
        lemma_insert_at(t, k, v, p - 1);
        if p < m.len() && m[p].0 == k {
            assert(m.update(p, (k, v)) == seq![m[0]] + t.update(p - 1, (k, v)));
        } else {
            assert(m.insert(p, (k, v)) == seq![m[0]] + t.insert(p - 1, (k, v)));
        }
    }
}

/// The view of an exec identifier map.
pub open spec fn map_value(m: Seq<(String, UnidisArch)>) -> ArchMapValue {
    m.map_values(|e: (String, UnidisArch)| (e.0@, e.1))
}

/// Maps `k` to `v` in an identifier map held in key order.
fn insert_entry(m: &mut Vec<(String, UnidisArch)>, k: &str, v: UnidisArch)
    ensures
        map_value(final(m)@) == map_insert(map_value(old(m)@), k@, v),
{
    let ghost mv = map_value(m@);
    let mut p: usize = 0;
    while p < m.len() && text_order(m[p].0.as_str(), k) == TextOrder::Before
        invariant
            p <= m@.len(),
            mv == map_value(m@),
            forall|q: int| 0 <= q < p ==> lex_before(#[trigger] mv[q].0, k@),
        decreases m@.len() - p,
    {
        p = p + 1;
    }
    proof {
        lemma_insert_at(mv, k@, v, p as int);
    }
    if p < m.len() && text_order(m[p].0.as_str(), k) == TextOrder::Same {
        m.set(p, (k.to_owned(), v));
        proof {
            assert(map_value(m@) == mv.update(p as int, (k@, v)));
        }
    } else {
        m.insert(p, (k.to_owned(), v));
        proof {
            assert(map_value(m@) == mv.insert(p as int, (k@, v)));
        }
    }
}

/// The known specifications keyed by identifier, in identifier order; an
/// identifier maps to the family of the last specification that has it.
pub fn get_arch_map() -> (m: Vec<(String, UnidisArch)>)
    ensures
        map_value(m@) == spec_arch_map(),
{
    let specs = arches();
    let mut m: Vec<(String, UnidisArch)> = Vec::new();
    let mut i: usize = 0;
    while i < specs.len()
        invariant
            specs@ == arch::spec_arches(),
            i <= specs@.len(),
            map_value(m@) == map_from(specs@.take(i as int)),
        decreases specs@.len() - i,
    {
        proof {
            assert(specs@.take(i + 1).drop_last() == specs@.take(i as int));
        }
        insert_entry(&mut m, specs[i].arch_id, specs[i].arch);
        i = i + 1;
    }
    proof {
        assert(specs@.take(i as int) == specs@);
    }
    m
}

/// The family an identifier maps to.
pub fn arch_map_get(m: &Vec<(String, UnidisArch)>, key: &str) -> (r: Option<UnidisArch>)
    ensures
        r == map_lookup(map_value(m@), key@),
{
    let ghost mv = map_value(m@);
    let mut i: usize = 0;
    assert(mv.skip(0) == mv);
    while i < m.len()
        invariant
            i <= m@.len(),
            mv == map_value(m@),
            map_lookup(mv, key@) == map_lookup(mv.skip(i as int), key@),
        decreases m@.len() - i,
    {
        proof {
            assert(mv.skip(i as int).drop_first() == mv.skip(i + 1));
        }
        if text_order(m[i].0.as_str(), key) == TextOrder::Same {
            return Some(m[i].1);
        }
        i = i + 1;
    }
    None
}

/// The order of two texts.
#[derive(Debug, Clone, Copy, PartialEq, Eq, Structural)]
pub enum TextOrder {
    Before,
    Same,
    After,
}

/// Compares two texts in the order of `str`.
pub fn text_order(a: &str, b: &str) -> (o: TextOrder)
    ensures
        o == TextOrder::Before <==> lex_before(a@, b@),
        o == TextOrder::Same <==> a@ == b@,
        o == TextOrder::After <==> lex_before(b@, a@),
{
    let na = a.unicode_len();
    let nb = b.unicode_len();
    let mut i: usize = 0;
    proof {
        lemma_lex_total(a@, b@);
        lemma_lex_asymmetric(a@, b@);
        lemma_lex_irreflexive(a@);
        assert(a@.skip(0) == a@);
        assert(b@.skip(0) == b@);
    }
    while i < na && i < nb
        invariant
            na == a@.len(),
            nb == b@.len(),
            i <= na,
            i <= nb,
            a@.take(i as int) == b@.take(i as int),
            lex_before(a@, b@) == lex_before(a@.skip(i as int), b@.skip(i as int)),
            lex_before(b@, a@) == lex_before(b@.skip(i as int), a@.skip(i as int)),
        decreases na - i,
    {
        let ca = a.get_char(i);
        let cb = b.get_char(i);
        if ca != cb {
            assert(a@.skip(i as int)[0] == ca);
            assert(b@.skip(i as int)[0] == cb);
            if (ca as u32) < (cb as u32) {
                return TextOrder::Before;
            } else {
                return TextOrder::After;
            }
        }
        proof {
            assert(a@.skip(i as int).drop_first() == a@.skip(i + 1));
            assert(b@.skip(i as int).drop_first() == b@.skip(i + 1));
            assert(a@.take(i + 1) == a@.take(i as int).push(ca));
            assert(b@.take(i + 1) == b@.take(i as int).push(cb));
        }
        i = i + 1;
    }
    if i == na && i == nb {
        assert(a@ == a@.take(i as int));
        assert(b@ == b@.take(i as int));
        TextOrder::Same
    } else if i == na {
        TextOrder::Before
    } else {
        TextOrder::After
    }
}

} // verus!

verus! {

/// The last specification with an identifier that no other one has is the
/// one found for it.
proof fn lemma_last_with_unique_id(specs: Seq<ArchSpec>, i: int)
    requires
        0 <= i < specs.len(),
        forall|j: int| 0 <= j < specs.len() && j != i ==> (#[trigger] specs[j]).arch_id@ != specs[i].arch_id@,
    ensures
        last_with_id(specs, specs[i].arch_id@) == Some(specs[i].arch),
    decreases specs.len(),
{
    if i < specs.len() - 1 {
        let p = specs.drop_last();
        assert(specs.last() == specs[specs.len() - 1]);
        assert forall|j: int| 0 <= j < p.len() && j != i implies (#[trigger] p[j]).arch_id@ != p[i].arch_id@ by {
            assert(p[j] == specs[j]);
        }
        lemma_last_with_unique_id(p, i);
    }
}

/// Every known specification is found under its own identifier: looking it
/// up in the map gives its family.
pub proof fn lemma_id_selects_family(i: int)
    requires
        0 <= i < arch::spec_arches().len(),
    ensures
        map_lookup(spec_arch_map(), arch::spec_arches()[i].arch_id@) == Some(arch::spec_arches()[i].arch),
{
    let specs = arch::spec_arches();
    arch::lemma_ids_distinct();
    assert forall|j: int| 0 <= j < specs.len() && j != i implies (#[trigger] specs[j]).arch_id@ != specs[i].arch_id@ by {
        assert(arch::spec_ids()[i] == specs[i].arch_id@);
        assert(arch::spec_ids()[j] == specs[j].arch_id@);
    }
    lemma_last_with_unique_id(specs, i);
    lemma_map_from(specs, specs[i].arch_id@);
}

} // verus!

verus! {

/// A family found in a map is the family of one of its entries.
proof fn lemma_lookup_entry(m: ArchMapValue, k: Seq<char>, v: UnidisArch)
    requires
        map_lookup(m, k) == Some(v),
    ensures
        exists|j: int| 0 <= j < m.len() && (#[trigger] m[j]).1 == v,
    decreases m.len(),
{
    if m[0].0 != k {
        lemma_lookup_entry(m.drop_first(), k, v);
        let j = choose|j: int| 0 <= j < m.drop_first().len() && (#[trigger] m.drop_first()[j]).1 == v;
        assert(m[j + 1] == m.drop_first()[j]);
    }
}

/// Every family has an entry in the map of the known specifications.
pub proof fn lemma_family_in_map(a: UnidisArch)
    ensures
        exists|j: int| 0 <= j < spec_arch_map().len() && (#[trigger] spec_arch_map()[j]).1 == a,
{
    let i = arch::spec_default_index(a);
    arch::lemma_default_has_family(a);
    lemma_id_selects_family(i);
    lemma_lookup_entry(spec_arch_map(), arch::spec_arches()[i].arch_id@, a);
}

} // verus!
