//! Ordered sets of column names, kept in an `indexmap::IndexSet`.
use indexmap::IndexSet;
use vstd::prelude::*;

use crate::expr::strings_view;

verus! {

#[verifier::external_type_specification]
#[verifier::external_body]
#[verifier::reject_recursive_types(T)]
#[verifier::reject_recursive_types(S)]
pub struct ExIndexSet<T, S>(IndexSet<T, S>);

/// An ordered set of column names.
pub type ColumnSet = IndexSet<String>;

/// The names a column set holds, in insertion order.
pub uninterp spec fn column_set_items(s: IndexSet<String>) -> Seq<Seq<char>>;

/// Relies on `IndexSet::new`: the new set is empty.
#[verifier::external_body]
pub(crate) fn column_set_new() -> (r: IndexSet<String>)
    ensures
        column_set_items(r) == Seq::<Seq<char>>::empty(),
{
    IndexSet::new()
}

/// Relies on `IndexSet::insert`: a name already present leaves the set and
/// its order as they are and gives `false`; a new name goes at the end and
/// gives `true`.
#[verifier::external_body]
pub(crate) fn column_set_insert(s: &mut IndexSet<String>, name: String) -> (r: bool)
    ensures
        column_set_items(*old(s)).contains(name@) ==> !r && column_set_items(*final(s)) == column_set_items(*old(s)),
        !column_set_items(*old(s)).contains(name@) ==> r && column_set_items(*final(s)) == column_set_items(*old(s)).push(name@),
{
    s.insert(name)
}

/// Relies on `IndexSet::contains`: whether the name is in the set.
#[verifier::external_body]
pub(crate) fn column_set_contains(s: &IndexSet<String>, name: &str) -> (r: bool)
    ensures
        r == column_set_items(*s).contains(name@),
{
    s.contains(name)
}

/// Relies on `IndexSet::len`: the number of names in the set.
#[verifier::external_body]
pub(crate) fn column_set_len(s: &IndexSet<String>) -> (r: usize)
    ensures
        r == column_set_items(*s).len(),
{
    s.len()
}

/// Relies on `IndexSet::get_index`: the name at position `i`, if any.
#[verifier::external_body]
pub(crate) fn column_set_get(s: &IndexSet<String>, i: usize) -> (r: Option<&String>)
    ensures
        i < column_set_items(*s).len() ==> r is Some && r->Some_0@ == column_set_items(*s)[i as int],
        i >= column_set_items(*s).len() ==> r is None,
{
    s.get_index(i)
}

/// `base` followed by the names of `s` that are not already there, each once,
/// in order of first appearance.
pub open spec fn dedup_onto(base: Seq<Seq<char>>, s: Seq<Seq<char>>) -> Seq<Seq<char>>
    decreases s.len(),
{
    if s.len() == 0 {
        base
    } else {
        let d = dedup_onto(base, s.drop_last());
        if d.contains(s.last()) {
            d
        } else {
            d.push(s.last())
        }
    }
}

/// The names of `s`, each once, in order of first appearance.
pub open spec fn dedup(s: Seq<Seq<char>>) -> Seq<Seq<char>> {
    dedup_onto(Seq::empty(), s)
}

/// Taking the new names of `x` and then those of `y` is taking those of `x + y`.
pub proof fn lemma_dedup_onto_concat(base: Seq<Seq<char>>, x: Seq<Seq<char>>, y: Seq<Seq<char>>)
    ensures
        dedup_onto(dedup_onto(base, x), y) == dedup_onto(base, x + y),
    decreases y.len(),
{
    if y.len() > 0 {
        lemma_dedup_onto_concat(base, x, y.drop_last());
        assert((x + y).drop_last() =~= x + y.drop_last());
        assert((x + y).last() == y.last());
    } else {
        assert(x + y =~= x);
    }
}

/// The names of a list of column sets, one set after the other.
pub open spec fn flatten_sets(s: Seq<IndexSet<String>>) -> Seq<Seq<char>>
    decreases s.len(),
{
    if s.len() == 0 {
        Seq::empty()
    } else {
        flatten_sets(s.drop_last()) + column_set_items(s.last())
    }
}

/// The names of `s` that are in `t`, in order.
pub open spec fn kept_in(s: Seq<Seq<char>>, t: Seq<Seq<char>>) -> Seq<Seq<char>>
    decreases s.len(),
{
    if s.len() == 0 {
        s
    } else if t.contains(s.last()) {
        kept_in(s.drop_last(), t).push(s.last())
    } else {
        kept_in(s.drop_last(), t)
    }
}

/// Relies on `FromIterator` for `IndexSet`, which inserts each name in
/// order: a repeated name keeps its first place.
#[verifier::external_body]
pub(crate) fn column_set_from(names: &Vec<String>) -> (r: IndexSet<String>)
    ensures
        column_set_items(r) == dedup(strings_view(names@)),
{
    names.iter().cloned().collect()
}

/// Relies on `IndexSet::union`: the names of `a` in their order, then those
/// of `b` that are not in `a`, in their order.
#[verifier::external_body]
pub(crate) fn column_set_union(a: &IndexSet<String>, b: &IndexSet<String>) -> (r: IndexSet<String>)
    ensures
        column_set_items(r) == dedup_onto(column_set_items(*a), column_set_items(*b)),
{
    a.union(b).cloned().collect()
}

/// Relies on `IndexSet::intersection`: the names of `a` that are in `b`, in
/// the order of `a`.
#[verifier::external_body]
pub(crate) fn column_set_intersection(a: &IndexSet<String>, b: &IndexSet<String>) -> (r: IndexSet<String>)
    ensures
        column_set_items(r) == kept_in(column_set_items(*a), column_set_items(*b)),
{
    a.intersection(b).cloned().collect()
}

} // verus!
