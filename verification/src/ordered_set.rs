//! Insertion-ordered sets, kept in `indexmap::IndexSet`.
//!
//! Verus sees an `IndexSet` as an opaque value. What a set holds is named
//! here as a sequence, in insertion order, and each method the library calls
//! is given a contract over that sequence. Nothing in this file is proved:
//! the contracts restate the documentation of `indexmap`.

use indexmap::IndexSet;
use vstd::prelude::*;

verus! {

/// `indexmap::IndexSet`, declared so that it can stand in fields and
/// signatures. Nothing is said of what is inside.
#[verifier::external_type_specification]
#[verifier::external_body]
#[verifier::reject_recursive_types(T)]
#[verifier::reject_recursive_types(S)]
pub struct ExIndexSet<T, S>(IndexSet<T, S>);

/// The paths held by a set of paths, in insertion order.
pub uninterp spec fn path_set_view(s: IndexSet<String>) -> Seq<Seq<char>>;

/// The identifiers held by a set of identifiers, in insertion order.
pub uninterp spec fn id_set_view(s: IndexSet<u64>) -> Seq<u64>;

/// `IndexSet::new` for paths: a set that holds nothing.
#[verifier::external_body]
pub(crate) fn path_set_new() -> (s: IndexSet<String>)
    ensures
        path_set_view(s) == Seq::<Seq<char>>::empty(),
{
    IndexSet::new()
}

/// `IndexSet::insert` for paths: a path that the set already holds leaves the
/// set as it was and gives `false`; any other path is appended and gives
/// `true`.
#[verifier::external_body]
pub(crate) fn path_set_insert(s: &mut IndexSet<String>, p: String) -> (added: bool)
    ensures
        added == !path_set_view(*old(s)).contains(p@),
        added ==> path_set_view(*final(s)) == path_set_view(*old(s)).push(p@),
        !added ==> path_set_view(*final(s)) == path_set_view(*old(s)),
{
    s.insert(p)
}

/// `IndexSet::union` for paths, collected: the paths of `a` in their order,
/// followed by those paths of `b` that `a` does not hold, in their order.
#[verifier::external_body]
pub(crate) fn path_set_union(a: &IndexSet<String>, b: &IndexSet<String>) -> (all: Vec<String>)
    ensures
        all.deep_view() == path_set_view(*a) + path_set_view(*b).filter(
            |p: Seq<char>| !path_set_view(*a).contains(p),
        ),
{
    a.union(b).cloned().collect()
}

/// `IndexSet::new` for identifiers: a set that holds nothing.
#[verifier::external_body]
pub(crate) fn id_set_new() -> (s: IndexSet<u64>)
    ensures
        id_set_view(s) == Seq::<u64>::empty(),
{
    IndexSet::new()
}

/// `IndexSet::insert_full` for identifiers: for an identifier that the set
/// already holds, a position at which it holds it, and `false`, the set
/// staying as it was; for any other identifier, the position at the end at
/// which it is appended, and `true`.
#[verifier::external_body]
pub(crate) fn id_set_insert_full(s: &mut IndexSet<u64>, id: u64) -> (r: (usize, bool))
    ensures
        r.1 == !id_set_view(*old(s)).contains(id),
        r.1 ==> id_set_view(*final(s)) == id_set_view(*old(s)).push(id) && r.0 == id_set_view(
            *old(s),
        ).len(),
        !r.1 ==> id_set_view(*final(s)) == id_set_view(*old(s)) && r.0 < id_set_view(
            *old(s),
        ).len() && id_set_view(*old(s))[r.0 as int] == id,
{
    s.insert_full(id)
}

} // verus!
