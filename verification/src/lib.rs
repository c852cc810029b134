//! Verified singly- and doubly-ended linked lists.
//!
//! Two list structures built from individually heap-allocated nodes joined by
//! owning `next` links:
//!
//! - [`list::List`]: a singly-linked list with stack-style push/pop at the
//!   head, forward iteration, and a predicate-directed `split_after`.
//! - [`doublylist::DoublyList`]: a list with push/pop at both ends and
//!   double-ended iteration that may be consumed from either direction.
//!
//! Every list is abstracted as a `Seq` of its payloads in head-to-tail order,
//! and each operation carries a contract over that sequence.

use vstd::prelude::*;

pub mod doublylist;
pub mod list;

verus! {

/// The outputs of consuming a list whose view is `v` one element at a time
/// from the front, in yield order: the model of draining a list through its
/// consuming iterator, which yields the first element of the remaining view
/// on every call.
pub open spec fn drain_front<T>(v: Seq<T>) -> Seq<T>
    decreases v.len(),
{
    if v.len() == 0 {
        Seq::empty()
    } else {
        seq![v[0]] + drain_front(v.drop_first())
    }
}

/// Round-trip law: fully consuming a list from the front yields exactly its
/// view, in order. A doubly-ended list built by `doublylist::DoublyList::from_vec`
/// has the input as its view, so sequence, list, and drained sequence agree;
/// a forward list built by `list::List::from_vec` has the input reversed as
/// its view, so the drained sequence is the input reversed.
pub proof fn lemma_round_trip<T>(v: Seq<T>)
    ensures
        drain_front(v) == v,
    decreases v.len(),
{
    if v.len() == 0 {
        assert(drain_front(v) =~= v);
    } else {
        lemma_round_trip(v.drop_first());
        assert(drain_front(v) =~= v);
    }
}

} // verus!
