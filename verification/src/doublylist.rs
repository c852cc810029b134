//! A doubly-ended list.
//!
//! The list owns a single chain of heap-allocated nodes through its `head`
//! link and keeps a running element count. Payloads can be pushed and popped
//! at both ends, and a double-ended iterator yields elements from either
//! direction until the count is exhausted. Ownership runs strictly forward
//! along the `next` links; backward traversal is derived from the forward
//! chain and gated by the count, so no back-references are stored.

use vstd::prelude::*;

verus! {

/// A node holds a value and the owning link to the next node.
pub struct Node<T> {
    next: Option<Box<Node<T>>>,
    item: T,
}

/// The payloads stored in the chain hanging off `link`, in order.
spec fn link_view<T>(link: Option<Box<Node<T>>>) -> Seq<T>
    decreases link,
{
    match link {
        None => Seq::empty(),
        Some(node) => seq![node.item] + link_view(node.next),
    }
}

impl<T> View for Node<T> {
    type V = Seq<T>;

    /// A node is abstracted as the sequence of payloads reachable from it,
    /// its own payload first.
    closed spec fn view(&self) -> Seq<T> {
        seq![self.item] + link_view(self.next)
    }
}

impl<T> Node<T> {
    /// Returns a new node with no successor.
    pub fn new(item: T) -> (r: Self)
        ensures
            r@ == seq![item],
    {
        Self { item, next: None }
    }

    /// Returns a new boxed node with no successor.
    pub fn boxed(item: T) -> (r: Box<Self>)
        ensures
            r@ == seq![item],
    {
        Box::new(Self::new(item))
    }

    /// Consumes the node and returns its payload.
    pub fn into_item(self: Box<Self>) -> (r: T)
        ensures
            r == self@[0],
    {
        let node = *self;
        node.item
    }
}

/// A doubly-ended list.
pub struct DoublyList<T> {
    head: Option<Box<Node<T>>>,
    len: usize,
}

impl<T> View for DoublyList<T> {
    type V = Seq<T>;

    /// The payloads of the list in front-to-back order.
    closed spec fn view(&self) -> Seq<T> {
        link_view(self.head)
    }
}

impl<T> DoublyList<T> {
    /// The stored count always equals the number of nodes in the chain.
    #[verifier::type_invariant]
    spec fn count_matches_chain(self) -> bool {
        self.len == link_view(self.head).len()
    }

    /// Returns a new empty list.
    pub fn new() -> (r: Self)
        ensures
            r@ == Seq::<T>::empty(),
    {
        Self { head: None, len: 0 }
    }

    /// The number of elements in the list.
    pub fn len(&self) -> (r: usize)
        ensures
            r == self@.len(),
    {
        proof {
            use_type_invariant(&*self);
        }
        self.len
    }

    /// Returns `true` if the list is empty, false otherwise.
    pub fn is_empty(&self) -> (r: bool)
        ensures
            r == (self@.len() == 0),
    {
        self.head.is_none()
    }

    /// Returns a reference to the front payload, or absent if empty.
    pub fn peek_front(&self) -> (r: Option<&T>)
        ensures
            match r {
                None => self@.len() == 0,
                Some(x) => self@.len() > 0 && *x == self@[0],
            },
    {
        match &self.head {
            None => None,
            Some(node) => Some(&node.item),
        }
    }

    /// Returns a mutable reference to the front payload, or absent if
    /// empty; the list afterwards holds whatever the caller wrote through
    /// the reference.
    pub fn peek_front_mut(&mut self) -> (r: Option<&mut T>)
        ensures
            match r {
                None => old(self)@.len() == 0 && final(self)@ == old(self)@,
                Some(x) => old(self)@.len() > 0 && *x == old(self)@[0]
                    && final(self)@ == old(self)@.update(0, *final(x)),
            },
    {
        proof {
            use_type_invariant(&*self);
        }
        peek_link_mut(&mut self.head)
    }

    /// Returns a reference to the back payload, or absent if empty.
    pub fn peek_back(&self) -> (r: Option<&T>)
        ensures
            match r {
                None => self@.len() == 0,
                Some(x) => self@.len() > 0 && *x == self@.last(),
            },
    {
        match &self.head {
            None => None,
            Some(node) => Some(last_item(node)),
        }
    }

    /// Returns a mutable reference to the back payload, or absent if empty;
    /// the list afterwards holds whatever the caller wrote through the
    /// reference.
    pub fn peek_back_mut(&mut self) -> (r: Option<&mut T>)
        ensures
            match r {
                None => old(self)@.len() == 0 && final(self)@ == old(self)@,
                Some(x) => old(self)@.len() > 0 && *x == old(self)@.last()
                    && final(self)@ == old(self)@.update(old(self)@.len() - 1, *final(x)),
            },
    {
        proof {
            use_type_invariant(&*self);
        }
        last_link_mut(&mut self.head)
    }

    /// Links `node` in as the new front; whatever chain hung off `node`
    /// before is discarded.
    pub fn push_front_node(&mut self, node: Box<Node<T>>)
        requires
            old(self)@.len() < usize::MAX,
        ensures
            final(self)@ == seq![node@[0]] + old(self)@,
    {
        proof {
            use_type_invariant(&*self);
        }
        let mut this = Self { head: None, len: 0 };
        core::mem::swap(&mut this, self);
        let DoublyList { head, len } = this;
        let mut node = node;
        node.next = head;
        *self = DoublyList { head: Some(node), len: len + 1 };
    }

    /// Links `node` in as the new back; whatever chain hung off `node`
    /// before is discarded.
    pub fn push_back_node(&mut self, node: Box<Node<T>>)
        requires
            old(self)@.len() < usize::MAX,
        ensures
            final(self)@ == old(self)@ + seq![node@[0]],
    {
        proof {
            use_type_invariant(&*self);
        }
        let mut this = Self { head: None, len: 0 };
        core::mem::swap(&mut this, self);
        let DoublyList { head, len } = this;
        let mut head = head;
        let mut node = node;
        node.next = None;
        push_back_link(&mut head, node);
        *self = DoublyList { head, len: len + 1 };
    }

    /// Detaches the front node and returns it with its next link cleared;
    /// absent if the list is empty.
    pub fn pop_front_node(&mut self) -> (r: Option<Box<Node<T>>>)
        ensures
            match r {
                None => old(self)@.len() == 0 && final(self)@ == old(self)@,
                Some(node) => old(self)@.len() > 0 && node@ == seq![old(self)@[0]]
                    && final(self)@ == old(self)@.drop_first(),
            },
    {
        proof {
            use_type_invariant(&*self);
        }
        let mut this = Self { head: None, len: 0 };
        core::mem::swap(&mut this, self);
        let DoublyList { head, len } = this;
        match head {
            None => None,
            Some(mut node) => {
                let ghost v0 = node@;
                let next = node.next.take();
                proof {
                    assert(v0.drop_first() =~= link_view(next));
                    assert(node@ =~= seq![v0[0]]);
                }
                *self = DoublyList { head: next, len: len - 1 };
                Some(node)
            },
        }
    }

    /// Detaches the back node and returns it; absent if the list is empty.
    pub fn pop_back_node(&mut self) -> (r: Option<Box<Node<T>>>)
        ensures
            match r {
                None => old(self)@.len() == 0 && final(self)@ == old(self)@,
                Some(node) => old(self)@.len() > 0 && node@ == seq![old(self)@.last()]
                    && final(self)@ == old(self)@.drop_last(),
            },
    {
        proof {
            use_type_invariant(&*self);
        }
        let mut this = Self { head: None, len: 0 };
        core::mem::swap(&mut this, self);
        let DoublyList { head, len } = this;
        let mut head = head;
        let r = pop_back_link(&mut head);
        match r {
            None => {
                *self = DoublyList { head, len };
                None
            },
            Some(node) => {
                *self = DoublyList { head, len: len - 1 };
                Some(node)
            },
        }
    }

    /// Pushes a new item to the front of the list.
    pub fn push_front(&mut self, item: T)
        requires
            old(self)@.len() < usize::MAX,
        ensures
            final(self)@ == seq![item] + old(self)@,
    {
        self.push_front_node(Node::boxed(item));
    }

    /// Pushes a new item to the back of the list.
    pub fn push_back(&mut self, item: T)
        requires
            old(self)@.len() < usize::MAX,
        ensures
            final(self)@ == old(self)@ + seq![item],
    {
        self.push_back_node(Node::boxed(item));
    }

    /// Pops the front item from the list, or absent if empty.
    pub fn pop_front(&mut self) -> (r: Option<T>)
        ensures
            match r {
                None => old(self)@.len() == 0 && final(self)@ == old(self)@,
                Some(x) => old(self)@.len() > 0 && x == old(self)@[0]
                    && final(self)@ == old(self)@.drop_first(),
            },
    {
        match self.pop_front_node() {
            None => None,
            Some(node) => Some(node.into_item()),
        }
    }

    /// Pops the back item from the list, or absent if empty.
    pub fn pop_back(&mut self) -> (r: Option<T>)
        ensures
            match r {
                None => old(self)@.len() == 0 && final(self)@ == old(self)@,
                Some(x) => old(self)@.len() > 0 && x == old(self)@.last()
                    && final(self)@ == old(self)@.drop_last(),
            },
    {
        match self.pop_back_node() {
            None => None,
            Some(node) => Some(node.into_item()),
        }
    }

    /// Returns a double-ended iterator over the list that yields references
    /// to the elements; the two directions may be interleaved freely.
    pub fn iter<'a>(&'a self) -> (r: Iter<'a, T>)
        ensures
            r@ == self@,
    {
        proof {
            use_type_invariant(&*self);
        }
        Iter {
            cur: match &self.head {
                None => None,
                Some(node) => Some(&**node),
            },
            remaining: self.len,
        }
    }

    /// Consumes the list into a double-ended iterator that yields the owned
    /// elements by popping the list at the requested end.
    pub fn into_iter(self) -> (r: IntoIter<T>)
        ensures
            r@ == self@,
    {
        IntoIter { inner: self }
    }

    /// Builds a list by pushing each element of `v` at the back in order, so
    /// the resulting front-to-back order equals the input order.
    pub fn from_vec(v: Vec<T>) -> (r: Self)
        ensures
            r@ == v@,
    {
        let ghost orig = v@;
        let mut v = v;
        let _total: usize = v.len();
        let mut list = DoublyList::new();
        proof {
            assert(list@ + v@ =~= orig);
        }
        while v.len() > 0
            invariant
                list@ + v@ == orig,
                list@.len() + v@.len() == orig.len(),
                orig.len() <= usize::MAX,
            decreases v@.len(),
        {
            let x = v.remove(0);
            list.push_back(x);
            proof {
                assert(list@ + v@ =~= orig);
            }
        }
        proof {
            assert(list@ =~= orig);
        }
        list
    }

    /// Rebuilds an entirely new, independently owned chain by walking this
    /// list front-to-back and appending a clone of each payload; no node is
    /// shared between the two lists.
    pub fn duplicate(&self) -> (r: Self) where T: Clone
        ensures
            r@.len() == self@.len(),
            forall|i: int|
                0 <= i < self@.len() ==> vstd::pervasive::cloned::<T>(
                    self@[i],
                    #[trigger] r@[i],
                ),
    {
        proof {
            use_type_invariant(&*self);
        }
        let mut out = DoublyList::new();
        let mut it = self.iter();
        loop
            invariant_except_break
                self@.len() <= usize::MAX,
                out@.len() + it@.len() == self@.len(),
                it@ == self@.skip(out@.len() as int),
                forall|i: int|
                    0 <= i < out@.len() ==> vstd::pervasive::cloned::<T>(
                        self@[i],
                        #[trigger] out@[i],
                    ),
            ensures
                out@.len() == self@.len(),
                forall|i: int|
                    0 <= i < self@.len() ==> vstd::pervasive::cloned::<T>(
                        self@[i],
                        #[trigger] out@[i],
                    ),
            decreases it@.len(),
        {
            let ghost k = out@.len() as int;
            match it.next() {
                None => {
                    break;
                },
                Some(x) => {
                    let c = x.clone();
                    out.push_back(c);
                    proof {
                        assert(self@.skip(k)[0] == self@[k]);
                        assert(self@.skip(k).drop_first() =~= self@.skip(k + 1));
                    }
                },
            }
        }
        out
    }

    /// Removes every node, detaching and releasing one at a time from the
    /// front so that no release recurses into the rest of the chain.
    pub fn clear(&mut self)
        ensures
            final(self)@ == Seq::<T>::empty(),
    {
        while !self.is_empty()
            decreases self@.len(),
        {
            let _ = self.pop_front_node();
        }
        proof {
            assert(self@ =~= Seq::<T>::empty());
        }
    }
}

/// The payloads of the whole chain ahead of a borrowing cursor, in order.
spec fn ref_link_view<T>(link: Option<&Node<T>>) -> Seq<T> {
    match link {
        None => Seq::empty(),
        Some(node) => node@,
    }
}

/// A double-ended borrowing iterator over a list of nodes.
///
/// The iterator keeps a forward cursor and a count of elements not yet
/// yielded; yields from either end decrement the count, and once it reaches
/// zero both ends report exhaustion forever. Yields from the back locate
/// their element by walking forward from the cursor, gated by the count.
pub struct Iter<'a, T> {
    cur: Option<&'a Node<T>>,
    remaining: usize,
}

impl<'a, T> View for Iter<'a, T> {
    type V = Seq<T>;

    /// The elements the iterator has not yielded yet, in front-to-back
    /// order.
    closed spec fn view(&self) -> Seq<T> {
        ref_link_view(self.cur).take(self.remaining as int)
    }
}

impl<'a, T> Iter<'a, T> {
    /// The count never exceeds what the cursor's chain still holds.
    #[verifier::type_invariant]
    spec fn count_within_chain(self) -> bool {
        self.remaining <= ref_link_view(self.cur).len()
    }

    /// The number of elements the iterator will still yield.
    pub fn len(&self) -> (r: usize)
        ensures
            r == self@.len(),
    {
        proof {
            use_type_invariant(&*self);
        }
        self.remaining
    }

    /// Yields the next remaining element from the front, or absent once the
    /// iterator is exhausted; every call after exhaustion keeps returning
    /// absent from both ends.
    pub fn next(&mut self) -> (r: Option<&'a T>)
        ensures
            match r {
                None => old(self)@.len() == 0 && final(self)@ == old(self)@,
                Some(x) => old(self)@.len() > 0 && *x == old(self)@[0]
                    && final(self)@ == old(self)@.drop_first(),
            },
    {
        proof {
            use_type_invariant(&*self);
        }
        if self.remaining == 0 {
            return None;
        }
        match self.cur {
            None => None,
            Some(node) => {
                let ghost v0 = self@;
                self.remaining = self.remaining - 1;
                self.cur = match &node.next {
                    None => None,
                    Some(next) => Some(&**next),
                };
                proof {
                    assert(node@.drop_first() =~= link_view(node.next));
                    assert(self@ =~= v0.drop_first());
                }
                Some(&node.item)
            },
        }
    }

    /// Yields the next remaining element from the back, or absent once the
    /// iterator is exhausted; every call after exhaustion keeps returning
    /// absent from both ends.
    pub fn next_back(&mut self) -> (r: Option<&'a T>)
        ensures
            match r {
                None => old(self)@.len() == 0 && final(self)@ == old(self)@,
                Some(x) => old(self)@.len() > 0 && *x == old(self)@.last()
                    && final(self)@ == old(self)@.drop_last(),
            },
    {
        proof {
            use_type_invariant(&*self);
        }
        if self.remaining == 0 {
            return None;
        }
        match self.cur {
            None => None,
            Some(node) => {
                let ghost v0 = self@;
                let x = nth_item(node, self.remaining - 1);
                self.remaining = self.remaining - 1;
                proof {
                    assert(*x == v0.last());
                    assert(self@ =~= v0.drop_last());
                }
                Some(x)
            },
        }
    }
}

/// A double-ended iterator over owned items in the list.
pub struct IntoIter<T> {
    inner: DoublyList<T>,
}

impl<T> View for IntoIter<T> {
    type V = Seq<T>;

    /// The elements the iterator has not yielded yet, in front-to-back
    /// order.
    closed spec fn view(&self) -> Seq<T> {
        self.inner@
    }
}

impl<T> IntoIter<T> {
    /// The number of elements the iterator will still yield.
    pub fn len(&self) -> (r: usize)
        ensures
            r == self@.len(),
    {
        self.inner.len()
    }

    /// Yields the next remaining element from the front, or absent once the
    /// underlying list has been drained.
    pub fn next(&mut self) -> (r: Option<T>)
        ensures
            match r {
                None => old(self)@.len() == 0 && final(self)@ == old(self)@,
                Some(x) => old(self)@.len() > 0 && x == old(self)@[0]
                    && final(self)@ == old(self)@.drop_first(),
            },
    {
        self.inner.pop_front()
    }

    /// Yields the next remaining element from the back, or absent once the
    /// underlying list has been drained.
    pub fn next_back(&mut self) -> (r: Option<T>)
        ensures
            match r {
                None => old(self)@.len() == 0 && final(self)@ == old(self)@,
                Some(x) => old(self)@.len() > 0 && x == old(self)@.last()
                    && final(self)@ == old(self)@.drop_last(),
            },
    {
        self.inner.pop_back()
    }
}

/// The list contents after a sequence of pushes, starting from `s`. Each
/// operation is a pair whose flag says where the item goes: a front push
/// (`true`) prepends its item and a back push (`false`) appends it — exactly
/// the sequence model that `push_front` and `push_back` ensure.
pub open spec fn apply_pushes<T>(s: Seq<T>, ops: Seq<(bool, T)>) -> Seq<T>
    decreases ops.len(),
{
    if ops.len() == 0 {
        s
    } else if ops[0].0 {
        apply_pushes(seq![ops[0].1] + s, ops.drop_first())
    } else {
        apply_pushes(s + seq![ops[0].1], ops.drop_first())
    }
}

/// The items of the front pushes among `ops`, in call order.
pub open spec fn front_items<T>(ops: Seq<(bool, T)>) -> Seq<T>
    decreases ops.len(),
{
    if ops.len() == 0 {
        Seq::empty()
    } else if ops[0].0 {
        seq![ops[0].1] + front_items(ops.drop_first())
    } else {
        front_items(ops.drop_first())
    }
}

/// The items of the back pushes among `ops`, in call order.
pub open spec fn back_items<T>(ops: Seq<(bool, T)>) -> Seq<T>
    decreases ops.len(),
{
    if ops.len() == 0 {
        Seq::empty()
    } else if ops[0].0 {
        back_items(ops.drop_first())
    } else {
        seq![ops[0].1] + back_items(ops.drop_first())
    }
}

/// Double-ended symmetry law: for any sequence of front and back pushes
/// applied to a list holding `s`, the resulting front-to-back order is the
/// front-pushed items in reverse call order, then `s`, then the back-pushed
/// items in call order.
pub proof fn lemma_push_order<T>(s: Seq<T>, ops: Seq<(bool, T)>)
    ensures
        apply_pushes(s, ops) == front_items(ops).reverse() + s + back_items(ops),
    decreases ops.len(),
{
    if ops.len() == 0 {
        assert(front_items(ops).reverse() + s + back_items(ops) =~= s);
    } else {
        let x = ops[0].1;
        let rest = ops.drop_first();
        if ops[0].0 {
            lemma_push_order(seq![x] + s, rest);
            assert((seq![x] + front_items(rest)).reverse() =~= front_items(rest).reverse()
                + seq![x]);
            assert(front_items(ops).reverse() + s + back_items(ops) =~= front_items(
                rest,
            ).reverse() + (seq![x] + s) + back_items(rest));
        } else {
            lemma_push_order(s + seq![x], rest);
            assert(front_items(ops).reverse() + s + back_items(ops) =~= front_items(
                rest,
            ).reverse() + (s + seq![x]) + back_items(rest));
        }
    }
}

/// The elements a double-ended iterator still holds after a sequence of
/// yields, each taken from the front (`true`) or the back (`false`). A yield
/// from an exhausted iterator takes nothing and leaves it exhausted —
/// matching what `Iter::next` and `Iter::next_back` ensure.
pub open spec fn remaining_after<T>(v: Seq<T>, dirs: Seq<bool>) -> Seq<T>
    decreases dirs.len(),
{
    if dirs.len() == 0 {
        v
    } else if v.len() == 0 {
        remaining_after(v, dirs.drop_first())
    } else if dirs[0] {
        remaining_after(v.drop_first(), dirs.drop_first())
    } else {
        remaining_after(v.drop_last(), dirs.drop_first())
    }
}

/// Iterator exhaustion law: an iterator over a list of length `n` yields
/// exactly `n` elements summed across both directions — after `n` yields in
/// any interleaving it is exhausted, and every further call in either
/// direction yields nothing and leaves it exhausted.
pub proof fn lemma_iterator_exhaustion<T>(v: Seq<T>, dirs: Seq<bool>)
    ensures
        remaining_after(v, dirs).len() == if dirs.len() <= v.len() {
            v.len() - dirs.len()
        } else {
            0int
        },
    decreases dirs.len(),
{
    if dirs.len() == 0 {
    } else if v.len() == 0 {
        lemma_iterator_exhaustion(v, dirs.drop_first());
    } else if dirs[0] {
        lemma_iterator_exhaustion(v.drop_first(), dirs.drop_first());
    } else {
        lemma_iterator_exhaustion(v.drop_last(), dirs.drop_first());
    }
}

/// Hands out a mutable reference to the first payload of the chain behind
/// `link`, or absent if the chain is empty.
fn peek_link_mut<'a, T>(link: &'a mut Option<Box<Node<T>>>) -> (r: Option<&'a mut T>)
    ensures
        match r {
            None => link_view(*old(link)).len() == 0
                && link_view(*final(link)) == link_view(*old(link)),
            Some(x) => link_view(*old(link)).len() > 0
                && *x == link_view(*old(link))[0]
                && link_view(*final(link)) == link_view(*old(link)).update(0, *final(x)),
        },
    no_unwind
{
    match link {
        None => None,
        Some(node) => Some(&mut node.item),
    }
}

/// Hands out a mutable reference to the last payload of the chain behind
/// `link`, or absent if the chain is empty.
fn last_link_mut<'a, T>(link: &'a mut Option<Box<Node<T>>>) -> (r: Option<&'a mut T>)
    ensures
        match r {
            None => link_view(*old(link)).len() == 0
                && link_view(*final(link)) == link_view(*old(link)),
            Some(x) => link_view(*old(link)).len() > 0
                && *x == link_view(*old(link)).last()
                && link_view(*final(link)) =~= link_view(*old(link)).update(
                link_view(*old(link)).len() - 1,
                *final(x),
            ),
        },
    decreases *old(link),
    no_unwind
{
    match link {
        None => {
            proof {
                assert(link_view(*old(link)) =~= Seq::<T>::empty());
            }
            None
        },
        Some(node) => {
            let ghost n0 = **node;
            proof {
                assert(link_view(*old(link)) =~= seq![n0.item] + link_view(n0.next));
            }
            let has_next = match &node.next {
                None => false,
                Some(_) => true,
            };
            if has_next {
                let r = last_link_mut(&mut node.next);
                proof {
                    assert(r is Some);
                }
                r
            } else {
                proof {
                    assert(link_view(n0.next) =~= Seq::<T>::empty());
                    assert(link_view(*old(link)) =~= seq![n0.item]);
                }
                Some(&mut node.item)
            }
        },
    }
}

/// Walks `k` nodes forward from `node` and returns a reference to the
/// payload found there.
fn nth_item<'a, T>(node: &'a Node<T>, k: usize) -> (r: &'a T)
    requires
        k < node@.len(),
    ensures
        *r == node@[k as int],
    decreases node,
{
    if k == 0 {
        &node.item
    } else {
        match &node.next {
            Some(next) => {
                let r = nth_item(next, k - 1);
                proof {
                    assert(node@[k as int] == next@[k - 1]);
                }
                r
            },
            None => {
                proof {
                    assert(node@ =~= seq![node.item]);
                    assert(false);
                }
                &node.item
            },
        }
    }
}

/// Walks the forward chain to its last node and returns a reference to that
/// node's payload.
fn last_item<'a, T>(node: &'a Node<T>) -> (r: &'a T)
    ensures
        *r == node@.last(),
    decreases node,
{
    match &node.next {
        None => {
            proof {
                assert(node@ =~= seq![node.item]);
            }
            &node.item
        },
        Some(next) => {
            let r = last_item(next);
            proof {
                assert(node@.last() == next@.last());
            }
            r
        },
    }
}

/// Recursive worker for `DoublyList::push_back_node`: appends a single,
/// already detached node at the end of the chain behind `link`.
fn push_back_link<T>(link: &mut Option<Box<Node<T>>>, node: Box<Node<T>>)
    requires
        node@.len() == 1,
    ensures
        link_view(*final(link)) == link_view(*old(link)) + node@,
    decreases *old(link),
{
    match link.take() {
        None => {
            proof {
                assert(link_view(*old(link)) + node@ =~= node@);
            }
            *link = Some(node);
        },
        Some(mut cur) => {
            let ghost v0 = link_view(*old(link));
            let ghost head_item = cur.item;
            let ghost tail0 = link_view(cur.next);
            proof {
                assert(v0 =~= seq![head_item] + tail0);
            }
            push_back_link(&mut cur.next, node);
            proof {
                assert(cur@ =~= v0 + node@);
            }
            *link = Some(cur);
        },
    }
}

/// Recursive worker for `DoublyList::pop_back_node`: detaches and returns
/// the last node of the chain behind `link`, or absent if the chain is
/// empty.
fn pop_back_link<T>(link: &mut Option<Box<Node<T>>>) -> (r: Option<Box<Node<T>>>)
    ensures
        match r {
            None => link_view(*old(link)).len() == 0
                && link_view(*final(link)) == link_view(*old(link)),
            Some(node) => link_view(*old(link)).len() > 0
                && node@ == seq![link_view(*old(link)).last()]
                && link_view(*final(link)) == link_view(*old(link)).drop_last(),
        },
    decreases *old(link),
{
    match link.take() {
        None => None,
        Some(mut node) => {
            let ghost v0 = link_view(*old(link));
            let ghost head_item = node.item;
            let ghost tail0 = link_view(node.next);
            proof {
                assert(v0 =~= seq![head_item] + tail0);
            }
            if node.next.is_none() {
                proof {
                    assert(v0 =~= seq![head_item]);
                    assert(node@ =~= seq![v0.last()]);
                    assert(v0.drop_last() =~= Seq::<T>::empty());
                }
                Some(node)
            } else {
                let r = pop_back_link(&mut node.next);
                let ghost tail1 = link_view(node.next);
                proof {
                    assert(tail0.len() > 0);
                    assert(v0.last() == tail0.last());
                    assert(node@ =~= seq![head_item] + tail1);
                    assert((seq![head_item] + tail0.drop_last()) =~= v0.drop_last());
                }
                *link = Some(node);
                r
            }
        },
    }
}

} // verus!
