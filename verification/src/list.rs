//! A singly-linked list.
//!
//! The list owns a chain of heap-allocated nodes through a single `head`
//! link; each node owns its successor. Pushing and popping happen at the
//! head, so the list behaves as a stack. The abstract view of a list is the
//! sequence of its payloads in head-to-tail order.

use vstd::prelude::*;

verus! {

/// A node holds a value and the owning link to the next node.
pub struct Node<T> {
    /// The next element of the list.
    next: Option<Box<Node<T>>>,
    /// The value this node holds.
    item: T,
}

/// The payloads stored in the chain hanging off `link`, in order.
spec fn link_view<T>(link: Option<Box<Node<T>>>) -> Seq<T>
    decreases link,
{
    match link {
        None => Seq::empty(),
        Some(node) => seq![node.item] + link_view(node.next),
    }
}

impl<T> View for Node<T> {
    type V = Seq<T>;

    /// A node is abstracted as the sequence of payloads reachable from it,
    /// its own payload first.
    closed spec fn view(&self) -> Seq<T> {
        seq![self.item] + link_view(self.next)
    }
}

impl<T> Node<T> {
    /// Returns a new node, with its next element set to `None`.
    pub fn new(item: T) -> (r: Self)
        ensures
            r@ == seq![item],
    {
        Self { item, next: None }
    }

    /// Returns a new boxed node, with its next element set to `None`.
    pub fn boxed(item: T) -> (r: Box<Self>)
        ensures
            r@ == seq![item],
    {
        Box::new(Self::new(item))
    }
}

/// A list of nodes.
pub struct List<T> {
    /// Hold just the head of the list.
    head: Option<Box<Node<T>>>,
}

impl<T> View for List<T> {
    type V = Seq<T>;

    /// The payloads of the list in head-to-tail order.
    closed spec fn view(&self) -> Seq<T> {
        link_view(self.head)
    }
}

impl<T> Default for List<T> {
    /// The default list is empty.
    fn default() -> (r: Self)
        ensures
            r@ == Seq::<T>::empty(),
    {
        Self::new()
    }
}

impl<T> List<T> {
    /// Returns a new empty list.
    pub fn new() -> (r: Self)
        ensures
            r@ == Seq::<T>::empty(),
    {
        Self { head: None }
    }

    /// Returns `true` if the list is empty, false otherwise.
    pub fn is_empty(&self) -> (r: bool)
        ensures
            r == (self@.len() == 0),
    {
        self.head.is_none()
    }

    /// Links `node` in front of the current head; whatever chain hung off
    /// `node` before is discarded in favour of the list's own chain.
    pub fn push_node(&mut self, node: Box<Node<T>>)
        ensures
            final(self)@ == seq![node@[0]] + old(self)@,
    {
        let mut node = node;
        node.next = self.head.take();
        self.head = Some(node);
    }

    /// Detaches the head node and returns it with its next link cleared;
    /// absent if the list is empty.
    pub fn pop_node(&mut self) -> (r: Option<Box<Node<T>>>)
        ensures
            match r {
                None => old(self)@.len() == 0 && final(self)@ == old(self)@,
                Some(node) => old(self)@.len() > 0 && node@ == seq![old(self)@[0]]
                    && final(self)@ == old(self)@.drop_first(),
            },
    {
        match self.head.take() {
            None => None,
            Some(mut node) => {
                self.head = node.next.take();
                Some(node)
            },
        }
    }

    /// Returns a reference to the head of the list, or absent if empty.
    pub fn peek(&self) -> (r: Option<&T>)
        ensures
            match r {
                None => self@.len() == 0,
                Some(x) => self@.len() > 0 && *x == self@[0],
            },
    {
        match &self.head {
            None => None,
            Some(node) => Some(&node.item),
        }
    }

    /// Returns a mutable reference to the head of the list, or absent if
    /// empty; the list afterwards holds whatever the caller wrote through
    /// the reference.
    pub fn peek_mut(&mut self) -> (r: Option<&mut T>)
        ensures
            match r {
                None => old(self)@.len() == 0 && final(self)@ == old(self)@,
                Some(x) => old(self)@.len() > 0 && *x == old(self)@[0]
                    && final(self)@ == old(self)@.update(0, *final(x)),
            },
    {
        match &mut self.head {
            None => None,
            Some(node) => Some(&mut node.item),
        }
    }

    /// Pushes a new item to the front of the list.
    pub fn push(&mut self, item: T)
        ensures
            final(self)@ == seq![item] + old(self)@,
    {
        self.push_node(Node::boxed(item))
    }

    /// Pops the last pushed item from the list, or absent if empty.
    pub fn pop(&mut self) -> (r: Option<T>)
        ensures
            match r {
                None => old(self)@.len() == 0 && final(self)@ == old(self)@,
                Some(x) => old(self)@.len() > 0 && x == old(self)@[0]
                    && final(self)@ == old(self)@.drop_first(),
            },
    {
        match self.pop_node() {
            None => None,
            Some(node) => {
                let node = *node;
                Some(node.item)
            },
        }
    }

    /// Splits the list at the first element satisfying `splitter`.
    ///
    /// Scans forward from the head, applying `splitter` to each element in
    /// order, and stops at the first element for which it returns true. That
    /// element stays in this list as its new tail; everything after it is
    /// detached and returned as a new list (empty if the match was the last
    /// element). If no element matches, or the list is empty, the list is
    /// left unchanged and absent is returned.
    pub fn split_after<F: Fn(&T) -> bool>(&mut self, splitter: F) -> (r: Option<List<T>>)
        requires
            forall|x: &T| #[trigger] call_requires(splitter, (x,)),
        ensures
            match r {
                None => final(self)@ == old(self)@ && (forall|j: int|
                    0 <= j < old(self)@.len() ==> call_ensures(
                        splitter,
                        (&old(self)@[j],),
                        false,
                    )),
                Some(rest) => exists|i: int|
                    {
                        &&& 0 <= i < old(self)@.len()
                        &&& #[trigger] call_ensures(splitter, (&old(self)@[i],), true)
                        &&& forall|j: int|
                            0 <= j < i ==> call_ensures(splitter, (&old(self)@[j],), false)
                        &&& final(self)@ == old(self)@.take(i + 1)
                        &&& rest@ == old(self)@.skip(i + 1)
                    },
            },
    {
        let r = split_link_after(&mut self.head, &splitter);
        proof {
            let v0 = link_view(old(self).head);
            assert(old(self)@ == v0);
            match &r {
                None => {},
                Some(rest) => {
                    let i = choose|i: int|
                        {
                            &&& 0 <= i < v0.len()
                            &&& #[trigger] call_ensures(splitter, (&v0[i],), true)
                            &&& forall|j: int|
                                0 <= j < i ==> call_ensures(splitter, (&v0[j],), false)
                            &&& link_view(self.head) == v0.take(i + 1)
                            &&& rest@ == v0.skip(i + 1)
                        };
                    assert(call_ensures(splitter, (&old(self)@[i],), true));
                },
            }
        }
        r
    }

    /// Returns an iterator over the list, that yields references to the
    /// elements in the list in head-to-tail order.
    pub fn iter<'a>(&'a self) -> (r: Iter<'a, T>)
        ensures
            r@ == self@,
    {
        Iter {
            cur: match &self.head {
                None => None,
                Some(node) => Some(&**node),
            },
        }
    }

    /// Consumes the list into an iterator that yields the owned elements in
    /// head-to-tail order by popping the list.
    pub fn into_iter(self) -> (r: IntoIter<T>)
        ensures
            r@ == self@,
    {
        IntoIter { inner: self }
    }

    /// Builds a list by pushing each element of `v` in order; since every
    /// push links a new head, the resulting head-to-tail order is the input
    /// order reversed.
    pub fn from_vec(v: Vec<T>) -> (r: Self)
        ensures
            r@ == v@.reverse(),
    {
        let ghost orig = v@;
        let mut v = v;
        let mut list = List::new();
        while v.len() > 0
            invariant
                list@.reverse() + v@ == orig,
            decreases v@.len(),
        {
            let x = v.remove(0);
            let ghost pre = list@;
            list.push(x);
            proof {
                assert(list@.reverse() =~= pre.reverse().push(x));
            }
        }
        proof {
            assert(list@.reverse() + v@ =~= list@.reverse());
            assert(list@ =~= list@.reverse().reverse());
            assert(list@ =~= orig.reverse());
        }
        list
    }

    /// Removes every node, detaching and releasing one at a time from the
    /// head so that no release recurses into the rest of the chain.
    pub fn clear(&mut self)
        ensures
            final(self)@ == Seq::<T>::empty(),
    {
        while !self.is_empty()
            decreases self@.len(),
        {
            let _ = self.pop_node();
        }
        proof {
            assert(self@ =~= Seq::<T>::empty());
        }
    }
}

/// Recursive worker for `List::split_after`: walks the chain behind `link`,
/// keeps everything up to and including the first matching node, and returns
/// the detached remainder as a new list, or absent if nothing matched.
fn split_link_after<T, F: Fn(&T) -> bool>(
    link: &mut Option<Box<Node<T>>>,
    splitter: &F,
) -> (r: Option<List<T>>)
    requires
        forall|x: &T| #[trigger] call_requires(*splitter, (x,)),
    ensures
        match r {
            None => link_view(*final(link)) == link_view(*old(link)) && (forall|j: int|
                0 <= j < link_view(*old(link)).len() ==> call_ensures(
                    *splitter,
                    (&link_view(*old(link))[j],),
                    false,
                )),
            Some(rest) => exists|i: int|
                {
                    &&& 0 <= i < link_view(*old(link)).len()
                    &&& #[trigger] call_ensures(*splitter, (&link_view(*old(link))[i],), true)
                    &&& forall|j: int|
                        0 <= j < i ==> call_ensures(*splitter, (&link_view(*old(link))[j],), false)
                    &&& link_view(*final(link)) == link_view(*old(link)).take(i + 1)
                    &&& rest@ == link_view(*old(link)).skip(i + 1)
                },
        },
    decreases *old(link),
{
    match link.take() {
        None => None,
        Some(mut node) => {
            let ghost head_item = node.item;
            let ghost tail0 = link_view(node.next);
            let ghost v0 = link_view(*old(link));
            proof {
                assert(v0 =~= seq![head_item] + tail0);
            }
            if splitter(&node.item) {
                let rest = List { head: node.next.take() };
                proof {
                    assert(v0[0] == head_item);
                    assert(call_ensures(*splitter, (&v0[0],), true));
                    assert(node@ =~= v0.take(1));
                    assert(rest@ =~= v0.skip(1));
                }
                *link = Some(node);
                Some(rest)
            } else {
                let r = split_link_after(&mut node.next, splitter);
                let ghost tail1 = link_view(node.next);
                proof {
                    match &r {
                        None => {
                            assert(node@ =~= v0);
                            assert(forall|j: int|
                                1 <= j < v0.len() ==> call_ensures(
                                    *splitter,
                                    (&v0[j],),
                                    false,
                                )) by {
                                assert(forall|j: int|
                                    0 <= j < tail0.len() ==> call_ensures(
                                        *splitter,
                                        (&tail0[j],),
                                        false,
                                    ));
                                assert(forall|j: int| 1 <= j < v0.len() ==> v0[j] == tail0[j - 1]);
                            }
                        },
                        Some(rest) => {
                            let i0 = choose|i0: int|
                                {
                                    &&& 0 <= i0 < tail0.len()
                                    &&& #[trigger] call_ensures(*splitter, (&tail0[i0],), true)
                                    &&& forall|j: int|
                                        0 <= j < i0 ==> call_ensures(*splitter, (&tail0[j],), false)
                                    &&& tail1 == tail0.take(i0 + 1)
                                    &&& rest@ == tail0.skip(i0 + 1)
                                };
                            let i = i0 + 1;
                            assert(v0[i] == tail0[i0]);
                            assert(forall|j: int| 1 <= j < i ==> v0[j] == tail0[j - 1]);
                            assert(node@ =~= v0.take(i + 1));
                            assert(rest@ =~= v0.skip(i + 1));
                            assert({
                                &&& 0 <= i < v0.len()
                                &&& call_ensures(*splitter, (&v0[i],), true)
                                &&& forall|j: int|
                                    0 <= j < i ==> call_ensures(*splitter, (&v0[j],), false)
                                &&& node@ == v0.take(i + 1)
                                &&& rest@ == v0.skip(i + 1)
                            });
                        },
                    }
                }
                *link = Some(node);
                r
            }
        },
    }
}

/// The payloads still ahead of a borrowing cursor, in order.
spec fn ref_link_view<T>(link: Option<&Node<T>>) -> Seq<T> {
    match link {
        None => Seq::empty(),
        Some(node) => node@,
    }
}

/// An iterator over a list of nodes.
#[derive(Clone)]
pub struct Iter<'a, T> {
    cur: Option<&'a Node<T>>,
}

impl<'a, T> View for Iter<'a, T> {
    type V = Seq<T>;

    /// The elements the iterator has not yielded yet, in yield order.
    closed spec fn view(&self) -> Seq<T> {
        ref_link_view(self.cur)
    }
}

impl<'a, T> Iter<'a, T> {
    /// Returns the element the next call to `next` would yield, without
    /// advancing.
    pub fn peek(&self) -> (r: Option<&'a T>)
        ensures
            match r {
                None => self@.len() == 0,
                Some(x) => self@.len() > 0 && *x == self@[0],
            },
    {
        match self.cur {
            None => None,
            Some(node) => Some(&node.item),
        }
    }

    /// Yields the next remaining element, or absent once the iterator is
    /// exhausted; every call after exhaustion keeps returning absent.
    pub fn next(&mut self) -> (r: Option<&'a T>)
        ensures
            match r {
                None => old(self)@.len() == 0 && final(self)@ == old(self)@,
                Some(x) => old(self)@.len() > 0 && *x == old(self)@[0]
                    && final(self)@ == old(self)@.drop_first(),
            },
    {
        match self.cur {
            None => None,
            Some(node) => {
                self.cur = match &node.next {
                    None => None,
                    Some(n) => Some(&**n),
                };
                proof {
                    assert(node@.drop_first() =~= link_view(node.next));
                }
                Some(&node.item)
            },
        }
    }
}

/// An iterator over owned items in the list.
pub struct IntoIter<T> {
    inner: List<T>,
}

impl<T> View for IntoIter<T> {
    type V = Seq<T>;

    /// The elements the iterator has not yielded yet, in yield order.
    closed spec fn view(&self) -> Seq<T> {
        self.inner@
    }
}

impl<T> IntoIter<T> {
    /// Yields the next remaining element, or absent once the underlying
    /// list has been drained; the drained list stays empty.
    pub fn next(&mut self) -> (r: Option<T>)
        ensures
            match r {
                None => old(self)@.len() == 0 && final(self)@ == old(self)@,
                Some(x) => old(self)@.len() > 0 && x == old(self)@[0]
                    && final(self)@ == old(self)@.drop_first(),
            },
    {
        self.inner.pop()
    }
}

/// The LIFO law: pushing items `a`, `b`, `c` in that order onto a list whose
/// elements are `s`, and then popping three times, yields `c`, then `b`,
/// then `a`, and leaves the list at `s` again. It is stated over the
/// sequence model that `push` and `pop` ensure: a push prepends its item,
/// and a pop yields the first element and drops it.
pub proof fn lemma_lifo<T>(s: Seq<T>, a: T, b: T, c: T)
    ensures
        ({
            let after = seq![c] + (seq![b] + (seq![a] + s));
            &&& after.len() > 0 && after[0] == c
            &&& after.drop_first().len() > 0 && after.drop_first()[0] == b
            &&& after.drop_first().drop_first().len() > 0
                && after.drop_first().drop_first()[0] == a
            &&& after.drop_first().drop_first().drop_first() == s
        }),
{
    let after = seq![c] + (seq![b] + (seq![a] + s));
    assert(after.drop_first() =~= seq![b] + (seq![a] + s));
    assert(after.drop_first().drop_first() =~= seq![a] + s);
    assert(after.drop_first().drop_first().drop_first() =~= s);
}

} // verus!
