use std::cell::Cell;
use std::rc::Rc;

use lists::doublylist::{DoublyList, Node};

#[test]
fn test_iter() {
    let mut list = DoublyList::new();

    list.push_front(0);
    list.push_front(10);
    list.push_back(20);
    list.push_front(11);
    list.push_back(21);
    // list = 11 10 0 20 21
    let mut iter = list.iter();

    assert_eq!(iter.next(), Some(&11));
    assert_eq!(iter.next_back(), Some(&21));
    assert_eq!(iter.next(), Some(&10));
    assert_eq!(iter.next_back(), Some(&20));
    assert_eq!(iter.next_back(), Some(&0));
    assert_eq!(iter.next_back(), None);
    assert_eq!(iter.next(), None);
}

#[test]
fn test_unsized_list() {
    let mut list = DoublyList::new();

    let node: Box<Node<Box<usize>>> = Node::boxed(Box::new(10usize));

    list.push_front_node(node);
}

#[test]
fn push_order_symmetry() {
    // back-pushes append in call order; front-pushes prepend in reverse
    // call order
    let mut list = DoublyList::new();
    list.push_back(1);
    list.push_front(2);
    list.push_back(3);
    list.push_front(4);
    list.push_back(5);
    // fronts in call order: 2 4 -> reversed: 4 2; backs in call order: 1 3 5
    let expected = vec![4, 2, 1, 3, 5];

    let mut drained = Vec::new();
    while let Some(x) = list.pop_front() {
        drained.push(x);
    }
    assert_eq!(drained, expected);
}

#[test]
fn pops_at_both_ends() {
    let mut list = DoublyList::new();
    assert_eq!(list.pop_front(), None);
    assert_eq!(list.pop_back(), None);

    list.push_back(1u32);
    list.push_back(2);
    list.push_back(3);
    assert_eq!(list.len(), 3);
    assert_eq!(list.pop_front(), Some(1));
    assert_eq!(list.pop_back(), Some(3));
    assert_eq!(list.pop_back(), Some(2));
    assert_eq!(list.pop_back(), None);
    assert_eq!(list.pop_front(), None);
    assert!(list.is_empty());
}

#[test]
fn removing_the_sole_node_empties_both_ends() {
    let mut list = DoublyList::new();
    list.push_front(9u32);
    assert_eq!(list.peek_front(), Some(&9));
    assert_eq!(list.peek_back(), Some(&9));
    assert_eq!(list.pop_back(), Some(9));
    assert!(list.is_empty());
    assert_eq!(list.peek_front(), None);
    assert_eq!(list.peek_back(), None);
}

#[test]
fn peeks_and_mutable_peeks() {
    let mut list = DoublyList::new();
    assert_eq!(list.peek_front_mut(), None);
    assert_eq!(list.peek_back_mut(), None);

    list.push_back(1u32);
    list.push_back(2);
    list.push_back(3);
    assert_eq!(list.peek_front(), Some(&1));
    assert_eq!(list.peek_back(), Some(&3));

    if let Some(front) = list.peek_front_mut() {
        *front += 10;
    }
    if let Some(back) = list.peek_back_mut() {
        *back += 30;
    }
    assert_eq!(list.pop_front(), Some(11));
    assert_eq!(list.pop_back(), Some(33));
    assert_eq!(list.pop_front(), Some(2));
}

#[test]
fn iterator_yields_exactly_len_items_across_both_ends() {
    let list = DoublyList::from_vec(vec![1u32, 2, 3, 4, 5]);
    let mut iter = list.iter();
    assert_eq!(iter.len(), 5);

    let mut yielded = 0usize;
    loop {
        let from_front = yielded % 2 == 0;
        let got = if from_front { iter.next() } else { iter.next_back() };
        match got {
            Some(_) => yielded += 1,
            None => break,
        }
    }
    assert_eq!(yielded, 5);
    assert_eq!(iter.len(), 0);
    // the terminal state is fused: both ends keep reporting absence
    assert_eq!(iter.next(), None);
    assert_eq!(iter.next_back(), None);
    assert_eq!(iter.next(), None);
}

#[test]
fn round_trip_preserves_order() {
    let input = vec![3u32, 1, 4, 1, 5, 9, 2, 6];
    let list = DoublyList::from_vec(input.clone());
    assert_eq!(list.len(), input.len());

    let mut drained = Vec::new();
    let mut it = list.into_iter();
    while let Some(x) = it.next() {
        drained.push(x);
    }
    assert_eq!(drained, input);
}

#[test]
fn into_iter_consumes_from_both_ends() {
    let list = DoublyList::from_vec(vec![1u32, 2, 3, 4]);
    let mut it = list.into_iter();
    assert_eq!(it.len(), 4);
    assert_eq!(it.next(), Some(1));
    assert_eq!(it.next_back(), Some(4));
    assert_eq!(it.next_back(), Some(3));
    assert_eq!(it.next(), Some(2));
    assert_eq!(it.next(), None);
    assert_eq!(it.next_back(), None);
}

#[test]
fn duplicate_rebuilds_an_independent_chain() {
    let mut list = DoublyList::from_vec(vec![1u32, 2, 3]);
    let copy = list.duplicate();

    // mutating the original leaves the copy untouched
    list.push_back(4);
    list.pop_front();

    let mut drained = Vec::new();
    let mut it = copy.into_iter();
    while let Some(x) = it.next() {
        drained.push(x);
    }
    assert_eq!(drained, vec![1, 2, 3]);
    assert_eq!(list.len(), 3);
}

#[test]
fn node_round_trip() {
    let node = Node::boxed(42u32);
    assert_eq!(node.into_item(), 42);

    let plain = Node::new(7u32);
    let mut list = DoublyList::new();
    list.push_back_node(Box::new(plain));
    let back = list.pop_back_node().expect("one node was pushed");
    assert_eq!(back.into_item(), 7);
}

/// A payload that counts how many times it is released.
struct Counted {
    hits: Rc<Cell<usize>>,
}

impl Drop for Counted {
    fn drop(&mut self) {
        self.hits.set(self.hits.get() + 1);
    }
}

#[test]
fn dropping_a_doubly_list_releases_each_node_once() {
    let hits = Rc::new(Cell::new(0usize));
    let n = 100usize;
    let mut list = DoublyList::new();
    for _ in 0..n {
        list.push_back(Counted { hits: Rc::clone(&hits) });
    }
    assert_eq!(hits.get(), 0);
    drop(list);
    assert_eq!(hits.get(), n);
}

#[test]
fn clear_releases_each_doubly_node_once() {
    let hits = Rc::new(Cell::new(0usize));
    let n = 25usize;
    let mut list = DoublyList::new();
    for _ in 0..n {
        list.push_front(Counted { hits: Rc::clone(&hits) });
    }
    list.clear();
    assert_eq!(hits.get(), n);
    assert!(list.is_empty());
    drop(list);
    assert_eq!(hits.get(), n);
}
