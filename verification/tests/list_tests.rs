use std::cell::Cell;
use std::rc::Rc;

use lists::list::{List, Node};

#[test]
fn test_split() {
    // 4 3 2 1
    let mut list = List::from_vec(vec![0u32, 1, 2, 3, 4]);

    let mut splitted = list.split_after(|x: &u32| *x == 3).unwrap();

    assert_eq!(splitted.pop(), Some(2));
}

#[test]
fn test_unsized_elements() {
    let mut list = List::new();

    for n in 0..5u32 {
        let node: Box<Node<Vec<u32>>> = Node::boxed(vec![n * 10, n * 20, n * 30, n * 50]);
        list.push_node(node);
    }

    assert_eq!(list.peek(), Some(&vec![40, 80, 120, 200]));
}

#[test]
fn lifo_push_pop() {
    let mut list = List::new();
    list.push("a");
    list.push("b");
    list.push("c");

    assert_eq!(list.pop(), Some("c"));
    assert_eq!(list.pop(), Some("b"));
    assert_eq!(list.pop(), Some("a"));
    assert_eq!(list.pop(), None);
    assert_eq!(list.pop(), None);
}

#[test]
fn peek_and_peek_mut() {
    let mut list = List::new();
    assert_eq!(list.peek(), None);
    assert_eq!(list.peek_mut(), None);

    list.push(10);
    assert_eq!(list.peek(), Some(&10));

    if let Some(elem) = list.peek_mut() {
        *elem += 20;
    }
    assert_eq!(list.pop(), Some(30));
    assert_eq!(list.is_empty(), true);
}

#[test]
fn split_after_no_match_leaves_list_unchanged() {
    let mut list = List::from_vec(vec![1u32, 2, 3, 4, 5]);
    // head-to-tail order is 5 4 3 2 1
    let r = list.split_after(|x: &u32| *x == 99);
    assert!(r.is_none());

    let mut drained = Vec::new();
    let mut it = list.into_iter();
    while let Some(x) = it.next() {
        drained.push(x);
    }
    assert_eq!(drained, vec![5, 4, 3, 2, 1]);
}

#[test]
fn split_after_match_on_last_yields_empty_list() {
    let mut list = List::new();
    list.push(1u32);
    list.push(2);
    list.push(3);
    // head-to-tail order is 3 2 1; the last element is 1
    let rest = list.split_after(|x: &u32| *x == 1);
    let mut rest = rest.expect("a match must produce a list");
    assert!(rest.is_empty());
    assert_eq!(rest.pop(), None);

    assert_eq!(list.pop(), Some(3));
    assert_eq!(list.pop(), Some(2));
    assert_eq!(list.pop(), Some(1));
    assert_eq!(list.pop(), None);
}

#[test]
fn split_after_empty_list_is_absent() {
    let mut list: List<u32> = List::new();
    assert!(list.split_after(|_x: &u32| true).is_none());
    assert!(list.is_empty());
}

#[test]
fn iter_yields_in_head_to_tail_order() {
    let mut list = List::new();
    list.push(1u32);
    list.push(2);
    list.push(3);

    let mut iter = list.iter();
    assert_eq!(iter.peek(), Some(&3));
    assert_eq!(iter.next(), Some(&3));
    assert_eq!(iter.next(), Some(&2));
    assert_eq!(iter.peek(), Some(&1));
    assert_eq!(iter.next(), Some(&1));
    assert_eq!(iter.peek(), None);
    assert_eq!(iter.next(), None);
    assert_eq!(iter.next(), None);
}

#[test]
fn round_trip_reverses_push_built_list() {
    let input = vec![1u32, 2, 3, 4];
    let mut drained = Vec::new();
    let mut it = List::from_vec(input.clone()).into_iter();
    while let Some(x) = it.next() {
        drained.push(x);
    }
    // the push-based bulk constructor reverses the input order
    let reversed: Vec<u32> = input.into_iter().rev().collect();
    assert_eq!(drained, reversed);
}

#[test]
fn node_accessors() {
    let node = Node::new(7u32);
    let boxed: Box<Node<u32>> = Node::boxed(7u32);
    let mut list = List::new();
    list.push_node(boxed);
    assert_eq!(list.peek(), Some(&7));
    let popped = list.pop_node().expect("one node was pushed");
    drop(popped);
    drop(node);
    assert!(list.pop_node().is_none());
}

/// A payload that counts how many times it is released.
struct Counted {
    hits: Rc<Cell<usize>>,
}

impl Drop for Counted {
    fn drop(&mut self) {
        self.hits.set(self.hits.get() + 1);
    }
}

#[test]
fn dropping_a_list_releases_each_node_once() {
    let hits = Rc::new(Cell::new(0usize));
    let n = 100usize;
    let mut list = List::new();
    for _ in 0..n {
        list.push(Counted { hits: Rc::clone(&hits) });
    }
    assert_eq!(hits.get(), 0);
    drop(list);
    assert_eq!(hits.get(), n);
}

#[test]
fn clear_releases_each_node_once() {
    let hits = Rc::new(Cell::new(0usize));
    let n = 25usize;
    let mut list = List::new();
    for _ in 0..n {
        list.push(Counted { hits: Rc::clone(&hits) });
    }
    list.clear();
    assert_eq!(hits.get(), n);
    assert!(list.is_empty());
    drop(list);
    assert_eq!(hits.get(), n);
}
