use binheap::{Asc, BinHeap, Desc, Strategy};
use std::cell::{Cell, RefCell};
use std::cmp::Ordering;
use std::rc::Rc;

/// Pops until the heap is empty.
fn drain<T, S: Strategy<T>>(heap: &mut BinHeap<T, S>) -> Vec<T> {
    let mut out = Vec::new();
    while let Some(x) = heap.pop() {
        out.push(x);
    }
    out
}

/// `n` different values in an order that is neither rising nor falling.
fn scrambled(n: u64) -> Vec<u64> {
    let mut v: Vec<u64> = (0..n).collect();
    let mut state: u64 = 0x2545_f491_4f6c_dd1d;
    let mut i = v.len();
    while i > 1 {
        state ^= state << 13;
        state ^= state >> 7;
        state ^= state << 17;
        let j = (state % (i as u64)) as usize;
        i -= 1;
        v.swap(i, j);
    }
    v
}

#[test]
fn ascending_without_ties() {
    let mut heap = BinHeap::new();
    heap.push(3);
    heap.push(5);
    heap.push(8);
    heap.push(10);
    assert_eq!(heap.min(), Some(&3));
    assert_eq!(heap.pop(), Some(3));
    assert_eq!(heap.pop(), Some(5));
    assert_eq!(heap.pop(), Some(8));
    assert_eq!(heap.pop(), Some(10));
    assert_eq!(heap.pop(), None);
}

#[test]
fn ascending_strategy_given() {
    let mut heap = BinHeap::with_strategy(Asc);
    heap.push(3);
    heap.push(5);
    heap.push(8);
    heap.push(10);
    assert_eq!(heap.min(), Some(&3));
    assert_eq!(drain(&mut heap), vec![3, 5, 8, 10]);
    assert_eq!(heap.pop(), None);
}

#[test]
fn descending_pairs() {
    let mut heap = BinHeap::with_strategy(Desc);
    heap.push((3, 'b'));
    heap.push((3, 'a'));
    heap.push((8, 'x'));
    heap.push((10, 'z'));
    assert_eq!(heap.min(), Some(&(10, 'z')));
    assert_eq!(heap.pop(), Some((10, 'z')));
    assert_eq!(heap.pop(), Some((8, 'x')));
    let third = heap.pop();
    let fourth = heap.pop();
    assert!(
        (third == Some((3, 'b')) && fourth == Some((3, 'a')))
            || (third == Some((3, 'a')) && fourth == Some((3, 'b')))
    );
    assert_eq!(heap.pop(), None);
}

#[test]
fn descending_pairs_come_in_reversed_natural_order() {
    let mut heap = BinHeap::with_strategy(Desc);
    heap.push((3, 'b'));
    heap.push((3, 'a'));
    heap.push((8, 'x'));
    heap.push((10, 'z'));
    assert_eq!(drain(&mut heap), vec![(10, 'z'), (8, 'x'), (3, 'b'), (3, 'a')]);
}

#[test]
fn empty_heap() {
    let mut heap: BinHeap<i32> = BinHeap::new();
    assert_eq!(heap.pop(), None);
    assert_eq!(heap.min(), None);
    assert_eq!(heap.len(), 0);
    assert!(heap.is_empty());
}

#[test]
fn single_element() {
    let mut heap = BinHeap::new();
    heap.push(42);
    assert_eq!(heap.min(), Some(&42));
    assert_eq!(heap.pop(), Some(42));
    assert_eq!(heap.pop(), None);
}

#[test]
fn pops_smallest_first() {
    let mut queue = BinHeap::new();
    queue.push(3);
    queue.push(1);
    queue.push(7);
    assert_eq!(queue.pop(), Some(1));
    assert_eq!(queue.pop(), Some(3));
    assert_eq!(queue.pop(), Some(7));
    assert_eq!(queue.pop(), None);
}

struct Task(i32, Box<dyn Fn()>);

impl PartialEq for Task {
    fn eq(&self, other: &Self) -> bool {
        self.0 == other.0
    }
}

impl Eq for Task {}

impl PartialOrd for Task {
    fn partial_cmp(&self, other: &Self) -> Option<Ordering> {
        self.0.partial_cmp(&other.0)
    }
}

impl Ord for Task {
    fn cmp(&self, other: &Self) -> Ordering {
        self.partial_cmp(other).unwrap()
    }
}

#[test]
fn tasks_run_by_priority() {
    let log: Rc<RefCell<Vec<&'static str>>> = Rc::new(RefCell::new(Vec::new()));
    let mut heap = BinHeap::new();
    let l = log.clone();
    heap.push(Task(3, Box::new(move || l.borrow_mut().push("Should be done eventually"))));
    let l = log.clone();
    heap.push(Task(1, Box::new(move || l.borrow_mut().push("Top priority!"))));
    let l = log.clone();
    heap.push(Task(2, Box::new(move || l.borrow_mut().push("It's important."))));
    while let Some(Task(_, task)) = heap.pop() {
        (task)();
    }
    assert_eq!(
        *log.borrow(),
        vec!["Top priority!", "It's important.", "Should be done eventually"]
    );
}

#[test]
fn size_follows_pushes_and_pops() {
    let mut heap = BinHeap::new();
    let items = scrambled(20);
    for (k, x) in items.iter().enumerate() {
        assert_eq!(heap.len(), k);
        heap.push(*x);
    }
    assert_eq!(heap.len(), 20);
    assert!(!heap.is_empty());
    for j in 1..=20 {
        assert!(heap.pop().is_some());
        assert_eq!(heap.len(), 20 - j);
    }
    assert!(heap.is_empty());
    assert_eq!(heap.pop(), None);
    assert_eq!(heap.len(), 0);
    assert_eq!(heap.pop(), None);
    assert_eq!(heap.len(), 0);
}

#[test]
fn min_is_what_pop_hands_out() {
    let mut heap = BinHeap::new();
    for x in scrambled(33) {
        heap.push(x);
        let seen = heap.min().copied();
        let size = heap.len();
        assert_eq!(heap.min().copied(), seen);
        assert_eq!(heap.len(), size);
    }
    while !heap.is_empty() {
        let size = heap.len();
        let seen = heap.min().copied();
        assert_eq!(heap.len(), size);
        assert_eq!(heap.pop(), seen);
    }
    assert_eq!(heap.min(), None);
    assert_eq!(heap.pop(), None);
}

#[test]
fn sorts_a_permutation() {
    for n in [0u64, 1, 2, 3, 4, 5, 7, 8, 16, 31, 100] {
        let items = scrambled(n);
        let mut heap = BinHeap::new();
        for x in &items {
            heap.push(*x);
        }
        let expected: Vec<u64> = (0..n).collect();
        assert_eq!(drain(&mut heap), expected);
    }
}

#[test]
fn sorts_a_permutation_in_reverse() {
    for n in [0u64, 1, 2, 3, 4, 5, 7, 8, 16, 31, 100] {
        let items = scrambled(n);
        let mut heap = BinHeap::with_strategy(Desc);
        for x in &items {
            heap.push(*x);
        }
        let expected: Vec<u64> = (0..n).rev().collect();
        assert_eq!(drain(&mut heap), expected);
    }
}

#[test]
fn push_order_does_not_show() {
    let rising: Vec<u64> = (0..50).collect();
    let falling: Vec<u64> = (0..50).rev().collect();
    let mixed = scrambled(50);
    let mut outs = Vec::new();
    for items in [rising.clone(), falling, mixed] {
        let mut heap = BinHeap::new();
        for x in items {
            heap.push(x);
        }
        outs.push(drain(&mut heap));
    }
    assert_eq!(outs[0], rising);
    assert_eq!(outs[1], rising);
    assert_eq!(outs[2], rising);
}

#[test]
fn parent_of_a_position_is_half_of_one_less() {
    // With the parent of position 4 taken to be position 2, the 4 pushed
    // here would come out after the 5.
    let mut heap = BinHeap::new();
    for x in [1, 7, 4, 2, 8, 5, 3, 10, 6, 9] {
        heap.push(x);
    }
    assert_eq!(drain(&mut heap), vec![1, 2, 3, 4, 5, 6, 7, 8, 9, 10]);
}

#[test]
fn repeated_values_all_come_out() {
    let mut heap = BinHeap::new();
    for x in [4, 1, 4, 2, 1, 1, 3, 4, 2, 0, 0, 4] {
        heap.push(x);
    }
    assert_eq!(drain(&mut heap), vec![0, 0, 1, 1, 1, 2, 2, 3, 4, 4, 4, 4]);
}

#[test]
fn pushes_and_pops_in_turn() {
    let mut heap = BinHeap::new();
    let mut model: Vec<u64> = Vec::new();
    let items = scrambled(200);
    for (i, x) in items.iter().enumerate() {
        heap.push(*x % 37);
        model.push(*x % 37);
        if i % 3 == 2 {
            model.sort();
            let least = model.remove(0);
            assert_eq!(heap.min(), Some(&least));
            assert_eq!(heap.pop(), Some(least));
        }
        assert_eq!(heap.len(), model.len());
    }
    model.sort();
    assert_eq!(drain(&mut heap), model);
}

/// Ranks pairs by their number alone, so that pairs tie.
struct ByNumber;

impl Strategy<(u32, char)> for ByNumber {
    fn precedes(&self, a: &(u32, char), b: &(u32, char)) -> bool {
        a.0 <= b.0
    }
}

#[test]
fn a_tie_moves_past_its_parent() {
    let mut heap = BinHeap::with_strategy(ByNumber);
    heap.push((1, 'a'));
    heap.push((1, 'b'));
    assert_eq!(heap.min(), Some(&(1, 'b')));
    assert_eq!(heap.pop(), Some((1, 'b')));
    assert_eq!(heap.pop(), Some((1, 'a')));
    assert_eq!(heap.pop(), None);
}

#[test]
fn ties_on_the_way_down() {
    let mut heap = BinHeap::with_strategy(ByNumber);
    heap.push((1, 'a'));
    heap.push((2, 'b'));
    heap.push((2, 'c'));
    heap.push((2, 'd'));
    assert_eq!(drain(&mut heap), vec![(1, 'a'), (2, 'd'), (2, 'b'), (2, 'c')]);
}

#[test]
fn a_strategy_of_ones_own() {
    let mut heap = BinHeap::with_strategy(ByNumber);
    for (n, c) in [(5, 'e'), (2, 'b'), (9, 'i'), (1, 'a'), (7, 'g')] {
        heap.push((n, c));
    }
    assert_eq!(heap.len(), 5);
    assert_eq!(
        drain(&mut heap),
        vec![(1, 'a'), (2, 'b'), (5, 'e'), (7, 'g'), (9, 'i')]
    );
}

#[test]
fn heap_shows_its_elements_when_printed() {
    let mut heap = BinHeap::new();
    heap.push(2);
    heap.push(1);
    let text = format!("{:?}", heap);
    assert!(text.contains("BinHeap"));
    assert!(text.contains("[1, 2]"));
}

#[test]
fn ascending_ranks_by_natural_order() {
    assert!(Asc.precedes(&1, &2));
    assert!(Asc.precedes(&2, &2));
    assert!(!Asc.precedes(&3, &2));
    assert!(Asc.precedes(&(3, 'a'), &(3, 'b')));
    assert!(!Asc.precedes(&(3, 'b'), &(3, 'a')));
}

#[test]
fn descending_ranks_by_reversed_natural_order() {
    assert!(!Desc.precedes(&1, &2));
    assert!(Desc.precedes(&2, &2));
    assert!(Desc.precedes(&3, &2));
    assert!(!Desc.precedes(&(3, 'a'), &(3, 'b')));
    assert!(Desc.precedes(&(3, 'b'), &(3, 'a')));
}

/// Answers yes and no in turn, whatever it is asked.
struct Fickle(Cell<bool>);

impl Strategy<u32> for Fickle {
    fn precedes(&self, _a: &u32, _b: &u32) -> bool {
        let answer = self.0.get();
        self.0.set(!answer);
        answer
    }
}

#[test]
fn a_strategy_without_order_loses_nothing() {
    let mut heap = BinHeap::with_strategy(Fickle(Cell::new(true)));
    let items: Vec<u32> = scrambled(40).into_iter().map(|x| (x % 11) as u32).collect();
    for (k, x) in items.iter().enumerate() {
        heap.push(*x);
        assert_eq!(heap.len(), k + 1);
    }
    let mut out = drain(&mut heap);
    assert_eq!(heap.len(), 0);
    assert_eq!(heap.pop(), None);
    let mut expected = items.clone();
    out.sort();
    expected.sort();
    assert_eq!(out, expected);
}

/// Answers no, whatever it is asked.
struct Never;

impl Strategy<u32> for Never {
    fn precedes(&self, _a: &u32, _b: &u32) -> bool {
        false
    }
}

#[test]
fn a_strategy_that_always_refuses_moves_nothing() {
    let mut heap = BinHeap::with_strategy(Never);
    for x in [3, 1, 2] {
        heap.push(x);
    }
    assert_eq!(heap.min(), Some(&3));
    assert_eq!(drain(&mut heap), vec![3, 2, 1]);
}
