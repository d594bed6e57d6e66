use myvec::MyVec;
use std::cell::Cell;
use std::rc::Rc;

fn filled(xs: &[i32]) -> MyVec<i32> {
    let mut v: MyVec<i32> = MyVec::new();
    for x in xs {
        v.push(*x);
    }
    v
}

#[test]
fn create_new_success() {
    let v: MyVec<i32> = MyVec::new();
    assert!(std::mem::size_of_val(&v) != 0);
}

#[test]
fn push() {
    let mut v: MyVec<i32> = MyVec::new();
    assert_eq!(v.len(), 0);
    v.push(1);
    assert_eq!(v.len(), 1);
    v.push(2);
    assert_eq!(v.len(), 2);
}

#[test]
fn pop() {
    let mut v: MyVec<i32> = MyVec::new();
    v.push(1);
    v.push(2);
    assert_eq!(v.pop(), Some(2));
    assert_eq!(v.pop(), Some(1));
    assert_eq!(v.pop(), None);
}

#[test]
fn deref_to_slice_inbound() {
    let mut v: MyVec<i32> = MyVec::new();
    v.push(1);
    v.push(2);
    v.push(3);
    assert_eq!(*v.index(2), 3);
}

#[test]
#[should_panic]
fn deref_to_slice_outbound() {
    let mut v: MyVec<i32> = MyVec::new();
    v.push(1);
    v.push(2);
    assert_eq!(*v.index(2), 3);
}

#[test]
fn deref_mut_inbound() {
    let mut v: MyVec<i32> = MyVec::new();
    v.push(1);
    v.push(2);
    v.push(3);
    v.set(1, 4);
    assert_eq!(*v.index(2), 3);
}

#[test]
#[should_panic]
fn deref_mut_outbound() {
    let mut v: MyVec<i32> = MyVec::new();
    v.push(1);
    v.push(2);
    v.push(3);
    v.set(4, 4);
}

#[test]
fn test_insert() {
    let mut v: MyVec<i32> = MyVec::new();
    v.push(1);
    v.push(2);
    v.push(3);
    v.insert(2, 9);
    assert_eq!(*v.index(3), 3);
    assert_eq!(*v.index(2), 9);
    assert_eq!(v.len(), 4);
}

#[test]
fn test_remove_success() {
    let mut v: MyVec<i32> = MyVec::new();
    v.push(1);
    v.push(2);
    assert_eq!(v.remove(0), 1);
    assert_eq!(v.len(), 1);
    assert_eq!(*v.index(0), 2);
}

#[should_panic]
#[test]
fn test_remove_fail() {
    let mut v: MyVec<i32> = MyVec::new();
    v.push(1);
    v.push(2);
    v.remove(2);
}

#[test]
fn test_into_iter() {
    let mut v: MyVec<i32> = MyVec::new();
    v.push(1);
    v.push(2);
    v.push(3);
    v.push(4);
    v.push(5);
    let mut it = v.into_iter();
    assert_eq!(it.next(), Some(1));
    assert_eq!(it.next(), Some(2));
    assert_eq!(it.next_back(), Some(5));
    assert_eq!(it.next_back(), Some(4));
    assert_eq!(it.next(), Some(3));
    assert_eq!(it.next(), None);
    assert_eq!(it.next_back(), None);
}

#[test]
fn pops_come_in_reverse_order_of_pushes() {
    let xs: Vec<i32> = (0..37).map(|i| i * 3 - 50).collect();
    let mut v = filled(&xs);
    for x in xs.iter().rev() {
        assert_eq!(v.pop(), Some(*x));
    }
    assert_eq!(v.pop(), None);
    assert!(v.is_empty());
}

#[test]
fn pop_on_new_sequence_gives_nothing() {
    let mut v: MyVec<i32> = MyVec::new();
    assert_eq!(v.pop(), None);
    assert_eq!(v.len(), 0);
    assert_eq!(v.capacity(), 0);
}

#[test]
fn capacity_doubles_from_one() {
    let mut v: MyVec<i32> = MyVec::new();
    let mut seen: Vec<usize> = Vec::new();
    for i in 0..9 {
        v.push(i);
        seen.push(v.capacity());
    }
    assert_eq!(seen, vec![1, 2, 4, 4, 8, 8, 8, 8, 16]);
}

#[test]
fn growth_keeps_insertion_order() {
    let xs: Vec<i32> = (0..100).map(|i| 7 * i + 1).collect();
    let v = filled(&xs);
    assert_eq!(v.len(), 100);
    for (i, x) in xs.iter().enumerate() {
        assert_eq!(*v.index(i), *x);
    }
}

#[test]
fn insert_puts_value_at_index_and_shifts_up() {
    let mut v = filled(&[10, 20, 30, 40]);
    v.insert(1, 99);
    assert_eq!(v.len(), 5);
    assert_eq!(*v.index(1), 99);
    assert_eq!(*v.index(2), 20);
    let got: Vec<i32> = (0..v.len()).map(|i| *v.index(i)).collect();
    assert_eq!(got, vec![10, 99, 20, 30, 40]);
}

#[test]
fn insert_at_front_and_at_end() {
    let mut v = filled(&[2, 3]);
    v.insert(0, 1);
    v.insert(3, 4);
    let got: Vec<i32> = (0..v.len()).map(|i| *v.index(i)).collect();
    assert_eq!(got, vec![1, 2, 3, 4]);
}

#[test]
fn insert_into_empty_sequence() {
    let mut v: MyVec<i32> = MyVec::new();
    v.insert(0, 5);
    assert_eq!(v.len(), 1);
    assert_eq!(*v.index(0), 5);
    assert_eq!(v.capacity(), 1);
}

#[test]
fn remove_returns_value_and_shifts_down() {
    let mut v = filled(&[1, 2, 3, 4, 5]);
    assert_eq!(v.remove(2), 3);
    assert_eq!(v.len(), 4);
    let got: Vec<i32> = (0..v.len()).map(|i| *v.index(i)).collect();
    assert_eq!(got, vec![1, 2, 4, 5]);
    assert_eq!(v.remove(3), 5);
    assert_eq!(v.capacity(), 8);
}

#[test]
fn set_overwrites_one_element() {
    let mut v = filled(&[1, 2, 3]);
    v.set(0, 7);
    let got: Vec<i32> = (0..v.len()).map(|i| *v.index(i)).collect();
    assert_eq!(got, vec![7, 2, 3]);
}

#[test]
fn into_iter_of_empty_sequence_is_exhausted() {
    let v: MyVec<i32> = MyVec::new();
    let mut it = v.into_iter();
    assert_eq!(it.len(), 0);
    assert_eq!(it.next(), None);
    assert_eq!(it.next_back(), None);
}

#[test]
fn into_iter_from_back_only() {
    let v = filled(&[1, 2, 3]);
    let mut it = v.into_iter();
    assert_eq!(it.len(), 3);
    assert_eq!(it.next_back(), Some(3));
    assert_eq!(it.next_back(), Some(2));
    assert_eq!(it.len(), 1);
    assert_eq!(it.next_back(), Some(1));
    assert_eq!(it.next(), None);
}

struct Counted {
    drops: Rc<Cell<usize>>,
}

impl Drop for Counted {
    fn drop(&mut self) {
        self.drops.set(self.drops.get() + 1);
    }
}

#[test]
fn dropping_partial_traversal_destroys_each_element_once() {
    let drops = Rc::new(Cell::new(0usize));
    let mut v: MyVec<Counted> = MyVec::new();
    for _ in 0..6 {
        v.push(Counted { drops: drops.clone() });
    }
    let mut it = v.into_iter();
    let a = it.next();
    let b = it.next_back();
    assert_eq!(drops.get(), 0);
    drop(a);
    drop(b);
    assert_eq!(drops.get(), 2);
    drop(it);
    assert_eq!(drops.get(), 6);
}

#[test]
fn dropping_sequence_destroys_each_element_once() {
    let drops = Rc::new(Cell::new(0usize));
    let mut v: MyVec<Counted> = MyVec::new();
    for _ in 0..5 {
        v.push(Counted { drops: drops.clone() });
    }
    let taken = v.remove(1);
    assert_eq!(drops.get(), 0);
    drop(v);
    assert_eq!(drops.get(), 4);
    drop(taken);
    assert_eq!(drops.get(), 5);
}

#[test]
fn mixed_end_traversal_hands_out_each_element_once() {
    let v = filled(&[1, 2, 3, 4, 5, 6]);
    let mut it = v.into_iter();
    let mut got: Vec<i32> = Vec::new();
    let mut front = true;
    while it.len() > 0 {
        let x = if front { it.next() } else { it.next_back() };
        got.push(x.unwrap());
        front = !front;
    }
    assert_eq!(got, vec![1, 6, 2, 5, 3, 4]);
    assert_eq!(it.next(), None);
}
