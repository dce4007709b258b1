use std::cell::Cell;
use std::collections::hash_map::DefaultHasher;
use std::hash::{Hash, Hasher};
use std::rc::Rc;

use heapless::Vec;

struct Droppable {
    live: Rc<Cell<i32>>,
}

impl Droppable {
    fn new(live: &Rc<Cell<i32>>) -> Self {
        live.set(live.get() + 1);
        Droppable { live: live.clone() }
    }
}

impl Drop for Droppable {
    fn drop(&mut self) {
        self.live.set(self.live.get() - 1);
    }
}

#[test]
fn static_new() {
    let _v: Vec<i32, 4> = Vec::new();
}

#[test]
fn drop() {
    let count = Rc::new(Cell::new(0));

    {
        let mut v: Vec<Droppable, 2> = Vec::new();
        v.push(Droppable::new(&count)).ok().unwrap();
        v.push(Droppable::new(&count)).ok().unwrap();
        v.pop().unwrap();
    }

    assert_eq!(count.get(), 0);

    {
        let mut v: Vec<Droppable, 2> = Vec::new();
        v.push(Droppable::new(&count)).ok().unwrap();
        v.push(Droppable::new(&count)).ok().unwrap();
    }

    assert_eq!(count.get(), 0);
}

#[test]
fn eq() {
    let mut xs: Vec<i32, 4> = Vec::new();
    let mut ys: Vec<i32, 8> = Vec::new();

    assert_eq!(xs, ys);

    xs.push(1).unwrap();
    ys.push(1).unwrap();

    assert_eq!(xs, ys);
}

#[test]
fn ne_on_length_or_element() {
    let xs = Vec::<i32, 4>::from_slice(&[1, 2]).unwrap();
    let ys = Vec::<i32, 4>::from_slice(&[1, 3]).unwrap();
    let zs = Vec::<i32, 8>::from_slice(&[1, 2, 3]).unwrap();
    assert_ne!(xs, ys);
    assert_ne!(xs, zs);
}

#[test]
fn full() {
    let mut v: Vec<i32, 4> = Vec::new();

    v.push(0).unwrap();
    v.push(1).unwrap();
    v.push(2).unwrap();
    v.push(3).unwrap();

    assert!(v.push(4).is_err());
}

#[test]
fn iter() {
    let mut v: Vec<i32, 4> = Vec::new();

    v.push(0).unwrap();
    v.push(1).unwrap();
    v.push(2).unwrap();
    v.push(3).unwrap();

    let mut items = v.iter();

    assert_eq!(items.next(), Some(&0));
    assert_eq!(items.next(), Some(&1));
    assert_eq!(items.next(), Some(&2));
    assert_eq!(items.next(), Some(&3));
    assert_eq!(items.next(), None);
}

#[test]
fn iter_mut() {
    let mut v: Vec<i32, 4> = Vec::new();

    v.push(0).unwrap();
    v.push(1).unwrap();
    v.push(2).unwrap();
    v.push(3).unwrap();

    let mut items = v.iter_mut();

    assert_eq!(items.next(), Some(&mut 0));
    assert_eq!(items.next(), Some(&mut 1));
    assert_eq!(items.next(), Some(&mut 2));
    assert_eq!(items.next(), Some(&mut 3));
    assert_eq!(items.next(), None);
}

#[test]
fn collect_from_iter() {
    let slice = &[1, 2, 3];
    let vec = Vec::<_, 4>::from_slice(slice).unwrap();
    assert_eq!(vec.as_slice(), slice);
}

#[test]
fn iter_move() {
    let mut v: Vec<i32, 4> = Vec::new();
    v.push(0).unwrap();
    v.push(1).unwrap();
    v.push(2).unwrap();
    v.push(3).unwrap();

    let mut items = v.into_iter();

    assert_eq!(items.next(), Some(0));
    assert_eq!(items.next(), Some(1));
    assert_eq!(items.next(), Some(2));
    assert_eq!(items.next(), Some(3));
    assert_eq!(items.next(), None);
}

#[test]
fn iter_move_drop() {
    let count = Rc::new(Cell::new(0));

    {
        let mut vec: Vec<Droppable, 2> = Vec::new();
        vec.push(Droppable::new(&count)).ok().unwrap();
        vec.push(Droppable::new(&count)).ok().unwrap();
        let mut items = vec.into_iter();
        // Move all
        let _ = items.next();
        let _ = items.next();
    }

    assert_eq!(count.get(), 0);

    {
        let mut vec: Vec<Droppable, 2> = Vec::new();
        vec.push(Droppable::new(&count)).ok().unwrap();
        vec.push(Droppable::new(&count)).ok().unwrap();
        let _items = vec.into_iter();
        // Move none
    }

    assert_eq!(count.get(), 0);

    {
        let mut vec: Vec<Droppable, 2> = Vec::new();
        vec.push(Droppable::new(&count)).ok().unwrap();
        vec.push(Droppable::new(&count)).ok().unwrap();
        let mut items = vec.into_iter();
        let _ = items.next(); // Move partly
    }

    assert_eq!(count.get(), 0);
}

#[test]
fn push_and_pop() {
    let mut v: Vec<i32, 4> = Vec::new();
    assert_eq!(v.len(), 0);

    assert_eq!(v.pop(), None);
    assert_eq!(v.len(), 0);

    v.push(0).unwrap();
    assert_eq!(v.len(), 1);

    assert_eq!(v.pop(), Some(0));
    assert_eq!(v.len(), 0);

    assert_eq!(v.pop(), None);
    assert_eq!(v.len(), 0);
}

#[test]
fn resize_size_limit() {
    let mut v: Vec<u8, 4> = Vec::new();

    v.resize(0, 0).unwrap();
    v.resize(4, 0).unwrap();
    v.resize(5, 0).err().expect("full");
}

#[test]
fn resize_length_cases() {
    let mut v: Vec<u8, 4> = Vec::new();

    assert_eq!(v.len(), 0);

    // Grow by 1
    v.resize(1, 0).unwrap();
    assert_eq!(v.len(), 1);

    // Grow by 2
    v.resize(3, 0).unwrap();
    assert_eq!(v.len(), 3);

    // Resize to current size
    v.resize(3, 0).unwrap();
    assert_eq!(v.len(), 3);

    // Shrink by 1
    v.resize(2, 0).unwrap();
    assert_eq!(v.len(), 2);

    // Shrink by 2
    v.resize(0, 0).unwrap();
    assert_eq!(v.len(), 0);
}

#[test]
fn resize_contents() {
    let mut v: Vec<u8, 4> = Vec::new();

    // New entries take supplied value when growing
    v.resize(1, 17).unwrap();
    assert_eq!(v[0], 17);

    // Old values aren't changed when growing
    v.resize(2, 18).unwrap();
    assert_eq!(v[0], 17);
    assert_eq!(v[1], 18);

    // Old values aren't changed when length unchanged
    v.resize(2, 0).unwrap();
    assert_eq!(v[0], 17);
    assert_eq!(v[1], 18);

    // Old values aren't changed when shrinking
    v.resize(1, 0).unwrap();
    assert_eq!(v[0], 17);
}

#[test]
fn resize_default() {
    let mut v: Vec<u8, 4> = Vec::new();

    // resize_default is implemented using resize, so just check the
    // correct value is being written.
    v.resize_default(1).unwrap();
    assert_eq!(v[0], 0);
}

#[test]
fn capacity_and_fullness() {
    let mut v: Vec<u8, 2> = Vec::new();
    assert_eq!(v.capacity(), 2);
    assert!(v.is_empty());
    assert!(!v.is_full());
    v.push(1).unwrap();
    v.push(2).unwrap();
    assert!(v.is_full());
    assert_eq!(v.push(3), Err(3));
    assert_eq!(v.as_slice(), &[1, 2]);
}

#[test]
fn extend_from_slice_appends_or_refuses() {
    let mut v: Vec<u8, 8> = Vec::new();
    v.push(1).unwrap();
    v.extend_from_slice(&[2, 3, 4]).unwrap();
    assert_eq!(v.as_slice(), &[1, 2, 3, 4]);

    assert_eq!(v.extend_from_slice(&[5, 6, 7, 8, 9]), Err(()));
    assert_eq!(v.as_slice(), &[1, 2, 3, 4]);

    v.extend_from_slice(&[5, 6, 7, 8]).unwrap();
    assert!(v.is_full());
}

#[test]
fn from_slice_refuses_overflow() {
    assert!(Vec::<u8, 2>::from_slice(&[1, 2, 3]).is_err());
    let v = Vec::<u8, 3>::from_slice(&[1, 2, 3]).unwrap();
    assert_eq!(v.as_slice(), &[1, 2, 3]);
}

#[test]
fn extend_moves_items() {
    let mut v: Vec<String, 4> = Vec::new();
    v.push(String::from("a")).unwrap();
    v.extend(vec![String::from("b"), String::from("c")]);
    assert_eq!(v.as_slice(), &["a", "b", "c"]);
}

#[test]
fn swap_remove_moves_last() {
    let mut v: Vec<&str, 8> = Vec::new();
    v.push("foo").unwrap();
    v.push("bar").unwrap();
    v.push("baz").unwrap();
    v.push("qux").unwrap();

    assert_eq!(v.swap_remove(1), "bar");
    assert_eq!(v.as_slice(), &["foo", "qux", "baz"]);

    assert_eq!(v.swap_remove(0), "foo");
    assert_eq!(v.as_slice(), &["baz", "qux"]);
}

#[test]
fn truncate_and_clear() {
    let mut v = Vec::<u8, 4>::from_slice(&[1, 2, 3]).unwrap();
    v.truncate(5);
    assert_eq!(v.as_slice(), &[1, 2, 3]);
    v.truncate(1);
    assert_eq!(v.as_slice(), &[1]);
    v.clear();
    assert_eq!(v.len(), 0);
}

#[test]
fn index_writes_through() {
    let mut v = Vec::<i32, 4>::from_slice(&[1, 2]).unwrap();
    v[0] = 7;
    assert_eq!(v[0], 7);
    assert_eq!(v.len(), 2);
}

#[test]
fn hash_matches_slice() {
    let v = Vec::<u8, 4>::from_slice(&[1, 2, 3]).unwrap();
    let mut a = DefaultHasher::new();
    v.hash(&mut a);
    let mut b = DefaultHasher::new();
    [1u8, 2, 3][..].hash(&mut b);
    assert_eq!(a.finish(), b.finish());
}
