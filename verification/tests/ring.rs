use std::cell::Cell;
use std::rc::Rc;

use selectables::internals::BoundedRing;

#[test]
fn ring_basic_push_pop() {
    let mut ring = BoundedRing::new(4);
    assert!(ring.is_empty());
    assert!(!ring.is_full());

    ring.try_push(1u32).unwrap();
    ring.try_push(2).unwrap();
    assert!(!ring.is_empty());
    assert!(!ring.is_full());

    assert_eq!(ring.try_pop(), Some(1));
    assert_eq!(ring.try_pop(), Some(2));
    assert_eq!(ring.try_pop(), None);
    assert!(ring.is_empty());
}

#[test]
fn ring_zero_capacity() {
    let mut ring = BoundedRing::<i32>::new(0);
    assert!(ring.is_empty());
    assert!(ring.is_full());
    assert!(ring.try_push(1).is_err());
    assert_eq!(ring.try_pop(), None);
}

#[test]
fn ring_full_rejects_push() {
    let mut ring = BoundedRing::new(2);
    ring.try_push(10u32).unwrap();
    ring.try_push(20).unwrap();
    assert!(ring.is_full());
    assert!(ring.try_push(30).is_err());
    // After pop there is space again.
    assert_eq!(ring.try_pop(), Some(10));
    assert!(!ring.is_full());
    ring.try_push(30).unwrap();
}

#[test]
fn ring_fifo_ordering() {
    let mut ring = BoundedRing::new(8);
    for i in 0u32..8 {
        ring.try_push(i).unwrap();
    }
    for i in 0u32..8 {
        assert_eq!(ring.try_pop(), Some(i));
    }
}

#[test]
fn ring_wrap_around() {
    // Fill, drain, fill again to exercise index wrapping.
    let mut ring = BoundedRing::new(4);
    for i in 0u32..4 {
        ring.try_push(i).unwrap();
    }
    for i in 0u32..4 {
        assert_eq!(ring.try_pop(), Some(i));
    }
    // Second fill/drain cycle.
    for i in 4u32..8 {
        ring.try_push(i).unwrap();
    }
    for i in 4u32..8 {
        assert_eq!(ring.try_pop(), Some(i));
    }
    assert!(ring.is_empty());
}

#[test]
fn ring_is_full_capacity_one() {
    let mut ring = BoundedRing::new(1);
    assert!(!ring.is_full());
    ring.try_push(42u32).unwrap();
    assert!(ring.is_full());
    assert_eq!(ring.try_pop(), Some(42));
    assert!(!ring.is_full());
    // Can push again after drain.
    ring.try_push(99).unwrap();
    assert!(ring.is_full());
}

#[test]
fn ring_drop_runs_for_buffered_items() {
    #[derive(Debug)]
    struct Guard(Rc<Cell<usize>>);
    impl Drop for Guard {
        fn drop(&mut self) {
            self.0.set(self.0.get() + 1);
        }
    }

    let counter = Rc::new(Cell::new(0));
    {
        let mut ring = BoundedRing::new(4);
        ring.try_push(Guard(Rc::clone(&counter))).unwrap();
        ring.try_push(Guard(Rc::clone(&counter))).unwrap();
        // Drop ring without consuming items.
    }
    assert_eq!(counter.get(), 2);
}

#[test]
fn ring_keeps_order_across_the_seam() {
    let mut ring = BoundedRing::new(3);
    ring.try_push(1u32).unwrap();
    ring.try_push(2).unwrap();
    assert_eq!(ring.try_pop(), Some(1));
    ring.try_push(3).unwrap();
    ring.try_push(4).unwrap();
    assert_eq!(ring.try_push(5), Err(5));
    assert_eq!(ring.try_pop(), Some(2));
    assert_eq!(ring.try_pop(), Some(3));
    assert_eq!(ring.try_pop(), Some(4));
    assert_eq!(ring.try_pop(), None);
}

#[test]
fn ring_of_one_refuses_a_second_value() {
    let mut ring = BoundedRing::new(1);
    ring.try_push(1u32).unwrap();
    assert_eq!(ring.try_push(2), Err(2));
    assert_eq!(ring.try_pop(), Some(1));
    assert_eq!(ring.try_pop(), None);
}
