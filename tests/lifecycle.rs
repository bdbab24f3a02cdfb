use std::cell::Cell;
use std::rc::Rc;

use rocksdict::holder::DbReferenceHolder;

/// Counts how many times it is torn down.
struct Resource {
    teardowns: Rc<Cell<u32>>,
}

impl Drop for Resource {
    fn drop(&mut self) {
        self.teardowns.set(self.teardowns.get() + 1);
    }
}

fn resource() -> (Resource, Rc<Cell<u32>>) {
    let counter = Rc::new(Cell::new(0));
    (Resource { teardowns: counter.clone() }, counter)
}

#[test]
fn close_refuses_every_later_access() {
    let (r, _count) = resource();
    let mut holder = DbReferenceHolder::new(r);
    let h1 = holder.acquire().unwrap();
    let h2 = holder.acquire().unwrap();
    assert!(holder.get().is_some());
    assert!(holder.get_for(&h1).is_some());
    assert!(holder.close().is_none());
    assert!(holder.get().is_none());
    assert!(holder.get_for(&h1).is_none());
    assert!(holder.get_for(&h2).is_none());
    assert!(holder.acquire().is_none());
    assert!(holder.close().is_none());
}

#[test]
fn teardown_once_after_close_and_last_release() {
    let (r, count) = resource();
    let mut holder = DbReferenceHolder::new(r);
    let h1 = holder.acquire().unwrap();
    let h2 = holder.acquire().unwrap();
    assert!(holder.close().is_none());
    assert_eq!(count.get(), 0);
    assert!(holder.release(h1).is_none());
    assert_eq!(count.get(), 0);
    let last = holder.release(h2);
    assert!(last.is_some());
    drop(last);
    assert_eq!(count.get(), 1);
    assert!(holder.close().is_none());
    drop(holder);
    assert_eq!(count.get(), 1);
}

#[test]
fn teardown_once_without_close() {
    let (r, count) = resource();
    let mut holder = DbReferenceHolder::new(r);
    let h1 = holder.acquire().unwrap();
    let h2 = holder.acquire().unwrap();
    assert!(holder.release(h2).is_none());
    assert!(holder.release(h1).is_none());
    assert_eq!(count.get(), 0);
    drop(holder);
    assert_eq!(count.get(), 1);
}

#[test]
fn close_without_handles_hands_the_resource_out() {
    let (r, count) = resource();
    let mut holder = DbReferenceHolder::new(r);
    let out = holder.close();
    assert!(out.is_some());
    drop(out);
    assert_eq!(count.get(), 1);
    assert!(holder.close().is_none());
    drop(holder);
    assert_eq!(count.get(), 1);
}

#[test]
fn released_handle_is_refused() {
    let (r, _count) = resource();
    let mut holder = DbReferenceHolder::new(r);
    let h1 = holder.acquire().unwrap();
    let h2 = holder.acquire().unwrap();
    assert!(holder.is_live(&h1));
    assert!(holder.release(h1).is_none());
    assert!(holder.get_for(&h2).is_some());
    assert!(holder.get().is_some());
}

#[test]
fn many_handles_released_in_any_order_tear_down_once() {
    for order in [[0usize, 1, 2, 3], [3, 1, 0, 2], [2, 3, 1, 0]] {
        let (r, count) = resource();
        let mut holder = DbReferenceHolder::new(r);
        let mut handles: Vec<Option<_>> = (0..4).map(|_| holder.acquire()).collect();
        assert!(handles.iter().all(|h| h.is_some()));
        assert!(holder.close().is_none());
        let mut handed_out = 0;
        for (n, i) in order.iter().enumerate() {
            let out = holder.release(handles[*i].take().unwrap());
            assert_eq!(out.is_some(), n == 3);
            if out.is_some() {
                handed_out += 1;
            }
            drop(out);
        }
        assert_eq!(handed_out, 1);
        drop(holder);
        assert_eq!(count.get(), 1);
    }
}
