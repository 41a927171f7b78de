use objc_bridge::dispatch::{adopt, Convention};
use objc_bridge::handle::{Exclusive, Handle, Shared};
use objc_bridge::pool::AutoreleasePool;
use objc_bridge::range::{pair_count, NSRange};
use objc_bridge::runtime::{Runtime, NULL};

#[test]
fn create_counts_one_and_is_never_null() {
    let mut rt = Runtime::new();
    let first = rt.create(None);
    let second = rt.create(Some(5));
    assert_eq!(first, 1);
    assert_eq!(second, 2);
    assert_ne!(first, NULL);
    assert_eq!(rt.count(first), 1);
    assert_eq!(rt.count(second), 1);
    assert_eq!(rt.count(NULL), 0);
    assert_eq!(rt.count(3), 0);
    assert!(!rt.is_live(NULL));
}

#[test]
fn retain_and_release_return_and_count() {
    let mut rt = Runtime::new();
    let raw = rt.create(None);
    let other = rt.create(None);
    assert_eq!(rt.retain(raw), raw);
    assert_eq!(rt.count(raw), 2);
    assert_eq!(rt.count(other), 1);
    rt.release(raw);
    assert_eq!(rt.count(raw), 1);
    rt.release(raw);
    assert_eq!(rt.count(raw), 0);
    assert!(!rt.is_live(raw));
    assert!(rt.is_live(other));
}

#[test]
fn clone_and_drop_count_by_one() {
    let mut rt = Runtime::new();
    let first: Handle<Shared> = Handle::wrap_shared(rt.create(None));
    let raw = first.as_raw();
    let second = first.clone(&mut rt);
    assert_eq!(second.as_raw(), raw);
    assert_eq!(rt.count(raw), 2);
    let third = second.clone(&mut rt);
    assert_eq!(rt.count(raw), 3);
    first.release(&mut rt);
    assert_eq!(rt.count(raw), 2);
    third.release(&mut rt);
    assert_eq!(rt.count(raw), 1);
    assert!(rt.is_live(raw));
    assert_eq!(rt.deallocations(), 0);
    second.release(&mut rt);
    assert_eq!(rt.count(raw), 0);
    assert!(!rt.is_live(raw));
    assert_eq!(rt.deallocations(), 1);
}

#[test]
fn deallocations_count_each_object_once() {
    let mut rt = Runtime::new();
    assert_eq!(rt.deallocations(), 0);
    let a = rt.create(None);
    let b = rt.create(None);
    let c = rt.create(None);
    rt.retain(b);
    rt.release(a);
    assert_eq!(rt.deallocations(), 1);
    rt.release(b);
    assert_eq!(rt.deallocations(), 1);
    rt.release(c);
    assert_eq!(rt.deallocations(), 2);
    rt.release(b);
    assert_eq!(rt.deallocations(), 3);
}

#[test]
fn exclusive_handle_changes_the_value() {
    let mut rt = Runtime::new();
    let mut exclusive: Handle<Exclusive> = Handle::wrap_owned(rt.create(None));
    let raw = exclusive.as_raw();
    assert_eq!(exclusive.value(&rt), None);
    exclusive.set_value(&mut rt, Some(9));
    assert_eq!(exclusive.value(&rt), Some(9));
    assert_eq!(rt.count(raw), 1);
    let shared = exclusive.downgrade();
    assert_eq!(shared.value(&rt), Some(9));
    assert_eq!(shared.hash_code(&rt), 9);
    assert_eq!(rt.value(raw + 1), None);
}

#[test]
fn downgrade_keeps_the_count() {
    let mut rt = Runtime::new();
    let exclusive: Handle<Exclusive> = Handle::wrap_owned(rt.create(None));
    let raw = exclusive.as_raw();
    assert_eq!(rt.count(raw), 1);
    let shared: Handle<Shared> = exclusive.downgrade();
    assert_eq!(shared.as_raw(), raw);
    assert_eq!(rt.count(raw), 1);
    shared.release(&mut rt);
    assert_eq!(rt.count(raw), 0);
}

#[test]
fn wrap_retained_takes_a_count() {
    let mut rt = Runtime::new();
    let raw = rt.create(None);
    let owner = Handle::wrap_owned(raw);
    let borrowed = Handle::wrap_retained(raw, &mut rt);
    assert_eq!(rt.count(raw), 2);
    owner.release(&mut rt);
    borrowed.release(&mut rt);
    assert_eq!(rt.count(raw), 0);
}

#[test]
fn nested_pools_release_once() {
    let mut rt = Runtime::new();
    let keeper: Handle<Shared> = Handle::wrap_shared(rt.create(None));
    let raw = keeper.as_raw();
    let outer = AutoreleasePool::enter(&mut rt);
    let inner = AutoreleasePool::enter(&mut rt);
    assert_eq!(rt.depth(), 2);
    assert!(inner.is_innermost(&rt));
    assert!(!outer.is_innermost(&rt));

    let a = keeper.clone(&mut rt);
    assert_eq!(rt.count(raw), 2);
    assert_eq!(a.autorelease(&mut rt), raw);
    assert_eq!(rt.count(raw), 2);

    inner.exit(&mut rt);
    assert_eq!(rt.count(raw), 1);
    assert_eq!(rt.depth(), 1);
    assert!(outer.is_innermost(&rt));

    outer.exit(&mut rt);
    assert_eq!(rt.count(raw), 1);
    assert_eq!(rt.depth(), 0);
    keeper.release(&mut rt);
    assert!(!rt.is_live(raw));
}

#[test]
fn inner_pool_spares_what_the_outer_holds() {
    let mut rt = Runtime::new();
    let a = rt.create(None);
    let b = rt.create(None);
    rt.retain(a);
    rt.retain(b);
    rt.retain(b);
    let outer = AutoreleasePool::enter(&mut rt);
    rt.autorelease(a);
    let inner = AutoreleasePool::enter(&mut rt);
    rt.autorelease(b);
    rt.autorelease(b);
    inner.exit(&mut rt);
    assert_eq!(rt.count(a), 2);
    assert_eq!(rt.count(b), 1);
    outer.exit(&mut rt);
    assert_eq!(rt.count(a), 1);
    assert_eq!(rt.count(b), 1);
}

#[test]
fn pool_deallocates_the_last_count() {
    let mut rt = Runtime::new();
    let pool = AutoreleasePool::enter(&mut rt);
    let handle = Handle::wrap_owned(rt.create(None));
    let raw = handle.autorelease(&mut rt);
    assert!(rt.is_live(raw));
    assert_eq!(rt.deallocations(), 0);
    pool.exit(&mut rt);
    assert!(!rt.is_live(raw));
    assert_eq!(rt.deallocations(), 1);
}

#[test]
fn autorelease_outside_any_frame_is_never_released() {
    let mut rt = Runtime::new();
    let raw = rt.create(None);
    assert_eq!(rt.autorelease(raw), raw);
    let pool = AutoreleasePool::enter(&mut rt);
    pool.exit(&mut rt);
    assert_eq!(rt.count(raw), 1);
}

#[test]
fn adopt_follows_the_convention() {
    let mut rt = Runtime::new();
    let raw = rt.create(None);
    assert!(adopt(&mut rt, NULL, Convention::CallerOwns).is_none());
    assert!(adopt(&mut rt, NULL, Convention::CallerRetains).is_none());
    assert_eq!(rt.count(raw), 1);

    let owned = adopt(&mut rt, raw, Convention::CallerOwns).unwrap();
    assert_eq!(owned.as_raw(), raw);
    assert_eq!(rt.count(raw), 1);

    let retained = adopt(&mut rt, raw, Convention::CallerRetains).unwrap();
    assert_eq!(retained.as_raw(), raw);
    assert_eq!(rt.count(raw), 2);
    retained.release(&mut rt);
    owned.release(&mut rt);
    assert_eq!(rt.count(raw), 0);
}

#[test]
fn range_holds_its_bounds() {
    let range = NSRange { location: 1, length: 2 };
    assert_eq!(range.location, 1);
    assert_eq!(range.length, 2);
    assert_eq!(range, NSRange { location: 1, length: 2 });
    assert_ne!(range, NSRange { location: 1, length: 0 });
}

#[test]
fn pair_count_is_the_smaller() {
    assert_eq!(pair_count(1, 1), 1);
    assert_eq!(pair_count(2, 5), 2);
    assert_eq!(pair_count(5, 2), 2);
    assert_eq!(pair_count(0, 3), 0);
    assert_eq!(pair_count(usize::MAX, 7), 7);
}

#[test]
fn pool_releases_in_reverse_order() {
    let mut rt = Runtime::new();
    let a = rt.create(None);
    let b = rt.create(None);
    let c = rt.create(None);
    let pool = AutoreleasePool::enter(&mut rt);
    rt.autorelease(a);
    rt.autorelease(b);
    rt.autorelease(c);
    assert!(rt.deallocation_log().is_empty());
    pool.exit(&mut rt);
    assert_eq!(rt.deallocation_log(), &vec![c, b, a]);
    assert_eq!(rt.deallocations(), 3);
}

#[test]
fn log_keeps_the_order_of_deallocations() {
    let mut rt = Runtime::new();
    let a = rt.create(None);
    let b = rt.create(None);
    rt.retain(a);
    rt.release(a);
    rt.release(b);
    rt.release(a);
    assert_eq!(rt.deallocation_log(), &vec![b, a]);
}
