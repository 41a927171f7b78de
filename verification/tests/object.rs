use objc_bridge::description::debug_text;
use objc_bridge::handle::{Exclusive, Handle, Shared};
use objc_bridge::runtime::Runtime;
use std::collections::hash_map::DefaultHasher;
use std::hash::{Hash, Hasher};

#[test]
fn smoke_test() {
    let mut rt = Runtime::new();
    let obj: Handle<Exclusive> = Handle::wrap_owned(rt.create(None));
    let _ = obj.as_raw();
}

#[test]
fn test_equality() {
    let mut rt = Runtime::new();
    let obj1 = Handle::wrap_owned(rt.create(None));
    assert!(obj1.is_equal(&obj1, &rt));

    let obj2 = Handle::wrap_owned(rt.create(None));
    assert!(!obj1.is_equal(&obj2, &rt));
}

#[test]
fn test_hash() {
    let mut rt = Runtime::new();
    let obj1 = Handle::wrap_owned(rt.create(None));

    let mut hashstate1 = DefaultHasher::new();
    let mut hashstate2 = DefaultHasher::new();

    obj1.hash_code(&rt).hash(&mut hashstate1);
    obj1.hash_code(&rt).hash(&mut hashstate2);

    assert_eq!(hashstate1.finish(), hashstate2.finish());

    let obj2 = Handle::wrap_owned(rt.create(None));
    let mut hashstate2 = DefaultHasher::new();
    obj2.hash_code(&rt).hash(&mut hashstate2);
    assert_ne!(hashstate1.finish(), hashstate2.finish());
}

#[test]
fn test_debug() {
    let mut rt = Runtime::new();
    let obj = Handle::wrap_owned(rt.create(None));
    let expected = format!("<NSObject: {:#x}>", obj.as_raw());
    assert_eq!(obj.describe(None, "NSObject"), expected);
}

#[test]
fn addresses_are_written_in_base_sixteen() {
    assert_eq!(debug_text(None, "NSObject", 0), "<NSObject: 0x0>");
    assert_eq!(debug_text(None, "NSObject", 9), "<NSObject: 0x9>");
    assert_eq!(debug_text(None, "NSObject", 10), "<NSObject: 0xa>");
    assert_eq!(debug_text(None, "NSObject", 15), "<NSObject: 0xf>");
    assert_eq!(debug_text(None, "NSObject", 16), "<NSObject: 0x10>");
    assert_eq!(debug_text(None, "NSString", 0x7f00_dead_beef), "<NSString: 0x7f00deadbeef>");
    assert_eq!(debug_text(None, "", 255), "<: 0xff>");
    assert_eq!(
        debug_text(None, "T", usize::MAX),
        format!("<T: {:#x}>", usize::MAX)
    );
}

#[test]
fn debug_text_prefers_the_description() {
    assert_eq!(debug_text(Some("a string".to_string()), "NSString", 1), "a string");
    assert_eq!(debug_text(Some(String::new()), "NSString", 1), "");
}

#[test]
fn equal_values_hash_equal() {
    let mut rt = Runtime::new();
    let a: Handle<Shared> = Handle::wrap_shared(rt.create(Some(42)));
    let b: Handle<Shared> = Handle::wrap_shared(rt.create(Some(42)));
    let c: Handle<Shared> = Handle::wrap_shared(rt.create(Some(43)));
    let plain: Handle<Shared> = Handle::wrap_shared(rt.create(None));
    assert_ne!(a.as_raw(), b.as_raw());
    assert!(a.is_equal(&b, &rt));
    assert!(b.is_equal(&a, &rt));
    assert_eq!(a.hash_code(&rt), b.hash_code(&rt));
    assert_eq!(a.hash_code(&rt), 42);
    assert!(!a.is_equal(&c, &rt));
    assert!(!a.is_equal(&plain, &rt));
    assert!(!plain.is_equal(&a, &rt));
    assert_eq!(plain.hash_code(&rt), plain.as_raw());
}

#[test]
fn unknown_references_equal_nothing() {
    let mut rt = Runtime::new();
    let raw = rt.create(None);
    assert!(!rt.is_equal(0, 0));
    assert!(!rt.is_equal(raw, raw + 1));
    assert!(!rt.is_equal(raw + 1, raw + 1));
    assert_eq!(rt.hash_code(0), 0);
    assert_eq!(rt.hash_code(raw + 1), 0);
}
