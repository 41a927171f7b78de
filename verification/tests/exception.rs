use objc_bridge::exception::{catch, throw, try_no_ret, Outcome};
use objc_bridge::handle::{Handle, Shared};
use objc_bridge::runtime::{Runtime, NULL};

#[test]
fn test_catch() {
    let mut rt = Runtime::new();
    let mut s = "Hello".to_string();
    let result = catch(&mut rt, move || {
        s.push_str(", World!");
        Outcome::Returned(s)
    });
    assert_eq!(result.unwrap(), "Hello, World!");
}

#[test]
fn test_throw_catch_none() {
    let mut rt = Runtime::new();
    let s = "Hello".to_string();
    let result = catch(&mut rt, move || {
        if !s.is_empty() {
            return throw(None);
        }
        Outcome::Returned(s.len())
    });
    assert!(result.unwrap_err().is_none());
}

#[test]
fn test_throw_catch_object() {
    let mut rt = Runtime::new();
    let obj: Handle<Shared> = Handle::wrap_shared(rt.create(None));

    let result: Result<(), Option<Handle<Shared>>> = catch(&mut rt, || throw(Some(&obj)));
    let e = result.unwrap_err().unwrap();
    // Compare references
    assert_eq!(e.as_raw(), obj.as_raw());
}

#[test]
fn catch_of_a_value_changes_no_count() {
    let mut rt = Runtime::new();
    let held = Handle::wrap_shared(rt.create(None));
    let raw = held.as_raw();
    let result = catch(&mut rt, move || Outcome::Returned(held));
    let back = result.unwrap();
    assert_eq!(back.as_raw(), raw);
    assert_eq!(rt.count(raw), 1);
    back.release(&mut rt);
    assert!(!rt.is_live(raw));
}

#[test]
fn capture_owns_one_count_and_drop_restores_it() {
    let mut rt = Runtime::new();
    let obj = Handle::wrap_shared(rt.create(Some(7)));
    let raw = obj.as_raw();
    let before = rt.count(raw);
    assert_eq!(before, 1);

    let result: Result<u8, Option<Handle<Shared>>> = catch(&mut rt, || throw(Some(&obj)));
    let capture = result.unwrap_err().unwrap();
    assert!(capture.is_equal(&obj, &rt));
    assert_eq!(rt.count(raw), before + 1);

    capture.release(&mut rt);
    assert_eq!(rt.count(raw), before);
    assert!(rt.is_live(raw));
    obj.release(&mut rt);
    assert_eq!(rt.count(raw), 0);
}

#[test]
fn throw_carries_the_reference() {
    let mut rt = Runtime::new();
    let obj = Handle::wrap_shared(rt.create(None));
    match throw::<()>(Some(&obj)) {
        Outcome::Thrown(raw) => assert_eq!(raw, obj.as_raw()),
        Outcome::Returned(_) => panic!("a throw does not return"),
    }
    match throw::<()>(None) {
        Outcome::Thrown(raw) => assert_eq!(raw, NULL),
        Outcome::Returned(_) => panic!("a throw does not return"),
    }
}

#[test]
fn try_no_ret_reports() {
    let mut rt = Runtime::new();
    let raw = rt.create(None);
    assert!(try_no_ret(&mut rt, None).is_ok());
    assert_eq!(rt.count(raw), 1);
    assert!(matches!(try_no_ret(&mut rt, Some(NULL)), Err(None)));
    assert_eq!(rt.count(raw), 1);
    match try_no_ret(&mut rt, Some(raw)) {
        Err(Some(capture)) => assert_eq!(capture.as_raw(), raw),
        _ => panic!("a thrown object is captured"),
    }
    assert_eq!(rt.count(raw), 2);
}
