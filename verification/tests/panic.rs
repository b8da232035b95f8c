use unix_ipc::panic::{
    catch_panic, panic_handler, reset_panic_info, serialize_panic, take_panic_info, Location,
    PanicInfo, PanicPayload, PanicSlot,
};

#[test]
fn test_panic_hook() {
    let mut slot = PanicSlot::new();
    reset_panic_info(&mut slot);
    let payload = PanicPayload::Str("something went wrong");
    panic_handler(&mut slot, payload, None, true);
    let rv: Result<(), PanicInfo> = catch_panic(&mut slot, Err(payload));
    let pi = rv.err().unwrap();
    assert_eq!(pi.message(), "something went wrong");
    // Some compilers write the type of a method in angle brackets.
    let bt = format!("{:?}", pi.backtrace().unwrap());
    assert!(bt.contains("PanicInfo::from_std") || bt.contains("PanicInfo>::from_std"));
}

#[test]
fn the_hook_fills_in_the_location() {
    let mut slot = PanicSlot::new();
    let location = Location::from_std("src/main.rs", 12, 5);
    panic_handler(&mut slot, PanicPayload::Message("late"), Some(location), false);
    let pi = take_panic_info(&mut slot, PanicPayload::Other);
    assert_eq!(pi.message(), "late");
    let location = pi.location().unwrap();
    assert_eq!(location.file(), "src/main.rs");
    assert_eq!((location.line(), location.column()), (12, 5));
    assert!(pi.backtrace().is_none());
}

#[test]
fn without_a_hook_the_payload_tells() {
    let mut slot = PanicSlot::new();
    panic_handler(&mut slot, PanicPayload::Str("stale"), None, false);
    reset_panic_info(&mut slot);
    let rv: Result<(), PanicInfo> = catch_panic(&mut slot, Err(PanicPayload::Message("fresh")));
    let pi = rv.err().unwrap();
    assert_eq!(pi.message(), "fresh");
    assert!(pi.location().is_none());
    assert!(pi.backtrace().is_none());
}

#[test]
fn a_panic_that_was_caught_inside_is_not_reported_again() {
    let mut slot = PanicSlot::new();
    reset_panic_info(&mut slot);

    reset_panic_info(&mut slot);
    panic_handler(&mut slot, PanicPayload::Str("inner"), None, false);
    let inner: Result<(), PanicInfo> = catch_panic(&mut slot, Err(PanicPayload::Str("inner")));
    assert_eq!(inner.err().unwrap().message(), "inner");

    let outer: Result<(), PanicInfo> = catch_panic(&mut slot, Err(PanicPayload::Str("outer")));
    assert_eq!(outer.err().unwrap().message(), "outer");
}

#[test]
fn a_function_that_returns_is_left_alone() {
    let mut slot = PanicSlot::new();
    assert_eq!(catch_panic(&mut slot, Ok(5)).ok(), Some(5));
}

#[test]
fn payloads_have_a_text() {
    assert_eq!(serialize_panic(PanicPayload::Str("a")).message(), "a");
    assert_eq!(serialize_panic(PanicPayload::Message("b")).message(), "b");
    assert_eq!(serialize_panic(PanicPayload::Other).message(), "Box<Any>");
}

#[test]
fn parts_make_a_panic_info() {
    let pi = PanicInfo::from_parts(
        String::from("m"),
        Some(Location::from_std("f", 1, 2)),
        None,
    );
    let (msg, location, backtrace) = pi.into_parts();
    assert_eq!(msg, "m");
    assert_eq!(location.unwrap().file(), "f");
    assert!(backtrace.is_none());
    assert_eq!(PanicInfo::new("x").message(), "x");
}
