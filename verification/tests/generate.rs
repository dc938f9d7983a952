use rx::Observable;

#[test]
fn generate_error() {
    let error = "epic fail";
    let mut observable = rx::error::<u8, &str>(error);
    let (observer, _sub) = observable.subscribe_error();
    assert!(
        observer.received.is_empty(),
        "rx::error should not produce value"
    );
    assert!(!observer.completed, "rx::error should not complete");
    assert_eq!(Some(error), observer.failed);
}
