use rx::Observable;

#[test]
fn subscribe_next_slice() {
    let mut values: &[u8] = &[2u8, 3, 5, 7, 11, 13];
    let (observer, _sub) = values.subscribe_next();
    assert_eq!(&values[..], &observer.received[..]);
}

#[test]
fn subscribe_completed_slice() {
    let mut values: &[u8] = &[2u8, 3, 5, 7, 11, 13];
    let (observer, _sub) = values.subscribe_completed();
    assert_eq!(&values[..], &observer.received[..]);
    assert!(observer.completed);
}

#[test]
fn subscribe_error_slice() {
    let mut values: &[u8] = &[2u8, 3, 5, 7, 11, 13];
    let (observer, _sub) = values.subscribe_error();
    assert_eq!(&values[..], &observer.received[..]);
    assert!(observer.completed);
    assert!(observer.failed.is_none());
}

#[test]
fn subscribe_option_slice() {
    let mut values: &[u8] = &[2u8, 3, 5, 7, 11, 13];
    let expected = &[
        Some(2u8),
        Some(3),
        Some(5),
        Some(7),
        Some(11),
        Some(13),
        None,
    ];
    let (observer, _sub) = values.subscribe_option();
    assert_eq!(&observer.received[..], &expected[..]);
}

#[test]
fn subscribe_result_slice() {
    let mut values: &[u8] = &[2u8, 3, 5, 7];
    let expected: &[Result<Option<u8>, ()>] =
        &[Ok(Some(2u8)), Ok(Some(3)), Ok(Some(5)), Ok(Some(7)), Ok(None)];
    let (observer, _sub) = values.subscribe_result();
    assert_eq!(&observer.received[..], &expected[..]);
}
