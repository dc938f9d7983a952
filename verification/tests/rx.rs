use rx::Observable;
use rx::Subject;
use rx::observer::NextObserver;
use rx::observer::CompletedObserver;
use rx::observer::ErrorObserver;
use rx::transform::Doubler;
use rx::transform::MapObservable;
use std::cell::RefCell;
use std::rc::Rc;

// Generator tests

#[test]
fn rx_error() {
    let error = "epic fail";
    let mut observable = rx::error::<u8, &str>(error);
    let (observer, _sub) = observable.subscribe_error();
    assert!(
        observer.received.is_empty(),
        "rx::error should not produce value"
    );
    assert!(!observer.completed, "rx::error should not complete");
    assert_eq!(Some(error), observer.failed);
}

// Option tests

#[test]
fn option_subscribe_next() {
    // Subscribing to `Some` should push the value.
    let (observer, _sub) = Some(19).subscribe_next();
    assert_eq!(vec![19], observer.received);

    let mut none: Option<u32> = None;
    let (observer, _sub) = none.subscribe_next();
    assert!(observer.received.is_empty(), "none should not push a value");
}

#[test]
fn option_subscribe_completed() {
    // Subscribing to `Some` should complete after pushing the value.
    let (observer, _sub) = Some(19).subscribe_completed();
    assert_eq!(vec![19], observer.received);
    assert!(observer.completed);

    // Subscribing to `None` should complete without pushing a value.
    let mut none: Option<u32> = None;
    let (observer, _sub) = none.subscribe_completed();
    assert!(observer.received.is_empty(), "none should not push a value");
    assert!(observer.completed);
}

#[test]
fn option_subscribe_error() {
    let (observer, _sub) = Some(23).subscribe_error();
    assert_eq!(vec![23], observer.received);
    assert!(observer.completed);
    assert!(observer.failed.is_none(), "some observable should not fail");

    let mut none: Option<u32> = None;
    let (observer, _sub) = none.subscribe_error();
    assert!(observer.received.is_empty(), "none should not push a value");
    assert!(observer.completed);
    assert!(observer.failed.is_none(), "none observable should not fail");
}

// Result tests

#[test]
fn result_subscribe_next_ok() {
    let mut result: Result<u32, ()> = Ok(13);
    let (observer, _sub) = result.subscribe_next();
    assert_eq!(vec![13], observer.received);
}

#[test]
#[should_panic]
fn result_subscribe_next_err() {
    let mut result: Result<u32, ()> = Err(());

    // This should panic, because we did not provide an error handler.
    let (_observer, _sub) = result.subscribe_next();
}

#[test]
fn result_subscribe_completed_ok() {
    let mut result: Result<u32, ()> = Ok(13);
    let (observer, _sub) = result.subscribe_completed();
    assert_eq!(vec![13], observer.received);
    assert!(observer.completed);
}

#[test]
fn result_subscribe_error_ok() {
    let mut result: Result<u32, ()> = Ok(13);
    let (observer, _sub) = result.subscribe_error();
    assert_eq!(vec![13], observer.received);
    assert!(observer.completed);
    assert!(
        observer.failed.is_none(),
        "ok result should not be a failing observable"
    );
}

#[test]
fn result_subscribe_error_err() {
    let mut result: Result<(), u32> = Err(17);
    let (observer, _sub) = result.subscribe_error();
    assert!(
        observer.received.is_empty(),
        "err result should not push a value"
    );
    assert!(!observer.completed, "err result should not complete");
    assert_eq!(Some(17), observer.failed);
}

// Slice tests

#[test]
fn slice_subscribe_next() {
    let mut values: &[u8] = &[2u8, 3, 5, 7, 11, 13];
    let (observer, _sub) = values.subscribe_next();
    assert_eq!(&values[..], &observer.received[..]);
}

#[test]
fn slice_subscribe_completed() {
    let mut values: &[u8] = &[2u8, 3, 5, 7, 11, 13];
    let (observer, _sub) = values.subscribe_completed();
    assert_eq!(&values[..], &observer.received[..]);
    assert!(observer.completed);
}

#[test]
fn slice_subscribe_error() {
    let mut values: &[u8] = &[2u8, 3, 5, 7, 11, 13];
    let (observer, _sub) = values.subscribe_error();
    assert_eq!(&values[..], &observer.received[..]);
    assert!(observer.completed);
    assert!(observer.failed.is_none());
}

#[test]
fn slice_subscribe_option() {
    let mut values: &[u8] = &[2u8, 3, 5, 7, 11, 13];
    let expected = &[
        Some(2u8),
        Some(3),
        Some(5),
        Some(7),
        Some(11),
        Some(13),
        None,
    ];
    let (observer, _sub) = values.subscribe_option();
    assert_eq!(&observer.received[..], &expected[..]);
}

#[test]
fn slice_subscribe_result() {
    let mut values: &[u8] = &[2u8, 3, 5, 7];
    let expected: &[Result<Option<u8>, ()>] =
        &[Ok(Some(2u8)), Ok(Some(3)), Ok(Some(5)), Ok(Some(7)), Ok(None)];
    let (observer, _sub) = values.subscribe_result();
    assert_eq!(&observer.received[..], &expected[..]);
}

// Subject tests

#[test]
fn rx_subject_on_next() {
    let subject: Subject<u8, (), NextObserver<u8>> = Subject::new();
    let mut observable = subject.observable();
    let sub = observable.subscribe(NextObserver::new());
    let mut subject = observable.into_subject();

    // Subject should not push anything upon subscription.
    assert_eq!(0, subject.observer(&sub).unwrap().received.len());

    let values = [2u8, 3, 5, 7, 11, 13];
    for i in 0..values.len() {
        subject.on_next(values[i]);
        let received = &subject.observer(&sub).unwrap().received;
        assert_eq!(&values[..i + 1], &received[..]);
    }
}

#[test]
fn rx_subject_on_completed() {
    let subject: Subject<u8, (), CompletedObserver<u8>> = Subject::new();
    let mut observable = subject.observable();
    let sub = observable.subscribe(CompletedObserver::new());
    let subject = observable.into_subject();

    // Subject should not push anything upon subscription.
    assert!(!subject.observer(&sub).unwrap().completed);

    let drained = subject.on_completed();
    assert_eq!(1, drained.len());
    assert!(
        drained[0].received.is_empty(),
        "no value should be pushed"
    );
    assert!(drained[0].completed);
}

#[test]
fn rx_subject_on_error() {
    let subject: Subject<u8, u8, ErrorObserver<u8, u8>> = Subject::new();
    let mut observable = subject.observable();
    let sub = observable.subscribe(ErrorObserver::new());
    let subject = observable.into_subject();

    // Subject should not fail upon subscription.
    assert!(subject.observer(&sub).unwrap().failed.is_none());

    let drained = subject.on_error(41);
    assert_eq!(1, drained.len());
    assert!(
        drained[0].received.is_empty(),
        "no value should be pushed"
    );
    assert!(!drained[0].completed, "subject should not complete");
    assert_eq!(Some(41), drained[0].failed);
}

/// Helper for the `subject_clones_once_per_observer()` test.
struct CloneCounter {
    counter: Rc<RefCell<u32>>,
}

impl Clone for CloneCounter {
    fn clone(&self) -> CloneCounter {
        let count: u32 = *self.counter.borrow();
        *self.counter.borrow_mut() = count + 1;
        CloneCounter {
            counter: self.counter.clone(),
        }
    }
}

#[test]
fn subject_clones_once_per_observer() {
    let subject: Subject<CloneCounter, (), NextObserver<CloneCounter>> = Subject::new();
    let counter = CloneCounter {
        counter: Rc::new(RefCell::new(0)),
    };

    // Subscribe twice.
    let mut observable = subject.observable();
    let first = observable.subscribe(NextObserver::new());
    let second = observable.subscribe(NextObserver::new());
    let mut subject = observable.into_subject();

    // Nothing should have been cloned yet.
    assert_eq!(0, *counter.counter.borrow());

    subject.on_next(counter.clone());

    // We cloned once, and the subject should have cloned once per
    // subscription.
    assert_eq!(3, *counter.counter.borrow());
    assert_eq!(1, subject.observer(&first).unwrap().received.len());
    assert_eq!(1, subject.observer(&second).unwrap().received.len());
}

// Transform tests

#[test]
fn rx_map() {
    let values: &[u8] = &[2u8, 3, 5, 7, 11, 13];
    let expected = &[4u8, 6, 10, 14, 22, 26];
    let mut mapped = MapObservable::new(values, Doubler);
    let (observer, _sub) = mapped.subscribe_next();
    assert_eq!(&expected[..], &observer.received[..]);
}
