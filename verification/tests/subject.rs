use rx::Subject;
use rx::observer::CompletedObserver;
use rx::observer::ErrorObserver;
use rx::observer::NextObserver;

#[test]
fn subject_subject_on_next() {
    let subject: Subject<u8, (), NextObserver<u8>> = Subject::new();
    let mut observable = subject.observable();
    let sub = observable.subscribe(NextObserver::new());
    let mut subject = observable.into_subject();

    // Subject should not push anything upon subscription.
    assert_eq!(0, subject.observer(&sub).unwrap().received.len());

    let values = [2u8, 3, 5, 7, 11, 13];
    for i in 0..values.len() {
        subject.on_next(values[i]);
        let received = &subject.observer(&sub).unwrap().received;
        assert_eq!(&values[..i + 1], &received[..]);
    }
}

#[test]
fn subject_subject_on_completed() {
    let subject: Subject<u8, (), CompletedObserver<u8>> = Subject::new();
    let mut observable = subject.observable();
    let sub = observable.subscribe(CompletedObserver::new());
    let subject = observable.into_subject();

    // Subject should not push anything upon subscription.
    assert!(!subject.observer(&sub).unwrap().completed);

    let drained = subject.on_completed();
    assert_eq!(1, drained.len());
    assert!(drained[0].received.is_empty(), "no value should be pushed");
    assert!(drained[0].completed);
}

#[test]
fn subject_subject_on_error() {
    let subject: Subject<u8, u8, ErrorObserver<u8, u8>> = Subject::new();
    let mut observable = subject.observable();
    let sub = observable.subscribe(ErrorObserver::new());
    let subject = observable.into_subject();

    // Subject should not fail upon subscription.
    assert!(subject.observer(&sub).unwrap().failed.is_none());

    let drained = subject.on_error(41);
    assert_eq!(1, drained.len());
    assert!(drained[0].received.is_empty(), "no value should be pushed");
    assert!(!drained[0].completed, "subject should not complete");
    assert_eq!(Some(41), drained[0].failed);
}
