use rx::Observable;
use rx::Subject;
use rx::subject::SubjectObserver;
use rx::generate::Never;
use rx::observer::ErrorObserver;
use rx::observer::NextObserver;
use rx::transform::ContinueWithObservable;
use rx::transform::Doubler;
use rx::transform::MapErrorObservable;
use rx::transform::MapObservable;
use rx::transform::Transform;

#[test]
fn doubler_wraps_on_overflow() {
    assert_eq!(4, Doubler.apply(2));
    assert_eq!(144, Doubler.apply(200));
    assert_eq!(254, Doubler.apply(127));
}

#[test]
fn empty_slice_completes_without_values() {
    let mut values: &[u8] = &[];
    let (observer, _sub) = values.subscribe_completed();
    assert!(observer.received.is_empty());
    assert!(observer.completed);
}

#[test]
fn never_delivers_nothing() {
    let mut never: Never<u8, ()> = Never::new();
    let (observer, _sub) = never.subscribe(NextObserver::new());
    assert!(observer.received.is_empty());
    assert!(!observer.completed);
}

#[test]
fn map_passes_failure_through() {
    let mut source: Result<u8, u8> = Err(17);
    let mut mapped = MapObservable::new(source, Doubler);
    let (observer, _sub) = mapped.subscribe_error();
    assert!(observer.received.is_empty());
    assert!(!observer.completed);
    assert_eq!(Some(17), observer.failed);
    // The source is untouched and can be subscribed again.
    let (observer, _sub) = source.subscribe_error();
    assert_eq!(Some(17), observer.failed);
}

#[test]
fn map_error_transforms_failure() {
    let source: Result<u8, u8> = Err(17);
    let mut mapped = MapErrorObservable::new(source, Doubler);
    let (observer, _sub) = mapped.subscribe_error();
    assert!(observer.received.is_empty());
    assert!(!observer.completed);
    assert_eq!(Some(34), observer.failed);
}

#[test]
fn map_error_leaves_values_untouched() {
    let source: Result<u8, u8> = Ok(5);
    let mut mapped = MapErrorObservable::new(source, Doubler);
    let (observer, _sub) = mapped.subscribe_error();
    assert_eq!(vec![5], observer.received);
    assert!(observer.completed);
    assert!(observer.failed.is_none());
}

#[test]
fn continue_with_chains_after_completion() {
    let first: &[u8] = &[1, 2];
    let second: &[u8] = &[3, 4];
    let mut chained = ContinueWithObservable::new(first, second);
    let (observer, sub) = chained.subscribe_completed();
    assert_eq!(vec![1, 2, 3, 4], observer.received);
    assert!(observer.completed);
    // The second observable was subscribed, exactly because the first
    // one completed.
    assert!(sub.is_chained());
}

#[test]
fn continue_with_takes_second_outcome() {
    let first: Result<u8, u8> = Ok(1);
    let second: Result<u8, u8> = Err(9);
    let mut chained = ContinueWithObservable::new(first, second);
    let (observer, _sub) = chained.subscribe_error();
    assert_eq!(vec![1], observer.received);
    assert!(!observer.completed);
    assert_eq!(Some(9), observer.failed);
}

#[test]
fn continue_with_skips_second_on_failure() {
    let first: Result<u8, u8> = Err(7);
    let second: Result<u8, u8> = Ok(3);
    let mut chained = ContinueWithObservable::new(first, second);
    let (observer, sub) = chained.subscribe_error();
    assert!(observer.received.is_empty());
    assert!(!observer.completed);
    assert_eq!(Some(7), observer.failed);
    // The second observable was never subscribed.
    assert!(!sub.is_chained());
}

#[test]
fn subject_ignores_push_without_subscribers() {
    let mut subject: Subject<u8, (), NextObserver<u8>> = Subject::new();
    // Pushing before any subscription exists has no observable effect.
    subject.on_next(5);
    let sub = subject.subscribe(NextObserver::new());
    assert!(subject.observer(&sub).unwrap().received.is_empty());
    subject.on_next(7);
    assert_eq!(vec![7], subject.observer(&sub).unwrap().received);
}

#[test]
fn subject_broadcasts_to_each_subscriber_in_order() {
    let mut subject: Subject<u8, (), NextObserver<u8>> = Subject::new();
    let first = subject.subscribe(NextObserver::new());
    let second = subject.subscribe(NextObserver::new());
    subject.on_next(11);
    subject.on_next(13);
    assert_eq!(vec![11, 13], subject.observer(&first).unwrap().received);
    assert_eq!(vec![11, 13], subject.observer(&second).unwrap().received);
}

#[test]
fn released_subscription_receives_nothing_further() {
    let mut subject: Subject<u8, (), NextObserver<u8>> = Subject::new();
    let first = subject.subscribe(NextObserver::new());
    let second = subject.subscribe(NextObserver::new());
    subject.on_next(11);
    first.unsubscribe(&mut subject);
    subject.on_next(13);
    // The live subscriber keeps receiving items.
    assert_eq!(vec![11, 13], subject.observer(&second).unwrap().received);
    // The released registration is gone: the terminal drain only reaches
    // the remaining live observer.
    let drained = subject.on_completed();
    assert_eq!(1, drained.len());
    assert_eq!(vec![11, 13], drained[0].received);
    assert!(drained[0].completed);
}

#[test]
fn subject_error_reaches_every_live_subscriber() {
    let mut subject: Subject<u8, u8, ErrorObserver<u8, u8>> = Subject::new();
    let _first = subject.subscribe(ErrorObserver::new());
    let _second = subject.subscribe(ErrorObserver::new());
    subject.on_next(3);
    let drained = subject.on_error(41);
    assert_eq!(2, drained.len());
    for observer in &drained {
        assert_eq!(vec![3], observer.received);
        assert!(!observer.completed);
        assert_eq!(Some(41), observer.failed);
    }
}

#[test]
fn slice_feeds_subject() {
    let mut subject: Subject<u8, (), NextObserver<u8>> = Subject::new();
    let _first = subject.subscribe(NextObserver::new());
    let _second = subject.subscribe(NextObserver::new());
    let sink = SubjectObserver::new(subject);
    let mut values: &[u8] = &[2, 3, 5];
    let (sink, _sub) = values.subscribe(sink);
    // The slice completed, so the subject was consumed and drained.
    assert!(sink.subject.is_none());
    assert_eq!(2, sink.drained.len());
    for observer in &sink.drained {
        assert_eq!(vec![2, 3, 5], observer.received);
        assert!(observer.completed);
    }
}

#[test]
fn never_leaves_subject_usable() {
    let mut subject: Subject<u8, (), NextObserver<u8>> = Subject::new();
    let sub = subject.subscribe(NextObserver::new());
    let sink = SubjectObserver::new(subject);
    let mut never: Never<u8, ()> = Never::new();
    let (mut sink, _s) = never.subscribe(sink);
    // Nothing was delivered, so the subject is still there to be driven.
    let mut subject = sink.subject.take().unwrap();
    subject.on_next(29);
    assert_eq!(vec![29], subject.observer(&sub).unwrap().received);
}
