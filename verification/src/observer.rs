use vstd::prelude::*;

use crate::events::Event;
use crate::events::terminated;

verus! {

/// An observer that receives values from an observable.
///
/// An observer is a state machine. Its specification-level state is the
/// *log* of events it has received so far; each protocol method appends
/// exactly one event to that log. A log whose last event is a completion
/// or a failure is *terminated*, and every method refuses a terminated
/// receiver, so after a terminal event no further delivery is possible.
///
/// Observers that were constructed without an error handler declare
/// `accepts_failure() == false`; no verified caller can deliver a failure
/// to them.
pub trait Observer<T, E>: Sized {
    /// Structural well-formedness of the observer's own state.
    spec fn inv(&self) -> bool;

    /// The events received so far, in order of delivery.
    spec fn log(&self) -> Seq<Event<T, E>>;

    /// Whether this observer is prepared to receive a failure.
    spec fn accepts_failure(&self) -> bool;

    /// The part of the observer's state that receiving events never
    /// changes: `self.same_frame(other)` says that `other` keeps that
    /// part of `self`. Adapters pin their configuration here, so that it
    /// survives a whole delivery.
    spec fn same_frame(&self, other: &Self) -> bool;

    /// Every observer keeps its own frame.
    proof fn frame_refl(&self)
        ensures
            self.same_frame(self),
    ;

    /// Keeping a frame is transitive across deliveries.
    proof fn frame_trans(&self, mid: &Self, other: &Self)
        requires
            self.same_frame(mid),
            mid.same_frame(other),
        ensures
            self.same_frame(other),
    ;

    /// Provides the observer with new data.
    fn on_next(&mut self, item: T)
        requires
            old(self).inv(),
            !terminated(old(self).log()),
        ensures
            final(self).inv(),
            final(self).log() == old(self).log().push(Event::Next(item)),
            final(self).accepts_failure() == old(self).accepts_failure(),
            old(self).same_frame(final(self)),
    ;

    /// Notifies the observer that the provider has finished sending
    /// notifications.
    fn on_completed(&mut self)
        requires
            old(self).inv(),
            !terminated(old(self).log()),
        ensures
            final(self).inv(),
            final(self).log() == old(self).log().push(Event::Completed),
            final(self).accepts_failure() == old(self).accepts_failure(),
            old(self).same_frame(final(self)),
    ;

    /// Notifies the observer that the provider experienced an error
    /// condition.
    fn on_error(&mut self, error: E)
        requires
            old(self).inv(),
            !terminated(old(self).log()),
            old(self).accepts_failure(),
        ensures
            final(self).inv(),
            final(self).log() == old(self).log().push(Event::Failed(error)),
            final(self).accepts_failure() == old(self).accepts_failure(),
            old(self).same_frame(final(self)),
    ;
}

/// An observer that records the values it is given and ignores
/// completion. It has no error handler: no verified source may deliver a
/// failure to it, and an unverified caller that does so aborts.
pub struct NextObserver<T> {
    /// The values received so far, in order of delivery.
    pub received: Vec<T>,
    /// Whether completion has been observed.
    pub completed: bool,
}

/// The log of a recording observer that has seen the given values,
/// then possibly a completion, then possibly a failure.
pub open spec fn record_log<T, E>(
    values: Seq<T>,
    completed: bool,
    failed: Option<E>,
) -> Seq<Event<T, E>> {
    values.map_values(|x: T| Event::<T, E>::Next(x)) + (if completed {
        seq![Event::<T, E>::Completed]
    } else {
        Seq::<Event<T, E>>::empty()
    }) + (match failed {
        Some(e) => seq![Event::<T, E>::Failed(e)],
        None => Seq::<Event<T, E>>::empty(),
    })
}

impl<T> NextObserver<T> {
    /// Creates an observer with an empty record.
    pub fn new() -> (r: NextObserver<T>)
        ensures
            !r.completed,
            r.received@ == Seq::<T>::empty(),
    {
        NextObserver { received: Vec::new(), completed: false }
    }
}

impl<T, E> Observer<T, E> for NextObserver<T> {
    open spec fn inv(&self) -> bool {
        true
    }

    open spec fn log(&self) -> Seq<Event<T, E>> {
        record_log(self.received@, self.completed, None::<E>)
    }

    open spec fn accepts_failure(&self) -> bool {
        false
    }

    open spec fn same_frame(&self, other: &Self) -> bool {
        true
    }

    proof fn frame_refl(&self) {
    }

    proof fn frame_trans(&self, mid: &Self, other: &Self) {
    }

    fn on_next(&mut self, item: T) {
        proof {
            record_log_open::<T, E>(old(self).received@, old(self).completed, None);
        }
        self.received.push(item);
        proof {
            record_log_push_next::<T, E>(old(self).received@, item);
        }
    }

    fn on_completed(&mut self) {
        proof {
            record_log_open::<T, E>(old(self).received@, old(self).completed, None);
        }
        self.completed = true;
        proof {
            record_log_push_completed::<T, E>(old(self).received@);
        }
    }

    fn on_error(&mut self, _error: E) {
        vstd::pervasive::unreached()
    }
}

/// A recording observer whose log is still open cannot have seen a
/// terminal event.
proof fn record_log_open<T, E>(values: Seq<T>, completed: bool, failed: Option<E>)
    requires
        !terminated(record_log::<T, E>(values, completed, failed)),
    ensures
        !completed,
        failed is None,
{
    if failed is Some {
        assert(record_log::<T, E>(values, completed, failed).last() is Failed);
    } else if completed {
        assert(record_log::<T, E>(values, completed, failed).last() is Completed);
    }
}

/// Appending a value to the record appends `Next` to the log.
proof fn record_log_push_next<T, E>(values: Seq<T>, item: T)
    ensures
        record_log::<T, E>(values.push(item), false, None)
            == record_log::<T, E>(values, false, None).push(Event::Next(item)),
{
    assert(record_log::<T, E>(values.push(item), false, None)
        =~= record_log::<T, E>(values, false, None).push(Event::Next(item)));
}

/// Marking the record completed appends `Completed` to the log.
proof fn record_log_push_completed<T, E>(values: Seq<T>)
    ensures
        record_log::<T, E>(values, true, None)
            == record_log::<T, E>(values, false, None).push(Event::Completed),
{
    assert(record_log::<T, E>(values, true, None)
        =~= record_log::<T, E>(values, false, None).push(Event::Completed));
}

/// Law: a value-recording observer whose log is a finite sequence of
/// values followed by one completion recorded exactly those values, in
/// order, and saw the completion; it never saw a failure. Together with
/// the contract of `subscribe`, this says that subscribing a recording
/// observer to a finite source yields exactly the source's elements in
/// order, then exactly one completion, and never an error.
pub proof fn lemma_record_of_finite<T, E>(values: Seq<T>, completed: bool, s: Seq<T>)
    requires
        record_log::<T, E>(values, completed, None) == s.map_values(
            |x: T| Event::<T, E>::Next(x),
        ).push(Event::Completed),
    ensures
        values == s,
        completed,
{
    let log = record_log::<T, E>(values, completed, None);
    let target = s.map_values(|x: T| Event::<T, E>::Next(x)).push(Event::Completed);
    if !completed {
        assert(log =~= values.map_values(|x: T| Event::<T, E>::Next(x)));
        assert(log.len() == target.len());
        assert(target.last() is Completed);
        assert(log[log.len() - 1] is Next);
        assert(false);
    }
    assert(log =~= values.map_values(|x: T| Event::<T, E>::Next(x)).push(Event::Completed));
    assert(values.len() == s.len());
    assert forall|i: int| 0 <= i < values.len() implies values[i] == s[i] by {
        assert(log[i] == target[i]);
        assert(log[i] == Event::<T, E>::Next(values[i]));
        assert(target[i] == Event::<T, E>::Next(s[i]));
    }
    assert(values =~= s);
}

/// Recording a failure appends `Failed` to the log.
proof fn record_log_push_failed<T, E>(values: Seq<T>, error: E)
    ensures
        record_log::<T, E>(values, false, Some(error))
            == record_log::<T, E>(values, false, None).push(Event::Failed(error)),
{
    assert(record_log::<T, E>(values, false, Some(error))
        =~= record_log::<T, E>(values, false, None).push(Event::Failed(error)));
}

/// An observer that records the values it is given and whether the
/// stream completed. It has no error handler: no verified source may
/// deliver a failure to it.
pub struct CompletedObserver<T> {
    /// The values received so far, in order of delivery.
    pub received: Vec<T>,
    /// Whether completion has been observed.
    pub completed: bool,
}

impl<T> CompletedObserver<T> {
    /// Creates an observer with an empty record.
    pub fn new() -> (r: CompletedObserver<T>)
        ensures
            !r.completed,
            r.received@ == Seq::<T>::empty(),
    {
        CompletedObserver { received: Vec::new(), completed: false }
    }
}

impl<T, E> Observer<T, E> for CompletedObserver<T> {
    open spec fn inv(&self) -> bool {
        true
    }

    open spec fn log(&self) -> Seq<Event<T, E>> {
        record_log(self.received@, self.completed, None::<E>)
    }

    open spec fn accepts_failure(&self) -> bool {
        false
    }

    open spec fn same_frame(&self, other: &Self) -> bool {
        true
    }

    proof fn frame_refl(&self) {
    }

    proof fn frame_trans(&self, mid: &Self, other: &Self) {
    }

    fn on_next(&mut self, item: T) {
        proof {
            record_log_open::<T, E>(old(self).received@, old(self).completed, None);
        }
        self.received.push(item);
        proof {
            record_log_push_next::<T, E>(old(self).received@, item);
        }
    }

    fn on_completed(&mut self) {
        proof {
            record_log_open::<T, E>(old(self).received@, old(self).completed, None);
        }
        self.completed = true;
        proof {
            record_log_push_completed::<T, E>(old(self).received@);
        }
    }

    fn on_error(&mut self, _error: E) {
        vstd::pervasive::unreached()
    }
}

/// An observer that records values, completion, and failure. It accepts
/// every outcome of the stream.
pub struct ErrorObserver<T, E> {
    /// The values received so far, in order of delivery.
    pub received: Vec<T>,
    /// Whether completion has been observed.
    pub completed: bool,
    /// The failure, if one has been observed.
    pub failed: Option<E>,
}

impl<T, E> ErrorObserver<T, E> {
    /// Creates an observer with an empty record.
    pub fn new() -> (r: ErrorObserver<T, E>)
        ensures
            !r.completed,
            r.failed is None,
            r.received@ == Seq::<T>::empty(),
    {
        ErrorObserver { received: Vec::new(), completed: false, failed: None }
    }
}

impl<T, E> Observer<T, E> for ErrorObserver<T, E> {
    open spec fn inv(&self) -> bool {
        true
    }

    open spec fn log(&self) -> Seq<Event<T, E>> {
        record_log(self.received@, self.completed, self.failed)
    }

    open spec fn accepts_failure(&self) -> bool {
        true
    }

    open spec fn same_frame(&self, other: &Self) -> bool {
        true
    }

    proof fn frame_refl(&self) {
    }

    proof fn frame_trans(&self, mid: &Self, other: &Self) {
    }

    fn on_next(&mut self, item: T) {
        proof {
            record_log_open::<T, E>(old(self).received@, old(self).completed, old(self).failed);
        }
        self.received.push(item);
        proof {
            record_log_push_next::<T, E>(old(self).received@, item);
        }
    }

    fn on_completed(&mut self) {
        proof {
            record_log_open::<T, E>(old(self).received@, old(self).completed, old(self).failed);
        }
        self.completed = true;
        proof {
            record_log_push_completed::<T, E>(old(self).received@);
        }
    }

    fn on_error(&mut self, error: E) {
        proof {
            record_log_open::<T, E>(old(self).received@, old(self).completed, old(self).failed);
        }
        self.failed = Some(error);
        proof {
            record_log_push_failed::<T, E>(old(self).received@, error);
        }
    }
}

/// The log described by a record of optional values: each `Some` is a
/// delivered value and each `None` is the completion.
pub open spec fn option_log<T, E>(received: Seq<Option<T>>) -> Seq<Event<T, E>> {
    received.map_values(
        |o: Option<T>|
            match o {
                Some(x) => Event::<T, E>::Next(x),
                None => Event::<T, E>::Completed,
            },
    )
}

/// An observer that records each notification as an optional value:
/// `Some(item)` for a value, `None` for completion. It has no error
/// handler: no verified source may deliver a failure to it.
pub struct OptionObserver<T> {
    /// One entry per notification, in order of delivery.
    pub received: Vec<Option<T>>,
}

impl<T> OptionObserver<T> {
    /// Creates an observer with an empty record.
    pub fn new() -> (r: OptionObserver<T>)
        ensures
            r.received@ == Seq::<Option<T>>::empty(),
    {
        OptionObserver { received: Vec::new() }
    }
}

impl<T, E> Observer<T, E> for OptionObserver<T> {
    open spec fn inv(&self) -> bool {
        true
    }

    open spec fn log(&self) -> Seq<Event<T, E>> {
        option_log(self.received@)
    }

    open spec fn accepts_failure(&self) -> bool {
        false
    }

    open spec fn same_frame(&self, other: &Self) -> bool {
        true
    }

    proof fn frame_refl(&self) {
    }

    proof fn frame_trans(&self, mid: &Self, other: &Self) {
    }

    fn on_next(&mut self, item: T) {
        self.received.push(Some(item));
        proof {
            assert(option_log::<T, E>(self.received@) =~= option_log::<T, E>(
                old(self).received@,
            ).push(Event::Next(item)));
        }
    }

    fn on_completed(&mut self) {
        self.received.push(None);
        proof {
            assert(option_log::<T, E>(self.received@) =~= option_log::<T, E>(
                old(self).received@,
            ).push(Event::Completed));
        }
    }

    fn on_error(&mut self, _error: E) {
        vstd::pervasive::unreached()
    }
}

/// The log described by a record of results: `Ok(Some)` is a value,
/// `Ok(None)` is the completion, `Err` is the failure.
pub open spec fn result_log<T, E>(received: Seq<Result<Option<T>, E>>) -> Seq<Event<T, E>> {
    received.map_values(
        |r: Result<Option<T>, E>|
            match r {
                Ok(Some(x)) => Event::<T, E>::Next(x),
                Ok(None) => Event::<T, E>::Completed,
                Err(e) => Event::<T, E>::Failed(e),
            },
    )
}

/// An observer that records each notification as a result:
/// `Ok(Some(item))` for a value, `Ok(None)` for completion, and
/// `Err(error)` for a failure. It accepts every outcome of the stream.
pub struct ResultObserver<T, E> {
    /// One entry per notification, in order of delivery.
    pub received: Vec<Result<Option<T>, E>>,
}

impl<T, E> ResultObserver<T, E> {
    /// Creates an observer with an empty record.
    pub fn new() -> (r: ResultObserver<T, E>)
        ensures
            r.received@ == Seq::<Result<Option<T>, E>>::empty(),
    {
        ResultObserver { received: Vec::new() }
    }
}

impl<T, E> Observer<T, E> for ResultObserver<T, E> {
    open spec fn inv(&self) -> bool {
        true
    }

    open spec fn log(&self) -> Seq<Event<T, E>> {
        result_log(self.received@)
    }

    open spec fn accepts_failure(&self) -> bool {
        true
    }

    open spec fn same_frame(&self, other: &Self) -> bool {
        true
    }

    proof fn frame_refl(&self) {
    }

    proof fn frame_trans(&self, mid: &Self, other: &Self) {
    }

    fn on_next(&mut self, item: T) {
        self.received.push(Ok(Some(item)));
        proof {
            assert(result_log::<T, E>(self.received@) =~= result_log::<T, E>(
                old(self).received@,
            ).push(Event::Next(item)));
        }
    }

    fn on_completed(&mut self) {
        self.received.push(Ok(None));
        proof {
            assert(result_log::<T, E>(self.received@) =~= result_log::<T, E>(
                old(self).received@,
            ).push(Event::Completed));
        }
    }

    fn on_error(&mut self, error: E) {
        self.received.push(Err(error));
        proof {
            assert(result_log::<T, E>(self.received@) =~= result_log::<T, E>(
                old(self).received@,
            ).push(Event::Failed(error)));
        }
    }
}

} // verus!
