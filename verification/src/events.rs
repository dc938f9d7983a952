use vstd::prelude::*;

verus! {

/// A single notification of the observer protocol: a value, normal
/// completion, or failure.
///
/// `Event` is a specification-level type: observers record what they
/// received as ordinary data, and expose it in contracts as a sequence
/// of events (their *log*).
pub enum Event<T, E> {
    /// A value was delivered.
    Next(T),
    /// The stream ended normally.
    Completed,
    /// The stream ended with an error.
    Failed(E),
}

/// A log is terminated once its last event is a completion or a failure.
/// Logs grow only through the `Observer` methods, which refuse to append
/// to a terminated log, so a terminal event can only ever sit at the end.
pub open spec fn terminated<T, E>(log: Seq<Event<T, E>>) -> bool {
    log.len() > 0 && !(log.last() is Next)
}

/// Every event of the sequence carries a value.
pub open spec fn all_next<T, E>(d: Seq<Event<T, E>>) -> bool {
    forall|i: int| 0 <= i < d.len() ==> d[i] is Next
}

/// The sequence ends with a normal completion.
pub open spec fn ends_completed<T, E>(d: Seq<Event<T, E>>) -> bool {
    d.len() > 0 && d.last() is Completed
}

/// Applies a function to the value of an event, leaving completion and
/// failure untouched.
pub open spec fn map_next<T, U, E>(f: spec_fn(T) -> U, ev: Event<T, E>) -> Event<U, E> {
    match ev {
        Event::Next(x) => Event::Next(f(x)),
        Event::Completed => Event::Completed,
        Event::Failed(e) => Event::Failed(e),
    }
}

/// Applies a function to every value of a log, leaving completion and
/// failure untouched.
pub open spec fn map_next_log<T, U, E>(f: spec_fn(T) -> U, log: Seq<Event<T, E>>) -> Seq<
    Event<U, E>,
> {
    log.map_values(|ev: Event<T, E>| map_next(f, ev))
}

/// Law: mapping the values of a log leaves every completion and failure
/// event untouched, in place. Together with the contract of the map
/// combinator, this says that the terminal outcome of a mapped source
/// passes through unchanged.
pub proof fn lemma_map_next_log_keeps_outcome<T, U, E>(f: spec_fn(T) -> U, log: Seq<Event<T, E>>)
    ensures
        map_next_log(f, log).len() == log.len(),
        forall|i: int|
            0 <= i < log.len() && (#[trigger] log[i]) is Completed ==> map_next_log(f, log)[i]
                is Completed,
        forall|i: int|
            0 <= i < log.len() && (#[trigger] log[i]) is Failed ==> map_next_log(f, log)[i]
                == Event::<U, E>::Failed(log[i]->Failed_0),
{
    assert forall|i: int|
        0 <= i < log.len() && !((#[trigger] log[i]) is Next) implies map_next_log(f, log)[i]
        == map_next(f, log[i]) by {
    }
}

/// Applies a function to the error of an event, leaving values and
/// completion untouched.
pub open spec fn map_failed<T, E, G>(f: spec_fn(E) -> G, ev: Event<T, E>) -> Event<T, G> {
    match ev {
        Event::Next(x) => Event::Next(x),
        Event::Completed => Event::Completed,
        Event::Failed(e) => Event::Failed(f(e)),
    }
}

/// Applies a function to every error of a log, leaving values and
/// completion untouched.
pub open spec fn map_failed_log<T, E, G>(f: spec_fn(E) -> G, log: Seq<Event<T, E>>) -> Seq<
    Event<T, G>,
> {
    log.map_values(|ev: Event<T, E>| map_failed(f, ev))
}

} // verus!
