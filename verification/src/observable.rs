use vstd::prelude::*;

use crate::events::Event;
use crate::events::terminated;
use crate::observer::CompletedObserver;
use crate::observer::ErrorObserver;
use crate::observer::NextObserver;
use crate::observer::Observer;
use crate::observer::OptionObserver;
use crate::observer::ResultObserver;
use crate::observer::option_log;
use crate::observer::record_log;
use crate::observer::result_log;

verus! {

/// A stream of values.
///
/// An observable represents a push-based stream: subscribing an observer
/// delivers zero or more values, then at most one completion or failure.
/// The specification-level view of an observable is `events()`, the
/// sequence of events one subscription delivers; `subscribe` appends
/// exactly that sequence to the observer's log and leaves the observable
/// unchanged, so an observable may be subscribed any number of times.
///
/// Delivery here is synchronous: by the time `subscribe` returns, the
/// whole event sequence has been delivered and the observer is handed
/// back for inspection. A hot source that delivers events only after
/// subscription (the `Subject`) is driven separately by its own observer
/// side and does not implement this trait.
pub trait Observable: Sized {
    /// The value produced by the observable.
    type Item;

    /// The error produced if the observable fails.
    type Error;

    /// The result of subscribing an observer.
    type Subscription;

    /// Structural well-formedness of the observable's own state.
    spec fn inv(&self) -> bool;

    /// The events one subscription delivers, in order.
    spec fn events(&self) -> Seq<Event<Self::Item, Self::Error>>;

    /// Whether a subscription may deliver a failure. Observers without an
    /// error handler can only be subscribed where this is false.
    spec fn may_fail(&self) -> bool;

    /// Subscribes an observer, delivers this observable's events to it,
    /// and returns it together with the subscription handle.
    fn subscribe<Ob: Observer<Self::Item, Self::Error>>(&mut self, observer: Ob) -> (r: (
        Ob,
        Self::Subscription,
    ))
        requires
            old(self).inv(),
            observer.inv(),
            !terminated(observer.log()),
            old(self).may_fail() ==> observer.accepts_failure(),
        ensures
            *final(self) == *old(self),
            r.0.inv(),
            r.0.log() == observer.log() + old(self).events(),
            r.0.accepts_failure() == observer.accepts_failure(),
            observer.same_frame(&r.0),
    ;

    /// Subscribes a fresh recording observer that keeps the values only.
    ///
    /// This form declines to handle errors, so it can only be used on an
    /// observable that does not fail.
    fn subscribe_next(&mut self) -> (r: (NextObserver<Self::Item>, Self::Subscription))
        requires
            old(self).inv(),
            !old(self).may_fail(),
        ensures
            *final(self) == *old(self),
            record_log::<Self::Item, Self::Error>(r.0.received@, r.0.completed, None) == old(
                self,
            ).events(),
    {
        let ob = NextObserver::new();
        proof {
            assert(record_log::<Self::Item, Self::Error>(ob.received@, false, None)
                =~= Seq::<Event<Self::Item, Self::Error>>::empty());
        }
        let (ob, sub) = self.subscribe(ob);
        proof {
            assert(Seq::<Event<Self::Item, Self::Error>>::empty() + old(self).events() =~= old(
                self,
            ).events());
        }
        (ob, sub)
    }

    /// Subscribes a fresh recording observer that keeps the values and
    /// whether the stream completed.
    ///
    /// This form declines to handle errors, so it can only be used on an
    /// observable that does not fail.
    fn subscribe_completed(&mut self) -> (r: (CompletedObserver<Self::Item>, Self::Subscription))
        requires
            old(self).inv(),
            !old(self).may_fail(),
        ensures
            *final(self) == *old(self),
            record_log::<Self::Item, Self::Error>(r.0.received@, r.0.completed, None) == old(
                self,
            ).events(),
    {
        let ob = CompletedObserver::new();
        proof {
            assert(record_log::<Self::Item, Self::Error>(ob.received@, false, None)
                =~= Seq::<Event<Self::Item, Self::Error>>::empty());
        }
        let (ob, sub) = self.subscribe(ob);
        proof {
            assert(Seq::<Event<Self::Item, Self::Error>>::empty() + old(self).events() =~= old(
                self,
            ).events());
        }
        (ob, sub)
    }

    /// Subscribes a fresh recording observer that keeps values,
    /// completion, and failure. This form accepts every outcome.
    fn subscribe_error(&mut self) -> (r: (
        ErrorObserver<Self::Item, Self::Error>,
        Self::Subscription,
    ))
        requires
            old(self).inv(),
        ensures
            *final(self) == *old(self),
            record_log::<Self::Item, Self::Error>(r.0.received@, r.0.completed, r.0.failed) == old(
                self,
            ).events(),
    {
        let ob = ErrorObserver::new();
        proof {
            assert(record_log::<Self::Item, Self::Error>(ob.received@, false, None)
                =~= Seq::<Event<Self::Item, Self::Error>>::empty());
        }
        let (ob, sub) = self.subscribe(ob);
        proof {
            assert(Seq::<Event<Self::Item, Self::Error>>::empty() + old(self).events() =~= old(
                self,
            ).events());
        }
        (ob, sub)
    }

    /// Subscribes a fresh recording observer that keeps one optional
    /// value per notification: `Some` for each value, `None` for the
    /// completion.
    ///
    /// This form declines to handle errors, so it can only be used on an
    /// observable that does not fail.
    fn subscribe_option(&mut self) -> (r: (OptionObserver<Self::Item>, Self::Subscription))
        requires
            old(self).inv(),
            !old(self).may_fail(),
        ensures
            *final(self) == *old(self),
            option_log::<Self::Item, Self::Error>(r.0.received@) == old(self).events(),
    {
        let ob = OptionObserver::new();
        proof {
            assert(option_log::<Self::Item, Self::Error>(ob.received@)
                =~= Seq::<Event<Self::Item, Self::Error>>::empty());
        }
        let (ob, sub) = self.subscribe(ob);
        proof {
            assert(Seq::<Event<Self::Item, Self::Error>>::empty() + old(self).events() =~= old(
                self,
            ).events());
        }
        (ob, sub)
    }

    /// Subscribes a fresh recording observer that keeps one result per
    /// notification: `Ok(Some)` for each value, `Ok(None)` for the
    /// completion, `Err` for a failure. This form accepts every outcome.
    fn subscribe_result(&mut self) -> (r: (
        ResultObserver<Self::Item, Self::Error>,
        Self::Subscription,
    ))
        requires
            old(self).inv(),
        ensures
            *final(self) == *old(self),
            result_log::<Self::Item, Self::Error>(r.0.received@) == old(self).events(),
    {
        let ob = ResultObserver::new();
        proof {
            assert(result_log::<Self::Item, Self::Error>(ob.received@)
                =~= Seq::<Event<Self::Item, Self::Error>>::empty());
        }
        let (ob, sub) = self.subscribe(ob);
        proof {
            assert(Seq::<Event<Self::Item, Self::Error>>::empty() + old(self).events() =~= old(
                self,
            ).events());
        }
        (ob, sub)
    }
}

} // verus!
