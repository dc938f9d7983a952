//! A push-based reactive stream library.
//!
//! Observables notify observers of a sequence of values terminated by at
//! most one completion or failure. Every observer keeps a log of the
//! events it received, and every observable's contract states exactly
//! which events a subscription delivers.

pub mod events;
pub mod generate;
pub mod lifeline;
pub mod observable;
pub mod observer;
pub mod subject;
pub mod transform;

pub use generate::error;
pub use observable::Observable;
pub use observer::Observer;
pub use subject::Subject;

use vstd::prelude::*;

use crate::events::Event;
use crate::events::terminated;

verus! {

/// A subscription whose release is a no-op: the observable it came from
/// finished delivering before the subscription existed.
pub struct UncancellableSubscription;

/// Observable implementation for `Option`.
///
/// Upon subscription, this pushes the value if the option is `Some`, and
/// then completes. If the option is `None` it completes immediately.
/// Subscribing does not modify the option, and this observable does not
/// fail.
impl<T: Copy> Observable for Option<T> {
    type Item = T;

    type Error = ();

    type Subscription = UncancellableSubscription;

    open spec fn inv(&self) -> bool {
        true
    }

    open spec fn events(&self) -> Seq<Event<T, ()>> {
        match *self {
            Some(x) => seq![Event::Next(x), Event::Completed],
            None => seq![Event::Completed],
        }
    }

    open spec fn may_fail(&self) -> bool {
        false
    }

    fn subscribe<Ob: Observer<T, ()>>(&mut self, observer: Ob) -> (r: (
        Ob,
        UncancellableSubscription,
    )) {
        let mut ob = observer;
        proof {
            observer.frame_refl();
        }
        if let Some(x) = *self {
            ob.on_next(x);
        }
        let ghost mid = ob;
        ob.on_completed();
        proof {
            observer.frame_trans(&mid, &ob);
            assert(ob.log() =~= observer.log() + self.events());
        }
        (ob, UncancellableSubscription)
    }
}

/// Observable implementation for slices.
///
/// Upon subscription, this pushes a value for every element of the slice
/// in order and then completes. The returned subscription is not
/// cancellable: the observable completes before the call to `subscribe()`
/// returns. This observable does not fail.
impl<'i, T: Copy> Observable for &'i [T] {
    type Item = T;

    type Error = ();

    type Subscription = UncancellableSubscription;

    open spec fn inv(&self) -> bool {
        true
    }

    open spec fn events(&self) -> Seq<Event<T, ()>> {
        (*self)@.map_values(|x: T| Event::<T, ()>::Next(x)).push(Event::Completed)
    }

    open spec fn may_fail(&self) -> bool {
        false
    }

    fn subscribe<Ob: Observer<T, ()>>(&mut self, observer: Ob) -> (r: (
        Ob,
        UncancellableSubscription,
    )) {
        let s: &[T] = *self;
        let mut ob = observer;
        proof {
            observer.frame_refl();
        }
        let mut i: usize = 0;
        while i < s.len()
            invariant
                i <= s.len(),
                ob.inv(),
                observer.same_frame(&ob),
                ob.accepts_failure() == observer.accepts_failure(),
                ob.log() == observer.log() + s@.subrange(0, i as int).map_values(
                    |x: T| Event::<T, ()>::Next(x),
                ),
                !terminated(observer.log()),
            decreases s.len() - i,
        {
            proof {
                if i > 0 {
                    assert(ob.log().last() == s@.subrange(0, i as int).map_values(
                        |x: T| Event::<T, ()>::Next(x),
                    ).last());
                }
            }
            let ghost mid = ob;
            ob.on_next(s[i]);
            proof {
                observer.frame_trans(&mid, &ob);
                assert(s@.subrange(0, i + 1 as int).map_values(|x: T| Event::<T, ()>::Next(x))
                    =~= s@.subrange(0, i as int).map_values(|x: T| Event::<T, ()>::Next(x)).push(
                    Event::Next(s@[i as int]),
                ));
            }
            i += 1;
        }
        proof {
            if s.len() > 0 {
                assert(ob.log().last() == s@.subrange(0, s@.len() as int).map_values(
                    |x: T| Event::<T, ()>::Next(x),
                ).last());
            }
        }
        let ghost mid = ob;
        ob.on_completed();
        proof {
            observer.frame_trans(&mid, &ob);
            assert(s@.subrange(0, s@.len() as int) =~= s@);
            assert(ob.log() =~= observer.log() + self.events());
        }
        (ob, UncancellableSubscription)
    }
}

/// Observable implementation for `Result`.
///
/// Upon subscription, this either pushes the success value and completes,
/// or fails with the error. Subscribing does not modify the result.
impl<T: Copy, E: Copy> Observable for Result<T, E> {
    type Item = T;

    type Error = E;

    type Subscription = UncancellableSubscription;

    open spec fn inv(&self) -> bool {
        true
    }

    open spec fn events(&self) -> Seq<Event<T, E>> {
        match *self {
            Ok(x) => seq![Event::Next(x), Event::Completed],
            Err(e) => seq![Event::Failed(e)],
        }
    }

    open spec fn may_fail(&self) -> bool {
        self is Err
    }

    fn subscribe<Ob: Observer<T, E>>(&mut self, observer: Ob) -> (r: (
        Ob,
        UncancellableSubscription,
    )) {
        let mut ob = observer;
        proof {
            observer.frame_refl();
        }
        match *self {
            Ok(x) => {
                ob.on_next(x);
                let ghost mid = ob;
                ob.on_completed();
                proof {
                    observer.frame_trans(&mid, &ob);
                }
            },
            Err(e) => {
                ob.on_error(e);
            },
        }
        proof {
            assert(ob.log() =~= observer.log() + self.events());
        }
        (ob, UncancellableSubscription)
    }
}

} // verus!
