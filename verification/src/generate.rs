use vstd::prelude::*;

use core::marker::PhantomData;

use crate::events::Event;
use crate::observable::Observable;
use crate::observer::Observer;

verus! {

/// An observable that produces an error when subscribed to.
pub struct ErrorObservable<T, E> {
    error: E,
    phantom: PhantomData<T>,
}

impl<T, E: Copy> Observable for ErrorObservable<T, E> {
    type Item = T;

    type Error = E;

    type Subscription = crate::UncancellableSubscription;

    open spec fn inv(&self) -> bool {
        true
    }

    closed spec fn events(&self) -> Seq<Event<T, E>> {
        seq![Event::Failed(self.error)]
    }

    open spec fn may_fail(&self) -> bool {
        true
    }

    fn subscribe<Ob: Observer<T, E>>(&mut self, observer: Ob) -> (r: (
        Ob,
        crate::UncancellableSubscription,
    )) {
        let mut ob = observer;
        ob.on_error(self.error);
        proof {
            assert(ob.log() =~= observer.log() + self.events());
        }
        (ob, crate::UncancellableSubscription)
    }
}

/// Returns an observable that fails with the given error when subscribed
/// to.
///
/// On its own an observable that always fails has limited use, but it can
/// be convenient when combining observables.
pub fn error<T, E: Copy>(err: E) -> (r: ErrorObservable<T, E>)
    ensures
        r.inv(),
        r.events() == seq![Event::<T, E>::Failed(err)],
{
    ErrorObservable { error: err, phantom: PhantomData }
}

/// An observable that never pushes a value and never completes.
pub struct Never<T, E> {
    phantom_t: PhantomData<T>,
    phantom_e: PhantomData<E>,
}

/// The result of subscribing to a never observable.
///
/// Note that dropping this subscription has no effect, as a never
/// observable never pushes a value anyway.
pub struct NeverSubscription;

impl<T, E> Never<T, E> {
    /// Creates an observable that never pushes a value and never
    /// completes.
    pub fn new() -> (r: Never<T, E>)
        ensures
            r.inv(),
            r.events() == Seq::<Event<T, E>>::empty(),
    {
        Never { phantom_t: PhantomData, phantom_e: PhantomData }
    }
}

impl<T, E> Observable for Never<T, E> {
    type Item = T;

    type Error = E;

    type Subscription = NeverSubscription;

    open spec fn inv(&self) -> bool {
        true
    }

    open spec fn events(&self) -> Seq<Event<T, E>> {
        Seq::empty()
    }

    open spec fn may_fail(&self) -> bool {
        false
    }

    fn subscribe<Ob: Observer<T, E>>(&mut self, observer: Ob) -> (r: (Ob, NeverSubscription)) {
        proof {
            observer.frame_refl();
            assert(observer.log() =~= observer.log() + self.events());
        }
        (observer, NeverSubscription)
    }
}

} // verus!
