use vstd::prelude::*;

use crate::events::Event;
use crate::events::all_next;
use crate::events::ends_completed;
use crate::events::map_failed_log;
use crate::events::map_next_log;
use crate::events::terminated;
use crate::lifeline;
use crate::lifeline::Store;
use crate::observable::Observable;
use crate::observer::Observer;

verus! {

broadcast use crate::lifeline::lemma_lifeline_slot_nonneg, crate::lifeline::lemma_owner_slot_nonneg;

/// A reusable value transformation with an exact specification.
///
/// The map combinators apply such a transformation once per delivered
/// notification, through a shared reference, so applying it must not
/// consume captured state, and it must be total over its input type.
pub trait Transform: Sized {
    /// The type the transformation consumes.
    type In;

    /// The type the transformation produces.
    type Out;

    /// What the transformation computes.
    spec fn spec_apply(&self, x: Self::In) -> Self::Out;

    /// Applies the transformation.
    fn apply(&self, x: Self::In) -> (y: Self::Out)
        ensures
            y == self.spec_apply(x),
    ;
}

/// The transformation as a specification-level function value.
pub open spec fn apply_fn<F: Transform>(f: F) -> spec_fn(F::In) -> F::Out {
    |x: F::In| f.spec_apply(x)
}

/// Doubles a byte, wrapping around on overflow.
#[derive(Clone, Copy)]
pub struct Doubler;

impl Transform for Doubler {
    type In = u8;

    type Out = u8;

    open spec fn spec_apply(&self, x: u8) -> u8 {
        ((2 * x) % 256) as u8
    }

    fn apply(&self, x: u8) -> (y: u8) {
        let w: u16 = (x as u16) * 2;
        (w % 256) as u8
    }
}

/// Adapter observer built by `MapObservable`: it hands every value
/// through the transformation and forwards the other notifications
/// untouched.
struct MapObserver<E, F: Transform, Ob> {
    f: F,
    inner: Ob,
    base: Ghost<Seq<Event<F::Out, E>>>,
    received: Ghost<Seq<Event<F::In, E>>>,
}

impl<E, F: Transform, Ob: Observer<F::Out, E>> Observer<F::In, E> for MapObserver<E, F, Ob> {
    closed spec fn inv(&self) -> bool {
        &&& self.inner.inv()
        &&& !terminated(self.base@)
        &&& self.inner.log() == self.base@ + map_next_log(apply_fn(self.f), self.received@)
    }

    closed spec fn log(&self) -> Seq<Event<F::In, E>> {
        self.received@
    }

    closed spec fn accepts_failure(&self) -> bool {
        self.inner.accepts_failure()
    }

    closed spec fn same_frame(&self, other: &Self) -> bool {
        &&& other.f == self.f
        &&& other.base == self.base
        &&& self.inner.same_frame(&other.inner)
    }

    proof fn frame_refl(&self) {
        self.inner.frame_refl();
    }

    proof fn frame_trans(&self, mid: &Self, other: &Self) {
        self.inner.frame_trans(&mid.inner, &other.inner);
    }

    fn on_next(&mut self, item: F::In) {
        proof {
            lemma_map_next_log_open(apply_fn(self.f), self.base@, self.received@);
        }
        let y = self.f.apply(item);
        self.inner.on_next(y);
        proof {
            self.received@ = self.received@.push(Event::Next(item));
            assert(map_next_log(apply_fn(self.f), self.received@) =~= map_next_log(
                apply_fn(self.f),
                old(self).received@,
            ).push(Event::Next(apply_fn(self.f)(item))));
        }
    }

    fn on_completed(&mut self) {
        proof {
            lemma_map_next_log_open(apply_fn(self.f), self.base@, self.received@);
        }
        self.inner.on_completed();
        proof {
            self.received@ = self.received@.push(Event::Completed);
            assert(map_next_log(apply_fn(self.f), self.received@) =~= map_next_log(
                apply_fn(self.f),
                old(self).received@,
            ).push(Event::Completed));
        }
    }

    fn on_error(&mut self, error: E) {
        proof {
            lemma_map_next_log_open(apply_fn(self.f), self.base@, self.received@);
        }
        self.inner.on_error(error);
        proof {
            self.received@ = self.received@.push(Event::Failed(error));
            assert(map_next_log(apply_fn(self.f), self.received@) =~= map_next_log(
                apply_fn(self.f),
                old(self).received@,
            ).push(Event::Failed(error)));
        }
    }
}

/// An adapter whose downstream log is still open has itself received no
/// terminal event, and the other way round.
proof fn lemma_map_next_log_open<T, U, E>(
    f: spec_fn(T) -> U,
    base: Seq<Event<U, E>>,
    received: Seq<Event<T, E>>,
)
    requires
        !terminated(base),
    ensures
        terminated(base + map_next_log(f, received)) == terminated(received),
{
    let mapped = map_next_log(f, received);
    if received.len() == 0 {
        assert(base + mapped =~= base);
    } else {
        assert((base + mapped).last() == mapped.last());
        assert(mapped.last() == crate::events::map_next(f, received.last()));
    }
}

/// The result of calling `map()` on an observable.
pub struct MapObservable<Source, F> {
    source: Source,
    f: F,
}

impl<Source: Observable, F: Transform<In = Source::Item> + Copy> MapObservable<Source, F> {
    /// Wraps the source so that every value it delivers is handed
    /// through the transformation.
    pub fn new(source: Source, f: F) -> (r: MapObservable<Source, F>)
        ensures
            r.inv() == source.inv(),
            r.events() == map_next_log(apply_fn(f), source.events()),
            r.may_fail() == source.may_fail(),
    {
        MapObservable { source, f }
    }
}

impl<Source: Observable, F: Transform<In = Source::Item> + Copy> Observable for MapObservable<
    Source,
    F,
> {
    type Item = F::Out;

    type Error = Source::Error;

    type Subscription = Source::Subscription;

    closed spec fn inv(&self) -> bool {
        self.source.inv()
    }

    closed spec fn events(&self) -> Seq<Event<F::Out, Source::Error>> {
        map_next_log(apply_fn(self.f), self.source.events())
    }

    closed spec fn may_fail(&self) -> bool {
        self.source.may_fail()
    }

    fn subscribe<Ob: Observer<F::Out, Source::Error>>(&mut self, observer: Ob) -> (r: (
        Ob,
        Source::Subscription,
    )) {
        let ghost base = observer.log();
        let adapter = MapObserver {
            f: self.f,
            inner: observer,
            base: Ghost(base),
            received: Ghost(Seq::empty()),
        };
        proof {
            assert(base + map_next_log(apply_fn(self.f), Seq::<
                Event<F::In, Source::Error>,
            >::empty()) =~= base);
        }
        let (adapter, sub) = self.source.subscribe(adapter);
        proof {
            assert(adapter.received@ =~= self.source.events());
            assert(adapter.inner.log() =~= base + self.events());
        }
        let MapObserver { inner, .. } = adapter;
        proof {
            assert(observer.same_frame(&inner));
        }
        (inner, sub)
    }
}

/// Adapter observer built by `MapErrorObservable`: it hands a failure
/// through the transformation and forwards the other notifications
/// untouched.
struct MapErrorObserver<T, F: Transform, Ob> {
    f: F,
    inner: Ob,
    base: Ghost<Seq<Event<T, F::Out>>>,
    received: Ghost<Seq<Event<T, F::In>>>,
}

impl<T, F: Transform, Ob: Observer<T, F::Out>> Observer<T, F::In> for MapErrorObserver<T, F, Ob> {
    closed spec fn inv(&self) -> bool {
        &&& self.inner.inv()
        &&& !terminated(self.base@)
        &&& self.inner.log() == self.base@ + map_failed_log(apply_fn(self.f), self.received@)
    }

    closed spec fn log(&self) -> Seq<Event<T, F::In>> {
        self.received@
    }

    closed spec fn accepts_failure(&self) -> bool {
        self.inner.accepts_failure()
    }

    closed spec fn same_frame(&self, other: &Self) -> bool {
        &&& other.f == self.f
        &&& other.base == self.base
        &&& self.inner.same_frame(&other.inner)
    }

    proof fn frame_refl(&self) {
        self.inner.frame_refl();
    }

    proof fn frame_trans(&self, mid: &Self, other: &Self) {
        self.inner.frame_trans(&mid.inner, &other.inner);
    }

    fn on_next(&mut self, item: T) {
        proof {
            lemma_map_failed_log_open(apply_fn(self.f), self.base@, self.received@);
        }
        self.inner.on_next(item);
        proof {
            self.received@ = self.received@.push(Event::Next(item));
            assert(map_failed_log(apply_fn(self.f), self.received@) =~= map_failed_log(
                apply_fn(self.f),
                old(self).received@,
            ).push(Event::Next(item)));
        }
    }

    fn on_completed(&mut self) {
        proof {
            lemma_map_failed_log_open(apply_fn(self.f), self.base@, self.received@);
        }
        self.inner.on_completed();
        proof {
            self.received@ = self.received@.push(Event::Completed);
            assert(map_failed_log(apply_fn(self.f), self.received@) =~= map_failed_log(
                apply_fn(self.f),
                old(self).received@,
            ).push(Event::Completed));
        }
    }

    fn on_error(&mut self, error: F::In) {
        proof {
            lemma_map_failed_log_open(apply_fn(self.f), self.base@, self.received@);
        }
        let e = self.f.apply(error);
        self.inner.on_error(e);
        proof {
            self.received@ = self.received@.push(Event::Failed(error));
            assert(map_failed_log(apply_fn(self.f), self.received@) =~= map_failed_log(
                apply_fn(self.f),
                old(self).received@,
            ).push(Event::Failed(apply_fn(self.f)(error))));
        }
    }
}

/// An adapter whose downstream log is still open has itself received no
/// terminal event, and the other way round.
proof fn lemma_map_failed_log_open<T, E, G>(
    f: spec_fn(E) -> G,
    base: Seq<Event<T, G>>,
    received: Seq<Event<T, E>>,
)
    requires
        !terminated(base),
    ensures
        terminated(base + map_failed_log(f, received)) == terminated(received),
{
    let mapped = map_failed_log(f, received);
    if received.len() == 0 {
        assert(base + mapped =~= base);
    } else {
        assert((base + mapped).last() == mapped.last());
        assert(mapped.last() == crate::events::map_failed(f, received.last()));
    }
}

/// The result of calling `map_error()` on an observable.
pub struct MapErrorObservable<Source, G> {
    source: Source,
    f: G,
}

impl<Source: Observable, G: Transform<In = Source::Error> + Copy> MapErrorObservable<Source, G> {
    /// Wraps the source so that a failure it delivers is handed through
    /// the transformation.
    pub fn new(source: Source, f: G) -> (r: MapErrorObservable<Source, G>)
        ensures
            r.inv() == source.inv(),
            r.events() == map_failed_log(apply_fn(f), source.events()),
            r.may_fail() == source.may_fail(),
    {
        MapErrorObservable { source, f }
    }
}

impl<Source: Observable, G: Transform<In = Source::Error> + Copy> Observable for MapErrorObservable<
    Source,
    G,
> {
    type Item = Source::Item;

    type Error = G::Out;

    type Subscription = Source::Subscription;

    closed spec fn inv(&self) -> bool {
        self.source.inv()
    }

    closed spec fn events(&self) -> Seq<Event<Source::Item, G::Out>> {
        map_failed_log(apply_fn(self.f), self.source.events())
    }

    closed spec fn may_fail(&self) -> bool {
        self.source.may_fail()
    }

    fn subscribe<Ob: Observer<Source::Item, G::Out>>(&mut self, observer: Ob) -> (r: (
        Ob,
        Source::Subscription,
    )) {
        let ghost base = observer.log();
        let adapter = MapErrorObserver {
            f: self.f,
            inner: observer,
            base: Ghost(base),
            received: Ghost(Seq::empty()),
        };
        proof {
            assert(base + map_failed_log(apply_fn(self.f), Seq::<
                Event<Source::Item, G::In>,
            >::empty()) =~= base);
        }
        let (adapter, sub) = self.source.subscribe(adapter);
        proof {
            assert(adapter.received@ =~= self.source.events());
            assert(adapter.inner.log() =~= base + self.events());
        }
        let MapErrorObserver { inner, .. } = adapter;
        proof {
            assert(observer.same_frame(&inner));
        }
        (inner, sub)
    }
}

/// The result of subscribing to a `continue_with()` observable.
///
/// It owns the subscription to the first observable together with the
/// lifeline slot that records, once the first observable completes, the
/// subscription to the second one. Releasing this value releases both.
pub struct ContinueWithSubscription<SA, SB> {
    subs_source: SA,
    slot_store: Store<Option<SB>>,
    subs_next: lifeline::Lifeline,
}

impl<SA, SB> ContinueWithSubscription<SA, SB> {
    /// The lifeline of the slot points into the slot store.
    pub closed spec fn wf(&self) -> bool {
        0 <= self.subs_next.slot() < self.slot_store@.len()
    }

    /// Whether the slot holds the subscription to the follow-on
    /// observable: it is populated exactly when the first observable
    /// completed normally.
    pub closed spec fn chained(&self) -> bool {
        &&& 0 <= self.subs_next.slot() < self.slot_store@.len()
        &&& self.slot_store@[self.subs_next.slot()] is Some
        &&& self.slot_store@[self.subs_next.slot()]->0 is Some
    }

    /// Whether the follow-on observable has been subscribed.
    pub fn is_chained(&self) -> (b: bool)
        requires
            self.wf(),
        ensures
            b == self.chained(),
    {
        let i: usize = self.subs_next.index();
        match self.slot_store.get(i) {
            Some(inner) => inner.is_some(),
            None => false,
        }
    }
}

/// Adapter observer built by `ContinueWithObservable`: it forwards
/// values and failures untouched, and on completion of the first
/// observable subscribes the downstream observer to the second one,
/// recording that subscription in the lifeline slot.
struct ChainObserver<B: Observable, Ob> {
    inner: Option<Ob>,
    next: Option<B>,
    store: Store<Option<B::Subscription>>,
    owner: lifeline::Owner,
    base: Ghost<Seq<Event<B::Item, B::Error>>>,
    received: Ghost<Seq<Event<B::Item, B::Error>>>,
    orig_next: Ghost<B>,
    af: Ghost<bool>,
}

impl<B: Observable, Ob: Observer<B::Item, B::Error>> Observer<B::Item, B::Error> for ChainObserver<
    B,
    Ob,
> {
    closed spec fn inv(&self) -> bool {
        &&& self.inner is Some
        &&& self.inner->0.inv()
        &&& self.next == Some(self.orig_next@)
        &&& self.orig_next@.inv()
        &&& (self.orig_next@.may_fail() ==> self.af@)
        &&& self.inner->0.accepts_failure() == self.af@
        &&& 0 <= self.owner.slot() < self.store@.len()
        &&& !terminated(self.base@)
        &&& if !terminated(self.received@) {
            &&& all_next(self.received@)
            &&& self.inner->0.log() == self.base@ + self.received@
            &&& self.store@[self.owner.slot()] == Some(None::<B::Subscription>)
        } else if ends_completed(self.received@) {
            &&& all_next(self.received@.drop_last())
            &&& self.inner->0.log() == self.base@ + self.received@.drop_last()
                + self.orig_next@.events()
            &&& self.store@[self.owner.slot()] is Some
            &&& self.store@[self.owner.slot()]->0 is Some
        } else {
            &&& all_next(self.received@.drop_last())
            &&& self.inner->0.log() == self.base@ + self.received@
            &&& self.store@[self.owner.slot()] == Some(None::<B::Subscription>)
        }
    }

    closed spec fn log(&self) -> Seq<Event<B::Item, B::Error>> {
        self.received@
    }

    closed spec fn accepts_failure(&self) -> bool {
        self.af@
    }

    closed spec fn same_frame(&self, other: &Self) -> bool {
        &&& other.orig_next == self.orig_next
        &&& other.af == self.af
        &&& other.base == self.base
        &&& other.owner == self.owner
        &&& other.store@.len() == self.store@.len()
        &&& match (self.inner, other.inner) {
            (Some(a), Some(b)) => a.same_frame(&b),
            (None, None) => true,
            _ => false,
        }
    }

    proof fn frame_refl(&self) {
        match self.inner {
            Some(a) => a.frame_refl(),
            None => (),
        }
    }

    proof fn frame_trans(&self, mid: &Self, other: &Self) {
        match (self.inner, mid.inner, other.inner) {
            (Some(a), Some(b), Some(c)) => a.frame_trans(&b, &c),
            _ => (),
        }
    }

    fn on_next(&mut self, item: B::Item) {
        proof {
            lemma_open_extension(self.base@, self.received@);
        }
        let mut ob = self.inner.take().unwrap();
        ob.on_next(item);
        self.inner = Some(ob);
        proof {
            self.received@ = self.received@.push(Event::Next(item));
            assert(self.inner->0.log() =~= self.base@ + self.received@);
            assert forall|i: int| 0 <= i < self.received@.len() implies self.received@[i]
                is Next by {
                if i < self.received@.len() - 1 {
                    assert(self.received@[i] == old(self).received@[i]);
                }
            }
        }
    }

    fn on_completed(&mut self) {
        proof {
            lemma_open_extension(self.base@, self.received@);
        }
        let ob = self.inner.take().unwrap();
        let mut b = self.next.take().unwrap();
        let (ob, sub) = b.subscribe(ob);
        self.next = Some(b);
        self.inner = Some(ob);
        let _replaced = self.owner.with_mut_value(&mut self.store, Some(sub));
        proof {
            self.received@ = self.received@.push(Event::Completed);
            assert(self.received@.drop_last() =~= old(self).received@);
            assert(self.inner->0.log() =~= self.base@ + self.received@.drop_last()
                + self.orig_next@.events());
        }
    }

    fn on_error(&mut self, error: B::Error) {
        proof {
            lemma_open_extension(self.base@, self.received@);
        }
        let mut ob = self.inner.take().unwrap();
        ob.on_error(error);
        self.inner = Some(ob);
        proof {
            self.received@ = self.received@.push(Event::Failed(error));
            assert(self.received@.drop_last() =~= old(self).received@);
            assert(self.inner->0.log() =~= self.base@ + self.received@);
        }
    }
}

/// A downstream log made of an open base and a value-only extension is
/// itself still open.
proof fn lemma_open_extension<T, E>(base: Seq<Event<T, E>>, received: Seq<Event<T, E>>)
    requires
        !terminated(base),
        all_next(received),
    ensures
        !terminated(base + received),
{
    if received.len() == 0 {
        assert(base + received =~= base);
    } else {
        assert((base + received).last() == received.last());
    }
}

/// The result of calling `continue_with()` on an observable.
pub struct ContinueWithObservable<Source, ObNext> {
    source: Source,
    next: Option<ObNext>,
}

impl<
    Source: Observable,
    ObNext: Observable<Item = Source::Item, Error = Source::Error>,
> ContinueWithObservable<Source, ObNext> {
    /// Joins the two observables sequentially: the second one is
    /// subscribed only once the first one completes normally.
    pub fn new(source: Source, next: ObNext) -> (r: ContinueWithObservable<Source, ObNext>)
        ensures
            r.inv() == (source.inv() && next.inv()),
            r.first_completes() == ends_completed(source.events()),
            r.events() == (if ends_completed(source.events()) {
                source.events().drop_last() + next.events()
            } else {
                source.events()
            }),
            r.may_fail() == (source.may_fail() || next.may_fail()),
    {
        ContinueWithObservable { source, next: Some(next) }
    }

    /// Whether the first observable ends with a normal completion, so
    /// that a subscription goes on to the second one.
    pub closed spec fn first_completes(&self) -> bool {
        ends_completed(self.source.events())
    }
}

impl<
    Source: Observable,
    ObNext: Observable<Item = Source::Item, Error = Source::Error>,
> Observable for ContinueWithObservable<Source, ObNext> {
    type Item = Source::Item;

    type Error = Source::Error;

    type Subscription = ContinueWithSubscription<Source::Subscription, ObNext::Subscription>;

    closed spec fn inv(&self) -> bool {
        &&& self.source.inv()
        &&& self.next is Some
        &&& self.next->0.inv()
    }

    closed spec fn events(&self) -> Seq<Event<Source::Item, Source::Error>> {
        let ae = self.source.events();
        if ends_completed(ae) {
            ae.drop_last() + self.next->0.events()
        } else {
            ae
        }
    }

    closed spec fn may_fail(&self) -> bool {
        self.source.may_fail() || self.next->0.may_fail()
    }

    fn subscribe<Ob: Observer<Source::Item, Source::Error>>(&mut self, observer: Ob) -> (r: (
        Ob,
        Self::Subscription,
    ))
        ensures
            r.1.wf(),
            r.1.chained() == old(self).first_completes(),
    {
        let ghost base = observer.log();
        let ghost gaf = observer.accepts_failure();
        let mut store: Store<Option<ObNext::Subscription>> = Store::new();
        let (life, owner) = lifeline::new(&mut store, None);
        let b = self.next.take().unwrap();
        let ghost gb = b;
        let adapter = ChainObserver {
            inner: Some(observer),
            next: Some(b),
            store,
            owner,
            base: Ghost(base),
            received: Ghost(Seq::empty()),
            orig_next: Ghost(gb),
            af: Ghost(gaf),
        };
        proof {
            assert(adapter.store@ =~= Seq::<Option<Option<ObNext::Subscription>>>::empty().push(
                Some(None::<ObNext::Subscription>),
            ));
            assert(adapter.inner->0.log() =~= adapter.base@ + adapter.received@);
        }
        let (adapter, sub_a) = self.source.subscribe(adapter);
        proof {
            assert(adapter.received@ =~= self.source.events());
        }
        let ChainObserver { inner, next, store, .. } = adapter;
        self.next = next;
        let ob = inner.unwrap();
        proof {
            let ae = self.source.events();
            if ends_completed(ae) {
                assert(ob.log() =~= base + self.events());
            } else {
                assert(ob.log() =~= base + self.events());
            }
            assert(observer.same_frame(&ob));
        }
        (ob, ContinueWithSubscription { subs_source: sub_a, slot_store: store, subs_next: life })
    }
}

} // verus!
