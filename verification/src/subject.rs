use vstd::prelude::*;

use core::marker::PhantomData;
use vstd::pervasive::cloned;

use crate::events::Event;
use crate::events::ends_completed;
use crate::events::terminated;
use crate::lifeline;
use crate::lifeline::Owner;
use crate::lifeline::Store;
use crate::observer::Observer;

verus! {

broadcast use crate::lifeline::lemma_lifeline_slot_nonneg, crate::lifeline::lemma_owner_slot_nonneg;

/// Whether some owner of the sequence reads the given slot.
pub open spec fn registered_in(owners: Seq<Owner>, s: int) -> bool {
    exists|j: int| 0 <= j < owners.len() && (#[trigger] owners[j].slot()) == s
}

/// The observers held by the live slots, in slot order.
pub open spec fn live_by_slot<O>(slots: Seq<Option<O>>) -> Seq<O>
    decreases slots.len(),
{
    if slots.len() == 0 {
        Seq::empty()
    } else {
        live_by_slot(slots.drop_last()) + (match slots.last() {
            Some(o) => seq![o],
            None => Seq::empty(),
        })
    }
}

/// Appending a slot appends its observer, if any, to the live sequence.
proof fn lemma_live_by_slot_push<O>(slots: Seq<Option<O>>, x: Option<O>)
    ensures
        live_by_slot(slots.push(x)) == live_by_slot(slots) + (match x {
            Some(o) => seq![o],
            None => Seq::<O>::empty(),
        }),
{
    assert(slots.push(x).drop_last() =~= slots);
    assert(slots.push(x).last() == x);
}

/// The second observer is the first after receiving one failure event
/// carrying some clone of the error.
pub open spec fn failed_with<T, E: Clone, O: Observer<T, E>>(error: E, was: O, got: O) -> bool {
    exists|c: E|
        #[trigger] cloned::<E>(error, c) && got.log() == was.log().push(Event::<T, E>::Failed(c))
}

/// The second log is the first extended by one `Next` event per fed
/// value, in order, each carrying a clone of its value.
pub open spec fn fanned<T: Clone, E>(
    fed: Seq<T>,
    log0: Seq<Event<T, E>>,
    log1: Seq<Event<T, E>>,
) -> bool {
    exists|cs: Seq<T>|
        {
            &&& (#[trigger] cs.len()) == fed.len()
            &&& (forall|i: int| 0 <= i < fed.len() ==> cloned::<T>(fed[i], #[trigger] cs[i]))
            &&& log1 == log0 + cs.map_values(|x: T| Event::<T, E>::Next(x))
        }
}

/// The second log is the first extended by clones of the fed values and
/// then one completion.
pub open spec fn fanned_completed<T: Clone, E>(
    fed: Seq<T>,
    log0: Seq<Event<T, E>>,
    log1: Seq<Event<T, E>>,
) -> bool {
    exists|cs: Seq<T>|
        {
            &&& (#[trigger] cs.len()) == fed.len()
            &&& (forall|i: int| 0 <= i < fed.len() ==> cloned::<T>(fed[i], #[trigger] cs[i]))
            &&& log1 == log0 + cs.map_values(|x: T| Event::<T, E>::Next(x)).push(
                Event::<T, E>::Completed,
            )
        }
}

/// The second log is the first extended by clones of the fed values and
/// then one failure carrying a clone of the error.
pub open spec fn fanned_failed<T: Clone, E: Clone>(
    error: E,
    fed: Seq<T>,
    log0: Seq<Event<T, E>>,
    log1: Seq<Event<T, E>>,
) -> bool {
    exists|cs: Seq<T>, c: E|
        {
            &&& (#[trigger] cs.len()) == fed.len()
            &&& (forall|i: int| 0 <= i < fed.len() ==> cloned::<T>(fed[i], #[trigger] cs[i]))
            &&& (#[trigger] cloned::<E>(error, c))
            &&& log1 == log0 + cs.map_values(|x: T| Event::<T, E>::Next(x)).push(
                Event::<T, E>::Failed(c),
            )
        }
}

/// Feeding nothing fans out to nothing.
proof fn lemma_fanned_nil<T: Clone, E>(log: Seq<Event<T, E>>)
    ensures
        fanned(Seq::<T>::empty(), log, log),
{
    let cs = Seq::<T>::empty();
    assert(cs.len() == Seq::<T>::empty().len());
    assert(log =~= log + cs.map_values(|x: T| Event::<T, E>::Next(x)));
}

/// Fanning out one more value extends the fan-out by one clone.
proof fn lemma_fanned_snoc<T: Clone, E>(
    fed: Seq<T>,
    x: T,
    c: T,
    log0: Seq<Event<T, E>>,
    log1: Seq<Event<T, E>>,
    log2: Seq<Event<T, E>>,
)
    requires
        fanned(fed, log0, log1),
        cloned::<T>(x, c),
        log2 == log1.push(Event::<T, E>::Next(c)),
    ensures
        fanned(fed.push(x), log0, log2),
{
    let cs = choose|cs: Seq<T>|
        {
            &&& (#[trigger] cs.len()) == fed.len()
            &&& (forall|i: int| 0 <= i < fed.len() ==> cloned::<T>(fed[i], #[trigger] cs[i]))
            &&& log1 == log0 + cs.map_values(|x: T| Event::<T, E>::Next(x))
        };
    let cs2 = cs.push(c);
    assert(cs2.len() == fed.push(x).len());
    assert forall|i: int| 0 <= i < fed.push(x).len() implies cloned::<T>(
        fed.push(x)[i],
        #[trigger] cs2[i],
    ) by {
        if i < fed.len() {
            assert(cs2[i] == cs[i]);
            assert(fed.push(x)[i] == fed[i]);
        }
    }
    assert(log2 =~= log0 + cs2.map_values(|x: T| Event::<T, E>::Next(x)));
}

/// A completion after a fan-out closes it.
proof fn lemma_fanned_completed<T: Clone, E>(
    fed: Seq<T>,
    log0: Seq<Event<T, E>>,
    log1: Seq<Event<T, E>>,
    log2: Seq<Event<T, E>>,
)
    requires
        fanned(fed, log0, log1),
        log2 == log1.push(Event::<T, E>::Completed),
    ensures
        fanned_completed(fed, log0, log2),
{
    let cs = choose|cs: Seq<T>|
        {
            &&& (#[trigger] cs.len()) == fed.len()
            &&& (forall|i: int| 0 <= i < fed.len() ==> cloned::<T>(fed[i], #[trigger] cs[i]))
            &&& log1 == log0 + cs.map_values(|x: T| Event::<T, E>::Next(x))
        };
    assert(log2 =~= log0 + cs.map_values(|x: T| Event::<T, E>::Next(x)).push(
        Event::<T, E>::Completed,
    ));
    assert(cs.len() == fed.len());
}

/// A failure after a fan-out closes it with a clone of the error.
proof fn lemma_fanned_failed<T: Clone, E: Clone>(
    error: E,
    c: E,
    fed: Seq<T>,
    log0: Seq<Event<T, E>>,
    log1: Seq<Event<T, E>>,
    log2: Seq<Event<T, E>>,
)
    requires
        fanned(fed, log0, log1),
        cloned::<E>(error, c),
        log2 == log1.push(Event::<T, E>::Failed(c)),
    ensures
        fanned_failed(error, fed, log0, log2),
{
    let cs = choose|cs: Seq<T>|
        {
            &&& (#[trigger] cs.len()) == fed.len()
            &&& (forall|i: int| 0 <= i < fed.len() ==> cloned::<T>(fed[i], #[trigger] cs[i]))
            &&& log1 == log0 + cs.map_values(|x: T| Event::<T, E>::Next(x))
        };
    assert(log2 =~= log0 + cs.map_values(|x: T| Event::<T, E>::Next(x)).push(
        Event::<T, E>::Failed(c),
    ));
    assert(cs.len() == fed.len());
}

/// Slot sequences with the same live slots have pointwise related live
/// observers, for any relation that holds slot by slot.
proof fn lemma_live_by_slot_aligned<O>(
    a: Seq<Option<O>>,
    b: Seq<Option<O>>,
    r: spec_fn(O, O) -> bool,
)
    requires
        a.len() == b.len(),
        forall|s: int| 0 <= s < a.len() ==> ((#[trigger] a[s]) is Some <==> b[s] is Some),
        forall|s: int| 0 <= s < a.len() && (#[trigger] a[s]) is Some ==> r(a[s]->0, b[s]->0),
    ensures
        live_by_slot(a).len() == live_by_slot(b).len(),
        forall|m: int|
            0 <= m < live_by_slot(a).len() ==> r(
                #[trigger] live_by_slot(a)[m],
                live_by_slot(b)[m],
            ),
    decreases a.len(),
{
    if a.len() > 0 {
        let a0 = a.drop_last();
        let b0 = b.drop_last();
        assert forall|s: int| 0 <= s < a0.len() implies ((#[trigger] a0[s]) is Some <==> b0[s]
            is Some) by {
            assert(a0[s] == a[s]);
            assert(b0[s] == b[s]);
        }
        assert forall|s: int| 0 <= s < a0.len() && (#[trigger] a0[s]) is Some implies r(
            a0[s]->0,
            b0[s]->0,
        ) by {
            assert(a0[s] == a[s]);
            assert(b0[s] == b[s]);
        }
        lemma_live_by_slot_aligned(a0, b0, r);
        assert(a.last() == a[a.len() - 1]);
        assert(b.last() == b[b.len() - 1]);
    }
}

/// Appending an owner extends the registered slots by exactly its slot.
proof fn lemma_registered_in_push(os: Seq<Owner>, ow: Owner, s: int)
    ensures
        registered_in(os.push(ow), s) <==> (registered_in(os, s) || ow.slot() == s),
{
    let os1 = os.push(ow);
    if registered_in(os1, s) {
        let j = choose|j: int| 0 <= j < os1.len() && (#[trigger] os1[j].slot()) == s;
        if j < os.len() {
            assert(os[j].slot() == s);
        } else {
            assert(os1[j] == ow);
        }
    }
    if registered_in(os, s) {
        let j = choose|j: int| 0 <= j < os.len() && (#[trigger] os[j].slot()) == s;
        assert(os1[j].slot() == s);
    }
    if ow.slot() == s {
        assert(os1[os.len() as int].slot() == s);
    }
}

/// Both an observer and observable.
///
/// A subject is a multicast hub: values pushed into its observer side are
/// fanned out to every live registration of its observable side. Each
/// registration pairs a stored observer with a lifeline handed out as the
/// subscription; releasing the subscription kills the stored observer,
/// and the registration entry itself is pruned lazily, during the next
/// broadcast.
///
/// The terminal operations consume the subject, so a second terminal
/// broadcast is structurally impossible.
pub struct Subject<T, E, O> {
    store: Store<O>,
    observers: Vec<Owner>,
    phantom: PhantomData<(T, E)>,
}

/// The handle returned by subscribing to a subject.
///
/// Releasing it through `unsubscribe` destroys the registered observer;
/// the subject delivers nothing further to that registration.
pub struct SubjectSubscription {
    alive: lifeline::Lifeline,
}

impl SubjectSubscription {
    /// The registration slot this subscription controls.
    pub closed spec fn slot(&self) -> int {
        self.alive.slot()
    }

    /// Releases the subscription: the registered observer is destroyed
    /// and receives nothing further, while other registrations of the
    /// subject are untouched.
    pub fn unsubscribe<T, E, O: Observer<T, E>>(self, subject: &mut Subject<T, E, O>)
        requires
            old(subject).wf(),
            self.slot() < old(subject).slots().len(),
        ensures
            final(subject).wf(),
            final(subject).slots() == old(subject).slots().update(self.slot(), None::<O>),
            final(subject).registered_set() == old(subject).registered_set(),
    {
        self.alive.release(&mut subject.store);
        proof {
            let s0 = old(subject).store@;
            let s1 = subject.store@;
            assert(s1 == s0.update(self.slot(), None::<O>));
            assert(s0.update(self.slot(), None::<O>).len() == s0.len());
            assert forall|s: int| 0 <= s < s0.len() && s != self.slot() implies s1[s] == s0[s] by {
                assert(s0.update(self.slot(), None::<O>)[s] == s0[s]);
            }
            assert forall|s: int|
                0 <= s < s1.len() && (#[trigger] s1[s]) is Some implies {
                &&& registered_in(subject.observers@, s)
                &&& s1[s]->0.inv()
                &&& !terminated(s1[s]->0.log())
            } by {
                if s == self.slot() {
                    assert(s1[s] is None);
                } else {
                    assert(s1[s] == s0[s]);
                }
            }
        }
    }
}

impl<T, E, O: Observer<T, E>> Subject<T, E, O> {
    /// The registration slots: one entry per subscription ever made,
    /// holding the observer while the registration is alive.
    pub closed spec fn slots(&self) -> Seq<Option<O>> {
        self.store@
    }

    /// Whether the registration list still carries an entry for the slot.
    pub closed spec fn registered(&self, s: int) -> bool {
        registered_in(self.observers@, s)
    }

    /// The registered slots.
    pub open spec fn registered_set(&self) -> Set<int> {
        Set::new(|s: int| self.registered(s))
    }

    /// Well-formedness: every registration entry points at a distinct
    /// slot, every live slot has a registration entry, and every stored
    /// observer is well formed and still open.
    pub closed spec fn wf(&self) -> bool {
        &&& forall|j: int|
            0 <= j < self.observers@.len() ==> 0 <= (#[trigger] self.observers@[j].slot())
                < self.store@.len()
        &&& forall|j: int, k: int|
            0 <= j < k < self.observers@.len() ==> self.observers@[j].slot()
                != self.observers@[k].slot()
        &&& forall|s: int|
            0 <= s < self.store@.len() && (#[trigger] self.store@[s]) is Some ==> registered_in(
                self.observers@,
                s,
            )
        &&& forall|s: int|
            0 <= s < self.store@.len() && (#[trigger] self.store@[s]) is Some ==> self.store@[s]->0.inv()
                && !terminated(self.store@[s]->0.log())
    }

    /// Creates a new subject with no registrations.
    pub fn new() -> (r: Subject<T, E, O>)
        ensures
            r.wf(),
            r.slots() == Seq::<Option<O>>::empty(),
            forall|s: int| !r.registered(s),
    {
        Subject { store: Store::new(), observers: Vec::new(), phantom: PhantomData }
    }

    /// Registers an observer: a fresh slot stores it, the registration
    /// list gains an entry for that slot, and the returned subscription
    /// controls the observer's lifetime.
    pub fn subscribe(&mut self, observer: O) -> (sub: SubjectSubscription)
        requires
            old(self).wf(),
            observer.inv(),
            !terminated(observer.log()),
        ensures
            final(self).wf(),
            final(self).slots() == old(self).slots().push(Some(observer)),
            sub.slot() == old(self).slots().len(),
            forall|s: int|
                final(self).registered(s) <==> (old(self).registered(s) || s == old(
                    self,
                ).slots().len()),
    {
        let (alive, owner) = lifeline::new(&mut self.store, observer);
        self.observers.push(owner);
        proof {
            let owners1 = self.observers@;
            let owners0 = old(self).observers@;
            assert forall|s: int| registered_in(owners1, s) <==> (registered_in(owners0, s) || s
                == old(self).slots().len()) by {
                if registered_in(owners1, s) {
                    let j = choose|j: int|
                        0 <= j < owners1.len() && (#[trigger] owners1[j].slot()) == s;
                    if j < owners0.len() {
                        assert(owners0[j].slot() == s);
                    }
                } else {
                    if registered_in(owners0, s) {
                        let j = choose|j: int|
                            0 <= j < owners0.len() && (#[trigger] owners0[j].slot()) == s;
                        assert(owners1[j].slot() == s);
                    }
                    if s == old(self).slots().len() {
                        assert(owners1[owners1.len() - 1].slot() == s);
                    }
                }
            }
        }
        SubjectSubscription { alive }
    }

    /// Pushes a value into the subject: every live registration receives
    /// its own clone of the item, one clone per recipient, and every
    /// registration whose subscription has been released is pruned from
    /// the registration list.
    pub fn on_next(&mut self, item: T) where T: Clone
        requires
            old(self).wf(),
        ensures
            final(self).wf(),
            final(self).slots().len() == old(self).slots().len(),
            forall|s: int|
                0 <= s < old(self).slots().len() && (#[trigger] old(self).slots()[s]) is Some
                    ==> {
                    &&& final(self).slots()[s] is Some
                    &&& final(self).slots()[s]->0.inv()
                    &&& final(self).slots()[s]->0.accepts_failure() == old(
                        self,
                    ).slots()[s]->0.accepts_failure()
                    &&& exists|c: T|
                        cloned::<T>(item, c) && final(self).slots()[s]->0.log() == old(
                            self,
                        ).slots()[s]->0.log().push(Event::Next(c))
                },
            forall|s: int|
                0 <= s < old(self).slots().len() && (#[trigger] old(self).slots()[s]) is None
                    ==> final(self).slots()[s] is None,
            forall|s: int|
                0 <= s < old(self).slots().len() ==> (final(self).registered(s) <==> (old(
                    self,
                ).registered(s) && old(self).slots()[s] is Some)),
    {
        let ghost slots0 = self.store@;
        let ghost owners0 = self.observers@;
        let ghost n0 = owners0.len() as int;
        let ghost mut j: int = 0;
        let mut pending: Vec<Owner> = Vec::new();
        core::mem::swap(&mut pending, &mut self.observers);
        proof {
            assert(pending@ =~= owners0.subrange(0, n0));
            assert(owners0.subrange(0, 0) =~= Seq::<Owner>::empty());
        }
        while pending.len() > 0
            invariant
                old(self).wf(),
                slots0 == old(self).store@,
                owners0 == old(self).observers@,
                n0 == owners0.len(),
                0 <= j <= n0,
                pending@ == owners0.subrange(j, n0),
                self.store@.len() == slots0.len(),
                // slots not yet delivered to, and dead slots, are unchanged
                forall|s: int|
                    0 <= s < slots0.len() && !(registered_in(owners0.subrange(0, j), s)
                        && #[trigger] slots0[s] is Some) ==> self.store@[s] == slots0[s],
                // slots already delivered to carry the pushed log
                forall|s: int|
                    0 <= s < slots0.len() && registered_in(owners0.subrange(0, j), s)
                        && (#[trigger] slots0[s]) is Some ==> {
                        &&& self.store@[s] is Some
                        &&& self.store@[s]->0.inv()
                        &&& !terminated(self.store@[s]->0.log())
                        &&& self.store@[s]->0.accepts_failure() == slots0[s]->0.accepts_failure()
                        &&& exists|c: T|
                            cloned::<T>(item, c) && self.store@[s]->0.log()
                                == slots0[s]->0.log().push(Event::Next(c))
                    },
                // the rebuilt registration list holds the processed live slots
                forall|m: int|
                    0 <= m < self.observers@.len() ==> 0 <= (
                    #[trigger] self.observers@[m].slot()) < slots0.len(),
                forall|m1: int, m2: int|
                    0 <= m1 < m2 < self.observers@.len() ==> self.observers@[m1].slot()
                        != self.observers@[m2].slot(),
                forall|s: int|
                    registered_in(self.observers@, s) <==> (registered_in(
                        owners0.subrange(0, j),
                        s,
                    ) && 0 <= s < slots0.len() && slots0[s] is Some),
            decreases pending@.len(),
        {
            let ghost store_before = self.store@;
            let ghost kept_before = self.observers@;
            let ghost prefix = owners0.subrange(0, j);
            let owner = pending.remove(0);
            proof {
                assert(owner == owners0[j]);
                assert(pending@ =~= owners0.subrange(j + 1, n0));
                assert(0 <= owners0[j].slot() < slots0.len());
                // this slot has not been visited yet: the first j owners
                // all read other slots
                if registered_in(prefix, owners0[j].slot()) {
                    let k = choose|k: int|
                        0 <= k < prefix.len() && (#[trigger] prefix[k].slot())
                            == owners0[j].slot();
                    assert(owners0[k].slot() == owners0[j].slot());
                }
                assert(!registered_in(prefix, owners0[j].slot()));
                assert(store_before[owner.slot()] == slots0[owner.slot()]);
                assert(owners0.subrange(0, j + 1) =~= prefix.push(owners0[j]));
            }
            let idx = owner.index();
            let taken = self.store.take_at(idx);
            match taken {
                Some(mut o) => {
                    let c = item.clone();
                    o.on_next(c);
                    self.store.put_at(idx, o);
                    self.observers.push(owner);
                    proof {
                        assert(cloned::<T>(item, c));
                        assert(self.store@ =~= store_before.update(idx as int, Some(o)));
                        assert(self.observers@ =~= kept_before.push(owner));
                        assert forall|s: int| registered_in(self.observers@, s) <==> (
                        registered_in(owners0.subrange(0, j + 1), s) && 0 <= s < slots0.len()
                            && slots0[s] is Some) by {
                            lemma_registered_in_push(kept_before, owner, s);
                            lemma_registered_in_push(prefix, owners0[j as int], s);
                        }
                        assert forall|s: int|
                            0 <= s < slots0.len() && registered_in(owners0.subrange(0, j + 1), s)
                                && (#[trigger] slots0[s]) is Some implies {
                            &&& self.store@[s] is Some
                            &&& self.store@[s]->0.inv()
                            &&& !terminated(self.store@[s]->0.log())
                            &&& self.store@[s]->0.accepts_failure()
                                == slots0[s]->0.accepts_failure()
                            &&& exists|cc: T|
                                cloned::<T>(item, cc) && self.store@[s]->0.log()
                                    == slots0[s]->0.log().push(Event::Next(cc))
                        } by {
                            lemma_registered_in_push(prefix, owners0[j as int], s);
                            if s == idx as int {
                                assert(cloned::<T>(item, c) && self.store@[s]->0.log()
                                    == slots0[s]->0.log().push(Event::Next(c)));
                            } else {
                                assert(self.store@[s] == store_before[s]);
                            }
                        }
                        assert forall|s: int|
                            0 <= s < slots0.len() && !(registered_in(
                                owners0.subrange(0, j + 1),
                                s,
                            ) && #[trigger] slots0[s] is Some) implies self.store@[s]
                            == slots0[s] by {
                            lemma_registered_in_push(prefix, owners0[j as int], s);
                            if s != idx as int {
                                assert(self.store@[s] == store_before[s]);
                            }
                        }
                        j = j + 1;
                    }
                },
                None => {
                    proof {
                        assert(self.store@ =~= store_before);
                        assert forall|s: int| registered_in(self.observers@, s) <==> (
                        registered_in(owners0.subrange(0, j + 1), s) && 0 <= s < slots0.len()
                            && slots0[s] is Some) by {
                            lemma_registered_in_push(prefix, owners0[j as int], s);
                        }
                        assert forall|s: int|
                            0 <= s < slots0.len() && !(registered_in(
                                owners0.subrange(0, j + 1),
                                s,
                            ) && #[trigger] slots0[s] is Some) implies self.store@[s]
                            == slots0[s] by {
                            lemma_registered_in_push(prefix, owners0[j as int], s);
                        }
                        j = j + 1;
                    }
                },
            }
        }
        proof {
            assert(owners0.subrange(0, n0) =~= owners0);
            assert(j == n0);
            assert forall|s: int|
                0 <= s < self.store@.len() && (#[trigger] self.store@[s]) is Some implies {
                &&& registered_in(self.observers@, s)
                &&& self.store@[s]->0.inv()
                &&& !terminated(self.store@[s]->0.log())
            } by {
                if slots0[s] is Some {
                    assert(registered_in(owners0, s));
                } else {
                    assert(self.store@[s] == slots0[s]);
                }
            }
        }
    }

    /// Completes the subject: every live registration receives the
    /// completion, in subscription order, and the terminated observers
    /// are handed back for inspection. Registrations whose subscription
    /// was released receive nothing and are dropped.
    ///
    /// This consumes the subject, so no further delivery to any current
    /// or former registration is possible.
    pub fn on_completed(self) -> (r: Vec<O>)
        requires
            self.wf(),
        ensures
            r@.len() == live_by_slot(self.slots()).len(),
            forall|m: int|
                0 <= m < r@.len() ==> {
                    &&& (#[trigger] r@[m]).inv()
                    &&& r@[m].log() == live_by_slot(self.slots())[m].log().push(
                        Event::<T, E>::Completed,
                    )
                },
    {
        let mut subject = self;
        let ghost slots0 = subject.store@;
        let mut result: Vec<O> = Vec::new();
        let n: usize = subject.store.len();
        let mut i: usize = 0;
        proof {
            assert(slots0.subrange(0, 0) =~= Seq::<Option<O>>::empty());
        }
        while i < n
            invariant
                self.wf(),
                slots0 == self.store@,
                n == slots0.len(),
                i <= n,
                subject.store@.len() == slots0.len(),
                forall|s: int| i <= s < slots0.len() ==> subject.store@[s] == slots0[s],
                result@.len() == live_by_slot(slots0.subrange(0, i as int)).len(),
                forall|m: int|
                    0 <= m < result@.len() ==> {
                        &&& (#[trigger] result@[m]).inv()
                        &&& result@[m].log() == live_by_slot(
                            slots0.subrange(0, i as int),
                        )[m].log().push(Event::<T, E>::Completed)
                    },
            decreases n - i,
        {
            let ghost pre = slots0.subrange(0, i as int);
            let taken = subject.store.take_at(i);
            match taken {
                Some(mut o) => {
                    o.on_completed();
                    result.push(o);
                },
                None => {},
            }
            proof {
                assert(slots0.subrange(0, i + 1) =~= pre.push(slots0[i as int]));
                lemma_live_by_slot_push(pre, slots0[i as int]);
            }
            i += 1;
        }
        proof {
            assert(slots0.subrange(0, slots0.len() as int) =~= slots0);
        }
        result
    }

    /// Fails the subject: every live registration receives its own clone
    /// of the error, in subscription order, and the terminated observers
    /// are handed back for inspection. Registrations whose subscription
    /// was released receive nothing and are dropped.
    ///
    /// This consumes the subject, so no further delivery to any current
    /// or former registration is possible.
    pub fn on_error(self, error: E) -> (r: Vec<O>) where E: Clone
        requires
            self.wf(),
            forall|s: int|
                0 <= s < self.slots().len() && (#[trigger] self.slots()[s]) is Some
                    ==> self.slots()[s]->0.accepts_failure(),
        ensures
            r@.len() == live_by_slot(self.slots()).len(),
            forall|m: int|
                0 <= m < r@.len() ==> {
                    &&& (#[trigger] r@[m]).inv()
                    &&& failed_with(error, live_by_slot(self.slots())[m], r@[m])
                },
    {
        let mut subject = self;
        let ghost slots0 = subject.store@;
        let mut result: Vec<O> = Vec::new();
        let n: usize = subject.store.len();
        let mut i: usize = 0;
        proof {
            assert(slots0.subrange(0, 0) =~= Seq::<Option<O>>::empty());
        }
        while i < n
            invariant
                self.wf(),
                forall|s: int|
                    0 <= s < self.slots().len() && (#[trigger] self.slots()[s]) is Some
                        ==> self.slots()[s]->0.accepts_failure(),
                slots0 == self.store@,
                n == slots0.len(),
                i <= n,
                subject.store@.len() == slots0.len(),
                forall|s: int| i <= s < slots0.len() ==> subject.store@[s] == slots0[s],
                result@.len() == live_by_slot(slots0.subrange(0, i as int)).len(),
                forall|m: int|
                    0 <= m < result@.len() ==> {
                        &&& (#[trigger] result@[m]).inv()
                        &&& failed_with(
                            error,
                            live_by_slot(slots0.subrange(0, i as int))[m],
                            result@[m],
                        )
                    },
            decreases n - i,
        {
            let ghost pre = slots0.subrange(0, i as int);
            let ghost result_before = result@;
            let taken = subject.store.take_at(i);
            proof {
                assert(slots0.subrange(0, i + 1) =~= pre.push(slots0[i as int]));
                lemma_live_by_slot_push(pre, slots0[i as int]);
            }
            match taken {
                Some(mut o) => {
                    proof {
                        assert(self.slots()[i as int] == slots0[i as int]);
                        assert(o.accepts_failure());
                    }
                    let c = error.clone();
                    o.on_error(c);
                    result.push(o);
                    proof {
                        let lv1 = live_by_slot(slots0.subrange(0, i + 1));
                        assert(lv1 == live_by_slot(pre) + seq![slots0[i as int]->0]);
                        assert forall|m: int|
                            0 <= m < result@.len() implies {
                            &&& (#[trigger] result@[m]).inv()
                            &&& failed_with(error, lv1[m], result@[m])
                        } by {
                            if m < result@.len() - 1 {
                                assert(result@[m] == result_before[m]);
                                assert(lv1[m] == live_by_slot(pre)[m]);
                            } else {
                                assert(result@[m] == o);
                                assert(lv1[m] == slots0[i as int]->0);
                                assert(cloned::<E>(error, c) && result@[m].log()
                                    == lv1[m].log().push(Event::<T, E>::Failed(c)));
                            }
                        }
                    }
                },
                None => {
                    proof {
                        assert(live_by_slot(slots0.subrange(0, i + 1)) =~= live_by_slot(pre));
                    }
                },
            }
            i += 1;
        }
        proof {
            assert(slots0.subrange(0, slots0.len() as int) =~= slots0);
        }
        result
    }

    /// Wraps the subject in a proxy that exposes only its observable
    /// part.
    ///
    /// This can be used to hand out subscription access while keeping the
    /// observer methods private; `into_subject` recovers the subject for
    /// pushing events.
    pub fn observable(self) -> (r: SubjectObservable<T, E, O>)
        ensures
            r.subject() == self,
    {
        SubjectObservable { subject: self }
    }

    /// Read access to a registered observer, so long as its subscription
    /// has not been released.
    pub fn observer<'a>(&'a self, sub: &SubjectSubscription) -> (r: Option<&'a O>)
        requires
            sub.slot() < self.slots().len(),
        ensures
            match r {
                Some(o) => self.slots()[sub.slot()] == Some(*o),
                None => self.slots()[sub.slot()] is None,
            },
    {
        let i: usize = sub.alive.index();
        self.store.get(i)
    }
}

/// Proxy object that exposes the observable part of a subject.
pub struct SubjectObservable<T, E, O> {
    subject: Subject<T, E, O>,
}

impl<T, E, O: Observer<T, E>> SubjectObservable<T, E, O> {
    /// The subject behind this proxy.
    pub closed spec fn subject(&self) -> Subject<T, E, O> {
        self.subject
    }

    /// Registers an observer with the subject behind this proxy, exactly
    /// as subscribing to the subject itself would.
    pub fn subscribe(&mut self, observer: O) -> (sub: SubjectSubscription)
        requires
            old(self).subject().wf(),
            observer.inv(),
            !terminated(observer.log()),
        ensures
            final(self).subject().wf(),
            final(self).subject().slots() == old(self).subject().slots().push(Some(observer)),
            sub.slot() == old(self).subject().slots().len(),
            forall|s: int|
                final(self).subject().registered(s) <==> (old(self).subject().registered(s) || s
                    == old(self).subject().slots().len()),
    {
        self.subject.subscribe(observer)
    }

    /// Hands the subject back, so that events can be pushed into it.
    pub fn into_subject(self) -> (r: Subject<T, E, O>)
        ensures
            r == self.subject(),
    {
        self.subject
    }
}

/// The observer side of a subject, as a value that any observable can
/// be subscribed with: every notification pushed into it is broadcast by
/// the subject it carries. This lets the plain sources act as upstreams
/// of a subject without special-casing.
///
/// While a value is fed, the subject is held inside; a terminal event
/// consumes the subject, and the drained observers take its place.
pub struct SubjectObserver<T, E, O> {
    /// The subject being fed, until a terminal event consumes it.
    pub subject: Option<Subject<T, E, O>>,
    /// After a terminal event: the drained observers, in subscription
    /// order.
    pub drained: Vec<O>,
    /// The subject's registration slots at construction.
    pub base: Ghost<Seq<Option<O>>>,
    /// The values fed so far, in order.
    pub fed: Ghost<Seq<T>>,
    /// The events received so far, in order.
    pub received: Ghost<Seq<Event<T, E>>>,
}

/// The subject's registrations carry exactly the fed values, fanned out:
/// the live slots are those that were live at construction, and each
/// live observer's log is its original log extended by one clone of
/// every fed value.
pub open spec fn subject_fed<T: Clone, E, O: Observer<T, E>>(
    fed: Seq<T>,
    base: Seq<Option<O>>,
    subject: Subject<T, E, O>,
) -> bool {
    &&& subject.wf()
    &&& subject.slots().len() == base.len()
    &&& forall|s: int|
        0 <= s < base.len() ==> (((#[trigger] base[s]) is Some) <==> subject.slots()[s] is Some)
    &&& forall|s: int|
        0 <= s < base.len() && (#[trigger] base[s]) is Some ==> {
            &&& subject.slots()[s]->0.accepts_failure() == base[s]->0.accepts_failure()
            &&& fanned(fed, base[s]->0.log(), subject.slots()[s]->0.log())
        }
}

impl<T: Clone, E: Clone, O: Observer<T, E>> SubjectObserver<T, E, O> {
    /// Wraps a subject so that it can be handed to `subscribe` as the
    /// observer of any upstream observable.
    pub fn new(subject: Subject<T, E, O>) -> (r: SubjectObserver<T, E, O>)
        requires
            subject.wf(),
        ensures
            r.inv(),
            r.log() == Seq::<Event<T, E>>::empty(),
            r.base@ == subject.slots(),
            r.subject == Some(subject),
    {
        let ghost base = subject.slots();
        let r = SubjectObserver {
            subject: Some(subject),
            drained: Vec::new(),
            base: Ghost(base),
            fed: Ghost(Seq::empty()),
            received: Ghost(Seq::empty()),
        };
        proof {
            assert(r.received@ =~= r.fed@.map_values(|x: T| Event::<T, E>::Next(x)));
            assert forall|s: int|
                0 <= s < base.len() && (#[trigger] base[s]) is Some implies fanned(
                Seq::<T>::empty(),
                base[s]->0.log(),
                base[s]->0.log(),
            ) by {
                lemma_fanned_nil::<T, E>(base[s]->0.log());
            }
        }
        r
    }
}

impl<T: Clone, E: Clone, O: Observer<T, E>> Observer<T, E> for SubjectObserver<T, E, O> {
    open spec fn inv(&self) -> bool {
        if !terminated(self.received@) {
            &&& self.received@ == self.fed@.map_values(|x: T| Event::<T, E>::Next(x))
            &&& self.subject is Some
            &&& self.drained@ == Seq::<O>::empty()
            &&& subject_fed(self.fed@, self.base@, self.subject->0)
        } else if ends_completed(self.received@) {
            &&& self.received@.drop_last() == self.fed@.map_values(|x: T| Event::<T, E>::Next(x))
            &&& self.subject is None
            &&& self.drained@.len() == live_by_slot(self.base@).len()
            &&& forall|m: int|
                0 <= m < self.drained@.len() ==> {
                    &&& (#[trigger] self.drained@[m]).inv()
                    &&& fanned_completed(
                        self.fed@,
                        live_by_slot(self.base@)[m].log(),
                        self.drained@[m].log(),
                    )
                }
        } else {
            &&& self.received@.drop_last() == self.fed@.map_values(|x: T| Event::<T, E>::Next(x))
            &&& self.received@.last() is Failed
            &&& self.subject is None
            &&& self.drained@.len() == live_by_slot(self.base@).len()
            &&& forall|m: int|
                0 <= m < self.drained@.len() ==> {
                    &&& (#[trigger] self.drained@[m]).inv()
                    &&& fanned_failed(
                        self.received@.last()->Failed_0,
                        self.fed@,
                        live_by_slot(self.base@)[m].log(),
                        self.drained@[m].log(),
                    )
                }
        }
    }

    open spec fn log(&self) -> Seq<Event<T, E>> {
        self.received@
    }

    open spec fn accepts_failure(&self) -> bool {
        forall|s: int|
            0 <= s < self.base@.len() && (#[trigger] self.base@[s]) is Some
                ==> self.base@[s]->0.accepts_failure()
    }

    open spec fn same_frame(&self, other: &Self) -> bool {
        other.base == self.base
    }

    proof fn frame_refl(&self) {
    }

    proof fn frame_trans(&self, mid: &Self, other: &Self) {
    }

    fn on_next(&mut self, item: T) {
        proof {
            lemma_map_next_all_next(self.fed@, self.received@);
        }
        let mut subject = self.subject.take().unwrap();
        let ghost mid = subject;
        subject.on_next(item);
        self.subject = Some(subject);
        proof {
            self.fed@ = self.fed@.push(item);
            self.received@ = self.received@.push(Event::Next(item));
            assert(self.received@ =~= self.fed@.map_values(|x: T| Event::<T, E>::Next(x)));
            let base = self.base@;
            let cur = self.subject->0;
            assert forall|s: int|
                0 <= s < base.len() && (#[trigger] base[s]) is Some implies {
                &&& cur.slots()[s] is Some
                &&& cur.slots()[s]->0.accepts_failure() == base[s]->0.accepts_failure()
                &&& fanned(self.fed@, base[s]->0.log(), cur.slots()[s]->0.log())
            } by {
                assert(mid.slots()[s] is Some);
                let c = choose|c: T|
                    cloned::<T>(item, c) && cur.slots()[s]->0.log() == mid.slots()[s]->0.log().push(
                        Event::<T, E>::Next(c),
                    );
                lemma_fanned_snoc(
                    old(self).fed@,
                    item,
                    c,
                    base[s]->0.log(),
                    mid.slots()[s]->0.log(),
                    cur.slots()[s]->0.log(),
                );
            }
            assert forall|s: int|
                0 <= s < base.len() implies (((#[trigger] base[s]) is Some) <==> cur.slots()[s]
                is Some) by {
                if base[s] is None {
                    assert(mid.slots()[s] is None);
                }
            }
        }
    }

    fn on_completed(&mut self) {
        proof {
            lemma_map_next_all_next(self.fed@, self.received@);
        }
        let subject = self.subject.take().unwrap();
        let ghost cur = subject;
        let drained = subject.on_completed();
        self.drained = drained;
        proof {
            self.received@ = self.received@.push(Event::Completed);
            assert(self.received@.drop_last() =~= old(self).received@);
            let base = self.base@;
            let fed = self.fed@;
            lemma_live_by_slot_aligned(
                base,
                cur.slots(),
                |a: O, b: O| fanned(fed, a.log(), b.log()),
            );
            assert forall|m: int|
                0 <= m < self.drained@.len() implies {
                &&& (#[trigger] self.drained@[m]).inv()
                &&& fanned_completed(fed, live_by_slot(base)[m].log(), self.drained@[m].log())
            } by {
                assert((|a: O, b: O| fanned(fed, a.log(), b.log()))(
                    live_by_slot(base)[m],
                    live_by_slot(cur.slots())[m],
                ));
                lemma_fanned_completed(
                    fed,
                    live_by_slot(base)[m].log(),
                    live_by_slot(cur.slots())[m].log(),
                    self.drained@[m].log(),
                );
            }
        }
    }

    fn on_error(&mut self, error: E) {
        proof {
            lemma_map_next_all_next(self.fed@, self.received@);
            assert forall|s: int|
                0 <= s < self.subject->0.slots().len() && (#[trigger] self.subject->0.slots()[s])
                    is Some implies self.subject->0.slots()[s]->0.accepts_failure() by {
                assert(self.base@[s] is Some);
            }
        }
        let subject = self.subject.take().unwrap();
        let ghost cur = subject;
        let drained = subject.on_error(error);
        self.drained = drained;
        proof {
            self.received@ = self.received@.push(Event::Failed(error));
            assert(self.received@.drop_last() =~= old(self).received@);
            let base = self.base@;
            let fed = self.fed@;
            lemma_live_by_slot_aligned(
                base,
                cur.slots(),
                |a: O, b: O| fanned(fed, a.log(), b.log()),
            );
            assert forall|m: int|
                0 <= m < self.drained@.len() implies {
                &&& (#[trigger] self.drained@[m]).inv()
                &&& fanned_failed(
                    error,
                    fed,
                    live_by_slot(base)[m].log(),
                    self.drained@[m].log(),
                )
            } by {
                assert((|a: O, b: O| fanned(fed, a.log(), b.log()))(
                    live_by_slot(base)[m],
                    live_by_slot(cur.slots())[m],
                ));
                let c = choose|c: E|
                    #[trigger] cloned::<E>(error, c) && self.drained@[m].log() == live_by_slot(
                        cur.slots(),
                    )[m].log().push(Event::<T, E>::Failed(c));
                lemma_fanned_failed(
                    error,
                    c,
                    fed,
                    live_by_slot(base)[m].log(),
                    live_by_slot(cur.slots())[m].log(),
                    self.drained@[m].log(),
                );
            }
        }
    }
}

/// A log made only of value events is not terminated, and a terminal
/// event pushed onto it sits at its end.
proof fn lemma_map_next_all_next<T, E>(fed: Seq<T>, log: Seq<Event<T, E>>)
    requires
        log == fed.map_values(|x: T| Event::<T, E>::Next(x)),
    ensures
        !terminated(log),
{
    if log.len() > 0 {
        assert(log.last() == Event::<T, E>::Next(fed.last()));
    }
}

} // verus!
