use vstd::prelude::*;

use vstd::pervasive::VecAdditionalExecFns;

verus! {

/// A module for dealing with decoupled lifetime and ownership.
///
/// A lifeline and owner come in pairs over a shared store: the lifeline
/// is in control of the lifetime of the stored value, but the owner is
/// the only one who can access the value. If the lifeline is released,
/// the stored value is destroyed and the owner will not be able to use
/// it. If the owner consumes the value, releasing the lifeline is a
/// no-op.
///
/// The store is the arena that holds the shared slots. A slot is never
/// reused: once released or consumed it stays empty, so a handle's index
/// never becomes valid again by accident, and every owner operation on a
/// dead slot is a silent no-op.
pub struct Store<T> {
    slots: Vec<Option<T>>,
}

impl<T> View for Store<T> {
    type V = Seq<Option<T>>;

    closed spec fn view(&self) -> Seq<Option<T>> {
        self.slots@
    }
}

impl<T> Store<T> {
    /// Creates an empty store.
    pub fn new() -> (r: Store<T>)
        ensures
            r@ == Seq::<Option<T>>::empty(),
    {
        Store { slots: Vec::new() }
    }

    /// The number of slots ever created in this store.
    pub fn len(&self) -> (n: usize)
        ensures
            n == self@.len(),
    {
        self.slots.len()
    }

    /// Whether the slot still holds a value.
    pub fn is_live(&self, i: usize) -> (b: bool)
        requires
            i < self@.len(),
        ensures
            b == (self@[i as int] is Some),
    {
        self.slots[i].is_some()
    }

    /// Read access to whatever the slot holds.
    pub fn get<'a>(&'a self, i: usize) -> (r: Option<&'a T>)
        requires
            i < self@.len(),
        ensures
            match r {
                Some(v) => self@[i as int] == Some(*v),
                None => self@[i as int] is None,
            },
    {
        self.slots[i].as_ref()
    }

    /// Removes and returns whatever the slot holds, leaving it empty.
    pub fn take_at(&mut self, i: usize) -> (r: Option<T>)
        requires
            i < old(self)@.len(),
        ensures
            final(self)@ == old(self)@.update(i as int, None::<T>),
            r == old(self)@[i as int],
    {
        let mut taken: Option<T> = None;
        self.slots.set_and_swap(i, &mut taken);
        taken
    }

    /// Puts a value back into an empty slot.
    pub fn put_at(&mut self, i: usize, value: T)
        requires
            i < old(self)@.len(),
            old(self)@[i as int] is None,
        ensures
            final(self)@ == old(self)@.update(i as int, Some(value)),
    {
        self.slots.set(i, Some(value));
    }
}

/// Struct that controls the lifetime of the value in the lifeline-owner
/// pair.
pub struct Lifeline {
    index: usize,
}

/// Struct that allows access to the value in the lifeline-owner pair.
pub struct Owner {
    index: usize,
}

impl Lifeline {
    /// The slot this lifeline controls.
    pub closed spec fn slot(&self) -> int {
        self.index as int
    }

    /// The slot as an index into the store.
    pub fn index(&self) -> (i: usize)
        ensures
            i == self.slot(),
    {
        self.index
    }

    /// Releases the lifeline: the stored value is destroyed, and every
    /// later operation of the paired owner is a no-op.
    pub fn release<T>(self, store: &mut Store<T>)
        requires
            self.slot() < old(store)@.len(),
        ensures
            final(store)@ == old(store)@.update(self.slot(), None::<T>),
    {
        let _ = store.take_at(self.index);
    }
}

impl Owner {
    /// The slot this owner reads.
    pub closed spec fn slot(&self) -> int {
        self.index as int
    }

    /// The slot as an index into the store.
    pub fn index(&self) -> (i: usize)
        ensures
            i == self.slot(),
    {
        self.index
    }

    /// Read-only access to the stored value, if it is still alive.
    pub fn with_value<'a, T>(&self, store: &'a Store<T>) -> (r: Option<&'a T>)
        requires
            self.slot() < store@.len(),
        ensures
            match r {
                Some(v) => store@[self.slot()] == Some(*v),
                None => store@[self.slot()] is None,
            },
    {
        store.slots[self.index].as_ref()
    }

    /// Exclusive mutation access to the stored value: if it is still
    /// alive, exchanges it for the given value and returns the old one;
    /// otherwise the slot stays dead and the given value is discarded.
    pub fn with_mut_value<T>(&self, store: &mut Store<T>, value: T) -> (r: Option<T>)
        requires
            self.slot() < old(store)@.len(),
        ensures
            match r {
                Some(v) => {
                    &&& old(store)@[self.slot()] == Some(v)
                    &&& final(store)@ == old(store)@.update(self.slot(), Some(value))
                },
                None => {
                    &&& old(store)@[self.slot()] is None
                    &&& final(store)@ == old(store)@
                },
            },
    {
        let old_value = store.take_at(self.index);
        match old_value {
            Some(v) => {
                store.put_at(self.index, value);
                Some(v)
            },
            None => {
                proof {
                    assert(final(store)@ =~= old(store)@);
                }
                None
            },
        }
    }

    /// Returns the stored value if it is still alive, leaving the slot
    /// permanently empty.
    pub fn take<T>(self, store: &mut Store<T>) -> (r: Option<T>)
        requires
            self.slot() < old(store)@.len(),
        ensures
            final(store)@ == old(store)@.update(self.slot(), None::<T>),
            r == old(store)@[self.slot()],
    {
        store.take_at(self.index)
    }
}

/// A lifeline always controls a real slot index.
pub broadcast proof fn lemma_lifeline_slot_nonneg(l: &Lifeline)
    ensures
        0 <= #[trigger] l.slot(),
{
}

/// An owner always reads a real slot index.
pub broadcast proof fn lemma_owner_slot_nonneg(o: &Owner)
    ensures
        0 <= #[trigger] o.slot(),
{
}

/// Creates a value with decoupled lifetime and ownership: a fresh slot of
/// the store holds the value, the lifeline controls its lifetime, and the
/// owner accesses it.
pub fn new<T>(store: &mut Store<T>, value: T) -> (r: (Lifeline, Owner))
    ensures
        final(store)@ == old(store)@.push(Some(value)),
        r.0.slot() == old(store)@.len(),
        r.1.slot() == old(store)@.len(),
{
    let index = store.slots.len();
    store.slots.push(Some(value));
    (Lifeline { index }, Owner { index })
}

} // verus!
