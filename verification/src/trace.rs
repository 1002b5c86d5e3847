//! The state word, the accesses to it, and a record of them.
//!
//! What an atomic word holds is up to every thread that reaches it, so no contract
//! can say what an access will see. A [`Trace`] records each access together with
//! what it saw, and the contracts of the lock say which accesses an operation makes
//! and what it does on each answer. A trace has no content at run time.
//!
//! The word is opaque: its only accesses are those of [`StateWord`], each of which
//! makes one call on the atomic inside and adds just that access to the trace.
use core::sync::atomic::{AtomicUsize, Ordering};
use vstd::prelude::*;

use crate::word::{self, admit_reader};

verus! {

/// The state word of a lock. As a value of the logic it stands for the word itself,
/// not for what the word holds.
#[derive(Debug)]
#[verifier::external_body]
pub struct StateWord {
    /// The atomic. Ordinary code makes a word around it; verified code cannot reach
    /// it but by the accesses below.
    pub cell: AtomicUsize,
}

/// What it takes to start a trace. Ordinary code makes one; verified code cannot, so
/// no operation can start a trace of its own and leave accesses out of the one that
/// it was given.
#[verifier::external_body]
pub struct Seal {
    /// Nothing.
    pub blank: (),
}

/// The memory ordering of an access where it writes. Loads, and exchanges that fail,
/// are always relaxed.
#[derive(Debug, Clone, Copy, PartialEq, Eq, Structural)]
pub enum Order {
    Relaxed,
    Release,
    Acquire,
    AcqRel,
    SeqCst,
}

/// The ordering of the standard library by that name.
pub open spec fn named(ordering: Ordering) -> Order {
    if ordering == Ordering::Relaxed {
        Order::Relaxed
    } else if ordering == Ordering::Release {
        Order::Release
    } else if ordering == Ordering::Acquire {
        Order::Acquire
    } else if ordering == Ordering::AcqRel {
        Order::AcqRel
    } else {
        Order::SeqCst
    }
}

/// One access to the state word, with what it saw.
pub enum Event {
    /// A relaxed load.
    Load { seen: usize },
    /// A compare-and-exchange of `current` for `new`. `Ok` where it took place;
    /// `Err` with the value seen where it did not. A weak one may fail without
    /// cause.
    Exchange { weak: bool, current: usize, new: usize, order: Order, result: Result<usize, usize> },
    /// A read-modify-write that lets one more reader in where one fits, and fails
    /// with the value seen where none does.
    Enter { order: Order, result: Result<usize, usize> },
    /// A subtraction; `seen` is the value before it.
    Sub { operand: usize, order: Order, seen: usize },
    /// A bitwise and; `seen` is the value before it.
    And { operand: usize, order: Order, seen: usize },
    /// A store.
    Store { value: usize, order: Order },
}

/// The accesses that one thread has made, in order, each with the word that it was
/// made to.
pub struct Trace {
    seal: Seal,
    events: Ghost<Seq<Event>>,
    cells: Ghost<Seq<StateWord>>,
}

impl View for Trace {
    type V = Seq<Event>;

    closed spec fn view(&self) -> Seq<Event> {
        self.events@
    }
}

impl Trace {
    /// The words that the accesses were made to.
    pub closed spec fn cells(&self) -> Seq<StateWord> {
        self.cells@
    }

    /// A trace without accesses.
    pub fn new(seal: Seal) -> (trace: Trace)
        ensures
            trace@ == Seq::<Event>::empty(),
            trace.cells() == Seq::<StateWord>::empty(),
    {
        Trace { seal, events: Ghost(Seq::empty()), cells: Ghost(Seq::empty()) }
    }
}

/// `later` goes on where `earlier` stops.
pub open spec fn continues(earlier: Seq<Event>, later: Seq<Event>) -> bool {
    earlier.is_prefix_of(later)
}

/// What `later` holds beyond `earlier`.
pub open spec fn since(earlier: Seq<Event>, later: Seq<Event>) -> Seq<Event> {
    later.skip(earlier.len() as int)
}

/// `later` goes on where `earlier` stops, with accesses to `cell` and to no other
/// word.
pub open spec fn accesses(earlier: Trace, later: Trace, cell: StateWord) -> bool {
    let (before, after) = (earlier.cells(), later.cells());
    &&& continues(earlier@, later@)
    &&& after.len() - before.len() == later@.len() - earlier@.len()
    &&& forall|i: int| 0 <= i < before.len() ==> #[trigger] after[i] == before[i]
    &&& forall|i: int| before.len() <= i < after.len() ==> #[trigger] after[i] == cell
}

/// `later` holds one access more than `earlier`: `event`, made to `cell`.
pub open spec fn records(earlier: Trace, later: Trace, cell: StateWord, event: Event) -> bool {
    &&& later@ == earlier@.push(event)
    &&& later.cells() == earlier.cells().push(cell)
}

/// What `earlier + run` holds beyond `earlier` is `run`.
pub proof fn lemma_since(earlier: Seq<Event>, run: Seq<Event>)
    ensures
        continues(earlier, earlier + run),
        since(earlier, earlier + run) == run,
{
    assert((earlier + run).take(earlier.len() as int) =~= earlier);
    assert((earlier + run).skip(earlier.len() as int) =~= run);
}

/// The same for a single access.
pub proof fn lemma_since_one(earlier: Seq<Event>, event: Event)
    ensures
        continues(earlier, earlier.push(event)),
        since(earlier, earlier.push(event)) == seq![event],
{
    assert(earlier.push(event) =~= earlier + seq![event]);
    lemma_since(earlier, seq![event]);
}

/// A trace holds nothing beyond itself.
pub proof fn lemma_since_none(earlier: Seq<Event>)
    ensures
        continues(earlier, earlier),
        since(earlier, earlier) == Seq::<Event>::empty(),
{
    assert(earlier =~= earlier + Seq::<Event>::empty());
    lemma_since(earlier, Seq::empty());
}

/// What comes after one trace and after a longer one joins up.
pub proof fn lemma_since_joins(earlier: Seq<Event>, middle: Seq<Event>, later: Seq<Event>)
    requires
        continues(earlier, middle),
        continues(middle, later),
    ensures
        continues(earlier, later),
        since(earlier, later) == since(earlier, middle) + since(middle, later),
{
    assert(middle =~= earlier + since(earlier, middle));
    assert(later =~= middle + since(middle, later));
    assert(later =~= earlier + (since(earlier, middle) + since(middle, later)));
    lemma_since(earlier, since(earlier, middle) + since(middle, later));
}

impl StateWord {
    /// Calls `AtomicUsize::load`, relaxed, and records what it returned.
    #[allow(unused_variables)]
    #[verifier::external_body]
    pub(crate) fn load(&self, trace: &mut Trace) -> (seen: usize)
        ensures
            records(*old(trace), *final(trace), *self, Event::Load { seen }),
    {
        self.cell.load(Ordering::Relaxed)
    }

    /// Calls `AtomicUsize::compare_exchange`, relaxed where it fails. It returns `Ok`
    /// where it replaced `current` by `new`, and `Err` with what the word holds where
    /// that is not `current`. Recorded with its arguments and result.
    #[allow(unused_variables)]
    #[verifier::external_body]
    pub(crate) fn exchange(
        &self,
        current: usize,
        new: usize,
        success: Ordering,
        trace: &mut Trace,
    ) -> (result: Result<usize, usize>)
        ensures
            result matches Ok(seen) ==> seen == current,
            result matches Err(seen) ==> seen != current,
            records(
                *old(trace),
                *final(trace),
                *self,
                Event::Exchange { weak: false, current, new, order: named(success), result },
            ),
    {
        self.cell.compare_exchange(current, new, success, Ordering::Relaxed)
    }

    /// Calls `AtomicUsize::compare_exchange_weak`, relaxed where it fails. It returns
    /// `Ok` where it replaced `current` by `new`, and `Err` with what the word holds
    /// where it did not; that may be `current`, since it may fail without cause.
    /// Recorded with its arguments and result.
    #[allow(unused_variables)]
    #[verifier::external_body]
    pub(crate) fn exchange_weak(
        &self,
        current: usize,
        new: usize,
        success: Ordering,
        trace: &mut Trace,
    ) -> (result: Result<usize, usize>)
        ensures
            result matches Ok(seen) ==> seen == current,
            records(
                *old(trace),
                *final(trace),
                *self,
                Event::Exchange { weak: true, current, new, order: named(success), result },
            ),
    {
        self.cell.compare_exchange_weak(current, new, success, Ordering::Relaxed)
    }

    /// Calls `AtomicUsize::fetch_update` with `admit_reader`, relaxed where the word is
    /// only read. It replaces the value by what `admit_reader`
    /// makes of it and returns `Ok` with the value before, or, on a value that
    /// `admit_reader` turns away, changes nothing and returns `Err` with that value.
    /// Recorded with its ordering and result.
    #[allow(unused_variables)]
    #[verifier::external_body]
    pub(crate) fn fetch_enter(
        &self,
        success: Ordering,
        trace: &mut Trace,
    ) -> (result: Result<usize, usize>)
        ensures
            result matches Ok(seen) ==> word::reader_fits(seen),
            result matches Err(seen) ==> !word::reader_fits(seen),
            records(
                *old(trace),
                *final(trace),
                *self,
                Event::Enter { order: named(success), result },
            ),
    {
        self.cell.fetch_update(success, Ordering::Relaxed, |state: usize| admit_reader(state))
    }

    /// Calls `AtomicUsize::fetch_sub`, which subtracts, wrapping around, and returns the
    /// value before. Recorded with its arguments and result.
    #[allow(unused_variables)]
    #[verifier::external_body]
    pub(crate) fn fetch_sub(
        &self,
        operand: usize,
        order: Ordering,
        trace: &mut Trace,
    ) -> (seen: usize)
        ensures
            records(
                *old(trace),
                *final(trace),
                *self,
                Event::Sub { operand, order: named(order), seen },
            ),
    {
        self.cell.fetch_sub(operand, order)
    }

    /// Calls `AtomicUsize::fetch_and`, which keeps only the bits of `operand` and
    /// returns the value before. Recorded with its arguments and result.
    #[allow(unused_variables)]
    #[verifier::external_body]
    pub(crate) fn fetch_and(
        &self,
        operand: usize,
        order: Ordering,
        trace: &mut Trace,
    ) -> (seen: usize)
        ensures
            records(
                *old(trace),
                *final(trace),
                *self,
                Event::And { operand, order: named(order), seen },
            ),
    {
        self.cell.fetch_and(operand, order)
    }

    /// Calls `AtomicUsize::store`, which writes `value`, and records it. A store cannot
    /// acquire.
    #[allow(unused_variables)]
    #[verifier::external_body]
    pub(crate) fn store(&self, value: usize, order: Ordering, trace: &mut Trace)
        requires
            named(order) != Order::Acquire,
            named(order) != Order::AcqRel,
        ensures
            records(
                *old(trace),
                *final(trace),
                *self,
                Event::Store { value, order: named(order) },
            ),
    {
        self.cell.store(value, order)
    }
}

} // verus!
