//! The protocol that the users of one lock follow.
//!
//! A client is one request for the lock, from the call that asks for it to the end
//! of the call that gives it back. Its [`Phase`] says where it stands, and
//! [`next_phase`] which accesses to the state word it may make there and where they
//! lead. The contracts of the lock's operations say that they keep to it.
use vstd::prelude::*;

use crate::trace::{Event, Order};
use crate::word::{self, ReleaseFault, ONE_READER, ONE_WRITER, WRITERS_PARKED};

verus! {

/// How often the short way in for a reader tries.
pub const SHARED_FAST_RETRIES: usize = 3;

/// Where a client stands.
#[derive(Debug, Clone, Copy, PartialEq, Eq, Structural)]
pub enum Phase {
    /// Not waiting and not inside.
    Idle,
    /// Inside as a reader.
    Shared,
    /// Inside as a reader that was a writer and owes parked readers a wake-up.
    SharedWaking,
    /// Inside as a writer.
    Exclusive,
    /// A writer about to leave that knows of a parked bit.
    Marked,
    /// A writer about to leave that saw the bit for parked readers alone.
    SawReaders,
    /// A writer about to leave that saw the bit for parked writers alone.
    SawWriters,
    /// A writer about to leave that saw both parked bits.
    SawBoth,
    /// A reader that waits, awake.
    ReaderWaiting,
    /// A reader asleep in the queue of readers.
    ReaderAsleep,
    /// A writer that waits, awake, and has not parked yet.
    WriterWaiting,
    /// A writer that waits, awake, after it parked or tried to.
    WriterCarrying,
    /// A writer asleep in the queue of writers.
    WriterAsleep,
    /// Left as the last reader, with writers parked.
    LastOut,
    /// Left, and owes one parked writer a wake-up.
    WakingWriter,
    /// Left, and owes all parked readers a wake-up.
    WakingReaders,
}

/// Whom to wake after an access that gave the lock back.
#[derive(Debug, Clone, Copy, PartialEq, Eq, Structural)]
pub enum Wake {
    Nobody,
    OneWriter,
    AllReaders,
}

/// The access writes to the word.
pub open spec fn writes(event: Event) -> bool {
    match event {
        Event::Load { .. } => false,
        Event::Exchange { result, .. } => result is Ok,
        Event::Enter { result, .. } => result is Ok,
        Event::Sub { .. } => true,
        Event::And { .. } => true,
        Event::Store { .. } => true,
    }
}

/// The client is inside.
pub open spec fn inside(phase: Phase) -> bool {
    match phase {
        Phase::Shared
        | Phase::SharedWaking
        | Phase::Exclusive
        | Phase::Marked
        | Phase::SawReaders
        | Phase::SawWriters
        | Phase::SawBoth => true,
        _ => false,
    }
}

/// The memory ordering of the access where it writes.
pub open spec fn order_of(event: Event) -> Order {
    match event {
        Event::Load { .. } => Order::Relaxed,
        Event::Exchange { order, .. } => order,
        Event::Enter { order, .. } => order,
        Event::Sub { order, .. } => order,
        Event::And { order, .. } => order,
        Event::Store { order, .. } => order,
    }
}

/// The access lets one more reader in, and acquires.
pub open spec fn enters_shared(event: Event) -> bool {
    match event {
        Event::Exchange { current, new, order, result: Ok(_), .. } => {
            &&& order == Order::Acquire
            &&& word::reader_fits(current)
            &&& new == current + ONE_READER
        },
        Event::Enter { order, result: Ok(seen) } => {
            &&& order == Order::Acquire
            &&& word::reader_fits(seen)
        },
        _ => false,
    }
}

/// The access lets a writer in, and acquires. With `carry` it also says that
/// writers are parked.
pub open spec fn enters_exclusive(event: Event, carry: bool) -> bool {
    match event {
        Event::Exchange { current, new, order, result: Ok(_), .. } => {
            &&& order == Order::Acquire
            &&& word::holders(current) == 0
            &&& new == word::compose(
                word::writer_mark(),
                word::readers_parked(current),
                word::writers_parked(current) || carry,
            )
        },
        _ => false,
    }
}

/// The access announces parked readers to an active writer.
pub open spec fn marks_readers(event: Event) -> bool {
    match event {
        Event::Exchange { current, new, result: Ok(_), .. } => {
            &&& word::writer_active(current)
            &&& !word::readers_parked(current)
            &&& new == word::compose(
                word::writer_mark(),
                true,
                word::writers_parked(current),
            )
        },
        _ => false,
    }
}

/// The access announces parked writers to whoever is inside.
pub open spec fn marks_writers(event: Event) -> bool {
    match event {
        Event::Exchange { current, new, result: Ok(_), .. } => {
            &&& word::holders(current) != 0
            &&& !word::writers_parked(current)
            &&& new == word::compose(
                word::holders(current),
                word::readers_parked(current),
                true,
            )
        },
        _ => false,
    }
}

/// The access tries to clear the word for good, from `from`, and releases.
pub open spec fn clears(event: Event, from: int) -> bool {
    match event {
        Event::Exchange { weak, current, new, order, .. } => {
            &&& !weak
            &&& current == from
            &&& new == 0
            &&& order == Order::Release
        },
        _ => false,
    }
}

/// The compare-and-exchange took place.
pub open spec fn took_place(event: Event) -> bool {
    event matches Event::Exchange { result, .. } && result is Ok
}

/// Where a client in `phase` stands after `event`; `None` where the protocol does
/// not allow that access there.
pub open spec fn next_phase(phase: Phase, event: Event) -> Option<Phase> {
    match phase {
        Phase::Idle => if !writes(event) {
            Some(Phase::Idle)
        } else if enters_shared(event) {
            Some(Phase::Shared)
        } else if enters_exclusive(event, false) {
            Some(Phase::Exclusive)
        } else {
            None
        },
        Phase::ReaderWaiting => if !writes(event) || marks_readers(event) {
            Some(Phase::ReaderWaiting)
        } else if enters_shared(event) {
            Some(Phase::Shared)
        } else {
            None
        },
        Phase::WriterWaiting => if !writes(event) || marks_writers(event) {
            Some(Phase::WriterWaiting)
        } else if enters_exclusive(event, false) {
            Some(Phase::Exclusive)
        } else {
            None
        },
        Phase::WriterCarrying => if !writes(event) || marks_writers(event) {
            Some(Phase::WriterCarrying)
        } else if enters_exclusive(event, true) {
            Some(Phase::Exclusive)
        } else {
            None
        },
        Phase::Shared => match event {
            Event::Sub { operand, order, seen } => if operand == ONE_READER && order
                == Order::Release {
                if seen == word::compose(1, false, true) {
                    Some(Phase::LastOut)
                } else {
                    Some(Phase::Idle)
                }
            } else {
                None
            },
            _ => None,
        },
        Phase::LastOut => match event {
            Event::Exchange { weak: false, current, new, result, .. } => if current
                == WRITERS_PARKED && new == 0 {
                if result is Ok {
                    Some(Phase::WakingWriter)
                } else {
                    Some(Phase::Idle)
                }
            } else {
                None
            },
            _ => None,
        },
        Phase::Exclusive => if clears(event, ONE_WRITER as int) {
            if took_place(event) {
                Some(Phase::Idle)
            } else {
                Some(Phase::Marked)
            }
        } else {
            match event {
                Event::And { operand, order, seen } => if operand == word::compose(
                    1,
                    false,
                    true,
                ) && order == Order::Release {
                    if word::readers_parked(seen) {
                        Some(Phase::SharedWaking)
                    } else {
                        Some(Phase::Shared)
                    }
                } else {
                    None
                },
                _ => None,
            }
        },
        Phase::Marked => match event {
            Event::Load { seen } => if !word::writer_active(seen) {
                None
            } else {
                match (word::readers_parked(seen), word::writers_parked(seen)) {
                    (false, false) => None,
                    (true, false) => Some(Phase::SawReaders),
                    (false, true) => Some(Phase::SawWriters),
                    (true, true) => Some(Phase::SawBoth),
                }
            },
            _ => None,
        },
        Phase::SawReaders => next_when_one_bit_seen(
            event,
            word::compose(word::writer_mark(), true, false),
            Phase::WakingReaders,
        ),
        Phase::SawWriters => next_when_one_bit_seen(
            event,
            word::compose(word::writer_mark(), false, true),
            Phase::WakingWriter,
        ),
        Phase::SawBoth => if event == (Event::Store {
            value: WRITERS_PARKED,
            order: Order::Release,
        }) {
            Some(Phase::WakingReaders)
        } else {
            None
        },
        _ => None,
    }
}

/// A leaving writer that saw the word `from` clears it, unless the second parked
/// bit came up meanwhile.
pub open spec fn next_when_one_bit_seen(event: Event, from: int, done: Phase) -> Option<Phase> {
    if !clears(event, from) {
        None
    } else {
        match event {
            Event::Exchange { result: Ok(_), .. } => Some(done),
            Event::Exchange { result: Err(seen), .. } => if seen == usize::MAX {
                Some(Phase::SawBoth)
            } else {
                None
            },
            _ => None,
        }
    }
}

/// Where a client that starts in `phase` stands after the accesses of `run`;
/// `None` where the protocol does not allow one of them.
pub open spec fn phase_after(phase: Phase, run: Seq<Event>) -> Option<Phase>
    decreases run.len(),
{
    if run.len() == 0 {
        Some(phase)
    } else {
        match phase_after(phase, run.drop_last()) {
            None => None,
            Some(before) => next_phase(before, run.last()),
        }
    }
}

/// One more access takes the phase one step on.
pub proof fn lemma_phase_push(phase: Phase, run: Seq<Event>, event: Event)
    ensures
        phase_after(phase, run.push(event)) == (match phase_after(phase, run) {
            None => None,
            Some(before) => next_phase(before, event),
        }),
{
    assert(run.push(event).drop_last() =~= run);
}

/// A run of one access takes the phase one step on.
pub proof fn lemma_phase_one(phase: Phase, event: Event)
    ensures
        phase_after(phase, seq![event]) == next_phase(phase, event),
{
    lemma_phase_push(phase, seq![], event);
    assert(Seq::<Event>::empty().push(event) =~= seq![event]);
}

/// A run goes on where the one before it stopped.
pub proof fn lemma_phase_concat(phase: Phase, first: Seq<Event>, second: Seq<Event>)
    ensures
        phase_after(phase, first + second) == (match phase_after(phase, first) {
            None => None,
            Some(middle) => phase_after(middle, second),
        }),
    decreases second.len(),
{
    if second.len() == 0 {
        assert(first + second =~= first);
    } else {
        lemma_phase_concat(phase, first, second.drop_last());
        assert((first + second).drop_last() =~= first + second.drop_last());
    }
}

/// The phase of a client that gave the lock back and is told whom to wake.
pub open spec fn released(wake: Wake) -> Phase {
    match wake {
        Wake::Nobody => Phase::Idle,
        Wake::OneWriter => Phase::WakingWriter,
        Wake::AllReaders => Phase::WakingReaders,
    }
}

/// The phase of a writer that leaves: none that the protocol has, where it faults.
pub open spec fn release_phase(outcome: Result<Wake, ReleaseFault>) -> Option<Phase> {
    match outcome {
        Ok(wake) => Some(released(wake)),
        Err(_) => None,
    }
}

/// What an access saw in the word; of a store, which sees nothing, what it wrote.
pub open spec fn seen_by(event: Event) -> usize {
    match event {
        Event::Load { seen } => seen,
        Event::Exchange { current, result: Ok(_), .. } => current,
        Event::Exchange { result: Err(seen), .. } => seen,
        Event::Enter { result: Ok(seen), .. } => seen,
        Event::Enter { result: Err(seen), .. } => seen,
        Event::Sub { seen, .. } => seen,
        Event::And { seen, .. } => seen,
        Event::Store { value, .. } => value,
    }
}

/// Access `i` of `run` tries to let a reader in to the word that the access before
/// it saw.
pub open spec fn retries(run: Seq<Event>, i: int) -> bool {
    let state = seen_by(run[i - 1]);
    &&& word::reader_fits(state)
    &&& run[i] matches Event::Exchange { weak, current, new, order, .. }
    &&& weak
    &&& current == state
    &&& new == state + ONE_READER
    &&& order == Order::Acquire
}

/// The accesses of the short way in for a reader: a load, then tries, each from
/// what was seen last, until one takes place, a word without room is seen, or the
/// tries are used up.
pub open spec fn shared_fast_run(run: Seq<Event>, granted: bool) -> bool {
    &&& 1 <= run.len() <= 1 + SHARED_FAST_RETRIES
    &&& run[0] is Load
    &&& forall|i: int| 1 <= i < run.len() ==> #[trigger] retries(run, i)
    &&& forall|i: int| 0 <= i < run.len() - 1 ==> !writes(#[trigger] run[i])
    &&& granted == writes(run.last())
    &&& !granted ==> run.len() == 1 + SHARED_FAST_RETRIES || !word::reader_fits(
        seen_by(run.last()),
    )
}

/// The access of the long way in for a reader that does not wait: it fails only on
/// a word without room.
pub open spec fn shared_slow_run(run: Seq<Event>, granted: bool) -> bool {
    &&& run.len() == 1
    &&& run[0] matches Event::Enter { order, result }
    &&& order == Order::Acquire
    &&& granted == (result is Ok)
    &&& granted == word::reader_fits(seen_by(run[0]))
}

/// The short way, and then the long one where the short one fails.
pub open spec fn try_shared_run(run: Seq<Event>, granted: bool) -> bool {
    ||| granted && shared_fast_run(run, true)
    ||| {
        &&& run.len() > 1
        &&& shared_fast_run(run.drop_last(), false)
        &&& shared_slow_run(seq![run.last()], granted)
    }
}

/// The access of a writer that does not wait: it takes the lock from a word
/// without holders and without parked bits, and from no other.
pub open spec fn try_exclusive_run(run: Seq<Event>, weak: bool, granted: bool) -> bool {
    &&& run.len() == 1
    &&& run[0] matches Event::Exchange { weak: w, current, new, order, result }
    &&& w == weak
    &&& current == 0
    &&& new == ONE_WRITER
    &&& order == Order::Acquire
    &&& granted == (result is Ok)
}

/// The accesses of a reader that leaves: it takes itself off the count and, where
/// it was the last one with writers parked, clears the word if nobody came in
/// meanwhile. Only then is a writer to be woken.
pub open spec fn unlock_shared_run(run: Seq<Event>, wake: Wake) -> bool {
    &&& run.len() >= 1
    &&& run[0] matches Event::Sub { operand, order, seen }
    &&& operand == ONE_READER
    &&& order == Order::Release
    &&& if seen == word::compose(1, false, true) {
        unlock_shared_slow_run(run.drop_first(), wake)
    } else {
        run.len() == 1 && wake == Wake::Nobody
    }
}

/// The second access of the last reader that leaves with writers parked.
pub open spec fn unlock_shared_slow_run(run: Seq<Event>, wake: Wake) -> bool {
    &&& run.len() == 1
    &&& run[0] matches Event::Exchange { weak, current, new, order, result }
    &&& !weak
    &&& current == WRITERS_PARKED
    &&& new == 0
    &&& order == Order::Relaxed
    &&& wake == (if result is Ok {
        Wake::OneWriter
    } else {
        Wake::Nobody
    })
}

/// The accesses of a writer that leaves.
pub open spec fn unlock_exclusive_run(
    run: Seq<Event>,
    outcome: Result<Wake, ReleaseFault>,
) -> bool {
    &&& run.len() >= 1
    &&& clears(run[0], ONE_WRITER as int)
    &&& if took_place(run[0]) {
        run.len() == 1 && outcome == Ok::<_, ReleaseFault>(Wake::Nobody)
    } else {
        unlock_exclusive_slow_run(run.drop_first(), outcome)
    }
}

/// The accesses of a writer that leaves with somebody parked. With one parked bit
/// seen it clears the word and wakes those of that bit. With both, it keeps the bit
/// for parked writers and wakes the readers.
pub open spec fn unlock_exclusive_slow_run(
    run: Seq<Event>,
    outcome: Result<Wake, ReleaseFault>,
) -> bool {
    let hand_over = Event::Store { value: WRITERS_PARKED, order: Order::Release };
    &&& run.len() >= 1
    &&& run[0] matches Event::Load { seen }
    &&& if !word::writer_active(seen) {
        run.len() == 1 && outcome == Err::<Wake, _>(ReleaseFault::NotLocked { state: seen })
    } else if !word::readers_parked(seen) && !word::writers_parked(seen) {
        run.len() == 1 && outcome == Err::<Wake, _>(ReleaseFault::NothingParked)
    } else if word::readers_parked(seen) && word::writers_parked(seen) {
        run =~= seq![run[0], hand_over] && outcome == Ok::<_, ReleaseFault>(Wake::AllReaders)
    } else {
        &&& run.len() >= 2
        &&& clears(run[1], seen as int)
        &&& run[1] matches Event::Exchange { result, .. }
        &&& match result {
            Ok(_) => run.len() == 2 && outcome == Ok::<_, ReleaseFault>(
                if word::readers_parked(seen) {
                    Wake::AllReaders
                } else {
                    Wake::OneWriter
                },
            ),
            Err(new_state) => if new_state == usize::MAX {
                run =~= seq![run[0], run[1], hand_over] && outcome == Ok::<_, ReleaseFault>(
                    Wake::AllReaders,
                )
            } else {
                run.len() == 2 && outcome == Err::<Wake, _>(
                    ReleaseFault::WordChanged { new_state },
                )
            },
        }
    }
}

/// The access of a writer that turns into a reader.
pub open spec fn downgrade_run(run: Seq<Event>, wake: Wake) -> bool {
    &&& run.len() == 1
    &&& run[0] matches Event::And { operand, order, seen }
    &&& operand == word::compose(1, false, true)
    &&& order == Order::Release
    &&& wake == (if word::readers_parked(seen) {
        Wake::AllReaders
    } else {
        Wake::Nobody
    })
}

} // verus!
