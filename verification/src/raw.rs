//! The raw lock: its operations on the state word.
//!
//! An operation that would block stops where its thread has to park, and one that
//! would wake others returns whom to wake; the caller parks and unparks threads
//! under the lock's two queue keys.
use core::sync::atomic::Ordering;
use parking_lot_core::SpinWait;
use vstd::prelude::*;

use crate::pause;
use crate::protocol::{self, Phase, Wake, SHARED_FAST_RETRIES};
use crate::trace::{self, Event, Order, StateWord, Trace};
use crate::word::{
    self, admit_reader, last_reader_with_writers_parked, parked_behind_writer, parked_meanwhile,
    reader_may_sleep, reader_move, readers_wait, writer_may_sleep, writer_move, Parked, ReaderMove,
    ReleaseFault, WriterMove, ONE_READER, ONE_WRITER, UNLOCKED, WRITERS_PARKED,
};

verus! {

/// Raw read-biased lock.
///
/// The short way in for a reader looks only for an active writer. Parked writers do
/// not keep readers out. Writers are woken when the last reader leaves, and then
/// race with new readers.
#[derive(Debug)]
pub struct RawReadBiasedRwLock {
    /// The state word, [`UNLOCKED`](crate::word::UNLOCKED) in a fresh lock.
    pub state: StateWord,
}

/// A wait for the lock as a reader, between two parks.
pub struct ReaderWait {
    /// Counts the spins before the reader parks.
    pub spin: SpinWait,
    /// Counts the pauses between tries to go in.
    pub backoff: SpinWait,
    /// The state word as last seen.
    pub state: usize,
}

/// A wait for the lock as a writer, between two parks.
pub struct WriterWait {
    /// Counts the spins before the writer parks.
    pub spin: SpinWait,
    /// The state word as last seen.
    pub state: usize,
    /// The writer has parked before, or tried to.
    pub carry: bool,
}

/// What came of a step of a wait.
#[derive(Debug, Clone, Copy, PartialEq, Eq, Structural)]
pub enum WaitStep {
    /// The lock is taken.
    Acquired,
    /// Too early to park: spun, and looked at the word again.
    Spun,
    /// The exchange failed: others changed the word first, or for no cause at all.
    Retry,
    /// The thread has to park, and to begin a new wait afterwards.
    Park,
    /// The count of readers is full.
    Overflow,
}

/// A wait that starts from `state`, with no spins behind it.
pub open spec fn fresh_reader_wait(wait: ReaderWait, state: usize) -> bool {
    &&& wait.state == state
    &&& pause::spins_done(wait.spin) == 0
    &&& pause::spins_done(wait.backoff) == 0
}

/// A wait that starts from `state`, with no spins behind it.
pub open spec fn fresh_writer_wait(wait: WriterWait, state: usize, carry: bool) -> bool {
    &&& wait.state == state
    &&& wait.carry == carry
    &&& pause::spins_done(wait.spin) == 0
}

/// One step of a reader's wait. Where a reader fits it tries to go in, and pauses
/// where that fails. Behind a writer it spins and looks again until the spins are
/// used up; then it announces that readers park, and parks once that is done.
pub open spec fn reader_step(
    before: ReaderWait,
    after: ReaderWait,
    run: Seq<Event>,
    step: WaitStep,
) -> bool {
    let state = before.state;
    if word::reader_fits(state) {
        &&& run.len() == 1
        &&& run[0] matches Event::Exchange { weak, current, new, order, result }
        &&& weak && current == state && new == state + ONE_READER && order == Order::Acquire
        &&& after.spin == before.spin
        &&& match result {
            Ok(_) => {
                &&& step == WaitStep::Acquired
                &&& after == before
            },
            Err(seen) => {
                &&& step == WaitStep::Retry
                &&& after.state == seen
                &&& pause::spins_done(after.backoff) == pause::paused(
                    pause::spins_done(before.backoff),
                )
            },
        }
    } else if !word::writer_active(state) {
        run.len() == 0 && step == WaitStep::Overflow && after == before
    } else if word::readers_parked(state) {
        run.len() == 0 && step == WaitStep::Park && after == before
    } else if pause::spins_done(before.spin) < pause::spin_limit() {
        &&& step == WaitStep::Spun
        &&& run =~= seq![Event::Load { seen: after.state }]
        &&& pause::spins_done(after.spin) == pause::spins_done(before.spin) + 1
        &&& pause::spins_done(after.backoff) == 0
    } else {
        &&& run.len() == 1
        &&& run[0] matches Event::Exchange { weak, current, new, order, result }
        &&& weak && current == state && order == Order::Relaxed
        &&& new == word::compose(word::holders(state), true, word::writers_parked(state))
        &&& pause::spins_done(after.spin) == pause::spins_done(before.spin)
        &&& pause::spins_done(after.backoff) == 0
        &&& match result {
            Ok(_) => step == WaitStep::Park && after.state == state,
            Err(seen) => step == WaitStep::Retry && after.state == seen,
        }
    }
}

/// One step of a writer's wait. Where nobody is inside it tries to go in. Otherwise
/// it spins and looks again until the spins are used up; then it announces that
/// writers park, and parks once that is done.
pub open spec fn writer_step(
    before: WriterWait,
    after: WriterWait,
    run: Seq<Event>,
    step: WaitStep,
) -> bool {
    let state = before.state;
    &&& after.carry == before.carry
    &&& if word::holders(state) == 0 {
        &&& run.len() == 1
        &&& run[0] matches Event::Exchange { weak, current, new, order, result }
        &&& weak && current == state && order == Order::Acquire
        &&& new == word::compose(
            word::writer_mark(),
            word::readers_parked(state),
            word::writers_parked(state) || before.carry,
        )
        &&& after.spin == before.spin
        &&& match result {
            Ok(_) => step == WaitStep::Acquired && after.state == state,
            Err(seen) => step == WaitStep::Retry && after.state == seen,
        }
    } else if word::writers_parked(state) {
        run.len() == 0 && step == WaitStep::Park && after == before
    } else if pause::spins_done(before.spin) < pause::spin_limit() {
        &&& step == WaitStep::Spun
        &&& run =~= seq![Event::Load { seen: after.state }]
        &&& pause::spins_done(after.spin) == pause::spins_done(before.spin) + 1
    } else {
        &&& run.len() == 1
        &&& run[0] matches Event::Exchange { weak, current, new, order, result }
        &&& weak && current == state && order == Order::Relaxed
        &&& new == word::compose(word::holders(state), word::readers_parked(state), true)
        &&& pause::spins_done(after.spin) == pause::spins_done(before.spin)
        &&& match result {
            Ok(_) => step == WaitStep::Park && after.state == state,
            Err(seen) => step == WaitStep::Retry && after.state == seen,
        }
    }
}

/// The word as it stood, to a waiting client that started from `first`, before look
/// `i`.
pub open spec fn state_at(first: usize, looks: Seq<Event>, i: int) -> usize {
    if i <= 0 {
        first
    } else {
        protocol::seen_by(looks[i - 1])
    }
}

/// A reader's wait from `before` to `after` in which it only spins: it looks at the
/// word again and again, each time behind a writer that has not been told, and no
/// more often than it may spin.
pub open spec fn reader_spins(before: ReaderWait, after: ReaderWait, looks: Seq<Event>) -> bool {
    &&& forall|i: int|
        0 <= i < looks.len() ==> {
            &&& #[trigger] looks[i] is Load
            &&& word::writer_active(state_at(before.state, looks, i))
            &&& !word::readers_parked(state_at(before.state, looks, i))
        }
    &&& after.state == state_at(before.state, looks, looks.len() as int)
    &&& pause::spins_done(after.spin) == pause::spins_done(before.spin) + looks.len()
    &&& if looks.len() == 0 {
        after == before
    } else {
        pause::spins_done(after.spin) <= pause::spin_limit() && pause::spins_done(after.backoff)
            == 0
    }
}

/// A writer's wait from `before` to `after` in which it only spins: it looks at the
/// word again and again, each time with somebody inside and no word of parked writers,
/// and no more often than it may spin.
pub open spec fn writer_spins(before: WriterWait, after: WriterWait, looks: Seq<Event>) -> bool {
    &&& forall|i: int|
        0 <= i < looks.len() ==> {
            &&& #[trigger] looks[i] is Load
            &&& word::holders(state_at(before.state, looks, i)) != 0
            &&& !word::writers_parked(state_at(before.state, looks, i))
        }
    &&& after.state == state_at(before.state, looks, looks.len() as int)
    &&& after.carry == before.carry
    &&& pause::spins_done(after.spin) == pause::spins_done(before.spin) + looks.len()
    &&& if looks.len() == 0 {
        after == before
    } else {
        pause::spins_done(after.spin) <= pause::spin_limit()
    }
}

/// A reader's wait up to its first step that is no spin.
pub open spec fn reader_waits(
    before: ReaderWait,
    after: ReaderWait,
    run: Seq<Event>,
    step: WaitStep,
) -> bool {
    &&& step != WaitStep::Spun
    &&& exists|mid: ReaderWait, looks: Seq<Event>, rest: Seq<Event>|
        {
            &&& run == looks + rest
            &&& #[trigger] reader_spins(before, mid, looks)
            &&& #[trigger] reader_step(mid, after, rest, step)
        }
}

/// A writer's wait up to its first step that is no spin.
pub open spec fn writer_waits(
    before: WriterWait,
    after: WriterWait,
    run: Seq<Event>,
    step: WaitStep,
) -> bool {
    &&& step != WaitStep::Spun
    &&& exists|mid: WriterWait, looks: Seq<Event>, rest: Seq<Event>|
        {
            &&& run == looks + rest
            &&& #[trigger] writer_spins(before, mid, looks)
            &&& #[trigger] writer_step(mid, after, rest, step)
        }
}

/// One more spin.
proof fn lemma_reader_spins_on(
    before: ReaderWait,
    mid: ReaderWait,
    after: ReaderWait,
    looks: Seq<Event>,
    run: Seq<Event>,
)
    requires
        reader_spins(before, mid, looks),
        reader_step(mid, after, run, WaitStep::Spun),
    ensures
        reader_spins(before, after, looks + run),
{
    let longer = looks + run;
    assert forall|i: int| 0 <= i < longer.len() implies {
        &&& #[trigger] longer[i] is Load
        &&& word::writer_active(state_at(before.state, longer, i))
        &&& !word::readers_parked(state_at(before.state, longer, i))
    } by {
        assert(state_at(before.state, longer, i) == state_at(before.state, looks, i));
        if i < looks.len() {
            assert(longer[i] == looks[i]);
        }
    }
}

/// One more spin.
proof fn lemma_writer_spins_on(
    before: WriterWait,
    mid: WriterWait,
    after: WriterWait,
    looks: Seq<Event>,
    run: Seq<Event>,
)
    requires
        writer_spins(before, mid, looks),
        writer_step(mid, after, run, WaitStep::Spun),
    ensures
        writer_spins(before, after, looks + run),
{
    let longer = looks + run;
    assert forall|i: int| 0 <= i < longer.len() implies {
        &&& #[trigger] longer[i] is Load
        &&& word::holders(state_at(before.state, longer, i)) != 0
        &&& !word::writers_parked(state_at(before.state, longer, i))
    } by {
        assert(state_at(before.state, longer, i) == state_at(before.state, looks, i));
        if i < looks.len() {
            assert(longer[i] == looks[i]);
        }
    }
}

/// The phase of a reader after a step of its wait.
pub open spec fn reader_phase(step: WaitStep) -> Phase {
    if step == WaitStep::Acquired {
        Phase::Shared
    } else {
        Phase::ReaderWaiting
    }
}

/// The phase of a writer that waits.
pub open spec fn writer_waiting(carry: bool) -> Phase {
    if carry {
        Phase::WriterCarrying
    } else {
        Phase::WriterWaiting
    }
}

/// The phase of a writer after a step of its wait.
pub open spec fn writer_phase(step: WaitStep, carry: bool) -> Phase {
    if step == WaitStep::Acquired {
        Phase::Exclusive
    } else {
        writer_waiting(carry)
    }
}

/// The address of the lock: `core::ptr::from_ref`, read as a number. It is not zero,
/// and since the lock holds an `AtomicUsize`, which is aligned to its size, it is a
/// multiple of four. Which address it is rests on where the lock lies in memory.
#[verifier::external_body]
pub fn address_of(lock: &RawReadBiasedRwLock) -> (address: usize)
    ensures
        address != 0,
        address % 4 == 0,
{
    core::ptr::from_ref(lock) as usize
}

impl RawReadBiasedRwLock {
    /// The key under which writers park: the address of the lock.
    pub fn writer_queue_key(&self) -> (key: usize)
        ensures
            key != 0,
            key % 4 == 0,
            call_ensures(address_of, (self,), key),
    {
        address_of(self)
    }

    /// The key under which readers park: one above the key that `writer_queue_key`
    /// gives for this lock.
    pub fn reader_queue_key(&self) -> (key: usize)
        ensures
            key % 4 == 1,
            call_ensures(RawReadBiasedRwLock::writer_queue_key, (self,), (key - 1) as usize),
    {
        reader_key(self.writer_queue_key())
    }

    /// Tries to go in as a reader, a few times at most. Only an active writer, a full
    /// count or lost races turn it away; parked writers do not.
    pub fn try_lock_shared_fast(&self, trace: &mut Trace) -> (granted: bool)
        ensures
            trace::accesses(*old(trace), *final(trace), self.state),
            protocol::shared_fast_run(trace::since(old(trace)@, final(trace)@), granted),
            protocol::phase_after(Phase::Idle, trace::since(old(trace)@, final(trace)@)) == Some(
                if granted {
                    Phase::Shared
                } else {
                    Phase::Idle
                },
            ),
    {
        let ghost before = trace@;
        let mut state: usize = self.state.load(trace);
        let ghost mut run: Seq<Event> = seq![Event::Load { seen: state }];
        proof {
            protocol::lemma_phase_push(Phase::Idle, seq![], run[0]);
            assert(Seq::<Event>::empty().push(run[0]) =~= run);
            assert(before.push(run[0]) =~= before + run);
        }
        let mut tries: usize = 0;
        while tries < SHARED_FAST_RETRIES
            invariant
                tries <= SHARED_FAST_RETRIES,
                run.len() == 1 + tries,
                run[0] is Load,
                trace@ == before + run,
                before == old(trace)@,
                trace::accesses(*old(trace), *trace, self.state),
                forall|i: int| 1 <= i < run.len() ==> #[trigger] protocol::retries(run, i),
                forall|i: int| 0 <= i < run.len() ==> !protocol::writes(#[trigger] run[i]),
                state == protocol::seen_by(run.last()),
                protocol::phase_after(Phase::Idle, run) == Some(Phase::Idle),
            decreases SHARED_FAST_RETRIES - tries,
        {
            let Some(new_state) = admit_reader(state) else {
                proof {
                    trace::lemma_since(before, run);
                }
                return false;
            };
            let result = self.state.exchange_weak(state, new_state, Ordering::Acquire, trace);
            let ghost event = Event::Exchange {
                weak: true,
                current: state,
                new: new_state,
                order: Order::Acquire,
                result,
            };
            proof {
                let longer = run.push(event);
                assert(before + longer =~= (before + run).push(event));
                protocol::lemma_phase_push(Phase::Idle, run, event);
                assert forall|i: int| 1 <= i < longer.len() implies #[trigger] protocol::retries(
                    longer,
                    i,
                ) by {
                    if i < run.len() {
                        assert(protocol::retries(run, i));
                    }
                }
                run = longer;
                trace::lemma_since(before, run);
            }
            match result {
                Ok(_) => {
                    return true;
                },
                Err(seen) => {
                    state = seen;
                },
            }
            tries = tries + 1;
        }
        proof {
            trace::lemma_since(before, run);
        }
        false
    }

    /// Tries to go in as a reader for as long as others change the word meanwhile.
    /// Only an active writer or a full count turns it away.
    pub fn try_lock_shared_slow(&self, trace: &mut Trace) -> (granted: bool)
        ensures
            trace::accesses(*old(trace), *final(trace), self.state),
            protocol::shared_slow_run(trace::since(old(trace)@, final(trace)@), granted),
            protocol::phase_after(Phase::Idle, trace::since(old(trace)@, final(trace)@)) == Some(
                if granted {
                    Phase::Shared
                } else {
                    Phase::Idle
                },
            ),
    {
        let result = self.state.fetch_enter(Ordering::Acquire, trace);
        proof {
            trace::lemma_since_one(old(trace)@, Event::Enter { order: Order::Acquire, result });
            protocol::lemma_phase_one(Phase::Idle, Event::Enter { order: Order::Acquire, result });
        }
        result.is_ok()
    }

    /// Tries to go in as a reader, without waiting. Only an active writer or a full
    /// count turns it away.
    pub fn try_lock_shared(&self, trace: &mut Trace) -> (granted: bool)
        ensures
            trace::accesses(*old(trace), *final(trace), self.state),
            protocol::try_shared_run(trace::since(old(trace)@, final(trace)@), granted),
            granted == word::reader_fits(
                protocol::seen_by(trace::since(old(trace)@, final(trace)@).last()),
            ),
            protocol::phase_after(Phase::Idle, trace::since(old(trace)@, final(trace)@)) == Some(
                if granted {
                    Phase::Shared
                } else {
                    Phase::Idle
                },
            ),
    {
        let ghost before = trace@;
        if self.try_lock_shared_fast(trace) {
            proof {
                let run = trace::since(before, trace@);
                assert(protocol::retries(run, run.len() - 1));
            }
            return true;
        }
        let ghost middle = trace@;
        let granted = self.try_lock_shared_slow(trace);
        proof {
            let first = trace::since(before, middle);
            let second = trace::since(middle, trace@);
            trace::lemma_since_joins(before, middle, trace@);
            protocol::lemma_phase_concat(Phase::Idle, first, second);
            assert((first + second).drop_last() =~= first);
            assert(seq![(first + second).last()] =~= second);
        }
        granted
    }

    /// Takes the lock as a reader by the short way. Where that fails, begins a wait.
    pub fn lock_shared(&self, trace: &mut Trace) -> (wait: Option<ReaderWait>)
        ensures
            trace::accesses(*old(trace), *final(trace), self.state),
            ({
                let run = trace::since(old(trace)@, final(trace)@);
                match wait {
                    None => {
                        &&& protocol::shared_fast_run(run, true)
                        &&& protocol::phase_after(Phase::Idle, run) == Some(Phase::Shared)
                    },
                    Some(w) => {
                        &&& run.len() > 1
                        &&& protocol::shared_fast_run(run.drop_last(), false)
                        &&& run.last() == (Event::Load { seen: w.state })
                        &&& fresh_reader_wait(w, w.state)
                        &&& protocol::phase_after(Phase::Idle, run) == Some(Phase::Idle)
                    },
                }
            }),
    {
        let ghost before = trace@;
        if self.try_lock_shared_fast(trace) {
            return None;
        }
        let ghost middle = trace@;
        let wait = self.begin_shared_wait(trace);
        proof {
            let first = trace::since(before, middle);
            let event = Event::Load { seen: wait.state };
            trace::lemma_since_one(middle, event);
            trace::lemma_since_joins(before, middle, trace@);
            assert(first + seq![event] =~= first.push(event));
            protocol::lemma_phase_push(Phase::Idle, first, event);
            assert(first.push(event).drop_last() =~= first);
        }
        Some(wait)
    }

    /// Begins a wait as a reader, at first and after every park.
    pub fn begin_shared_wait(&self, trace: &mut Trace) -> (wait: ReaderWait)
        ensures
            trace::records(
                *old(trace),
                *final(trace),
                self.state,
                Event::Load { seen: wait.state },
            ),
            fresh_reader_wait(wait, wait.state),
    {
        let spin = SpinWait::new();
        let state: usize = self.state.load(trace);
        let backoff = SpinWait::new();
        ReaderWait { spin, backoff, state }
    }

    /// One step of a reader's wait.
    pub fn shared_wait_step(&self, wait: &mut ReaderWait, trace: &mut Trace) -> (step: WaitStep)
        ensures
            trace::accesses(*old(trace), *final(trace), self.state),
            reader_step(
                *old(wait),
                *final(wait),
                trace::since(old(trace)@, final(trace)@),
                step,
            ),
            step == WaitStep::Overflow <==> word::holders(old(wait).state) + 1
                == word::writer_mark(),
            protocol::phase_after(
                Phase::ReaderWaiting,
                trace::since(old(trace)@, final(trace)@),
            ) == Some(reader_phase(step)),
    {
        let ghost before = trace@;
        proof {
            trace::lemma_since_none(before);
            word::lemma_compose(wait.state);
        }
        match reader_move(wait.state) {
            ReaderMove::Enter { new_state } => {
                let result = self.state.exchange_weak(
                    wait.state,
                    new_state,
                    Ordering::Acquire,
                    trace,
                );
                proof {
                    trace::lemma_since_one(before, trace@.last());
                    protocol::lemma_phase_one(Phase::ReaderWaiting, trace@.last());
                }
                match result {
                    Ok(_) => WaitStep::Acquired,
                    Err(seen) => {
                        wait.state = seen;
                        wait.backoff.spin_no_yield();
                        WaitStep::Retry
                    },
                }
            },
            ReaderMove::Overflow => WaitStep::Overflow,
            ReaderMove::Park => WaitStep::Park,
            ReaderMove::Mark { new_state } => {
                wait.backoff = SpinWait::new();
                if wait.spin.spin() {
                    wait.state = self.state.load(trace);
                    proof {
                        trace::lemma_since_one(before, trace@.last());
                        protocol::lemma_phase_one(Phase::ReaderWaiting, trace@.last());
                    }
                    return WaitStep::Spun;
                }
                let result = self.state.exchange_weak(
                    wait.state,
                    new_state,
                    Ordering::Relaxed,
                    trace,
                );
                proof {
                    trace::lemma_since_one(before, trace@.last());
                    protocol::lemma_phase_one(Phase::ReaderWaiting, trace@.last());
                }
                match result {
                    Ok(_) => WaitStep::Park,
                    Err(seen) => {
                        wait.state = seen;
                        WaitStep::Retry
                    },
                }
            },
        }
    }

    /// Waits for the lock as a reader: spins until it has the lock, has to park, or an
    /// exchange of its fails, after which the caller goes on with the same wait.
    pub fn lock_shared_slow(&self, wait: &mut ReaderWait, trace: &mut Trace) -> (step: WaitStep)
        ensures
            trace::accesses(*old(trace), *final(trace), self.state),
            reader_waits(
                *old(wait),
                *final(wait),
                trace::since(old(trace)@, final(trace)@),
                step,
            ),
            protocol::phase_after(
                Phase::ReaderWaiting,
                trace::since(old(trace)@, final(trace)@),
            ) == Some(reader_phase(step)),
    {
        let ghost before = trace@;
        let ghost first = *wait;
        proof {
            trace::lemma_since_none(before);
        }
        loop
            invariant
                before == old(trace)@,
                first == *old(wait),
                trace::accesses(*old(trace), *trace, self.state),
                trace::continues(before, trace@),
                reader_spins(first, *wait, trace::since(before, trace@)),
                protocol::phase_after(Phase::ReaderWaiting, trace::since(before, trace@)) == Some(
                    Phase::ReaderWaiting,
                ),
            decreases pause::spin_limit() - pause::spins_done(wait.spin),
        {
            let ghost middle = trace@;
            let ghost mid = *wait;
            let step = self.shared_wait_step(wait, trace);
            proof {
                let so_far = trace::since(before, middle);
                let latest = trace::since(middle, trace@);
                trace::lemma_since_joins(before, middle, trace@);
                protocol::lemma_phase_concat(Phase::ReaderWaiting, so_far, latest);
                if step == WaitStep::Spun {
                    lemma_reader_spins_on(first, mid, *wait, so_far, latest);
                }
            }
            if step != WaitStep::Spun {
                return step;
            }
        }
    }

    /// Whether a reader may go to sleep, asked while its queue is locked.
    pub fn validate_reader_park(&self, trace: &mut Trace) -> (sleep: bool)
        ensures
            trace::accesses(*old(trace), *final(trace), self.state),
            ({
                let run = trace::since(old(trace)@, final(trace)@);
                &&& run.len() == 1
                &&& run[0] matches Event::Load { seen }
                &&& sleep == (word::writer_active(seen) && word::readers_parked(seen))
            }),
    {
        let seen: usize = self.state.load(trace);
        proof {
            trace::lemma_since_one(old(trace)@, trace@.last());
        }
        reader_may_sleep(seen)
    }

    /// Tries to go in as a writer, without waiting: only from a word that is
    /// unlocked and has no parked bit.
    pub fn try_lock_exclusive(&self, trace: &mut Trace) -> (granted: bool)
        ensures
            trace::accesses(*old(trace), *final(trace), self.state),
            protocol::try_exclusive_run(
                trace::since(old(trace)@, final(trace)@),
                false,
                granted,
            ),
            protocol::phase_after(Phase::Idle, trace::since(old(trace)@, final(trace)@)) == Some(
                if granted {
                    Phase::Exclusive
                } else {
                    Phase::Idle
                },
            ),
    {
        let result = self.state.exchange(UNLOCKED, ONE_WRITER, Ordering::Acquire, trace);
        proof {
            word::lemma_constants();
            trace::lemma_since_one(old(trace)@, trace@.last());
            protocol::lemma_phase_one(Phase::Idle, trace@.last());
        }
        result.is_ok()
    }

    /// Takes the lock as a writer by the short way. Where that fails, begins a wait.
    pub fn lock_exclusive(&self, trace: &mut Trace) -> (wait: Option<WriterWait>)
        ensures
            trace::accesses(*old(trace), *final(trace), self.state),
            ({
                let run = trace::since(old(trace)@, final(trace)@);
                match wait {
                    None => {
                        &&& protocol::try_exclusive_run(run, true, true)
                        &&& protocol::phase_after(Phase::Idle, run) == Some(Phase::Exclusive)
                    },
                    Some(w) => {
                        &&& run.len() == 2
                        &&& protocol::try_exclusive_run(run.drop_last(), true, false)
                        &&& run.last() == (Event::Load { seen: w.state })
                        &&& fresh_writer_wait(w, w.state, false)
                        &&& writer_waiting(w.carry) == Phase::WriterWaiting
                        &&& protocol::phase_after(Phase::Idle, run) == Some(Phase::Idle)
                    },
                }
            }),
    {
        let ghost before = trace@;
        let result = self.state.exchange_weak(UNLOCKED, ONE_WRITER, Ordering::Acquire, trace);
        let ghost middle = trace@;
        let ghost first = seq![trace@.last()];
        proof {
            word::lemma_constants();
            trace::lemma_since_one(before, middle.last());
            protocol::lemma_phase_one(Phase::Idle, middle.last());
        }
        if result.is_ok() {
            return None;
        }
        let wait = self.begin_exclusive_wait(trace);
        proof {
            let event = Event::Load { seen: wait.state };
            trace::lemma_since_one(middle, event);
            trace::lemma_since_joins(before, middle, trace@);
            assert(first + seq![event] =~= first.push(event));
            protocol::lemma_phase_push(Phase::Idle, first, event);
            assert(first.push(event).drop_last() =~= first);
        }
        Some(wait)
    }

    /// Begins a wait as a writer that has not parked yet.
    pub fn begin_exclusive_wait(&self, trace: &mut Trace) -> (wait: WriterWait)
        ensures
            trace::records(
                *old(trace),
                *final(trace),
                self.state,
                Event::Load { seen: wait.state },
            ),
            fresh_writer_wait(wait, wait.state, false),
            !wait.carry,
            writer_waiting(wait.carry) == Phase::WriterWaiting,
    {
        let spin = SpinWait::new();
        let state: usize = self.state.load(trace);
        WriterWait { spin, state, carry: false }
    }

    /// Begins a writer's wait anew after a park, whether it slept or was refused sleep:
    /// from now on it carries the bit for parked writers, since others may still be
    /// parked.
    pub fn resume_exclusive_wait(&self, wait: &mut WriterWait, trace: &mut Trace)
        ensures
            trace::records(
                *old(trace),
                *final(trace),
                self.state,
                Event::Load { seen: final(wait).state },
            ),
            fresh_writer_wait(*final(wait), final(wait).state, true),
            final(wait).carry,
            writer_waiting(final(wait).carry) == Phase::WriterCarrying,
    {
        wait.spin = SpinWait::new();
        wait.state = self.state.load(trace);
        wait.carry = true;
    }

    /// One step of a writer's wait.
    pub fn exclusive_wait_step(&self, wait: &mut WriterWait, trace: &mut Trace) -> (step: WaitStep)
        ensures
            trace::accesses(*old(trace), *final(trace), self.state),
            writer_step(
                *old(wait),
                *final(wait),
                trace::since(old(trace)@, final(trace)@),
                step,
            ),
            step != WaitStep::Overflow,
            final(wait).carry == old(wait).carry,
            protocol::phase_after(
                writer_waiting(old(wait).carry),
                trace::since(old(trace)@, final(trace)@),
            ) == Some(writer_phase(step, old(wait).carry)),
    {
        let ghost before = trace@;
        let ghost phase = writer_waiting(wait.carry);
        proof {
            trace::lemma_since_none(before);
            word::lemma_compose(wait.state);
        }
        match writer_move(wait.state, wait.carry) {
            WriterMove::Enter { new_state } => {
                let result = self.state.exchange_weak(
                    wait.state,
                    new_state,
                    Ordering::Acquire,
                    trace,
                );
                proof {
                    word::lemma_constants();
                    trace::lemma_since_one(before, trace@.last());
                    protocol::lemma_phase_one(phase, trace@.last());
                }
                match result {
                    Ok(_) => WaitStep::Acquired,
                    Err(seen) => {
                        wait.state = seen;
                        WaitStep::Retry
                    },
                }
            },
            WriterMove::Park => WaitStep::Park,
            WriterMove::Mark { new_state } => {
                if wait.spin.spin() {
                    wait.state = self.state.load(trace);
                    proof {
                        trace::lemma_since_one(before, trace@.last());
                        protocol::lemma_phase_one(phase, trace@.last());
                    }
                    return WaitStep::Spun;
                }
                let result = self.state.exchange_weak(
                    wait.state,
                    new_state,
                    Ordering::Relaxed,
                    trace,
                );
                proof {
                    trace::lemma_since_one(before, trace@.last());
                    protocol::lemma_phase_one(phase, trace@.last());
                }
                match result {
                    Ok(_) => WaitStep::Park,
                    Err(seen) => {
                        wait.state = seen;
                        WaitStep::Retry
                    },
                }
            },
        }
    }

    /// Waits for the lock as a writer: spins until it has the lock, has to park, or an
    /// exchange of its fails, after which the caller goes on with the same wait.
    pub fn lock_exclusive_slow(&self, wait: &mut WriterWait, trace: &mut Trace) -> (step: WaitStep)
        ensures
            trace::accesses(*old(trace), *final(trace), self.state),
            writer_waits(
                *old(wait),
                *final(wait),
                trace::since(old(trace)@, final(trace)@),
                step,
            ),
            step != WaitStep::Overflow,
            final(wait).carry == old(wait).carry,
            protocol::phase_after(
                writer_waiting(old(wait).carry),
                trace::since(old(trace)@, final(trace)@),
            ) == Some(writer_phase(step, old(wait).carry)),
    {
        let ghost before = trace@;
        let ghost first = *wait;
        proof {
            trace::lemma_since_none(before);
        }
        loop
            invariant
                before == old(trace)@,
                first == *old(wait),
                trace::accesses(*old(trace), *trace, self.state),
                trace::continues(before, trace@),
                writer_spins(first, *wait, trace::since(before, trace@)),
                wait.carry == first.carry,
                protocol::phase_after(
                    writer_waiting(first.carry),
                    trace::since(before, trace@),
                ) == Some(writer_waiting(first.carry)),
            decreases pause::spin_limit() - pause::spins_done(wait.spin),
        {
            let ghost middle = trace@;
            let ghost mid = *wait;
            let step = self.exclusive_wait_step(wait, trace);
            proof {
                let so_far = trace::since(before, middle);
                let latest = trace::since(middle, trace@);
                trace::lemma_since_joins(before, middle, trace@);
                protocol::lemma_phase_concat(writer_waiting(first.carry), so_far, latest);
                if step == WaitStep::Spun {
                    lemma_writer_spins_on(first, mid, *wait, so_far, latest);
                }
            }
            if step != WaitStep::Spun {
                return step;
            }
        }
    }

    /// Whether a writer may go to sleep, asked while its queue is locked.
    pub fn validate_writer_park(&self, trace: &mut Trace) -> (sleep: bool)
        ensures
            trace::accesses(*old(trace), *final(trace), self.state),
            ({
                let run = trace::since(old(trace)@, final(trace)@);
                &&& run.len() == 1
                &&& run[0] matches Event::Load { seen }
                &&& sleep == (word::holders(seen) != 0 && word::writers_parked(seen))
            }),
    {
        let seen: usize = self.state.load(trace);
        proof {
            trace::lemma_since_one(old(trace)@, trace@.last());
        }
        writer_may_sleep(seen)
    }

    /// Leaves as a reader. The caller must be inside as one.
    pub fn unlock_shared(&self, trace: &mut Trace) -> (wake: Wake)
        ensures
            trace::accesses(*old(trace), *final(trace), self.state),
            protocol::unlock_shared_run(trace::since(old(trace)@, final(trace)@), wake),
            wake != Wake::AllReaders,
            protocol::phase_after(Phase::Shared, trace::since(old(trace)@, final(trace)@)) == Some(
                protocol::released(wake),
            ),
    {
        let ghost before = trace@;
        let state: usize = self.state.fetch_sub(ONE_READER, Ordering::Release, trace);
        let ghost middle = trace@;
        let ghost event = middle.last();
        proof {
            trace::lemma_since_one(before, event);
            protocol::lemma_phase_one(Phase::Shared, event);
        }
        if last_reader_with_writers_parked(state) {
            let wake = self.unlock_shared_slow(trace);
            proof {
                let rest = trace::since(middle, trace@);
                trace::lemma_since_joins(before, middle, trace@);
                protocol::lemma_phase_concat(Phase::Shared, seq![event], rest);
                assert((seq![event] + rest).drop_first() =~= rest);
            }
            wake
        } else {
            Wake::Nobody
        }
    }

    /// Sees to the parked writers after the last reader has left: clears the word and has
    /// one of them woken, which then races with new readers. Where somebody came in
    /// meanwhile, leaves both to them.
    pub fn unlock_shared_slow(&self, trace: &mut Trace) -> (wake: Wake)
        ensures
            trace::accesses(*old(trace), *final(trace), self.state),
            protocol::unlock_shared_slow_run(trace::since(old(trace)@, final(trace)@), wake),
            wake != Wake::AllReaders,
            protocol::phase_after(Phase::LastOut, trace::since(old(trace)@, final(trace)@)) == Some(
                protocol::released(wake),
            ),
    {
        let result = self.state.exchange(WRITERS_PARKED, UNLOCKED, Ordering::Relaxed, trace);
        proof {
            trace::lemma_since_one(old(trace)@, trace@.last());
            protocol::lemma_phase_one(Phase::LastOut, trace@.last());
        }
        if result.is_ok() {
            Wake::OneWriter
        } else {
            Wake::Nobody
        }
    }

    /// Leaves as a writer. The caller must be inside as one; a fault shows that it
    /// was not.
    pub fn unlock_exclusive(&self, trace: &mut Trace) -> (outcome: Result<Wake, ReleaseFault>)
        ensures
            trace::accesses(*old(trace), *final(trace), self.state),
            protocol::unlock_exclusive_run(trace::since(old(trace)@, final(trace)@), outcome),
            protocol::phase_after(Phase::Exclusive, trace::since(old(trace)@, final(trace)@))
                == protocol::release_phase(outcome),
    {
        let ghost before = trace@;
        let result = self.state.exchange(ONE_WRITER, UNLOCKED, Ordering::Release, trace);
        let ghost middle = trace@;
        let ghost event = middle.last();
        proof {
            trace::lemma_since_one(before, event);
            protocol::lemma_phase_one(Phase::Exclusive, event);
        }
        if result.is_err() {
            let outcome = self.unlock_exclusive_slow(trace);
            proof {
                let rest = trace::since(middle, trace@);
                trace::lemma_since_joins(before, middle, trace@);
                protocol::lemma_phase_concat(Phase::Exclusive, seq![event], rest);
                assert((seq![event] + rest).drop_first() =~= rest);
            }
            outcome
        } else {
            Ok(Wake::Nobody)
        }
    }

    /// Leaves as a writer with somebody parked. Parked readers go before parked
    /// writers.
    pub fn unlock_exclusive_slow(&self, trace: &mut Trace) -> (outcome: Result<Wake, ReleaseFault>)
        ensures
            trace::accesses(*old(trace), *final(trace), self.state),
            protocol::unlock_exclusive_slow_run(
                trace::since(old(trace)@, final(trace)@),
                outcome,
            ),
            protocol::phase_after(Phase::Marked, trace::since(old(trace)@, final(trace)@))
                == protocol::release_phase(outcome),
    {
        let ghost before = trace@;
        let state: usize = self.state.load(trace);
        let ghost mut run = seq![trace@.last()];
        proof {
            word::lemma_constants();
            word::lemma_compose(state);
            trace::lemma_since_one(before, run[0]);
            protocol::lemma_phase_one(Phase::Marked, run[0]);
            assert(trace@ =~= before + run);
        }
        let mut parked = match parked_behind_writer(state) {
            Ok(parked) => parked,
            Err(fault) => {
                return Err(fault);
            },
        };
        if parked != Parked::Both {
            let result = self.state.exchange(state, UNLOCKED, Ordering::Release, trace);
            proof {
                let event = trace@.last();
                protocol::lemma_phase_push(Phase::Marked, run, event);
                run = run.push(event);
                assert(trace@ =~= before + run);
                trace::lemma_since(before, run);
            }
            if let Err(new_state) = result {
                parked = match parked_meanwhile(new_state) {
                    Ok(parked) => parked,
                    Err(fault) => {
                        return Err(fault);
                    },
                };
            }
        }
        if parked == Parked::Both {
            self.state.store(WRITERS_PARKED, Ordering::Release, trace);
            proof {
                let event = trace@.last();
                protocol::lemma_phase_push(Phase::Marked, run, event);
                run = run.push(event);
                assert(trace@ =~= before + run);
                trace::lemma_since(before, run);
            }
            parked = Parked::Readers;
        }
        if parked == Parked::Readers {
            Ok(Wake::AllReaders)
        } else {
            Ok(Wake::OneWriter)
        }
    }

    /// Turns the writer inside into a reader, in one access. The caller must be
    /// inside as a writer.
    pub fn downgrade(&self, trace: &mut Trace) -> (wake: Wake)
        ensures
            trace::accesses(*old(trace), *final(trace), self.state),
            protocol::downgrade_run(trace::since(old(trace)@, final(trace)@), wake),
            wake != Wake::OneWriter,
            protocol::phase_after(Phase::Exclusive, trace::since(old(trace)@, final(trace)@))
                == Some(
                if wake == Wake::Nobody {
                    Phase::Shared
                } else {
                    Phase::SharedWaking
                },
            ),
    {
        assert(ONE_READER | WRITERS_PARKED == 6) by (bit_vector);
        let state: usize = self.state.fetch_and(
            ONE_READER | WRITERS_PARKED,
            Ordering::Release,
            trace,
        );
        proof {
            trace::lemma_since_one(old(trace)@, trace@.last());
            protocol::lemma_phase_one(Phase::Exclusive, trace@.last());
        }
        if readers_wait(state) {
            Wake::AllReaders
        } else {
            Wake::Nobody
        }
    }
}

/// The key of the readers' queue of a lock whose writers park under `writer_key`.
pub fn reader_key(writer_key: usize) -> (key: usize)
    requires
        writer_key < usize::MAX,
    ensures
        key == writer_key + 1,
{
    writer_key + 1
}

} // verus!
