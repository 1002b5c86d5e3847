//! What each operation does, in plain numbers.
//!
//! The contracts of the lock speak of its word by its parts and of an operation by
//! its run. Here the same is said without them. A word counts its holders in
//! `word / 4`; a count of `usize::MAX / 4` stands for a writer, and a reader is let in
//! where the count stays below that. `word % 2` is the bit for parked readers and
//! `word / 2 % 2` the one for parked writers.
use core::sync::atomic::Ordering;
use vstd::prelude::*;

use crate::pause;
use crate::protocol::{self, Phase, Wake};
use crate::raw::{self, ReaderWait, WaitStep, WriterWait};
use crate::trace::{self, Event, Order, StateWord, Trace};
use crate::word::{self, ReleaseFault};

verus! {

/// The parts of a word are its digits: the two lowest bits and the number above them.
pub proof fn law_word_in_plain_numbers(word: usize)
    ensures
        word::holders(word) == word / 4,
        word::writer_mark() == usize::MAX / 4,
        word::writer_active(word) <==> word >= usize::MAX - 3,
        word::readers_parked(word) <==> word % 2 == 1,
        word::writers_parked(word) <==> word / 2 % 2 == 1,
        word::reader_fits(word) <==> word / 4 + 1 < usize::MAX / 4,
        word::reader_fits(word) <==> word + 8 <= usize::MAX - 3 + word % 4,
        word::compose(
            word::holders(word),
            word::readers_parked(word),
            word::writers_parked(word),
        ) == word,
{
    word::lemma_constants();
    word::lemma_compose(word);
}

/// The constants of the word, how often the short way tries, and how often a waiting
/// client spins.
pub proof fn law_constants_in_plain_numbers()
    ensures
        word::UNLOCKED == 0,
        word::READERS_PARKED == 1,
        word::WRITERS_PARKED == 2,
        word::PARKED_MASK == 3,
        word::ONE_READER == 4,
        word::ONE_WRITER == usize::MAX - 3,
        protocol::SHARED_FAST_RETRIES == 3,
        pause::spin_limit() == 10,
        forall|count: nat| #[trigger]
            pause::paused(count) == if count < 10 {
                count + 1
            } else {
                10
            },
{
    word::lemma_constants();
}

/// What is recorded of an access is the access, with the ordering that it was made
/// with; what an operation did is all that its trace holds in the end and did not hold
/// before, and all of that went to one word.
pub proof fn law_traces_leave_nothing_out(
    earlier: Trace,
    later: Trace,
    cell: StateWord,
    event: Event,
)
    ensures
        trace::records(earlier, later, cell, event) ==> {
            &&& later@ == earlier@.push(event)
            &&& later.cells() == earlier.cells().push(cell)
        },
        trace::accesses(earlier, later, cell) ==> {
            &&& later@.len() >= earlier@.len()
            &&& later@ == earlier@ + trace::since(earlier@, later@)
            &&& later.cells().len() - earlier.cells().len() == later@.len() - earlier@.len()
            &&& forall|i: int|
                0 <= i < later.cells().len() ==> #[trigger] later.cells()[i] == if i
                    < earlier.cells().len() {
                    earlier.cells()[i]
                } else {
                    cell
                }
        },
        trace::named(Ordering::Relaxed) == Order::Relaxed,
        trace::named(Ordering::Release) == Order::Release,
        trace::named(Ordering::Acquire) == Order::Acquire,
        trace::named(Ordering::AcqRel) == Order::AcqRel,
        trace::named(Ordering::SeqCst) == Order::SeqCst,
{
    if trace::accesses(earlier, later, cell) {
        assert(later@ =~= earlier@ + trace::since(earlier@, later@));
    }
}

/// The short way in for a reader. It looks once. Then it tries three times at most, each
/// time from the word that it saw last, and only where that word has room, to raise the
/// count by one and nothing else. It is granted if and only if the last try took
/// place, and fails only on a word without room or when three tries have failed.
pub proof fn law_short_way_in_for_a_reader(run: Seq<Event>, granted: bool)
    requires
        protocol::shared_fast_run(run, granted),
    ensures
        1 <= run.len() <= 4,
        run[0] is Load,
        forall|i: int|
            1 <= i < run.len() ==> {
                &&& #[trigger] run[i] matches Event::Exchange { weak, current, new, order, .. }
                &&& weak && order == Order::Acquire
                &&& current / 4 + 1 < usize::MAX / 4
                &&& new == current + 4
                &&& run[i - 1] == (Event::Load { seen: current }) || (run[i - 1]
                    matches Event::Exchange { result, .. } && result == Err::<usize, usize>(
                    current,
                ))
            },
        granted <==> (run.last() matches Event::Exchange { result, .. } && result is Ok),
        !granted ==> run.len() == 4 || (run.last() matches Event::Load { seen } && seen / 4 + 1
            >= usize::MAX / 4) || (run.last() matches Event::Exchange { result: Err(seen), .. }
            && seen / 4 + 1 >= usize::MAX / 4),
{
    word::lemma_constants();
    assert forall|i: int| 1 <= i < run.len() implies {
        &&& #[trigger] run[i] matches Event::Exchange { weak, current, new, order, .. }
        &&& weak && order == Order::Acquire
        &&& current / 4 + 1 < usize::MAX / 4
        &&& new == current + 4
        &&& run[i - 1] == (Event::Load { seen: current }) || (run[i - 1]
            matches Event::Exchange { result, .. } && result == Err::<usize, usize>(current))
    } by {
        assert(protocol::retries(run, i));
        assert(!protocol::writes(run[i - 1]));
        if i > 1 {
            assert(protocol::retries(run, i - 1));
        }
    }
    if run.len() > 1 {
        assert(protocol::retries(run, run.len() - 1));
    }
}

/// The long way in for a reader makes one access, which acquires. It is granted if and
/// only if the word then has room.
pub proof fn law_long_way_in_for_a_reader(run: Seq<Event>, granted: bool)
    requires
        protocol::shared_slow_run(run, granted),
    ensures
        run.len() == 1,
        run[0] matches Event::Enter { order, result } && order == Order::Acquire && (match result {
            Ok(seen) => granted && seen / 4 + 1 < usize::MAX / 4,
            Err(seen) => !granted && seen / 4 + 1 >= usize::MAX / 4,
        }),
{
}

/// A reader that does not wait is granted the lock by the short way, or goes the long
/// way once the short one has failed, and is granted the lock if and only if the word
/// that it saw last has room.
pub proof fn law_reader_that_does_not_wait(run: Seq<Event>, granted: bool)
    requires
        protocol::try_shared_run(run, granted),
    ensures
        run.len() >= 1,
        match run.last() {
            Event::Exchange { weak, current, new, order, result } => {
                &&& granted && result is Ok
                &&& weak && order == Order::Acquire
                &&& current / 4 + 1 < usize::MAX / 4
                &&& new == current + 4
                &&& protocol::shared_fast_run(run, true)
            },
            Event::Enter { order, result } => {
                &&& order == Order::Acquire
                &&& granted == (result is Ok)
                &&& result matches Ok(seen) ==> seen / 4 + 1 < usize::MAX / 4
                &&& result matches Err(seen) ==> seen / 4 + 1 >= usize::MAX / 4
                &&& protocol::shared_fast_run(run.drop_last(), false)
            },
            _ => false,
        },
{
    if granted && protocol::shared_fast_run(run, true) {
        law_short_way_in_for_a_reader(run, true);
    } else {
        law_long_way_in_for_a_reader(seq![run.last()], granted);
    }
}

/// A writer that does not wait makes one exchange, of a word with nobody inside and
/// nobody parked for one with a writer inside and nobody parked. It is granted the lock
/// if and only if that took place.
pub proof fn law_writer_that_does_not_wait(run: Seq<Event>, weak: bool, granted: bool)
    requires
        protocol::try_exclusive_run(run, weak, granted),
    ensures
        run.len() == 1,
        run[0] matches Event::Exchange { weak: w, current, new, order, result } && w == weak
            && current == 0 && new == usize::MAX - 3 && order == Order::Acquire && granted == (
        result is Ok),
{
    word::lemma_constants();
}

/// A reader that leaves lowers the count by one, which releases. Whom it wakes: nobody,
/// unless it was alone inside with writers parked and nobody came before it had cleared
/// the word; then one writer, and never a reader.
pub proof fn law_reader_that_leaves(run: Seq<Event>, wake: Wake)
    requires
        protocol::unlock_shared_run(run, wake),
    ensures
        1 <= run.len() <= 2,
        run[0] matches Event::Sub { operand, order, seen } && operand == 4 && order
            == Order::Release && (run.len() == 2 <==> seen == 6),
        run.len() == 1 ==> wake == Wake::Nobody,
        run.len() == 2 ==> (run[1] matches Event::Exchange { weak, current, new, order, result }
            && !weak && current == 2 && new == 0 && order == Order::Relaxed && wake == (if result
            is Ok {
            Wake::OneWriter
        } else {
            Wake::Nobody
        })),
        wake != Wake::AllReaders,
{
    if run.len() >= 2 {
        assert(run.drop_first()[0] == run[1]);
    }
}

/// The last reader that leaves with writers parked tries once to clear a word that says
/// nothing else. It wakes a writer if and only if that took place, and never a reader.
pub proof fn law_last_reader_clears_the_word(run: Seq<Event>, wake: Wake)
    requires
        protocol::unlock_shared_slow_run(run, wake),
    ensures
        run.len() == 1,
        run[0] matches Event::Exchange { weak, current, new, order, result } && !weak && current
            == 2 && new == 0 && order == Order::Relaxed && (wake == Wake::OneWriter <==> result
            is Ok),
        wake != Wake::AllReaders,
{
}

/// A writer that leaves first tries to give back a word with nobody parked. Where that
/// fails, it goes the long way with what comes after.
pub proof fn law_writer_that_leaves(run: Seq<Event>, outcome: Result<Wake, ReleaseFault>)
    requires
        protocol::unlock_exclusive_run(run, outcome),
    ensures
        1 <= run.len() <= 4,
        run[0] matches Event::Exchange { weak, current, new, order, result } && !weak && current
            == usize::MAX - 3 && new == 0 && order == Order::Release && (match result {
            Ok(_) => run.len() == 1 && outcome == Ok::<_, ReleaseFault>(Wake::Nobody),
            Err(_) => protocol::unlock_exclusive_slow_run(run.skip(1), outcome),
        }),
{
    word::lemma_constants();
    if run.len() > 1 {
        assert(run.drop_first() =~= run.skip(1));
        law_writer_that_leaves_somebody_parked(run.skip(1), outcome);
    }
}

/// A writer that leaves with somebody parked looks at the word. It faults if and only
/// if what it sees is no writer's word, or one with nobody parked, or a word with one
/// parked bit that then changed to another than the one with both. Otherwise it gives
/// the lock back: with one parked bit the word goes to zero, and with both to the bit
/// for parked writers. Whoever has its bit in the word that is given back is woken, and
/// of the two the readers.
pub proof fn law_writer_that_leaves_somebody_parked(
    run: Seq<Event>,
    outcome: Result<Wake, ReleaseFault>,
)
    requires
        protocol::unlock_exclusive_slow_run(run, outcome),
    ensures
        1 <= run.len() <= 3,
        run[0] matches Event::Load { seen } && {
            let gives_up_both = Event::Store { value: 2, order: Order::Release };
            if seen < usize::MAX - 3 {
                run.len() == 1 && outcome == Err::<Wake, _>(
                    ReleaseFault::NotLocked { state: seen },
                )
            } else if seen == usize::MAX - 3 {
                run.len() == 1 && outcome == Err::<Wake, _>(ReleaseFault::NothingParked)
            } else if seen == usize::MAX {
                &&& run.len() == 2 && run[1] == gives_up_both
                &&& outcome == Ok::<_, ReleaseFault>(Wake::AllReaders)
            } else {
                &&& run.len() >= 2
                &&& run[1] matches Event::Exchange { weak, current, new, order, result }
                &&& !weak && current == seen && new == 0 && order == Order::Release
                &&& match result {
                    Ok(_) => run.len() == 2 && outcome == Ok::<_, ReleaseFault>(
                        if seen == usize::MAX - 2 {
                            Wake::AllReaders
                        } else {
                            Wake::OneWriter
                        },
                    ),
                    Err(other) => if other == usize::MAX {
                        &&& run.len() == 3 && run[2] == gives_up_both
                        &&& outcome == Ok::<_, ReleaseFault>(Wake::AllReaders)
                    } else {
                        run.len() == 2 && outcome == Err::<Wake, _>(
                            ReleaseFault::WordChanged { new_state: other },
                        )
                    },
                }
            }
        },
{
    word::lemma_constants();
    if let Event::Load { seen } = run[0] {
        word::lemma_compose(seen);
    }
}

/// A writer that turns into a reader keeps of the word the lowest bit of the count and
/// the bit for parked writers, which releases. It wakes all readers if and only if they
/// were parked, and never a writer.
pub proof fn law_writer_that_turns_reader(run: Seq<Event>, wake: Wake)
    requires
        protocol::downgrade_run(run, wake),
    ensures
        run.len() == 1,
        run[0] matches Event::And { operand, order, seen } && operand == 6 && order
            == Order::Release && (wake == Wake::AllReaders <==> seen % 2 == 1),
        wake != Wake::OneWriter,
{
}

/// A wait begins with the word that was seen, with no spins behind it, and with the
/// carry that it was begun with.
pub proof fn law_wait_begins_afresh(
    reader: ReaderWait,
    writer: WriterWait,
    state: usize,
    carry: bool,
)
    ensures
        raw::fresh_reader_wait(reader, state) ==> {
            &&& reader.state == state
            &&& pause::spins_done(reader.spin) == 0
            &&& pause::spins_done(reader.backoff) == 0
        },
        raw::fresh_writer_wait(writer, state, carry) ==> {
            &&& writer.state == state
            &&& writer.carry == carry
            &&& pause::spins_done(writer.spin) == 0
        },
{
}

/// A step of a reader's wait goes by the word that it saw last. With room in it, it
/// tries to raise the count by one and nothing else, whoever is parked, and is in if
/// and only if that took place. With one reader short of a writer's count, and only
/// then, it reports overflow. With a writer inside, it parks where the bit for parked
/// readers is up; else it spins and looks again, and after ten spins tries to set that
/// bit, and parks if and only if that took place.
pub proof fn law_step_of_a_waiting_reader(
    before: ReaderWait,
    after: ReaderWait,
    run: Seq<Event>,
    step: WaitStep,
)
    requires
        raw::reader_step(before, after, run, step),
    ensures
        before.state / 4 + 1 < usize::MAX / 4 ==> {
            &&& run.len() == 1
            &&& run[0] matches Event::Exchange { weak, current, new, order, result }
            &&& weak && order == Order::Acquire
            &&& current == before.state && new == before.state + 4
            &&& after.spin == before.spin
            &&& match result {
                Ok(_) => step == WaitStep::Acquired && after == before,
                Err(seen) => {
                    &&& step == WaitStep::Retry
                    &&& after.state == seen
                    &&& pause::spins_done(after.backoff) == if pause::spins_done(before.backoff)
                        < 10 {
                        pause::spins_done(before.backoff) + 1
                    } else {
                        10
                    }
                },
            }
        },
        step == WaitStep::Overflow <==> before.state / 4 + 1 == usize::MAX / 4,
        step == WaitStep::Overflow ==> run.len() == 0 && after == before,
        before.state / 4 == usize::MAX / 4 && before.state % 2 == 1 ==> {
            &&& step == WaitStep::Park
            &&& run.len() == 0
            &&& after == before
        },
        before.state / 4 == usize::MAX / 4 && before.state % 2 == 0 ==> {
            &&& run.len() == 1
            &&& pause::spins_done(after.backoff) == 0
            &&& if pause::spins_done(before.spin) < 10 {
                &&& step == WaitStep::Spun
                &&& run[0] == (Event::Load { seen: after.state })
                &&& pause::spins_done(after.spin) == pause::spins_done(before.spin) + 1
            } else {
                &&& pause::spins_done(after.spin) == pause::spins_done(before.spin)
                &&& run[0] matches Event::Exchange { weak, current, new, order, result }
                &&& weak && order == Order::Relaxed
                &&& current == before.state && new == before.state + 1
                &&& match result {
                    Ok(_) => step == WaitStep::Park && after.state == before.state,
                    Err(seen) => step == WaitStep::Retry && after.state == seen,
                }
            }
        },
{
    word::lemma_constants();
    word::lemma_compose(before.state);
}

/// A step of a writer's wait goes by the word that it saw last, and never reports
/// overflow. With nobody inside, it tries to fill the count, to leave the parked bits as
/// they are and, where it carries the bit for parked writers, to set that; it is in if
/// and only if that took place. With somebody inside, it parks where the bit for parked
/// writers is up; else it spins and looks again, and after ten spins tries to set that
/// bit, and parks if and only if that took place.
pub proof fn law_step_of_a_waiting_writer(
    before: WriterWait,
    after: WriterWait,
    run: Seq<Event>,
    step: WaitStep,
)
    requires
        raw::writer_step(before, after, run, step),
    ensures
        step != WaitStep::Overflow,
        after.carry == before.carry,
        before.state / 4 == 0 ==> {
            &&& run.len() == 1
            &&& run[0] matches Event::Exchange { weak, current, new, order, result }
            &&& weak && order == Order::Acquire
            &&& current == before.state
            &&& new == usize::MAX - 3 + before.state + if before.carry && before.state / 2 % 2
                == 0 {
                2int
            } else {
                0
            }
            &&& after.spin == before.spin
            &&& match result {
                Ok(_) => step == WaitStep::Acquired && after.state == before.state,
                Err(seen) => step == WaitStep::Retry && after.state == seen,
            }
        },
        before.state / 4 != 0 && before.state / 2 % 2 == 1 ==> {
            &&& step == WaitStep::Park
            &&& run.len() == 0
            &&& after == before
        },
        before.state / 4 != 0 && before.state / 2 % 2 == 0 ==> {
            &&& run.len() == 1
            &&& if pause::spins_done(before.spin) < 10 {
                &&& step == WaitStep::Spun
                &&& run[0] == (Event::Load { seen: after.state })
                &&& pause::spins_done(after.spin) == pause::spins_done(before.spin) + 1
            } else {
                &&& pause::spins_done(after.spin) == pause::spins_done(before.spin)
                &&& run[0] matches Event::Exchange { weak, current, new, order, result }
                &&& weak && order == Order::Relaxed
                &&& current == before.state && new == before.state + 2
                &&& match result {
                    Ok(_) => step == WaitStep::Park && after.state == before.state,
                    Err(seen) => step == WaitStep::Retry && after.state == seen,
                }
            }
        },
{
    word::lemma_constants();
    word::lemma_compose(before.state);
}

/// The looks at the start of a wait: all of its accesses, or all but an exchange at the
/// end.
pub open spec fn looks(run: Seq<Event>) -> int {
    if run.len() > 0 && run.last() is Exchange {
        run.len() - 1
    } else {
        run.len() as int
    }
}

/// The word that a client knows before access `i` of a wait that began with `first`.
pub open spec fn known(first: usize, run: Seq<Event>, i: int) -> usize {
    if i > 0 && run[i - 1] is Load {
        run[i - 1]->Load_seen
    } else {
        first
    }
}

/// A reader's wait looks at the word as long as it sees a writer inside and the bit for
/// parked readers down, and no more often than makes ten spins. What it then does, and
/// what it reports, goes by the word that it saw last. With room in it, it tries to
/// raise the count by one and nothing else, and is in if and only if that took place.
/// With one reader short of a writer's count, and only then, it reports overflow. Behind
/// a writer it parks, once the bit for parked readers is up or it has set it.
pub proof fn law_wait_of_a_reader(
    before: ReaderWait,
    after: ReaderWait,
    run: Seq<Event>,
    step: WaitStep,
)
    requires
        raw::reader_waits(before, after, run, step),
    ensures
        step != WaitStep::Spun,
        forall|i: int|
            0 <= i < looks(run) ==> {
                &&& #[trigger] run[i] is Load
                &&& known(before.state, run, i) / 4 == usize::MAX / 4
                &&& known(before.state, run, i) % 2 == 0
            },
        looks(run) > 0 ==> pause::spins_done(before.spin) + looks(run) <= 10,
        pause::spins_done(after.spin) == pause::spins_done(before.spin) + looks(run),
        ({
            let last = known(before.state, run, looks(run));
            let backoff = if looks(run) == 0 {
                pause::spins_done(before.backoff)
            } else {
                0
            };
            &&& pause::spins_done(after.backoff) == if last / 4 == usize::MAX / 4 && last % 2
                == 0 {
                0
            } else if step != WaitStep::Retry {
                backoff
            } else if backoff < 10 {
                backoff + 1
            } else {
                10
            }
            &&& step == WaitStep::Overflow <==> last / 4 + 1 == usize::MAX / 4
            &&& step == WaitStep::Acquired || step == WaitStep::Park || step
                == WaitStep::Overflow ==> after.state == last
            &&& if last / 4 + 1 < usize::MAX / 4 {
                &&& run.len() == looks(run) + 1
                &&& run.last() matches Event::Exchange { weak, current, new, order, result }
                &&& weak && order == Order::Acquire
                &&& current == last && new == last + 4
                &&& match result {
                    Ok(_) => step == WaitStep::Acquired,
                    Err(seen) => step == WaitStep::Retry && after.state == seen,
                }
            } else if last / 4 < usize::MAX / 4 {
                run.len() == looks(run) && step == WaitStep::Overflow
            } else if last % 2 == 1 {
                run.len() == looks(run) && step == WaitStep::Park
            } else {
                &&& run.len() == looks(run) + 1
                &&& pause::spins_done(before.spin) + looks(run) >= 10
                &&& run.last() matches Event::Exchange { weak, current, new, order, result }
                &&& weak && order == Order::Relaxed
                &&& current == last && new == last + 1
                &&& match result {
                    Ok(_) => step == WaitStep::Park,
                    Err(seen) => step == WaitStep::Retry && after.state == seen,
                }
            }
        }),
{
    word::lemma_constants();
    let (mid, first, rest) = choose|mid: ReaderWait, first: Seq<Event>, rest: Seq<Event>|
        {
            &&& run == first + rest
            &&& #[trigger] raw::reader_spins(before, mid, first)
            &&& #[trigger] raw::reader_step(mid, after, rest, step)
        };
    law_step_of_a_waiting_reader(mid, after, rest, step);
    word::lemma_compose(mid.state);
    assert(rest.len() <= 1);
    if rest.len() == 0 {
        if first.len() > 0 {
            assert(first[first.len() - 1] is Load);
            assert(run.last() == first[first.len() - 1]);
        }
    } else {
        assert(run.last() == rest[0]);
    }
    assert(looks(run) == first.len());
    assert forall|i: int| 0 <= i <= first.len() implies #[trigger] known(before.state, run, i)
        == raw::state_at(before.state, first, i) by {
        if i > 0 {
            assert(first[i - 1] is Load);
            assert(run[i - 1] == first[i - 1]);
        }
    }
    assert forall|i: int| 0 <= i < looks(run) implies {
        &&& #[trigger] run[i] is Load
        &&& known(before.state, run, i) / 4 == usize::MAX / 4
        &&& known(before.state, run, i) % 2 == 0
    } by {
        assert(first[i] is Load);
        assert(run[i] == first[i]);
        assert(known(before.state, run, i) == raw::state_at(before.state, first, i));
    }
    assert(known(before.state, run, looks(run)) == mid.state);
}

/// A writer's wait looks at the word as long as it sees somebody inside and the bit for
/// parked writers down, and no more often than makes ten spins. What it then does, and
/// what it reports, goes by the word that it saw last, and it never reports overflow.
/// With nobody inside, it tries to go in, with the bit for parked writers if it carries
/// it or found it, and is in if and only if that took place. Behind others it parks, once
/// the bit for parked writers is up or it has set it.
pub proof fn law_wait_of_a_writer(
    before: WriterWait,
    after: WriterWait,
    run: Seq<Event>,
    step: WaitStep,
)
    requires
        raw::writer_waits(before, after, run, step),
    ensures
        step != WaitStep::Spun,
        step != WaitStep::Overflow,
        after.carry == before.carry,
        forall|i: int|
            0 <= i < looks(run) ==> {
                &&& #[trigger] run[i] is Load
                &&& known(before.state, run, i) / 4 != 0
                &&& known(before.state, run, i) / 2 % 2 == 0
            },
        looks(run) > 0 ==> pause::spins_done(before.spin) + looks(run) <= 10,
        pause::spins_done(after.spin) == pause::spins_done(before.spin) + looks(run),
        ({
            let last = known(before.state, run, looks(run));
            &&& step == WaitStep::Acquired || step == WaitStep::Park ==> after.state == last
            &&& if last / 4 == 0 {
                &&& run.len() == looks(run) + 1
                &&& run.last() matches Event::Exchange { weak, current, new, order, result }
                &&& weak && order == Order::Acquire
                &&& current == last
                &&& new == usize::MAX - 3 + last + if before.carry && last / 2 % 2 == 0 {
                    2int
                } else {
                    0
                }
                &&& match result {
                    Ok(_) => step == WaitStep::Acquired,
                    Err(seen) => step == WaitStep::Retry && after.state == seen,
                }
            } else if last / 2 % 2 == 1 {
                run.len() == looks(run) && step == WaitStep::Park
            } else {
                &&& run.len() == looks(run) + 1
                &&& pause::spins_done(before.spin) + looks(run) >= 10
                &&& run.last() matches Event::Exchange { weak, current, new, order, result }
                &&& weak && order == Order::Relaxed
                &&& current == last && new == last + 2
                &&& match result {
                    Ok(_) => step == WaitStep::Park,
                    Err(seen) => step == WaitStep::Retry && after.state == seen,
                }
            }
        }),
{
    word::lemma_constants();
    let (mid, first, rest) = choose|mid: WriterWait, first: Seq<Event>, rest: Seq<Event>|
        {
            &&& run == first + rest
            &&& #[trigger] raw::writer_spins(before, mid, first)
            &&& #[trigger] raw::writer_step(mid, after, rest, step)
        };
    law_step_of_a_waiting_writer(mid, after, rest, step);
    word::lemma_compose(mid.state);
    assert(rest.len() <= 1);
    if rest.len() == 0 {
        if first.len() > 0 {
            assert(first[first.len() - 1] is Load);
            assert(run.last() == first[first.len() - 1]);
        }
    } else {
        assert(run.last() == rest[0]);
    }
    assert(looks(run) == first.len());
    assert forall|i: int| 0 <= i <= first.len() implies #[trigger] known(before.state, run, i)
        == raw::state_at(before.state, first, i) by {
        if i > 0 {
            assert(first[i - 1] is Load);
            assert(run[i - 1] == first[i - 1]);
        }
    }
    assert forall|i: int| 0 <= i < looks(run) implies {
        &&& #[trigger] run[i] is Load
        &&& known(before.state, run, i) / 4 != 0
        &&& known(before.state, run, i) / 2 % 2 == 0
    } by {
        assert(first[i] is Load);
        assert(run[i] == first[i]);
        assert(known(before.state, run, i) == raw::state_at(before.state, first, i));
    }
    assert(known(before.state, run, looks(run)) == mid.state);
}

/// Where each outcome leaves a client: inside, waiting, owing a wake-up, or done.
pub proof fn law_where_outcomes_lead(step: WaitStep, carry: bool, wake: Wake, fault: ReleaseFault)
    ensures
        raw::reader_phase(step) == if step == WaitStep::Acquired {
            Phase::Shared
        } else {
            Phase::ReaderWaiting
        },
        raw::writer_waiting(carry) == if carry {
            Phase::WriterCarrying
        } else {
            Phase::WriterWaiting
        },
        raw::writer_phase(step, carry) == if step == WaitStep::Acquired {
            Phase::Exclusive
        } else if carry {
            Phase::WriterCarrying
        } else {
            Phase::WriterWaiting
        },
        protocol::released(wake) == match wake {
            Wake::Nobody => Phase::Idle,
            Wake::OneWriter => Phase::WakingWriter,
            Wake::AllReaders => Phase::WakingReaders,
        },
        protocol::release_phase(Ok(wake)) == Some(protocol::released(wake)),
        protocol::release_phase(Err(fault)) == None::<Phase>,
{
}

/// How a client outside gets on. An access that writes brings it in or sets a parked
/// bit. It comes in as a reader, by one more on a count with room for it; as a writer, on
/// a count of zero, which it fills while the parked bits stay, or that for parked
/// writers comes up if the client carries it. A waiting reader sets its bit behind a
/// writer only, and a waiting writer its own behind anybody.
pub proof fn law_protocol_outside(phase: Phase, event: Event, then: Phase)
    requires
        protocol::next_phase(phase, event) == Some(then),
        phase == Phase::Idle || phase == Phase::ReaderWaiting || phase == Phase::WriterWaiting
            || phase == Phase::WriterCarrying,
    ensures
        then == phase || then == Phase::Shared || then == Phase::Exclusive,
        then == Phase::Shared ==> (phase == Phase::Idle || phase == Phase::ReaderWaiting) && (
        match event {
            Event::Exchange { current, new, order, result, .. } => {
                &&& result is Ok && order == Order::Acquire
                &&& current / 4 + 1 < usize::MAX / 4
                &&& new == current + 4
            },
            Event::Enter { order, result } => {
                &&& order == Order::Acquire
                &&& result matches Ok(seen) && seen / 4 + 1 < usize::MAX / 4
            },
            _ => false,
        }),
        then == Phase::Exclusive ==> phase != Phase::ReaderWaiting && (event
            matches Event::Exchange { current, new, order, result, .. } && result is Ok && order
            == Order::Acquire && current / 4 == 0 && new == usize::MAX - 3 + current + (if phase
            == Phase::WriterCarrying && current / 2 % 2 == 0 {
            2int
        } else {
            0
        })),
        then == phase ==> (match event {
            Event::Load { .. } => true,
            Event::Exchange { current, new, result, .. } => result is Ok ==> {
                if phase == Phase::ReaderWaiting {
                    &&& current >= usize::MAX - 3
                    &&& current % 2 == 0
                    &&& new == current + 1
                } else {
                    &&& phase != Phase::Idle
                    &&& current / 4 != 0
                    &&& current / 2 % 2 == 0
                    &&& new == current + 2
                }
            },
            Event::Enter { result, .. } => result is Err,
            _ => false,
        }),
{
    word::lemma_constants();
    if let Event::Exchange { current, .. } = event {
        word::lemma_compose(current);
    }
}

/// How a client inside gets out, or turns from a writer into a reader.
pub proof fn law_protocol_inside(phase: Phase, event: Event, then: Phase)
    requires
        protocol::next_phase(phase, event) == Some(then),
    ensures
        phase == Phase::Shared ==> (event matches Event::Sub { operand, order, seen } && operand
            == 4 && order == Order::Release && then == (if seen == 6 {
            Phase::LastOut
        } else {
            Phase::Idle
        })),
        phase == Phase::LastOut ==> (event matches Event::Exchange { weak, current, new, result, .. }
            && !weak && current == 2 && new == 0 && then == (if result is Ok {
            Phase::WakingWriter
        } else {
            Phase::Idle
        })),
        phase == Phase::Exclusive ==> (match event {
            Event::Exchange { weak, current, new, order, result } => {
                &&& !weak && order == Order::Release
                &&& current == usize::MAX - 3 && new == 0
                &&& then == if result is Ok {
                    Phase::Idle
                } else {
                    Phase::Marked
                }
            },
            Event::And { operand, order, seen } => {
                &&& operand == 6 && order == Order::Release
                &&& then == if seen % 2 == 1 {
                    Phase::SharedWaking
                } else {
                    Phase::Shared
                }
            },
            _ => false,
        }),
        phase == Phase::Marked ==> (event matches Event::Load { seen } && match then {
            Phase::SawReaders => seen == usize::MAX - 2,
            Phase::SawWriters => seen == usize::MAX - 1,
            Phase::SawBoth => seen == usize::MAX,
            _ => false,
        }),
        phase == Phase::SawReaders || phase == Phase::SawWriters ==> (event
            matches Event::Exchange { weak, current, new, order, result } && !weak && order
            == Order::Release && new == 0 && current == (if phase == Phase::SawReaders {
            usize::MAX - 2
        } else {
            usize::MAX - 1
        }) && match result {
            Ok(_) => then == if phase == Phase::SawReaders {
                Phase::WakingReaders
            } else {
                Phase::WakingWriter
            },
            Err(seen) => seen == usize::MAX && then == Phase::SawBoth,
        }),
        phase == Phase::SawBoth ==> event == (Event::Store { value: 2, order: Order::Release })
            && then == Phase::WakingReaders,
        phase != Phase::SharedWaking && phase != Phase::ReaderAsleep && phase
            != Phase::WriterAsleep && phase != Phase::WakingWriter && phase
            != Phase::WakingReaders,
{
    word::lemma_constants();
    if let Event::Load { seen } = event {
        word::lemma_compose(seen);
    }
}

} // verus!
