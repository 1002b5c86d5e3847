//! What the caller of an operation can count on.
//!
//! Each law speaks of a call that has returned: of its arguments, its result, and what
//! it added to the trace. Words are taken apart in plain numbers, as in
//! [`crate::conduct`].
use vstd::prelude::*;

use crate::conduct;
use crate::outcomes;
use crate::pause;
use crate::protocol::{self, Phase, Wake};
use crate::raw::{self, RawReadBiasedRwLock, ReaderWait, WaitStep, WriterWait};
use crate::trace::{self, Event, Order, Trace};
use crate::word::{self, Parked, ReaderMove, ReleaseFault, WriterMove};
use crate::world::{self, World};

verus! {

/// A reader is admitted if and only if there is room, and raises the count by one. What
/// is parked plays no part: two words that differ in their parked bits only admit a
/// reader both or neither, and still differ by as much afterwards.
pub proof fn law_admit_reader(
    state: usize,
    admitted: Option<usize>,
    other: usize,
    other_admitted: Option<usize>,
)
    requires
        call_ensures(word::admit_reader, (state,), admitted),
        call_ensures(word::admit_reader, (other,), other_admitted),
        state / 4 == other / 4,
    ensures
        admitted is Some <==> state / 4 + 1 < usize::MAX / 4,
        admitted matches Some(new_state) ==> new_state == state + 4,
        admitted is Some <==> other_admitted is Some,
        admitted is Some ==> other_admitted->0 - admitted->0 == other - state,
{
    word::lemma_constants();
}

/// A waiting reader goes in where one that does not wait is admitted, and with the same
/// word. It gives up if and only if the count is one short of a writer's. Where it
/// announces itself it does so behind a writer by its bit alone; on the word that it
/// makes a reader parks, and may sleep. Where it parks, it may sleep if the word stays
/// as it is.
pub proof fn law_reader_move(
    state: usize,
    next: ReaderMove,
    admitted: Option<usize>,
    marked_next: ReaderMove,
    marked_sleep: bool,
    sleep: bool,
)
    requires
        call_ensures(word::reader_move, (state,), next),
        call_ensures(word::admit_reader, (state,), admitted),
        call_ensures(word::reader_may_sleep, (state,), sleep),
        next matches ReaderMove::Mark { new_state } ==> {
            &&& call_ensures(word::reader_move, (new_state,), marked_next)
            &&& call_ensures(word::reader_may_sleep, (new_state,), marked_sleep)
        },
    ensures
        match next {
            ReaderMove::Enter { new_state } => admitted == Some(new_state),
            ReaderMove::Overflow => state / 4 + 1 == usize::MAX / 4,
            ReaderMove::Mark { new_state } => {
                &&& state >= usize::MAX - 3
                &&& new_state == state + 1
                &&& marked_next == ReaderMove::Park
                &&& marked_sleep
                &&& !sleep
            },
            ReaderMove::Park => state >= usize::MAX - 3 && sleep,
        },
        next is Enter <==> admitted is Some,
        next is Overflow <==> state / 4 + 1 == usize::MAX / 4,
        sleep <==> state >= usize::MAX - 3 && state % 2 == 1,
        next is Park <==> sleep,
{
    word::lemma_constants();
    word::lemma_compose(state);
    if let ReaderMove::Mark { new_state } = next {
        word::lemma_compose(new_state);
    }
}

/// A waiting writer goes in if and only if nobody is inside: it fills the count, leaves
/// the parked bits as they are, and with `carry` brings that for parked writers along.
/// Where it announces itself it does so by its bit alone; on the word that it makes a
/// writer parks, and may sleep. Where it parks, it may sleep if the word stays as it is.
pub proof fn law_writer_move(
    state: usize,
    carry: bool,
    next: WriterMove,
    marked_next: WriterMove,
    marked_sleep: bool,
    sleep: bool,
)
    requires
        call_ensures(word::writer_move, (state, carry), next),
        call_ensures(word::writer_may_sleep, (state,), sleep),
        next matches WriterMove::Mark { new_state } ==> {
            &&& call_ensures(word::writer_move, (new_state, carry), marked_next)
            &&& call_ensures(word::writer_may_sleep, (new_state,), marked_sleep)
        },
    ensures
        match next {
            WriterMove::Enter { new_state } => {
                &&& state < 4
                &&& new_state >= usize::MAX - 3
                &&& new_state % 2 == state % 2
                &&& new_state / 2 % 2 == 1 <==> state / 2 % 2 == 1 || carry
            },
            WriterMove::Mark { new_state } => {
                &&& state >= 4
                &&& new_state == state + 2
                &&& marked_next == WriterMove::Park
                &&& marked_sleep
                &&& !sleep
            },
            WriterMove::Park => state >= 4 && sleep,
        },
        sleep <==> state >= 4 && state / 2 % 2 == 1,
        next is Park <==> sleep,
{
    word::lemma_constants();
    word::lemma_compose(state);
    if let WriterMove::Enter { new_state } = next {
        word::lemma_compose(new_state);
    }
    if let WriterMove::Mark { new_state } = next {
        word::lemma_compose(new_state);
    }
}

/// A leaving reader is the last one with writers parked if and only if the word that it
/// saw is one reader and that bit. A writer that turns into a reader finds readers
/// parked if and only if their bit is up.
pub proof fn law_questions_of_those_inside(state: usize, last: bool, parked: bool)
    requires
        call_ensures(word::last_reader_with_writers_parked, (state,), last),
        call_ensures(word::readers_wait, (state,), parked),
    ensures
        last <==> state == 6,
        parked <==> state % 2 == 1,
{
}

/// Who is parked behind a leaving writer. On the first look every writer's word has an
/// answer but the one with nobody parked, and every other word is a fault; the two faults
/// are told apart. If the word has changed since, only the word with both bits has an
/// answer, which is what the first look would have said of it.
pub proof fn law_parked_behind_a_leaving_writer(
    state: usize,
    parked: Result<Parked, ReleaseFault>,
    meanwhile: Result<Parked, ReleaseFault>,
)
    requires
        call_ensures(word::parked_behind_writer, (state,), parked),
        call_ensures(word::parked_meanwhile, (state,), meanwhile),
    ensures
        match parked {
            Ok(Parked::Readers) => state == usize::MAX - 2,
            Ok(Parked::Writers) => state == usize::MAX - 1,
            Ok(Parked::Both) => state == usize::MAX,
            Err(fault) => if state == usize::MAX - 3 {
                fault == ReleaseFault::NothingParked
            } else {
                state < usize::MAX - 3 && fault == (ReleaseFault::NotLocked { state })
            },
        },
        match meanwhile {
            Ok(who) => who == Parked::Both && parked == meanwhile,
            Err(fault) => {
                &&& state != usize::MAX
                &&& fault == (ReleaseFault::WordChanged { new_state: state })
            },
        },
{
    word::lemma_constants();
    word::lemma_compose(state);
}

/// The readers' key of a lock is the writers' plus one, so two locks whose writers park
/// under different keys have readers that do, too.
pub proof fn law_reader_key(writers: usize, readers: usize, other_writers: usize, others: usize)
    requires
        call_ensures(raw::reader_key, (writers,), readers),
        call_ensures(raw::reader_key, (other_writers,), others),
    ensures
        readers == writers + 1,
        readers - others == writers - other_writers,
{
}

/// A reader that does not wait is granted the lock if and only if the word that its last
/// access is made to has room. That word then counts one reader more, or is as it was.
pub proof fn law_try_lock_shared(
    lock: &RawReadBiasedRwLock,
    trace: &mut Trace,
    granted: bool,
    word: usize,
)
    requires
        call_ensures(RawReadBiasedRwLock::try_lock_shared, (lock, trace), granted),
        world::answers(word, final(trace)@.last()),
    ensures
        trace::accesses(*old(trace), *final(trace), lock.state),
        final(trace)@.len() > old(trace)@.len(),
        granted <==> word / 4 + 1 < usize::MAX / 4,
        world::written(word, final(trace)@.last()) == if granted {
            word + 4
        } else {
            word as int
        },
{
    let run = trace::since(old(trace)@, final(trace)@);
    conduct::law_reader_that_does_not_wait(run, granted);
    word::lemma_constants();
    assert(run.last() == final(trace)@.last());
}

/// The short way in for a reader is granted only where the word has room and then counts
/// one reader more. On a word with room it is refused only after three exchanges that
/// failed.
pub proof fn law_try_lock_shared_fast(
    lock: &RawReadBiasedRwLock,
    trace: &mut Trace,
    granted: bool,
    word: usize,
)
    requires
        call_ensures(RawReadBiasedRwLock::try_lock_shared_fast, (lock, trace), granted),
        world::answers(word, final(trace)@.last()),
    ensures
        trace::accesses(*old(trace), *final(trace), lock.state),
        granted ==> word / 4 + 1 < usize::MAX / 4,
        !granted && word / 4 + 1 < usize::MAX / 4 ==> final(trace)@.len() == old(trace)@.len()
            + 4,
        world::written(word, final(trace)@.last()) == if granted {
            word + 4
        } else {
            word as int
        },
{
    let run = trace::since(old(trace)@, final(trace)@);
    conduct::law_short_way_in_for_a_reader(run, granted);
    word::lemma_constants();
    assert(run.last() == final(trace)@.last());
}

/// The long way in for a reader makes one access and is granted if and only if the word
/// has room. The word then counts one reader more, or is as it was.
pub proof fn law_try_lock_shared_slow(
    lock: &RawReadBiasedRwLock,
    trace: &mut Trace,
    granted: bool,
    word: usize,
)
    requires
        call_ensures(RawReadBiasedRwLock::try_lock_shared_slow, (lock, trace), granted),
        world::answers(word, final(trace)@.last()),
    ensures
        trace::accesses(*old(trace), *final(trace), lock.state),
        final(trace)@.len() == old(trace)@.len() + 1,
        granted <==> word / 4 + 1 < usize::MAX / 4,
        world::written(word, final(trace)@.last()) == if granted {
            word + 4
        } else {
            word as int
        },
{
    let run = trace::since(old(trace)@, final(trace)@);
    conduct::law_long_way_in_for_a_reader(run, granted);
    word::lemma_constants();
    assert(run.last() == final(trace)@.last());
}

/// A reader that takes the lock is in, by an exchange that raised the count by one on a
/// word with room, or it waits: then it saw a word without room or three exchanges of
/// its failed, no access of its wrote, the last was a look, and the wait begins with what
/// that saw.
pub proof fn law_lock_shared(
    lock: &RawReadBiasedRwLock,
    trace: &mut Trace,
    wait: Option<ReaderWait>,
)
    requires
        call_ensures(RawReadBiasedRwLock::lock_shared, (lock, trace), wait),
    ensures
        trace::accesses(*old(trace), *final(trace), lock.state),
        ({
            let run = trace::since(old(trace)@, final(trace)@);
            match wait {
                None => {
                    &&& 2 <= run.len() <= 4
                    &&& run.last() matches Event::Exchange { current, new, order, result, .. }
                    &&& result is Ok && order == Order::Acquire
                    &&& current / 4 + 1 < usize::MAX / 4
                    &&& new == current + 4
                },
                Some(w) => {
                    &&& 2 <= run.len() <= 5
                    &&& run.last() == (Event::Load { seen: w.state })
                    &&& pause::spins_done(w.spin) == 0
                    &&& pause::spins_done(w.backoff) == 0
                    &&& run.len() < 5 ==> (match run[run.len() - 2] {
                        Event::Load { seen } => seen / 4 + 1 >= usize::MAX / 4,
                        Event::Exchange { result: Err(seen), .. } => seen / 4 + 1 >= usize::MAX
                            / 4,
                        _ => false,
                    })
                    &&& forall|i: int|
                        0 <= i < run.len() ==> (match #[trigger] run[i] {
                            Event::Load { .. } => true,
                            Event::Exchange { result, .. } => result is Err,
                            _ => false,
                        })
                },
            }
        }),
{
    let run = trace::since(old(trace)@, final(trace)@);
    match wait {
        None => {
            conduct::law_short_way_in_for_a_reader(run, true);
        },
        Some(w) => {
            let first = run.drop_last();
            conduct::law_short_way_in_for_a_reader(first, false);
            conduct::law_wait_begins_afresh(w, arbitrary(), w.state, false);
            assert(first.last() == run[run.len() - 2]);
            assert forall|i: int| 0 <= i < run.len() implies (match #[trigger] run[i] {
                Event::Load { .. } => true,
                Event::Exchange { result, .. } => result is Err,
                _ => false,
            }) by {
                if i < first.len() {
                    assert(first[i] == run[i]);
                    if i + 1 < first.len() {
                        assert(first[i + 1] is Exchange);
                    }
                }
            }
        },
    }
}

/// A wait begins with one look and with what it saw, and with no spins behind it. A
/// writer's carries nothing at first; begun anew after a park it carries the bit for
/// parked writers, whatever it saw and whatever it carried before.
pub proof fn law_waits_begin(
    lock: &RawReadBiasedRwLock,
    reader_trace: &mut Trace,
    reader: ReaderWait,
    writer_trace: &mut Trace,
    writer: WriterWait,
    anew_trace: &mut Trace,
    anew: &mut WriterWait,
)
    requires
        call_ensures(RawReadBiasedRwLock::begin_shared_wait, (lock, reader_trace), reader),
        call_ensures(RawReadBiasedRwLock::begin_exclusive_wait, (lock, writer_trace), writer),
        call_ensures(RawReadBiasedRwLock::resume_exclusive_wait, (lock, anew, anew_trace), ()),
    ensures
        final(reader_trace)@ == old(reader_trace)@.push(Event::Load { seen: reader.state }),
        final(reader_trace).cells() == old(reader_trace).cells().push(lock.state),
        pause::spins_done(reader.spin) == 0,
        pause::spins_done(reader.backoff) == 0,
        final(writer_trace)@ == old(writer_trace)@.push(Event::Load { seen: writer.state }),
        final(writer_trace).cells() == old(writer_trace).cells().push(lock.state),
        pause::spins_done(writer.spin) == 0,
        !writer.carry,
        raw::writer_waiting(writer.carry) == Phase::WriterWaiting,
        final(anew_trace)@ == old(anew_trace)@.push(Event::Load { seen: final(anew).state }),
        final(anew_trace).cells() == old(anew_trace).cells().push(lock.state),
        pause::spins_done(final(anew).spin) == 0,
        final(anew).carry,
        raw::writer_waiting(final(anew).carry) == Phase::WriterCarrying,
{
    conduct::law_wait_begins_afresh(reader, writer, reader.state, false);
}

/// A step of a reader's wait, by the word that the wait knows. It reports a full count
/// if and only if the count is one short of a writer's; it is in only by an exchange that
/// took place on a word with room, and on a word with room does nothing but try; it parks
/// only behind a writer whose word says, or by this step has come to say, that readers
/// are parked; and it goes on knowing what it saw last.
pub proof fn law_shared_wait_step(
    lock: &RawReadBiasedRwLock,
    wait: &mut ReaderWait,
    trace: &mut Trace,
    step: WaitStep,
)
    requires
        call_ensures(RawReadBiasedRwLock::shared_wait_step, (lock, wait, trace), step),
    ensures
        trace::accesses(*old(trace), *final(trace), lock.state),
        ({
            let state = old(wait).state;
            let run = trace::since(old(trace)@, final(trace)@);
            &&& run.len() <= 1
            &&& step == WaitStep::Overflow <==> state / 4 + 1 == usize::MAX / 4
            &&& state / 4 + 1 < usize::MAX / 4 <==> {
                &&& run.len() == 1
                &&& run[0] matches Event::Exchange { current, new, order, .. }
                &&& current == state && new == state + 4 && order == Order::Acquire
            }
            &&& step == WaitStep::Acquired <==> state / 4 + 1 < usize::MAX / 4 && (run[0]
                matches Event::Exchange { result, .. } && result is Ok)
            &&& step == WaitStep::Park ==> state / 4 == usize::MAX / 4 && (if run.len() == 0 {
                state % 2 == 1
            } else {
                &&& run[0] matches Event::Exchange { current, new, result, .. }
                &&& result is Ok && current == state && state % 2 == 0 && new == state + 1
            })
            &&& step == WaitStep::Retry ==> {
                &&& run.len() == 1
                &&& run[0] matches Event::Exchange { result, .. }
                &&& result == Err::<usize, usize>(final(wait).state)
            }
            &&& step == WaitStep::Spun <==> run.len() == 1 && run[0] == (Event::Load {
                seen: final(wait).state,
            })
            &&& step == WaitStep::Spun <==> state / 4 == usize::MAX / 4 && state % 2 == 0
                && pause::spins_done(old(wait).spin) < 10
        }),
{
    conduct::law_step_of_a_waiting_reader(
        *old(wait),
        *final(wait),
        trace::since(old(trace)@, final(trace)@),
        step,
    );
    word::lemma_constants();
}

/// A step of a writer's wait, by the word that the wait knows. It never reports a full
/// count; it is in only by an exchange that took place on a word with nobody inside, and
/// on such a word does nothing but try; it parks only on a word that has somebody inside
/// and says, or by this step has come to say, that writers are parked; it goes on knowing
/// what it saw last, and carries what it carried.
pub proof fn law_exclusive_wait_step(
    lock: &RawReadBiasedRwLock,
    wait: &mut WriterWait,
    trace: &mut Trace,
    step: WaitStep,
)
    requires
        call_ensures(RawReadBiasedRwLock::exclusive_wait_step, (lock, wait, trace), step),
    ensures
        trace::accesses(*old(trace), *final(trace), lock.state),
        step != WaitStep::Overflow,
        final(wait).carry == old(wait).carry,
        ({
            let state = old(wait).state;
            let run = trace::since(old(trace)@, final(trace)@);
            &&& run.len() <= 1
            &&& state / 4 == 0 ==> {
                &&& run.len() == 1
                &&& run[0] matches Event::Exchange { current, new, order, .. }
                &&& current == state && order == Order::Acquire
                &&& new / 4 == usize::MAX / 4
                &&& new % 2 == state % 2
                &&& new / 2 % 2 == 1 <==> state / 2 % 2 == 1 || old(wait).carry
            }
            &&& step == WaitStep::Acquired <==> state / 4 == 0 && (run[0]
                matches Event::Exchange { result, .. } && result is Ok)
            &&& step == WaitStep::Park ==> state / 4 != 0 && (if run.len() == 0 {
                state / 2 % 2 == 1
            } else {
                &&& run[0] matches Event::Exchange { current, new, result, .. }
                &&& result is Ok && current == state && state / 2 % 2 == 0 && new == state + 2
            })
            &&& step == WaitStep::Retry ==> {
                &&& run.len() == 1
                &&& run[0] matches Event::Exchange { result, .. }
                &&& result == Err::<usize, usize>(final(wait).state)
            }
            &&& step == WaitStep::Spun <==> run.len() == 1 && run[0] == (Event::Load {
                seen: final(wait).state,
            })
            &&& step == WaitStep::Spun <==> state / 4 != 0 && state / 2 % 2 == 0
                && pause::spins_done(old(wait).spin) < 10
        }),
{
    conduct::law_step_of_a_waiting_writer(
        *old(wait),
        *final(wait),
        trace::since(old(trace)@, final(trace)@),
        step,
    );
    word::lemma_constants();
    word::lemma_compose(old(wait).state);
}

/// A reader's wait ends as the word that it saw last has it: with a writer inside that
/// has been told, it parks; with the count one short of a writer's, and only then, it
/// gives up; with room, it is in or its exchange failed. All that it did before was to
/// look, ten times at most.
pub proof fn law_lock_shared_slow(
    lock: &RawReadBiasedRwLock,
    wait: &mut ReaderWait,
    trace: &mut Trace,
    step: WaitStep,
)
    requires
        call_ensures(RawReadBiasedRwLock::lock_shared_slow, (lock, wait, trace), step),
    ensures
        trace::accesses(*old(trace), *final(trace), lock.state),
        step != WaitStep::Spun,
        ({
            let run = trace::since(old(trace)@, final(trace)@);
            let last = conduct::known(old(wait).state, run, conduct::looks(run));
            &&& run.len() <= 11
            &&& forall|i: int| 0 <= i < run.len() - 1 ==> #[trigger] run[i] is Load
            &&& step == WaitStep::Overflow <==> last / 4 + 1 == usize::MAX / 4
            &&& step == WaitStep::Acquired ==> last / 4 + 1 < usize::MAX / 4
            &&& last / 4 + 1 < usize::MAX / 4 ==> {
                &&& run.len() > 0
                &&& run.last() matches Event::Exchange { current, new, result, .. }
                &&& current == last && new == last + 4
                &&& step == if result is Ok {
                    WaitStep::Acquired
                } else {
                    WaitStep::Retry
                }
            }
            &&& step == WaitStep::Park ==> last / 4 == usize::MAX / 4
            &&& step == WaitStep::Park && last % 2 == 0 ==> {
                &&& run.len() > 0
                &&& run.last() matches Event::Exchange { current, new, result, .. }
                &&& result is Ok && current == last && new == last + 1
            }
            &&& step == WaitStep::Retry ==> {
                &&& run.len() > 0
                &&& run.last() matches Event::Exchange { result, .. }
                &&& result == Err::<usize, usize>(final(wait).state)
            }
        }),
{
    let run = trace::since(old(trace)@, final(trace)@);
    conduct::law_wait_of_a_reader(*old(wait), *final(wait), run, step);
    word::lemma_constants();
    word::lemma_compose(conduct::known(old(wait).state, run, conduct::looks(run)));
}

/// A writer's wait ends as the word that it saw last has it, and never by giving up:
/// with somebody inside, it parks once the word says that writers are parked; with
/// nobody inside, it is in or its exchange failed. All that it did before was to look,
/// ten times at most.
pub proof fn law_lock_exclusive_slow(
    lock: &RawReadBiasedRwLock,
    wait: &mut WriterWait,
    trace: &mut Trace,
    step: WaitStep,
)
    requires
        call_ensures(RawReadBiasedRwLock::lock_exclusive_slow, (lock, wait, trace), step),
    ensures
        trace::accesses(*old(trace), *final(trace), lock.state),
        step != WaitStep::Spun,
        step != WaitStep::Overflow,
        final(wait).carry == old(wait).carry,
        ({
            let run = trace::since(old(trace)@, final(trace)@);
            let last = conduct::known(old(wait).state, run, conduct::looks(run));
            &&& run.len() <= 11
            &&& forall|i: int| 0 <= i < run.len() - 1 ==> #[trigger] run[i] is Load
            &&& step == WaitStep::Acquired ==> last / 4 == 0
            &&& last / 4 == 0 ==> {
                &&& run.len() > 0
                &&& run.last() matches Event::Exchange { current, new, result, .. }
                &&& current == last
                &&& new / 4 == usize::MAX / 4
                &&& new % 2 == last % 2
                &&& new / 2 % 2 == 1 <==> last / 2 % 2 == 1 || old(wait).carry
                &&& step == if result is Ok {
                    WaitStep::Acquired
                } else {
                    WaitStep::Retry
                }
            }
            &&& step == WaitStep::Park ==> last / 4 != 0
            &&& step == WaitStep::Park && last / 2 % 2 == 0 ==> {
                &&& run.len() > 0
                &&& run.last() matches Event::Exchange { current, new, result, .. }
                &&& result is Ok && current == last && new == last + 2
            }
            &&& step == WaitStep::Retry ==> {
                &&& run.len() > 0
                &&& run.last() matches Event::Exchange { result, .. }
                &&& result == Err::<usize, usize>(final(wait).state)
            }
        }),
{
    let run = trace::since(old(trace)@, final(trace)@);
    conduct::law_wait_of_a_writer(*old(wait), *final(wait), run, step);
    word::lemma_constants();
    word::lemma_compose(conduct::known(old(wait).state, run, conduct::looks(run)));
}

/// Whether a client may sleep, by one look: a reader if and only if a writer is inside
/// and readers are parked, and a writer if and only if anybody is and writers are.
pub proof fn law_validate_park(
    lock: &RawReadBiasedRwLock,
    reader_trace: &mut Trace,
    reader_sleeps: bool,
    writer_trace: &mut Trace,
    writer_sleeps: bool,
    word: usize,
)
    requires
        call_ensures(
            RawReadBiasedRwLock::validate_reader_park,
            (lock, reader_trace),
            reader_sleeps,
        ),
        call_ensures(
            RawReadBiasedRwLock::validate_writer_park,
            (lock, writer_trace),
            writer_sleeps,
        ),
        world::answers(word, final(reader_trace)@.last()),
        world::answers(word, final(writer_trace)@.last()),
    ensures
        final(reader_trace)@ == old(reader_trace)@.push(Event::Load { seen: word }),
        final(writer_trace)@ == old(writer_trace)@.push(Event::Load { seen: word }),
        reader_sleeps <==> word >= usize::MAX - 3 && word % 2 == 1,
        writer_sleeps <==> word >= 4 && word / 2 % 2 == 1,
{
    word::lemma_constants();
    word::lemma_compose(word);
    let reader_run = trace::since(old(reader_trace)@, final(reader_trace)@);
    let writer_run = trace::since(old(writer_trace)@, final(writer_trace)@);
    assert(reader_run[0] == final(reader_trace)@.last());
    assert(writer_run[0] == final(writer_trace)@.last());
    assert(final(reader_trace)@ =~= old(reader_trace)@.push(reader_run[0]));
    assert(final(writer_trace)@ =~= old(writer_trace)@.push(writer_run[0]));
}

/// A writer that does not wait makes one access and is granted the lock if and only if
/// the word is that of a fresh lock, which then has a writer and nothing else in it.
pub proof fn law_try_lock_exclusive(
    lock: &RawReadBiasedRwLock,
    trace: &mut Trace,
    granted: bool,
    word: usize,
)
    requires
        call_ensures(RawReadBiasedRwLock::try_lock_exclusive, (lock, trace), granted),
        world::answers(word, final(trace)@.last()),
    ensures
        trace::accesses(*old(trace), *final(trace), lock.state),
        final(trace)@.len() == old(trace)@.len() + 1,
        granted <==> word == 0,
        world::written(word, final(trace)@.last()) == if granted {
            usize::MAX - 3
        } else {
            word as int
        },
{
    let run = trace::since(old(trace)@, final(trace)@);
    conduct::law_writer_that_does_not_wait(run, false, granted);
    assert(run[0] == final(trace)@.last());
}

/// A writer that takes the lock is in, by an exchange of the word of a fresh lock for one
/// with a writer and nothing else in it, or it waits: then that exchange failed, the
/// only other access was a look, and the wait begins with what that saw and carries
/// nothing.
pub proof fn law_lock_exclusive(
    lock: &RawReadBiasedRwLock,
    trace: &mut Trace,
    wait: Option<WriterWait>,
)
    requires
        call_ensures(RawReadBiasedRwLock::lock_exclusive, (lock, trace), wait),
    ensures
        trace::accesses(*old(trace), *final(trace), lock.state),
        ({
            let run = trace::since(old(trace)@, final(trace)@);
            &&& run.len() >= 1
            &&& run[0] matches Event::Exchange { current, new, order, result, .. }
            &&& current == 0 && new == usize::MAX - 3 && order == Order::Acquire
            &&& wait is None <==> result is Ok
            &&& match wait {
                None => run.len() == 1,
                Some(w) => {
                    &&& run.len() == 2
                    &&& run[1] == (Event::Load { seen: w.state })
                    &&& pause::spins_done(w.spin) == 0
                    &&& !w.carry
                    &&& raw::writer_waiting(w.carry) == Phase::WriterWaiting
                },
            }
        }),
{
    let run = trace::since(old(trace)@, final(trace)@);
    match wait {
        None => {
            conduct::law_writer_that_does_not_wait(run, true, true);
        },
        Some(w) => {
            conduct::law_writer_that_does_not_wait(run.drop_last(), true, false);
            conduct::law_wait_begins_afresh(arbitrary(), w, w.state, false);
        },
    }
}

/// A reader that leaves takes itself off the count. While other readers stay inside, or
/// with no writer parked, it wakes nobody and does no more. Alone, with writers parked,
/// it clears the word if that says nothing else by then, and is to wake a writer if and
/// only if it did. It is never to wake readers.
pub proof fn law_unlock_shared(
    lock: &RawReadBiasedRwLock,
    trace: &mut Trace,
    wake: Wake,
    world: World,
    meanwhile: usize,
)
    requires
        call_ensures(RawReadBiasedRwLock::unlock_shared, (lock, trace), wake),
        world.orderly(),
        world.count(Phase::Shared) > 0,
        world::answers(world.word, final(trace)@[old(trace)@.len() as int]),
        final(trace)@.len() > old(trace)@.len() + 1 ==> world::answers(
            meanwhile,
            final(trace)@[old(trace)@.len() + 1int],
        ),
    ensures
        trace::accesses(*old(trace), *final(trace), lock.state),
        world::written(world.word, final(trace)@[old(trace)@.len() as int]) == world.word - 4,
        world.readers_inside() > 1 ==> wake == Wake::Nobody && final(trace)@.len()
            == old(trace)@.len() + 1,
        world.word / 2 % 2 == 0 ==> wake == Wake::Nobody && final(trace)@.len()
            == old(trace)@.len() + 1,
        world.readers_inside() == 1 && world.word / 2 % 2 == 1 ==> {
            &&& final(trace)@.len() == old(trace)@.len() + 2
            &&& wake == if meanwhile == 2 {
                Wake::OneWriter
            } else {
                Wake::Nobody
            }
            &&& world::written(meanwhile, final(trace)@.last()) == if meanwhile == 2 {
                0
            } else {
                meanwhile
            }
        },
        wake != Wake::AllReaders,
{
    let run = trace::since(old(trace)@, final(trace)@);
    assert(run[0] == final(trace)@[old(trace)@.len() as int]);
    if run.len() > 1 {
        assert(run[1] == final(trace)@[old(trace)@.len() + 1int]);
    }
    conduct::law_reader_that_leaves(run, wake);
    outcomes::law_reader_inside_leaves(world, meanwhile, run, wake);
}

/// The last reader that leaves with writers parked makes one access. It is to wake a
/// writer if and only if the word says that writers are parked and nothing else, and
/// then the word is cleared; else the word stays as it is.
pub proof fn law_unlock_shared_slow(
    lock: &RawReadBiasedRwLock,
    trace: &mut Trace,
    wake: Wake,
    word: usize,
)
    requires
        call_ensures(RawReadBiasedRwLock::unlock_shared_slow, (lock, trace), wake),
        world::answers(word, final(trace)@.last()),
    ensures
        trace::accesses(*old(trace), *final(trace), lock.state),
        final(trace)@.len() == old(trace)@.len() + 1,
        wake == if word == 2 {
            Wake::OneWriter
        } else {
            Wake::Nobody
        },
        world::written(word, final(trace)@.last()) == if word == 2 {
            0
        } else {
            word
        },
{
    let run = trace::since(old(trace)@, final(trace)@);
    conduct::law_last_reader_clears_the_word(run, wake);
    assert(run[0] == final(trace)@.last());
}

/// A writer that is inside leaves without fault. Whatever the others do, if each of its
/// accesses is answered by the word of an orderly world in which it is where its accesses
/// before have brought it, then it is told to wake the readers if they are parked in the
/// last of those worlds, else a writer if writers are, and else nobody; and the word is
/// cleared, but for the bit for parked writers where both were parked.
pub proof fn law_unlock_exclusive(
    lock: &RawReadBiasedRwLock,
    trace: &mut Trace,
    outcome: Result<Wake, ReleaseFault>,
    worlds: Seq<World>,
)
    requires
        call_ensures(RawReadBiasedRwLock::unlock_exclusive, (lock, trace), outcome),
        worlds.len() == trace::since(old(trace)@, final(trace)@).len(),
        forall|i: int|
            0 <= i < worlds.len() ==> {
                let run = trace::since(old(trace)@, final(trace)@);
                &&& (#[trigger] worlds[i]).orderly()
                &&& world::answers(worlds[i].word, run[i])
                &&& protocol::phase_after(Phase::Exclusive, run.take(i)) matches Some(phase)
                    ==> worlds[i].count(phase) > 0
            },
    ensures
        trace::accesses(*old(trace), *final(trace), lock.state),
        worlds.len() > 0,
        outcome == Ok::<_, ReleaseFault>(
            if worlds.last().word % 2 == 1 {
                Wake::AllReaders
            } else if worlds.last().word / 2 % 2 == 1 {
                Wake::OneWriter
            } else {
                Wake::Nobody
            },
        ),
        world::written(worlds.last().word, final(trace)@.last()) == if worlds.last().word
            == usize::MAX {
            2usize
        } else {
            0
        },
{
    let run = trace::since(old(trace)@, final(trace)@);
    conduct::law_writer_that_leaves(run, outcome);
    assert forall|i: int| 0 <= i < run.len() implies {
        &&& worlds[i].orderly()
        &&& world::answers(worlds[i].word, #[trigger] run[i])
        &&& protocol::phase_after(Phase::Exclusive, run.take(i)) matches Some(phase)
            ==> worlds[i].count(phase) > 0
    } by {
        assert(worlds[i].orderly());
    }
    outcomes::law_writer_inside_leaves_without_fault(worlds, run, outcome);
    assert(run.last() == final(trace)@.last());
}

/// The same of the long way out, which a writer takes that has found somebody parked:
/// it always wakes somebody.
pub proof fn law_unlock_exclusive_slow(
    lock: &RawReadBiasedRwLock,
    trace: &mut Trace,
    outcome: Result<Wake, ReleaseFault>,
    worlds: Seq<World>,
)
    requires
        call_ensures(RawReadBiasedRwLock::unlock_exclusive_slow, (lock, trace), outcome),
        worlds.len() == trace::since(old(trace)@, final(trace)@).len(),
        forall|i: int|
            0 <= i < worlds.len() ==> {
                let run = trace::since(old(trace)@, final(trace)@);
                &&& (#[trigger] worlds[i]).orderly()
                &&& world::answers(worlds[i].word, run[i])
                &&& protocol::phase_after(Phase::Marked, run.take(i)) matches Some(phase)
                    ==> worlds[i].count(phase) > 0
            },
    ensures
        trace::accesses(*old(trace), *final(trace), lock.state),
        worlds.len() > 0,
        outcome == Ok::<_, ReleaseFault>(
            if worlds.last().word % 2 == 1 {
                Wake::AllReaders
            } else {
                Wake::OneWriter
            },
        ),
        world::written(worlds.last().word, final(trace)@.last()) == if worlds.last().word
            == usize::MAX {
            2usize
        } else {
            0
        },
{
    let run = trace::since(old(trace)@, final(trace)@);
    conduct::law_writer_that_leaves_somebody_parked(run, outcome);
    assert forall|i: int| 0 <= i < run.len() implies {
        &&& worlds[i].orderly()
        &&& world::answers(worlds[i].word, #[trigger] run[i])
        &&& protocol::phase_after(Phase::Marked, run.take(i)) matches Some(phase)
            ==> worlds[i].count(phase) > 0
    } by {
        assert(worlds[i].orderly());
    }
    outcomes::law_marked_writer_leaves_without_fault(worlds, run, outcome);
    assert(run.last() == final(trace)@.last());
}

/// Somebody who is not inside as a writer and leaves as one is told so, if the word has
/// no writer in it: with the word that was seen, and with nothing written.
pub proof fn law_unlock_exclusive_of_nobody(
    lock: &RawReadBiasedRwLock,
    trace: &mut Trace,
    outcome: Result<Wake, ReleaseFault>,
    word: usize,
)
    requires
        call_ensures(RawReadBiasedRwLock::unlock_exclusive, (lock, trace), outcome),
        word < usize::MAX - 3,
        forall|i: int|
            old(trace)@.len() <= i < final(trace)@.len() ==> world::answers(
                word,
                #[trigger] final(trace)@[i],
            ),
    ensures
        outcome == Err::<Wake, _>(ReleaseFault::NotLocked { state: word }),
        forall|i: int|
            old(trace)@.len() <= i < final(trace)@.len() ==> world::written(
                word,
                #[trigger] final(trace)@[i],
            ) == word,
{
    let run = trace::since(old(trace)@, final(trace)@);
    conduct::law_writer_that_leaves(run, outcome);
    assert(run[0] == final(trace)@[old(trace)@.len() as int]);
    let rest = run.skip(1);
    conduct::law_writer_that_leaves_somebody_parked(rest, outcome);
    assert(rest[0] == final(trace)@[old(trace)@.len() + 1int]);
    assert forall|i: int| old(trace)@.len() <= i < final(trace)@.len() implies world::written(
        word,
        #[trigger] final(trace)@[i],
    ) == word by {
        assert(run[i - old(trace)@.len()] == final(trace)@[i]);
    }
}

/// A writer inside that turns into a reader makes one access. It is told to wake the
/// readers if they are parked and else nobody, and the word then has one reader in it
/// and the bit for parked writers as it was.
pub proof fn law_downgrade(
    lock: &RawReadBiasedRwLock,
    trace: &mut Trace,
    wake: Wake,
    word: usize,
)
    requires
        call_ensures(RawReadBiasedRwLock::downgrade, (lock, trace), wake),
        world::answers(word, final(trace)@.last()),
        word >= usize::MAX - 3,
    ensures
        trace::accesses(*old(trace), *final(trace), lock.state),
        final(trace)@.len() == old(trace)@.len() + 1,
        wake == if word % 2 == 1 {
            Wake::AllReaders
        } else {
            Wake::Nobody
        },
        world::written(word, final(trace)@.last()) == if word / 2 % 2 == 1 {
            6usize
        } else {
            4
        },
{
    let run = trace::since(old(trace)@, final(trace)@);
    conduct::law_writer_that_turns_reader(run, wake);
    assert(run[0] == final(trace)@.last());
    word::lemma_constants();
    word::lemma_downgrade(word);
    assert(word::ONE_READER | word::WRITERS_PARKED == 6) by (bit_vector);
}

} // verus!
