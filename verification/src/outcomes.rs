//! What comes of an operation, whatever the others do meanwhile.
//!
//! Each law takes the accesses of an operation together with the worlds, or the words,
//! that they were made in, and says what the caller is told and what becomes of the
//! word. [`crate::conduct`] says which accesses those are.
use vstd::prelude::*;

use crate::conduct;
use crate::laws;
use crate::protocol::{self, Phase, Wake};
use crate::raw::{self, ReaderWait, WaitStep, WriterWait};
use crate::trace::Event;
use crate::word::{self, ReleaseFault};
use crate::world::{self, Move, World};

verus! {

/// A waiting reader gives up only if the word that it saw has no writer and a full
/// count of readers. Where it sees a word with room for a reader it tries to go in,
/// whether or not writers or readers are parked.
pub proof fn law_reader_gives_up_only_on_a_full_count(
    before: ReaderWait,
    after: ReaderWait,
    run: Seq<Event>,
    step: WaitStep,
)
    requires
        raw::reader_step(before, after, run, step),
    ensures
        step == WaitStep::Overflow <==> word::holders(before.state) + 1 == word::writer_mark(),
        step == WaitStep::Overflow ==> !word::writer_active(before.state) && run.len() == 0,
        word::holders(before.state) + 1 < word::writer_mark() ==> {
            &&& run.len() == 1
            &&& run[0] matches Event::Exchange { current, new, result, .. }
            &&& current == before.state
            &&& word::holders(new) == word::holders(before.state) + 1
            &&& word::readers_parked(new) == word::readers_parked(before.state)
            &&& word::writers_parked(new) == word::writers_parked(before.state)
            &&& step == if result is Ok {
                WaitStep::Acquired
            } else {
                WaitStep::Retry
            }
        },
{
    word::lemma_constants();
    word::lemma_compose(before.state);
}

/// A waiting reader whose last look is up to date gets in wherever there is room beside
/// the readers inside, unless its exchange fails without cause; then it knows the word
/// all the same. It reports a full count if and only if there is one. It parks only
/// while a writer is inside, and then the word, by which it is asked once more before
/// it sleeps, says so and says that readers are parked.
pub proof fn law_waiting_reader_in_a_world(
    world: World,
    before: ReaderWait,
    after: ReaderWait,
    run: Seq<Event>,
    step: WaitStep,
)
    requires
        world.orderly(),
        before.state == world.word,
        raw::reader_step(before, after, run, step),
        run.len() > 0 ==> world::answers(world.word, run[0]),
    ensures
        world.writers_inside() == 0 && world.readers_inside() + 1 < usize::MAX / 4 ==> {
            &&& run.len() == 1
            &&& step == WaitStep::Acquired || (step == WaitStep::Retry && after.state
                == world.word)
            &&& step == WaitStep::Acquired ==> world::written(world.word, run[0]) == world.word
                + 4
        },
        step == WaitStep::Acquired ==> world.writers_inside() == 0,
        step == WaitStep::Overflow <==> world.writers_inside() == 0 && world.readers_inside() + 1
            == usize::MAX / 4,
        step == WaitStep::Park ==> world.writers_inside() == 1 && {
            let word = if run.len() == 0 {
                world.word
            } else {
                world::written(world.word, run[0])
            };
            word >= usize::MAX - 3 && word % 2 == 1
        },
{
    word::lemma_constants();
    word::lemma_compose(world.word);
}

/// A waiting writer never gives up. It parks only if the word that it saw has holders
/// and the bit for parked writers is up there, or has just been set by this very step.
/// Where the word that it saw has no holders it tries to go in, whoever is parked.
pub proof fn law_writer_never_gives_up(
    before: WriterWait,
    after: WriterWait,
    run: Seq<Event>,
    step: WaitStep,
)
    requires
        raw::writer_step(before, after, run, step),
    ensures
        step != WaitStep::Overflow,
        step == WaitStep::Park ==> {
            &&& word::holders(before.state) != 0
            &&& if word::writers_parked(before.state) {
                run.len() == 0
            } else {
                &&& run.len() == 1
                &&& run[0] matches Event::Exchange { current, new, result, .. }
                &&& result is Ok
                &&& current == before.state
                &&& new == before.state + 2
            }
        },
        word::holders(before.state) == 0 ==> {
            &&& run.len() == 1
            &&& run[0] matches Event::Exchange { current, new, result, .. }
            &&& current == before.state
            &&& word::holders(new) == usize::MAX / 4
            &&& word::readers_parked(new) == word::readers_parked(before.state)
            &&& word::writers_parked(new) == (word::writers_parked(before.state)
                || before.carry)
            &&& step == if result is Ok {
                WaitStep::Acquired
            } else {
                WaitStep::Retry
            }
        },
{
    word::lemma_constants();
    word::lemma_compose(before.state);
}

/// A waiting writer whose last look is up to date gets in if nobody is inside, unless its
/// exchange fails without cause, and only then. It parks only while somebody is inside,
/// and then the word, by which it is asked once more before it sleeps, says so and says
/// that writers are parked.
pub proof fn law_waiting_writer_in_a_world(
    world: World,
    before: WriterWait,
    after: WriterWait,
    run: Seq<Event>,
    step: WaitStep,
)
    requires
        world.orderly(),
        before.state == world.word,
        raw::writer_step(before, after, run, step),
        run.len() > 0 ==> world::answers(world.word, run[0]),
    ensures
        world.writers_inside() == 0 && world.readers_inside() == 0 ==> {
            &&& run.len() == 1
            &&& step == WaitStep::Acquired || (step == WaitStep::Retry && after.state
                == world.word)
            &&& step == WaitStep::Acquired ==> world::written(world.word, run[0]) >= usize::MAX
                - 3
        },
        step == WaitStep::Acquired ==> world.writers_inside() == 0 && world.readers_inside() == 0,
        step != WaitStep::Overflow,
        step == WaitStep::Park ==> world.writers_inside() + world.readers_inside() > 0 && {
            let word = if run.len() == 0 {
                world.word
            } else {
                world::written(world.word, run[0])
            };
            word / 4 == world.word / 4 && word / 4 != 0 && word / 2 % 2 == 1
        },
{
    word::lemma_constants();
    word::lemma_compose(world.word);
}

/// A writer that comes back from a park, woken or not, stands where the world puts it:
/// its wait, begun anew, carries the bit for parked writers. One that has not parked
/// does not.
pub proof fn law_writer_back_from_a_park_carries(
    world: World,
    step: Move,
    next: World,
    wait: WriterWait,
    state: usize,
)
    requires
        world.leads(step, next),
        match step {
            Move::WakeWriter => world.count(Phase::WriterAsleep) > 0,
            Move::WriterStaysUp { phase } => phase == Phase::WriterWaiting,
            _ => false,
        },
        raw::fresh_writer_wait(wait, state, true),
    ensures
        wait.carry,
        raw::writer_waiting(wait.carry) == Phase::WriterCarrying,
        next.count(raw::writer_waiting(wait.carry)) == world.count(
            raw::writer_waiting(wait.carry),
        ) + 1,
{
    world::lemma_count_after(world, step, next);
}

/// A writer that begins to wait stands where the world puts it: its wait carries
/// nothing.
pub proof fn law_writer_that_has_not_parked_carries_nothing(
    world: World,
    next: World,
    wait: WriterWait,
    state: usize,
)
    requires
        world.leads(Move::BeginWrite, next),
        raw::fresh_writer_wait(wait, state, false),
    ensures
        !wait.carry,
        raw::writer_waiting(wait.carry) == Phase::WriterWaiting,
        next.count(raw::writer_waiting(wait.carry)) == world.count(
            raw::writer_waiting(wait.carry),
        ) + 1,
{
    world::lemma_count_after(world, Move::BeginWrite, next);
}

/// A writer that was woken passes the wake-up on. Whatever it saw on waking, if it gets
/// in and nobody else touches the word before it has left, then it leaves without fault
/// and wakes a writer, or wakes the readers and leaves the word saying that writers are
/// parked.
pub proof fn law_woken_writer_passes_the_wake_up_on(
    wait: WriterWait,
    state: usize,
    after: WriterWait,
    enter: Seq<Event>,
    leave: Seq<Event>,
    outcome: Result<Wake, ReleaseFault>,
)
    requires
        raw::fresh_writer_wait(wait, state, true),
        raw::writer_waits(wait, after, enter, WaitStep::Acquired),
        protocol::unlock_exclusive_run(leave, outcome),
        forall|i: int|
            0 <= i < leave.len() ==> world::answers(
                world::written(after.state, enter.last()),
                #[trigger] leave[i],
            ),
    ensures
        world::written(after.state, enter.last()) / 2 % 2 == 1,
        outcome == Ok::<_, ReleaseFault>(
            if after.state % 2 == 1 {
                Wake::AllReaders
            } else {
                Wake::OneWriter
            },
        ),
        world::written(world::written(after.state, enter.last()), leave.last()) == if after.state
            % 2 == 1 {
            2usize
        } else {
            0
        },
{
    conduct::law_wait_of_a_writer(wait, after, enter, WaitStep::Acquired);
    word::lemma_constants();
    let taken = world::written(after.state, enter.last());
    word::lemma_compose(taken);
    assert(world::answers(taken, leave[0]));
    assert(leave.drop_first()[0] == leave[1]);
    assert(world::answers(taken, leave[1]));
    assert(leave.drop_first()[1] == leave[2]);
    assert(world::answers(taken, leave[2]));
}

/// A writer in whose time inside the parked bits only come up, as
/// [`laws::law_writer_is_undisturbed`] has it, leaves without fault. The word that it
/// gives back decides: parked readers are woken, a parked writer where no reader is
/// parked, and nobody where nobody is. The word then is zero, but for the bit for parked
/// writers where readers were woken before them.
pub proof fn law_undisturbed_writer_leaves(
    words: Seq<usize>,
    run: Seq<Event>,
    outcome: Result<Wake, ReleaseFault>,
)
    requires
        protocol::unlock_exclusive_run(run, outcome),
        words.len() == run.len(),
        forall|i: int| 0 <= i < run.len() ==> world::answers(words[i], #[trigger] run[i]),
        forall|i: int| 0 <= i < words.len() ==> #[trigger] words[i] >= usize::MAX - 3,
        forall|i: int, j: int|
            0 <= i < j < words.len() ==> {
                &&& (#[trigger] words[i]) % 2 == 1 ==> (#[trigger] words[j]) % 2 == 1
                &&& words[i] / 2 % 2 == 1 ==> words[j] / 2 % 2 == 1
            },
    ensures
        outcome == Ok::<_, ReleaseFault>(
            if words.last() % 2 == 1 {
                Wake::AllReaders
            } else if words.last() / 2 % 2 == 1 {
                Wake::OneWriter
            } else {
                Wake::Nobody
            },
        ),
        world::written(words.last(), run.last()) == if words.last() == usize::MAX {
            2usize
        } else {
            0
        },
{
    word::lemma_constants();
    assert(world::answers(words[0], run[0]));
    assert(words[0] >= usize::MAX - 3);
    if run.len() > 1 {
        let rest = run.drop_first();
        assert(rest[0] == run[1]);
        assert(world::answers(words[1], run[1]));
        assert(words[1] >= usize::MAX - 3);
        assert(words[0] % 2 == 1 ==> words[1] % 2 == 1);
        if run.len() > 2 {
            assert(rest[1] == run[2]);
            assert(world::answers(words[2], run[2]));
            assert(words[2] >= usize::MAX - 3);
            assert(words[1] % 2 == 1 ==> words[2] % 2 == 1);
            if run.len() > 3 {
                assert(rest[2] == run[3]);
                assert(words[3] >= usize::MAX - 3);
                assert(words[2] % 2 == 1 ==> words[3] % 2 == 1);
            }
        }
    }
}

/// A writer that is inside leaves without fault, in whatever orderly worlds the accesses
/// of its leaving are made, as long as the writer is in each of them where the accesses
/// before have brought it. Whom it wakes goes by the word that it gives back.
#[verifier::rlimit(40)]
pub proof fn law_writer_inside_leaves_without_fault(
    worlds: Seq<World>,
    run: Seq<Event>,
    outcome: Result<Wake, ReleaseFault>,
)
    requires
        protocol::unlock_exclusive_run(run, outcome),
        worlds.len() == run.len(),
        forall|i: int|
            0 <= i < run.len() ==> {
                &&& worlds[i].orderly()
                &&& world::answers(worlds[i].word, #[trigger] run[i])
                &&& protocol::phase_after(Phase::Exclusive, run.take(i)) matches Some(phase)
                    ==> worlds[i].count(phase) > 0
            },
    ensures
        outcome == Ok::<_, ReleaseFault>(
            if worlds.last().word % 2 == 1 {
                Wake::AllReaders
            } else if worlds.last().word / 2 % 2 == 1 {
                Wake::OneWriter
            } else {
                Wake::Nobody
            },
        ),
        world::written(worlds.last().word, run.last()) == if worlds.last().word == usize::MAX {
            2usize
        } else {
            0
        },
{
    word::lemma_constants();
    assert(run.take(0) =~= seq![]);
    assert(world::answers(worlds[0].word, run[0]));
    word::lemma_compose(worlds[0].word);
    if run.len() > 1 {
        let rest = run.skip(1);
        let rest_worlds = worlds.skip(1);
        assert forall|i: int| 0 <= i < rest.len() implies {
            &&& rest_worlds[i].orderly()
            &&& world::answers(rest_worlds[i].word, #[trigger] rest[i])
            &&& protocol::phase_after(Phase::Marked, rest.take(i)) matches Some(phase)
                ==> rest_worlds[i].count(phase) > 0
        } by {
            assert(rest[i] == run[i + 1]);
            assert(run.take(i + 1) =~= seq![run[0]] + rest.take(i));
            protocol::lemma_phase_one(Phase::Exclusive, run[0]);
            protocol::lemma_phase_concat(Phase::Exclusive, seq![run[0]], rest.take(i));
        }
        law_marked_writer_leaves_without_fault(rest_worlds, rest, outcome);
        assert(rest.last() == run.last());
        assert(rest_worlds.last() == worlds.last());
        assert(worlds.last().word % 4 != 0);
    }
}

/// The same of a writer inside that has tried the short way out and goes the long one.
/// Somebody is always woken.
#[verifier::rlimit(40)]
pub proof fn law_marked_writer_leaves_without_fault(
    worlds: Seq<World>,
    run: Seq<Event>,
    outcome: Result<Wake, ReleaseFault>,
)
    requires
        protocol::unlock_exclusive_slow_run(run, outcome),
        worlds.len() == run.len(),
        forall|i: int|
            0 <= i < run.len() ==> {
                &&& worlds[i].orderly()
                &&& world::answers(worlds[i].word, #[trigger] run[i])
                &&& protocol::phase_after(Phase::Marked, run.take(i)) matches Some(phase)
                    ==> worlds[i].count(phase) > 0
            },
    ensures
        outcome == Ok::<_, ReleaseFault>(
            if worlds.last().word % 2 == 1 {
                Wake::AllReaders
            } else {
                Wake::OneWriter
            },
        ),
        worlds.last().word % 4 != 0,
        world::written(worlds.last().word, run.last()) == if worlds.last().word == usize::MAX {
            2usize
        } else {
            0
        },
{
    word::lemma_constants();
    assert(run.take(0) =~= seq![]);
    assert(world::answers(worlds[0].word, run[0]));
    word::lemma_compose(worlds[0].word);
    if run.len() > 1 {
        protocol::lemma_phase_one(Phase::Marked, run[0]);
        assert(run.take(1) =~= seq![run[0]]);
        assert(world::answers(worlds[1].word, run[1]));
        word::lemma_compose(worlds[1].word);
        if run.len() > 2 {
            protocol::lemma_phase_push(Phase::Marked, run.take(1), run[1]);
            assert(run.take(2) =~= run.take(1).push(run[1]));
            assert(world::answers(worlds[2].word, run[2]));
            word::lemma_compose(worlds[2].word);
        }
    }
}

/// A reader that leaves while other readers stay inside wakes nobody and is done: it
/// takes itself off the count, and neither parked bit changes.
pub proof fn law_reader_that_leaves_others_inside_wakes_nobody(
    world: World,
    event: Event,
    next: World,
    run: Seq<Event>,
    wake: Wake,
)
    requires
        world.orderly(),
        world.readers_inside() > 1,
        world.leads(Move::Access { phase: Phase::Shared, event }, next),
        protocol::unlock_shared_run(run, wake),
        run[0] == event,
    ensures
        protocol::next_phase(Phase::Shared, event) == Some(Phase::Idle),
        next.word == world.word - 4,
        next.readers_inside() == world.readers_inside() - 1,
        next.count(Phase::WakingWriter) == world.count(Phase::WakingWriter),
        next.count(Phase::LastOut) == world.count(Phase::LastOut),
        run.len() == 1,
        wake == Wake::Nobody,
{
    world::lemma_count_after(world, Move::Access { phase: Phase::Shared, event }, next);
}

/// What a reader that leaves is told, by the world in which it takes itself off the
/// count and the word that it meets afterwards. It is to wake a writer if and only if
/// it was alone inside, writers were parked, and nobody touched the word before it had
/// cleared it. It is never to wake readers.
pub proof fn law_reader_inside_leaves(
    world: World,
    meanwhile: usize,
    run: Seq<Event>,
    wake: Wake,
)
    requires
        world.orderly(),
        world.count(Phase::Shared) > 0,
        protocol::unlock_shared_run(run, wake),
        world::answers(world.word, run[0]),
        run.len() > 1 ==> world::answers(meanwhile, run[1]),
    ensures
        world::written(world.word, run[0]) == world.word - 4,
        wake == Wake::OneWriter <==> world.readers_inside() == 1 && world.word / 2 % 2 == 1
            && meanwhile == world.word - 4 && run.len() > 1,
        wake != Wake::AllReaders,
        run.len() > 1 <==> world.readers_inside() == 1 && world.word / 2 % 2 == 1,
        run.len() > 1 ==> world::written(meanwhile, run[1]) == if meanwhile == world.word - 4 {
            0
        } else {
            meanwhile
        },
{
    word::lemma_constants();
    word::lemma_compose(world.word);
}

/// Wake-ups are owed exactly for the parked bits that are taken back. An access that
/// takes the bit for parked writers back leaves its client owing one of them a wake-up,
/// with nobody inside; one that takes the bit for parked readers back leaves its client
/// owing all of them one; and no other access does either.
#[verifier::rlimit(40)]
pub proof fn law_wake_ups_are_owed_for_bits_taken_back(
    world: World,
    phase: Phase,
    event: Event,
    next: World,
)
    requires
        world.orderly(),
        world.leads(Move::Access { phase, event }, next),
    ensures
        next.count(Phase::WakingWriter) == world.count(Phase::WakingWriter) + (if world.word / 2
            % 2 == 1 && next.word / 2 % 2 == 0 {
            1int
        } else {
            0
        }),
        next.count(Phase::WakingReaders) + next.count(Phase::SharedWaking) == world.count(
            Phase::WakingReaders,
        ) + world.count(Phase::SharedWaking) + (if world.word % 2 == 1 && next.word % 2 == 0 {
            1int
        } else {
            0
        }),
        world.word / 2 % 2 == 1 && next.word / 2 % 2 == 0 ==> next.word == 0
            && next.readers_inside() == 0 && next.writers_inside() == 0,
{
    word::lemma_constants();
    let step = Move::Access { phase, event };
    word::lemma_compose(world.word);
    word::lemma_compose(next.word);
    laws::law_every_step_keeps_invariant(world, step, next);
    world::lemma_count_after(world, step, next);
    if phase == Phase::Exclusive && event is And {
        word::lemma_downgrade(world.word);
        assert(word::ONE_READER | word::WRITERS_PARKED == 6) by (bit_vector);
    }
}

/// A writer inside that turns into a reader leaves a word with one reader, with the bit
/// for parked readers down and that for parked writers as it was, and is to wake the
/// readers if and only if they were parked.
pub proof fn law_writer_inside_turns_reader(world: World, run: Seq<Event>, wake: Wake)
    requires
        world.orderly(),
        world.count(Phase::Exclusive) > 0,
        protocol::downgrade_run(run, wake),
        world::answers(world.word, run[0]),
    ensures
        wake == if world.word % 2 == 1 {
            Wake::AllReaders
        } else {
            Wake::Nobody
        },
        world::written(world.word, run[0]) == if world.word / 2 % 2 == 1 {
            6usize
        } else {
            4
        },
{
    word::lemma_downgrade(world.word);
    assert(word::ONE_READER | word::WRITERS_PARKED == 6) by (bit_vector);
}

/// A reader that does not wait is granted the lock if and only if, at its last access,
/// no writer is inside and there is room beside the readers; whoever is parked or waits
/// plays no part. It then adds itself to the count and changes nothing else.
pub proof fn law_reader_that_does_not_wait_in_a_world(
    world: World,
    run: Seq<Event>,
    granted: bool,
)
    requires
        world.orderly(),
        protocol::try_shared_run(run, granted),
        world::answers(world.word, run.last()),
    ensures
        granted <==> world.writers_inside() == 0 && world.readers_inside() + 1 < usize::MAX / 4,
        world::written(world.word, run.last()) == if granted {
            world.word + 4
        } else {
            world.word as int
        },
{
    if protocol::shared_fast_run(run, true) {
        assert(protocol::retries(run, run.len() - 1));
    }
    assert(seq![run.last()][0] == run.last());
    word::lemma_constants();
    word::lemma_compose(world.word);
}

/// A writer that does not wait is granted the lock only while nobody is inside and
/// nobody parked, and then it has the lock to itself with no parked bit up. If it may
/// not fail without cause, it is granted the lock whenever that is so.
pub proof fn law_writer_that_does_not_wait_in_a_world(
    world: World,
    run: Seq<Event>,
    weak: bool,
    granted: bool,
)
    requires
        world.orderly(),
        protocol::try_exclusive_run(run, weak, granted),
        world::answers(world.word, run[0]),
    ensures
        granted ==> {
            &&& world.writers_inside() == 0 && world.readers_inside() == 0
            &&& world.word == 0
            &&& world::written(world.word, run[0]) == usize::MAX - 3
        },
        !weak && world.word == 0 ==> granted,
        !granted ==> world::written(world.word, run[0]) == world.word,
{
    word::lemma_constants();
}

/// A reader that goes in and out while nobody else touches the word leaves it as it
/// found it and wakes nobody; but on a word that says only that writers are parked it
/// wakes one of them and leaves the word of a fresh lock.
pub proof fn law_reader_goes_in_and_out(
    word: usize,
    enter: Seq<Event>,
    leave: Seq<Event>,
    wake: Wake,
)
    requires
        protocol::try_shared_run(enter, true),
        world::answers(word, enter.last()),
        protocol::unlock_shared_run(leave, wake),
        world::answers(world::written(word, enter.last()), leave[0]),
        leave.len() > 1 ==> world::answers(
            world::written(world::written(word, enter.last()), leave[0]),
            leave[1],
        ),
    ensures
        world::written(world::written(word, enter.last()), leave[0]) == word,
        leave.len() > 1 <==> word == 2,
        leave.len() > 1 ==> wake == Wake::OneWriter && world::written(word, leave[1]) == 0,
        leave.len() == 1 ==> wake == Wake::Nobody,
{
    if protocol::shared_fast_run(enter, true) {
        assert(protocol::retries(enter, enter.len() - 1));
    }
    assert(seq![enter.last()][0] == enter.last());
    word::lemma_constants();
}

/// A writer that goes in by the short way and out while nobody else touches the word
/// leaves it as it found it and wakes nobody.
pub proof fn law_writer_goes_in_and_out(
    word: usize,
    enter: Seq<Event>,
    weak: bool,
    leave: Seq<Event>,
    outcome: Result<Wake, ReleaseFault>,
)
    requires
        protocol::try_exclusive_run(enter, weak, true),
        world::answers(word, enter[0]),
        protocol::unlock_exclusive_run(leave, outcome),
        world::answers(world::written(word, enter[0]), leave[0]),
    ensures
        leave.len() == 1,
        outcome == Ok::<_, ReleaseFault>(Wake::Nobody),
        world::written(world::written(word, enter[0]), leave[0]) == word,
{
}

/// A writer that turns into a reader and then leaves, while nobody else touches the word,
/// owes the readers a wake-up for the first if they were parked, and one writer a
/// wake-up for the second if writers were; in the end the word is that of a fresh lock.
pub proof fn law_writer_turns_reader_and_leaves(
    word: usize,
    turn: Seq<Event>,
    first: Wake,
    leave: Seq<Event>,
    second: Wake,
)
    requires
        word >= usize::MAX - 3,
        protocol::downgrade_run(turn, first),
        world::answers(word, turn[0]),
        protocol::unlock_shared_run(leave, second),
        world::answers(world::written(word, turn[0]), leave[0]),
        leave.len() > 1 ==> world::answers(
            world::written(world::written(word, turn[0]), leave[0]),
            leave[1],
        ),
    ensures
        first == if word % 2 == 1 {
            Wake::AllReaders
        } else {
            Wake::Nobody
        },
        second == if word / 2 % 2 == 1 {
            Wake::OneWriter
        } else {
            Wake::Nobody
        },
        ({
            let left = world::written(world::written(word, turn[0]), leave[0]);
            if leave.len() > 1 {
                world::written(left, leave[1]) == 0
            } else {
                left == 0
            }
        }),
{
    word::lemma_constants();
    word::lemma_downgrade(word);
    assert(word::ONE_READER | word::WRITERS_PARKED == 6) by (bit_vector);
}

} // verus!
