//! What holds of the lock as a whole, whoever uses it and however their accesses
//! interleave.
use vstd::prelude::*;

use crate::pause;
use crate::protocol::{self, Phase};
use crate::raw::{self, RawReadBiasedRwLock, ReaderWait, WaitStep, WriterWait};
use crate::trace::{Event, Order};
use crate::word::{self, ONE_READER, ONE_WRITER, UNLOCKED, WRITERS_PARKED};
use crate::world::{self, Move, World};

verus! {

/// A fresh lock satisfies the invariant.
pub proof fn law_fresh_lock(world: World)
    requires
        world.initial(),
    ensures
        world.orderly(),
{
    word::lemma_constants();
}

/// The parts of a word that is put together from parts.
proof fn lemma_parts(word: usize, count: nat, readers: bool, writers: bool)
    requires
        word == word::compose(count, readers, writers),
    ensures
        word::holders(word) == count,
        word::readers_parked(word) == readers,
        word::writers_parked(word) == writers,
{
}

/// Going in as a reader keeps the invariant.
#[verifier::rlimit(40)]
proof fn lemma_entering_shared(world: World, phase: Phase, event: Event, next: World)
    requires
        world.orderly(),
        world.leads(Move::Access { phase, event }, next),
        phase == Phase::Idle || phase == Phase::ReaderWaiting,
        protocol::enters_shared(event),
    ensures
        next.orderly(),
{
    let then = protocol::next_phase(phase, event).unwrap();
    word::lemma_constants();
    word::lemma_compose(world.word);
    lemma_parts(
        next.word,
        word::holders(world.word) + 1,
        word::readers_parked(world.word),
        word::writers_parked(world.word),
    );
    assert(then == Phase::Shared);
    world::lemma_count_after(world, Move::Access { phase, event }, next);
}

/// Going in as a writer keeps the invariant.
#[verifier::rlimit(40)]
proof fn lemma_entering_exclusive(world: World, phase: Phase, event: Event, next: World)
    requires
        world.orderly(),
        world.leads(Move::Access { phase, event }, next),
        phase == Phase::Idle || phase == Phase::WriterWaiting || phase == Phase::WriterCarrying,
        protocol::enters_exclusive(event, phase == Phase::WriterCarrying),
    ensures
        next.orderly(),
{
    let then = protocol::next_phase(phase, event).unwrap();
    word::lemma_constants();
    word::lemma_compose(world.word);
    lemma_parts(
        next.word,
        word::writer_mark(),
        word::readers_parked(world.word),
        word::writers_parked(world.word) || phase == Phase::WriterCarrying,
    );
    assert(then == Phase::Exclusive);
    world::lemma_count_after(world, Move::Access { phase, event }, next);
}

/// Setting a parked bit keeps the invariant.
#[verifier::rlimit(40)]
proof fn lemma_marking(world: World, phase: Phase, event: Event, next: World)
    requires
        world.orderly(),
        world.leads(Move::Access { phase, event }, next),
        (phase == Phase::ReaderWaiting && protocol::marks_readers(event)) || ((phase
            == Phase::WriterWaiting || phase == Phase::WriterCarrying) && protocol::marks_writers(
            event,
        )),
    ensures
        next.orderly(),
{
    word::lemma_constants();
    word::lemma_compose(world.word);
    if phase == Phase::ReaderWaiting {
        lemma_parts(
            next.word,
            word::writer_mark(),
            true,
            word::writers_parked(world.word),
        );
    } else {
        lemma_parts(
            next.word,
            word::holders(world.word),
            word::readers_parked(world.word),
            true,
        );
    }
    world::lemma_count_after(world, Move::Access { phase, event }, next);
}

/// An access of a client outside that does not write keeps the invariant.
proof fn lemma_looking(world: World, phase: Phase, event: Event, next: World)
    requires
        world.orderly(),
        world.leads(Move::Access { phase, event }, next),
        !protocol::writes(event),
        phase == Phase::Idle || phase == Phase::ReaderWaiting || phase == Phase::WriterWaiting
            || phase == Phase::WriterCarrying,
    ensures
        next.orderly(),
{
    let then = protocol::next_phase(phase, event).unwrap();
    assert(then == phase && next.word == world.word);
    world::lemma_count_after(world, Move::Access { phase, event }, next);
    assert(forall|p: Phase| #[trigger] next.count(p) == world.count(p));
}

/// Leaving as a reader keeps the invariant.
#[verifier::rlimit(40)]
proof fn lemma_leaving_shared(world: World, phase: Phase, event: Event, next: World)
    requires
        world.orderly(),
        world.leads(Move::Access { phase, event }, next),
        phase == Phase::Shared || phase == Phase::LastOut,
    ensures
        next.orderly(),
{
    word::lemma_constants();
    word::lemma_compose(world.word);
    word::lemma_compose(next.word);
    world::lemma_count_after(world, Move::Access { phase, event }, next);
    if phase == Phase::Shared {
        lemma_parts(
            next.word,
            (word::holders(world.word) - 1) as nat,
            word::readers_parked(world.word),
            word::writers_parked(world.word),
        );
    }
}

/// What a writer inside does keeps the invariant.
#[verifier::rlimit(40)]
proof fn lemma_leaving_exclusive(world: World, phase: Phase, event: Event, next: World)
    requires
        world.orderly(),
        world.leads(Move::Access { phase, event }, next),
        phase == Phase::Exclusive || phase == Phase::Marked || phase == Phase::SawReaders || phase
            == Phase::SawWriters || phase == Phase::SawBoth,
    ensures
        next.orderly(),
{
    word::lemma_constants();
    word::lemma_compose(world.word);
    word::lemma_compose(next.word);
    world::lemma_count_after(world, Move::Access { phase, event }, next);
    if phase == Phase::Exclusive && event is And {
        word::lemma_downgrade(world.word);
        assert(ONE_READER | WRITERS_PARKED == 6) by (bit_vector);
    }
}

/// An access keeps the invariant.
proof fn lemma_access_keeps_invariant(world: World, phase: Phase, event: Event, next: World)
    requires
        world.orderly(),
        world.leads(Move::Access { phase, event }, next),
    ensures
        next.orderly(),
{
    match phase {
        Phase::Idle | Phase::ReaderWaiting | Phase::WriterWaiting | Phase::WriterCarrying => {
            if !protocol::writes(event) {
                lemma_looking(world, phase, event, next);
            } else if (phase == Phase::Idle || phase == Phase::ReaderWaiting)
                && protocol::enters_shared(event) {
                lemma_entering_shared(world, phase, event, next);
            } else if phase != Phase::ReaderWaiting && protocol::enters_exclusive(
                event,
                phase == Phase::WriterCarrying,
            ) {
                lemma_entering_exclusive(world, phase, event, next);
            } else {
                lemma_marking(world, phase, event, next);
            }
        },
        Phase::Shared | Phase::LastOut => {
            lemma_leaving_shared(world, phase, event, next);
        },
        Phase::Exclusive
        | Phase::Marked
        | Phase::SawReaders
        | Phase::SawWriters
        | Phase::SawBoth => {
            lemma_leaving_exclusive(world, phase, event, next);
        },
        _ => {},
    }
}

/// Waking all sleeping readers keeps the invariant.
proof fn lemma_waking_readers(world: World, phase: Phase, next: World)
    requires
        world.orderly(),
        world.leads(Move::WakeReaders { phase }, next),
    ensures
        next.orderly(),
{
    world::lemma_count_after(world, Move::WakeReaders { phase }, next);
    assert(next.writers_inside() == world.writers_inside());
    assert(next.readers_inside() == world.readers_inside());
    assert(next.readers_waiting() == world.readers_waiting());
}

/// Waking one sleeping writer keeps the invariant.
proof fn lemma_waking_writer(world: World, next: World)
    requires
        world.orderly(),
        world.leads(Move::WakeWriter, next),
    ensures
        next.orderly(),
{
    world::lemma_count_after(world, Move::WakeWriter, next);
    assert(next.writers_inside() == world.writers_inside());
    assert(next.readers_inside() == world.readers_inside());
    assert(next.readers_waiting() == world.readers_waiting());
}

/// A client that begins to wait, gives up, or goes to sleep or not, keeps the
/// invariant.
#[verifier::rlimit(40)]
proof fn lemma_waiting(world: World, from: Phase, to: Phase)
    requires
        world.orderly(),
        world.count(from) > 0,
        match (from, to) {
            (Phase::Idle, Phase::ReaderWaiting) => true,
            (Phase::Idle, Phase::WriterWaiting) => true,
            (Phase::ReaderWaiting, Phase::Idle) => world.readers_inside() > 0
                && world.writers_inside() == 0,
            (Phase::ReaderWaiting, Phase::ReaderAsleep) => word::readers_parked(world.word),
            (Phase::WriterWaiting, Phase::WriterAsleep) => word::writers_parked(world.word),
            (Phase::WriterCarrying, Phase::WriterAsleep) => word::writers_parked(world.word),
            (Phase::WriterWaiting, Phase::WriterCarrying) => true,
            (Phase::WriterCarrying, Phase::WriterCarrying) => true,
            _ => false,
        },
    ensures
        world.moved(from, to).orderly(),
{
    let next = world.moved(from, to);
    world::lemma_moved(world, from, to);
    assert(next.writers_inside() == world.writers_inside());
    assert(next.readers_inside() == world.readers_inside());
    assert(next.count(Phase::LastOut) == world.count(Phase::LastOut));
}

/// Every step of every client keeps the invariant.
pub proof fn law_every_step_keeps_invariant(world: World, step: Move, next: World)
    requires
        world.orderly(),
        world.leads(step, next),
    ensures
        next.orderly(),
{
    match step {
        Move::Access { phase, event } => {
            lemma_access_keeps_invariant(world, phase, event, next);
        },
        Move::Arrive => {
            broadcast use vstd::multiset::group_multiset_axioms;

            assert(forall|p: Phase|
                p != Phase::Idle ==> #[trigger] next.count(p) == world.count(p));
        },
        Move::BeginRead => {
            lemma_waiting(world, Phase::Idle, Phase::ReaderWaiting);
        },
        Move::BeginWrite => {
            lemma_waiting(world, Phase::Idle, Phase::WriterWaiting);
        },
        Move::ReaderGivesUp => {
            word::lemma_constants();
            lemma_waiting(world, Phase::ReaderWaiting, Phase::Idle);
        },
        Move::ReaderSleeps => {
            lemma_waiting(world, Phase::ReaderWaiting, Phase::ReaderAsleep);
        },
        Move::WriterSleeps { phase } => {
            lemma_waiting(world, phase, Phase::WriterAsleep);
        },
        Move::WriterStaysUp { phase } => {
            lemma_waiting(world, phase, Phase::WriterCarrying);
        },
        Move::WakeReaders { phase } => {
            lemma_waking_readers(world, phase, next);
        },
        Move::WakeWriter => {
            lemma_waking_writer(world, next);
        },
    }
}

/// Every world that a fresh lock gets to satisfies the invariant, whatever its
/// clients do within the protocol and in whatever order.
pub proof fn law_every_reachable_world_is_orderly(worlds: Seq<World>, steps: Seq<Move>, i: int)
    requires
        world::history(worlds, steps),
        0 <= i < worlds.len(),
    ensures
        worlds[i].orderly(),
    decreases i,
{
    if i == 0 {
        law_fresh_lock(worlds[0]);
    } else {
        law_every_reachable_world_is_orderly(worlds, steps, i - 1);
        assert(worlds[i - 1].leads(steps[i - 1], worlds[i - 1 + 1]));
        law_every_step_keeps_invariant(worlds[i - 1], steps[i - 1], worlds[i]);
    }
}

/// In every world that a fresh lock gets to, at most one writer is inside, and no
/// reader beside it.
pub proof fn law_mutual_exclusion(worlds: Seq<World>, steps: Seq<Move>, i: int)
    requires
        world::history(worlds, steps),
        0 <= i < worlds.len(),
    ensures
        worlds[i].writers_inside() <= 1,
        worlds[i].writers_inside() == 0 || worlds[i].readers_inside() == 0,
{
    law_every_reachable_world_is_orderly(worlds, steps, i);
}

/// An operation that keeps to the protocol is a sequence of steps of it: each of its
/// accesses takes the client on from where the accesses before it have brought it.
pub proof fn law_runs_are_steps(phase: Phase, run: Seq<Event>, i: int)
    requires
        protocol::phase_after(phase, run) is Some,
        0 <= i < run.len(),
    ensures
        protocol::phase_after(phase, run.take(i)) matches Some(before)
            && protocol::next_phase(before, run[i]) is Some && protocol::next_phase(before, run[i])
            == protocol::phase_after(phase, run.take(i + 1)),
{
    let front = run.take(i + 1);
    protocol::lemma_phase_concat(phase, front, run.skip(i + 1));
    assert(front + run.skip(i + 1) =~= run);
    protocol::lemma_phase_push(phase, run.take(i), run[i]);
    assert(run.take(i).push(run[i]) =~= front);
}

/// The exclusive lock is given only while nobody is inside.
pub proof fn law_writer_enters_alone(world: World, step: Move, next: World)
    requires
        world.orderly(),
        world.leads(step, next),
        next.writers_inside() > world.writers_inside(),
    ensures
        world.readers_inside() == 0,
        world.writers_inside() == 0,
{
    law_every_step_keeps_invariant(world, step, next);
    world::lemma_count_after(world, step, next);
}

/// A shared lock is given only while no writer is inside, but for the writer that
/// turns into a reader itself.
pub proof fn law_reader_enters_beside_readers_only(world: World, step: Move, next: World)
    requires
        world.orderly(),
        world.leads(step, next),
        next.readers_inside() > world.readers_inside(),
    ensures
        world.writers_inside() == 0 || (step matches Move::Access { phase, event } && phase
            == Phase::Exclusive && event is And && next.writers_inside() == 0),
{
    law_every_step_keeps_invariant(world, step, next);
    world::lemma_count_after(world, step, next);
}

/// Whether a reader fits does not depend on who is parked.
pub proof fn law_parked_bits_do_not_gate_readers(word: usize)
    ensures
        word::reader_fits(word | WRITERS_PARKED) == word::reader_fits(word),
        word::reader_fits(word | word::READERS_PARKED) == word::reader_fits(word),
{
    word::lemma_set_parked(word);
    word::lemma_compose(word);
    word::lemma_compose(word | WRITERS_PARKED);
    word::lemma_compose(word | word::READERS_PARKED);
}

/// Waiting writers do not keep readers out: where a reader that does not wait is
/// turned away, its last look at the word was at one with a writer inside or with
/// the count of readers full. How many writers wait or sleep plays no part.
pub proof fn law_waiting_writers_do_not_gate_readers(world: World, run: Seq<Event>)
    requires
        world.orderly(),
        protocol::try_shared_run(run, false),
        world::answers(world.word, run.last()),
    ensures
        world.writers_inside() == 1 || world.readers_inside() + 1 == word::writer_mark(),
{
}

/// A reader that waits parks only behind an active writer that has been told.
pub proof fn law_reader_parks_only_behind_a_writer(
    before: ReaderWait,
    after: ReaderWait,
    run: Seq<Event>,
)
    requires
        raw::reader_step(before, after, run, WaitStep::Park),
    ensures
        word::writer_active(before.state),
        word::readers_parked(before.state) || protocol::marks_readers(run[0]),
{
}

/// A waiting reader spins ten times at most between two parks, and otherwise goes on
/// only after an exchange of its has failed.
pub proof fn law_reader_wait_is_bounded(
    before: ReaderWait,
    after: ReaderWait,
    run: Seq<Event>,
    step: WaitStep,
)
    requires
        raw::reader_step(before, after, run, step),
    ensures
        step == WaitStep::Spun ==> pause::spins_done(after.spin) == pause::spins_done(before.spin)
            + 1 <= pause::spin_limit(),
        step != WaitStep::Spun ==> pause::spins_done(after.spin) == pause::spins_done(before.spin),
        step == WaitStep::Retry ==> run.len() == 1 && run[0] is Exchange && !protocol::took_place(
            run[0],
        ),
{
}

/// A waiting writer spins ten times at most between two parks, and otherwise goes on
/// only after an exchange of its has failed.
pub proof fn law_writer_wait_is_bounded(
    before: WriterWait,
    after: WriterWait,
    run: Seq<Event>,
    step: WaitStep,
)
    requires
        raw::writer_step(before, after, run, step),
    ensures
        step == WaitStep::Spun ==> pause::spins_done(after.spin) == pause::spins_done(before.spin)
            + 1 <= pause::spin_limit(),
        step != WaitStep::Spun ==> pause::spins_done(after.spin) == pause::spins_done(before.spin),
        step == WaitStep::Retry ==> run.len() == 1 && run[0] is Exchange && !protocol::took_place(
            run[0],
        ),
{
}

/// On a lock where nobody is inside, whoever waits finds a word that lets it in,
/// whether or not its parked bits are set.
pub proof fn law_free_lock_lets_waiters_in(world: World)
    requires
        world.orderly(),
        world.readers_inside() == 0,
        world.writers_inside() == 0,
    ensures
        word::holders(world.word) == 0,
        word::reader_fits(world.word),
{
    word::lemma_constants();
}

/// A writer that does not wait gets in if and only if the word is that of a fresh
/// lock.
pub proof fn law_try_lock_exclusive_needs_a_fresh_word(
    world: World,
    run: Seq<Event>,
    granted: bool,
)
    requires
        protocol::try_exclusive_run(run, false, granted),
        world::answers(world.word, run[0]),
    ensures
        granted == (world.word == UNLOCKED),
{
}

/// While a writer is inside, what the others do leaves it inside and can only set
/// parked bits.
pub proof fn law_writer_is_undisturbed(world: World, step: Move, next: World)
    requires
        world.orderly(),
        world.leads(step, next),
        world.writers_inside() == 1,
        step matches Move::Access { phase, .. } ==> phase != Phase::Exclusive && phase
            != Phase::Marked && phase != Phase::SawReaders && phase != Phase::SawWriters && phase
            != Phase::SawBoth,
    ensures
        next.writers_inside() == 1,
        word::writer_active(next.word),
        word::readers_parked(world.word) ==> word::readers_parked(next.word),
        word::writers_parked(world.word) ==> word::writers_parked(next.word),
{
    law_every_step_keeps_invariant(world, step, next);
    world::lemma_count_after(world, step, next);
    word::lemma_constants();
    word::lemma_compose(world.word);
    word::lemma_compose(next.word);
}

/// A writer that is inside leaves without fault: each word that it can see on its
/// way out is one that the protocol has an answer to.
pub proof fn law_leaving_writer_never_faults(world: World, phase: Phase, event: Event)
    requires
        world.orderly(),
        world.count(phase) > 0,
        world::answers(world.word, event),
        (phase == Phase::Exclusive && protocol::clears(event, ONE_WRITER as int)) || (phase
            == Phase::Marked && event is Load) || (phase == Phase::SawReaders && protocol::clears(
            event,
            word::compose(word::writer_mark(), true, false),
        )) || (phase == Phase::SawWriters && protocol::clears(
            event,
            word::compose(word::writer_mark(), false, true),
        )),
    ensures
        protocol::next_phase(phase, event) is Some,
{
    word::lemma_constants();
    word::lemma_compose(world.word);
}

/// The last reader that leaves with the bit for parked writers set is told to see
/// to them. If nobody comes in before it does, it clears the word and owes one
/// writer a wake-up.
pub proof fn law_last_reader_wakes_a_writer(
    world: World,
    leave: Event,
    next: World,
    hand_over: Event,
)
    requires
        world.orderly(),
        world.readers_inside() == 1,
        word::writers_parked(world.word),
        world.leads(Move::Access { phase: Phase::Shared, event: leave }, next),
        world::answers(next.word, hand_over),
        hand_over matches Event::Exchange { weak: false, current, new, .. } && current
            == WRITERS_PARKED && new == UNLOCKED,
    ensures
        protocol::next_phase(Phase::Shared, leave) == Some(Phase::LastOut),
        protocol::next_phase(Phase::LastOut, hand_over) == Some(Phase::WakingWriter),
        world::written(next.word, hand_over) == UNLOCKED,
{
    word::lemma_constants();
    word::lemma_compose(world.word);
}

/// The last reader leaves the parked writers to others only where somebody is inside
/// by then, or where somebody else has already seen to them.
pub proof fn law_last_reader_is_relieved(world: World, hand_over: Event)
    requires
        world.orderly(),
        world::answers(world.word, hand_over),
        protocol::next_phase(Phase::LastOut, hand_over) == Some(Phase::Idle),
    ensures
        world.readers_inside() > 0 || world.writers_inside() == 1 || !word::writers_parked(
            world.word,
        ),
{
    word::lemma_compose(world.word);
}

/// A wake-up for a writer reaches one where any sleeps.
pub proof fn law_wake_up_reaches_a_writer(world: World, next: World)
    requires
        world.leads(Move::WakeWriter, next),
        world.count(Phase::WriterAsleep) > 0,
    ensures
        next.count(Phase::WriterAsleep) == world.count(Phase::WriterAsleep) - 1,
        next.count(Phase::WriterCarrying) == world.count(Phase::WriterCarrying) + 1,
{
    world::lemma_count_after(world, Move::WakeWriter, next);
}

/// No wake-up is lost: while anybody sleeps, somebody is inside, waits awake, or is
/// on the way to wake others.
pub proof fn law_no_lost_wake_up(world: World)
    requires
        world.orderly(),
    ensures
        world.count(Phase::ReaderAsleep) > 0 ==> world.writers_inside() == 1 || world.count(
            Phase::WakingReaders,
        ) > 0 || world.count(Phase::SharedWaking) > 0,
        world.count(Phase::WriterAsleep) > 0 ==> world.writers_inside() == 1
            || world.readers_inside() > 0 || world.count(Phase::ReaderWaiting) > 0 || world.count(
            Phase::LastOut,
        ) > 0 || world.count(Phase::WakingReaders) > 0 || world.count(Phase::WakingWriter) > 0
            || world.count(Phase::WriterCarrying) > 0,
{
}

/// When everybody is done, the lock is as good as new: the word is that of a fresh
/// lock and nobody is left asleep.
pub proof fn law_quiet_lock_is_fresh(world: World)
    requires
        world.orderly(),
        world.quiet(),
    ensures
        world.word == UNLOCKED,
        world.initial(),
{
    word::lemma_compose(world.word);
    assert(world.count(Phase::Shared) == 0 && world.count(Phase::SharedWaking) == 0);
    assert(world.count(Phase::Exclusive) == 0 && world.count(Phase::Marked) == 0);
    assert(world.count(Phase::SawReaders) == 0 && world.count(Phase::SawWriters) == 0);
    assert(world.count(Phase::SawBoth) == 0 && world.count(Phase::ReaderWaiting) == 0);
    assert(world.count(Phase::LastOut) == 0 && world.count(Phase::WriterCarrying) == 0);
    assert(world.count(Phase::WakingReaders) == 0 && world.count(Phase::WakingWriter) == 0);
    law_no_lost_wake_up(world);
    assert forall|phase: Phase| phase != Phase::Idle implies #[trigger] world.count(phase) == 0 by {
    }
}

/// On a lock that nobody uses, a writer that does not wait gets in.
pub proof fn law_quiet_lock_can_be_taken(world: World, run: Seq<Event>, granted: bool)
    requires
        world.orderly(),
        world.quiet(),
        protocol::try_exclusive_run(run, false, granted),
        world::answers(world.word, run[0]),
    ensures
        granted,
{
    law_quiet_lock_is_fresh(world);
}

/// A writer that turns into a reader is inside all the while, and ends up alone
/// inside; parked writers stay on record, and parked readers are owed a wake-up.
pub proof fn law_downgrade_keeps_the_lock(world: World, event: Event, next: World)
    requires
        world.orderly(),
        world.leads(Move::Access { phase: Phase::Exclusive, event }, next),
        event is And,
    ensures
        next.writers_inside() == 0,
        next.readers_inside() == 1,
        next.word == word::compose(1, false, word::writers_parked(world.word)),
        next.count(Phase::SharedWaking) == (if word::readers_parked(world.word) {
            1nat
        } else {
            0nat
        }),
{
    let step = Move::Access { phase: Phase::Exclusive, event };
    law_every_step_keeps_invariant(world, step, next);
    world::lemma_count_after(world, step, next);
    word::lemma_downgrade(world.word);
    assert(ONE_READER | WRITERS_PARKED == 6) by (bit_vector);
}

/// A reader that goes in and out again leaves the word as it found it.
pub proof fn law_reader_round_trip(word: usize, enter: Event, leave: Event)
    requires
        protocol::enters_shared(enter),
        world::answers(word, enter),
        leave matches Event::Sub { operand, .. } && operand == ONE_READER,
        world::answers(world::written(word, enter), leave),
    ensures
        world::written(world::written(word, enter), leave) == word,
{
    word::lemma_constants();
}

/// A writer that goes in and out of a lock where nobody is parked leaves the word as
/// it found it.
pub proof fn law_writer_round_trip(word: usize, enter: Event, leave: Event)
    requires
        protocol::enters_exclusive(enter, false),
        world::answers(word, enter),
        !word::readers_parked(word) && !word::writers_parked(word),
        protocol::clears(leave, ONE_WRITER as int),
        world::answers(world::written(word, enter), leave),
    ensures
        protocol::took_place(leave),
        world::written(world::written(word, enter), leave) == word,
{
    word::lemma_constants();
    word::lemma_compose(word);
}

/// Every access that brings a client in acquires, and every one that takes it out
/// releases, and so does the one that turns a writer into a reader.
pub proof fn law_entry_acquires_and_exit_releases(phase: Phase, event: Event, then: Phase)
    requires
        protocol::next_phase(phase, event) == Some(then),
    ensures
        !protocol::inside(phase) && protocol::inside(then) ==> protocol::order_of(event)
            == Order::Acquire,
        protocol::inside(phase) && !protocol::inside(then) ==> protocol::order_of(event)
            == Order::Release,
        phase == Phase::Exclusive && (then == Phase::Shared || then == Phase::SharedWaking)
            ==> protocol::order_of(event) == Order::Release,
{
}

/// No lock's readers park under a key under which writers park, of the same lock or
/// of another: whatever keys the two give, they differ.
pub proof fn law_queue_keys_differ(
    lock: &RawReadBiasedRwLock,
    other: &RawReadBiasedRwLock,
    reader_key: usize,
    writer_key: usize,
)
    requires
        call_ensures(RawReadBiasedRwLock::reader_queue_key, (lock,), reader_key),
        call_ensures(RawReadBiasedRwLock::writer_queue_key, (other,), writer_key),
    ensures
        reader_key != writer_key,
{
}

} // verus!
