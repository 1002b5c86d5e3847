//! The lock never gets stuck: from wherever its clients stand, they can all be
//! done.
use vstd::prelude::*;

use crate::laws;
use crate::protocol::{self, Phase};
use crate::trace::{Event, Order};
use crate::turns;
use crate::word::{self, ONE_READER, ONE_WRITER, UNLOCKED, WRITERS_PARKED};
use crate::world::{self, Move, World};

verus! {

/// An exchange of `current` for `new`, weak on the way in, with the answer that
/// `word` gives.
spec fn exchange_on(word: usize, current: usize, new: usize, order: Order) -> Event {
    Event::Exchange {
        weak: order == Order::Acquire,
        current,
        new,
        order,
        result: if word == current {
            Ok(word)
        } else {
            Err(word)
        },
    }
}

/// The access with which a client in `phase` gets on at a lock with this word: into
/// the lock, out of it, or further on its way out.
spec fn next_access(phase: Phase, word: usize) -> Event {
    let taken = word::compose(
        word::writer_mark(),
        word::readers_parked(word),
        word::writers_parked(word) || phase == Phase::WriterCarrying,
    );
    match phase {
        Phase::Shared => Event::Sub { operand: ONE_READER, order: Order::Release, seen: word },
        Phase::LastOut => exchange_on(word, WRITERS_PARKED, UNLOCKED, Order::Relaxed),
        Phase::Exclusive => exchange_on(word, ONE_WRITER, UNLOCKED, Order::Release),
        Phase::Marked => Event::Load { seen: word },
        Phase::SawReaders => exchange_on(
            word,
            (ONE_WRITER + 1) as usize,
            UNLOCKED,
            Order::Release,
        ),
        Phase::SawWriters => exchange_on(
            word,
            (ONE_WRITER + 2) as usize,
            UNLOCKED,
            Order::Release,
        ),
        Phase::SawBoth => Event::Store { value: WRITERS_PARKED, order: Order::Release },
        Phase::ReaderWaiting => exchange_on(
            word,
            word,
            (word + ONE_READER) as usize,
            Order::Acquire,
        ),
        _ => exchange_on(word, word, taken as usize, Order::Acquire),
    }
}

/// The client can get on by itself: it is inside or on its way out, or it waits and
/// nobody is inside.
pub open spec fn can_get_on(world: World, phase: Phase) -> bool {
    match phase {
        Phase::Shared
        | Phase::LastOut
        | Phase::Exclusive
        | Phase::Marked
        | Phase::SawReaders
        | Phase::SawWriters
        | Phase::SawBoth => true,
        Phase::ReaderWaiting | Phase::WriterWaiting | Phase::WriterCarrying =>
            world.readers_inside() == 0 && world.writers_inside() == 0,
        _ => false,
    }
}

/// A client inside gets on.
#[verifier::rlimit(40)]
proof fn lemma_inside_gets_on(world: World, phase: Phase)
    requires
        world.orderly(),
        world.count(phase) > 0,
        can_get_on(world, phase),
        phase != Phase::ReaderWaiting && phase != Phase::WriterWaiting && phase
            != Phase::WriterCarrying,
    ensures
        world::answers(world.word, next_access(phase, world.word)),
        protocol::next_phase(phase, next_access(phase, world.word)) matches Some(then)
            && turns::turns_before(then) < turns::turns_before(phase),
{
    word::lemma_constants();
    word::lemma_compose(world.word);
    let event = next_access(phase, world.word);
    if phase == Phase::Marked || phase == Phase::SawReaders || phase == Phase::SawWriters {
        laws::law_leaving_writer_never_faults(world, phase, event);
    }
}

/// A client that waits where nobody is inside gets on.
proof fn lemma_waiting_gets_on(world: World, phase: Phase)
    requires
        world.orderly(),
        world.count(phase) > 0,
        can_get_on(world, phase),
        phase == Phase::ReaderWaiting || phase == Phase::WriterWaiting || phase
            == Phase::WriterCarrying,
    ensures
        world::answers(world.word, next_access(phase, world.word)),
        protocol::next_phase(phase, next_access(phase, world.word)) matches Some(then)
            && turns::turns_before(then) < turns::turns_before(phase),
{
    word::lemma_constants();
    word::lemma_compose(world.word);
    laws::law_free_lock_lets_waiters_in(world);
}

/// A client that can get on does, and there are fewer turns left.
proof fn lemma_client_gets_on(world: World, phase: Phase) -> (next: World)
    requires
        world.orderly(),
        world.count(phase) > 0,
        can_get_on(world, phase),
    ensures
        exists|step: Move| !(step is Arrive) && #[trigger] world.leads(step, next),
        turns::turns_left(next) < turns::turns_left(world),
{
    let event = next_access(phase, world.word);
    if phase == Phase::ReaderWaiting || phase == Phase::WriterWaiting || phase
        == Phase::WriterCarrying {
        lemma_waiting_gets_on(world, phase);
    } else {
        lemma_inside_gets_on(world, phase);
    }
    let then = protocol::next_phase(phase, event).unwrap();
    let next = World { word: world::written(world.word, event), ..world.moved(phase, then) };
    turns::lemma_turns_moved(world, phase, then, next);
    assert(world.leads(Move::Access { phase, event }, next));
    next
}

/// A client that owes readers a wake-up gets on.
proof fn lemma_waking_readers_gets_on(world: World, phase: Phase) -> (next: World)
    requires
        world.count(phase) > 0,
        phase == Phase::WakingReaders || phase == Phase::SharedWaking,
    ensures
        exists|step: Move| !(step is Arrive) && #[trigger] world.leads(step, next),
        turns::turns_left(next) < turns::turns_left(world),
{
    let next = world.moved(phase, world::woken_from(phase)).roused();
    assert(world.leads(Move::WakeReaders { phase }, next));
    turns::lemma_turns_waking_readers(world, phase, next);
    next
}

/// A client that owes a writer a wake-up gets on.
proof fn lemma_waking_writer_gets_on(world: World) -> (next: World)
    requires
        world.count(Phase::WakingWriter) > 0,
    ensures
        exists|step: Move| !(step is Arrive) && #[trigger] world.leads(step, next),
        turns::turns_left(next) < turns::turns_left(world),
{
    let done = world.moved(Phase::WakingWriter, Phase::Idle);
    let next = if world.count(Phase::WriterAsleep) > 0 {
        done.moved(Phase::WriterAsleep, Phase::WriterCarrying)
    } else {
        done
    };
    assert(world.leads(Move::WakeWriter, next));
    turns::lemma_turns_waking_writer(world, next);
    next
}

/// While not everybody is done, somebody can get on: it wakes others up, is inside or
/// on its way out, or waits where nobody is inside.
pub proof fn lemma_somebody_gets_on(world: World) -> (phase: Phase)
    requires
        world.orderly(),
        !world.quiet(),
    ensures
        world.count(phase) > 0,
        phase == Phase::WakingReaders || phase == Phase::SharedWaking || phase
            == Phase::WakingWriter || can_get_on(world, phase),
{
    let busy = choose|phase: Phase|
        phase != Phase::Idle && phase != Phase::ReaderAsleep && phase != Phase::WriterAsleep
            && #[trigger] world.count(phase) != 0;
    if world.count(Phase::Shared) > 0 {
        Phase::Shared
    } else if world.count(Phase::SharedWaking) > 0 {
        Phase::SharedWaking
    } else if world.count(Phase::Exclusive) > 0 {
        Phase::Exclusive
    } else if world.count(Phase::Marked) > 0 {
        Phase::Marked
    } else if world.count(Phase::SawReaders) > 0 {
        Phase::SawReaders
    } else if world.count(Phase::SawWriters) > 0 {
        Phase::SawWriters
    } else if world.count(Phase::SawBoth) > 0 {
        Phase::SawBoth
    } else {
        busy
    }
}

/// While not everybody is done, somebody can take a step that brings all of them
/// closer to it, without anybody new.
pub proof fn law_never_stuck(world: World) -> (next: World)
    requires
        world.orderly(),
        !world.quiet(),
    ensures
        exists|step: Move| !(step is Arrive) && #[trigger] world.leads(step, next),
        turns::turns_left(next) < turns::turns_left(world),
{
    let phase = lemma_somebody_gets_on(world);
    if phase == Phase::WakingReaders || phase == Phase::SharedWaking {
        lemma_waking_readers_gets_on(world, phase)
    } else if phase == Phase::WakingWriter {
        lemma_waking_writer_gets_on(world)
    } else {
        lemma_client_gets_on(world, phase)
    }
}

/// `world` can get to `last` by steps of the clients that it has.
pub open spec fn gets_to(world: World, last: World, steps: nat) -> bool
    decreases steps,
{
    if steps == 0 {
        world == last
    } else {
        exists|step: Move, next: World|
            !(step is Arrive) && #[trigger] world.leads(step, next) && gets_to(
                next,
                last,
                (steps - 1) as nat,
            )
    }
}

/// From wherever the clients of a lock stand, they can all be done, in no more steps
/// than they have turns left, and the lock is then as good as new.
pub proof fn law_everybody_can_be_done(world: World) -> (r: (World, nat))
    requires
        world.orderly(),
    ensures
        gets_to(world, r.0, r.1),
        r.1 <= turns::turns_left(world),
        r.0.initial(),
    decreases turns::turns_left(world),
{
    if world.quiet() {
        laws::law_quiet_lock_is_fresh(world);
        (world, 0)
    } else {
        let next = law_never_stuck(world);
        let step = choose|step: Move| !(step is Arrive) && #[trigger] world.leads(step, next);
        laws::law_every_step_keeps_invariant(world, step, next);
        let (last, steps) = law_everybody_can_be_done(next);
        assert(world.leads(step, next) && gets_to(next, last, (steps + 1 - 1) as nat));
        (last, steps + 1)
    }
}

} // verus!
