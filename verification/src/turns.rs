//! How much clients have before them until they are done.
use vstd::prelude::*;

use crate::protocol::Phase;
use crate::world::{self, Move, World};

verus! {

/// How many turns a client in this phase has before it at most. Falling asleep and
/// waking up again are no turns.
pub open spec fn turns_before(phase: Phase) -> nat {
    match phase {
        Phase::Idle => 0,
        Phase::WakingWriter => 1,
        Phase::WakingReaders => 1,
        Phase::LastOut => 2,
        Phase::Shared => 3,
        Phase::SharedWaking => 4,
        Phase::ReaderWaiting => 5,
        Phase::ReaderAsleep => 5,
        Phase::SawBoth => 2,
        Phase::SawReaders => 3,
        Phase::SawWriters => 3,
        Phase::Marked => 4,
        Phase::Exclusive => 5,
        Phase::WriterWaiting => 6,
        Phase::WriterCarrying => 6,
        Phase::WriterAsleep => 6,
    }
}

/// How many turns all clients together have before them at most.
#[verifier::opaque]
pub open spec fn turns_left(world: World) -> nat {
    world.count(Phase::WakingWriter) + world.count(Phase::WakingReaders) + 2 * world.count(
        Phase::LastOut,
    ) + 3 * world.count(Phase::Shared) + 4 * world.count(Phase::SharedWaking) + 5 * world.count(
        Phase::ReaderWaiting,
    ) + 5 * world.count(Phase::ReaderAsleep) + 2 * world.count(Phase::SawBoth) + 3 * world.count(
        Phase::SawReaders,
    ) + 3 * world.count(Phase::SawWriters) + 4 * world.count(Phase::Marked) + 5 * world.count(
        Phase::Exclusive,
    ) + 6 * world.count(Phase::WriterWaiting) + 6 * world.count(Phase::WriterCarrying) + 6
        * world.count(Phase::WriterAsleep)
}

/// One more client adds the turns that it has before it.
proof fn lemma_turns_inserted(world: World, phase: Phase, next: World)
    requires
        next.clients == world.clients.insert(phase),
    ensures
        turns_left(next) == turns_left(world) + turns_before(phase),
{
    broadcast use vstd::multiset::group_multiset_axioms;

    reveal(turns_left);
    assert(forall|p: Phase| #[trigger]
        next.count(p) == world.count(p) + (if p == phase {
            1int
        } else {
            0int
        }));
}

/// What the turns left come to after one client has gone from one phase to another.
pub proof fn lemma_turns_moved(world: World, from: Phase, to: Phase, next: World)
    requires
        world.count(from) > 0,
        next.clients == world.moved(from, to).clients,
    ensures
        turns_left(next) == turns_left(world) - turns_before(from) + turns_before(to),
{
    broadcast use vstd::multiset::group_multiset_axioms;

    let without = World { clients: world.clients.remove(from), ..world };
    assert(world.clients =~= without.clients.insert(from));
    lemma_turns_inserted(without, from, world);
    lemma_turns_inserted(without, to, next);
}

/// Waking sleeping readers up changes no turns.
proof fn lemma_turns_roused(world: World)
    ensures
        turns_left(world.roused()) == turns_left(world),
    decreases world.count(Phase::ReaderAsleep),
{
    if world.count(Phase::ReaderAsleep) > 0 {
        let next = world.moved(Phase::ReaderAsleep, Phase::ReaderWaiting);
        world::lemma_moved(world, Phase::ReaderAsleep, Phase::ReaderWaiting);
        lemma_turns_moved(world, Phase::ReaderAsleep, Phase::ReaderWaiting, next);
        lemma_turns_roused(next);
    }
}

/// Waking readers up is one turn.
pub proof fn lemma_turns_waking_readers(world: World, phase: Phase, next: World)
    requires
        world.leads(Move::WakeReaders { phase }, next),
    ensures
        turns_left(next) == turns_left(world) - 1,
{
    let done = world.moved(phase, world::woken_from(phase));
    lemma_turns_moved(world, phase, world::woken_from(phase), done);
    lemma_turns_roused(done);
}

/// Waking a writer up is one turn.
pub proof fn lemma_turns_waking_writer(world: World, next: World)
    requires
        world.leads(Move::WakeWriter, next),
    ensures
        turns_left(next) == turns_left(world) - 1,
{
    let done = world.moved(Phase::WakingWriter, Phase::Idle);
    world::lemma_moved(world, Phase::WakingWriter, Phase::Idle);
    lemma_turns_moved(world, Phase::WakingWriter, Phase::Idle, done);
    if world.count(Phase::WriterAsleep) > 0 {
        lemma_turns_moved(done, Phase::WriterAsleep, Phase::WriterCarrying, next);
    }
}

} // verus!
