//! Whoever waits gets in, as long as clients that can get on do so sooner or later.
//!
//! The lock promises writers no bound: new readers may keep coming. What it promises
//! is about the time when nobody new comes, for all who wait, and about the time when
//! no further writer goes in, for readers.
use vstd::prelude::*;

use crate::laws;
use crate::progress;
use crate::protocol::{self, Phase};
use crate::trace::Event;
use crate::turns;
use crate::word;
use crate::world::{self, Move, World};

verus! {

/// An unending history of a lock.
pub struct Behaviour {
    /// The worlds.
    pub worlds: spec_fn(nat) -> World,
    /// What leads from each to the next.
    pub moves: spec_fn(nat) -> Move,
}

/// A client in this phase can get on: it is inside, on its way out or about to wake
/// others, or it waits and finds a word that lets it in.
pub open spec fn ready(world: World, phase: Phase) -> bool {
    &&& world.count(phase) > 0
    &&& match phase {
        Phase::Idle | Phase::ReaderAsleep | Phase::WriterAsleep => false,
        Phase::ReaderWaiting => world.writers_inside() == 0 && word::reader_fits(world.word),
        Phase::WriterWaiting | Phase::WriterCarrying => world.writers_inside() == 0
            && world.readers_inside() == 0,
        _ => true,
    }
}

/// A client in this phase gets on: it goes in, out, or on its way out, or wakes those
/// whom it has to wake.
pub open spec fn gets_on(step: Move, phase: Phase) -> bool {
    match step {
        Move::Access { phase: from, event } => from == phase && protocol::next_phase(from, event)
            != Some(from),
        Move::WakeReaders { phase: from } => from == phase,
        Move::WakeWriter => phase == Phase::WakingWriter,
        _ => false,
    }
}

/// Nobody new asks for the lock.
pub open spec fn nobody_new(step: Move) -> bool {
    match step {
        Move::BeginRead | Move::BeginWrite => false,
        Move::Access { phase, event } => phase == Phase::Idle ==> !protocol::writes(event),
        _ => true,
    }
}

/// A waiting writer goes in.
pub open spec fn writer_goes_in(step: Move) -> bool {
    step matches Move::Access { phase, event } && (phase == Phase::WriterWaiting || phase
        == Phase::WriterCarrying) && protocol::next_phase(phase, event) == Some(Phase::Exclusive)
}

/// A waiting reader goes in.
pub open spec fn reader_goes_in(step: Move) -> bool {
    step matches Move::Access { phase, event } && phase == Phase::ReaderWaiting
        && protocol::next_phase(phase, event) == Some(Phase::Shared)
}

/// The number of writers that wait, awake or asleep.
pub open spec fn writers_waiting(world: World) -> nat {
    world.count(Phase::WriterWaiting) + world.count(Phase::WriterCarrying) + world.count(
        Phase::WriterAsleep,
    )
}

impl Behaviour {
    /// The world at a time.
    pub open spec fn at(self, i: nat) -> World {
        (self.worlds)(i)
    }

    /// What happens at a time.
    pub open spec fn takes(self, i: nat) -> Move {
        (self.moves)(i)
    }

    /// The world of the time after comes from that of this time.
    pub open spec fn goes_on(self, i: nat) -> bool {
        self.at(i).leads(self.takes(i), self.at(i + 1))
    }

    /// A history that starts with a fresh lock.
    pub open spec fn valid(self) -> bool {
        &&& self.at(0).initial()
        &&& forall|i: nat| #[trigger] self.goes_on(i)
    }

    /// From a time on, some client in the phase can get on.
    pub open spec fn always_ready(self, i: nat, phase: Phase) -> bool {
        forall|j: nat| i <= j ==> ready(#[trigger] self.at(j), phase)
    }

    /// At a time or later, some client in the phase gets on.
    pub open spec fn eventually_gets_on(self, i: nat, phase: Phase) -> bool {
        exists|j: nat| i <= j && gets_on(#[trigger] self.takes(j), phase)
    }

    /// From a time on, clients in the phase do not stay put for ever while they can get
    /// on.
    pub open spec fn fair(self, from: nat, phase: Phase) -> bool {
        forall|i: nat|
            from <= i && #[trigger] self.always_ready(i, phase) ==> self.eventually_gets_on(
                i,
                phase,
            )
    }

    /// How many waiting writers go in from time `i` up to time `j`.
    pub open spec fn writers_let_in(self, i: nat, j: nat) -> nat
        decreases j,
    {
        if j <= i {
            0
        } else {
            self.writers_let_in(i, (j - 1) as nat) + (if writer_goes_in(
                self.takes((j - 1) as nat),
            ) {
                1nat
            } else {
                0nat
            })
        }
    }

    /// How many waiting readers go in from time `i` up to time `j`.
    pub open spec fn readers_let_in(self, i: nat, j: nat) -> nat
        decreases j,
    {
        if j <= i {
            0
        } else {
            self.readers_let_in(i, (j - 1) as nat) + (if reader_goes_in(
                self.takes((j - 1) as nat),
            ) {
                1nat
            } else {
                0nat
            })
        }
    }

    /// How many waiting readers give up, for a full count, from time `i` up to time `j`.
    pub open spec fn readers_given_up(self, i: nat, j: nat) -> nat
        decreases j,
    {
        if j <= i {
            0
        } else {
            self.readers_given_up(i, (j - 1) as nat) + (if self.takes(
                (j - 1) as nat,
            ) is ReaderGivesUp {
                1nat
            } else {
                0nat
            })
        }
    }
}

/// Every world of a history satisfies the invariant.
proof fn lemma_orderly(b: Behaviour, i: nat)
    requires
        b.valid(),
    ensures
        b.at(i).orderly(),
    decreases i,
{
    if i == 0 {
        laws::law_fresh_lock(b.at(0));
    } else {
        let before = (i - 1) as nat;
        lemma_orderly(b, before);
        assert(b.goes_on(before));
        laws::law_every_step_keeps_invariant(b.at(before), b.takes(before), b.at(i));
    }
}

/// How many clients wait awake.
pub open spec fn waiting_awake(world: World) -> nat {
    world.count(Phase::ReaderWaiting) + world.count(Phase::WriterWaiting) + world.count(
        Phase::WriterCarrying,
    )
}

/// `next` is closer to the end than `world`: fewer turns are left, or fewer clients
/// wait awake for them, or fewer of those are writers that have not parked.
pub open spec fn closer(next: World, world: World) -> bool {
    ||| turns::turns_left(next) < turns::turns_left(world)
    ||| {
        &&& turns::turns_left(next) == turns::turns_left(world)
        &&& waiting_awake(next) < waiting_awake(world)
    }
    ||| {
        &&& turns::turns_left(next) == turns::turns_left(world)
        &&& waiting_awake(next) == waiting_awake(world)
        &&& next.count(Phase::WriterWaiting) < world.count(Phase::WriterWaiting)
    }
}

/// The clients stand where they stood, but for idle ones.
pub open spec fn same_clients(next: World, world: World) -> bool {
    forall|phase: Phase|
        phase != Phase::Idle ==> #[trigger] next.count(phase) == world.count(phase)
}

/// The same clients have the same turns before them.
proof fn lemma_turns_same(world: World, next: World)
    requires
        same_clients(next, world),
    ensures
        turns::turns_left(next) == turns::turns_left(world),
{
    reveal(turns::turns_left);
}

/// An access leaves a client where it is, or takes it on; only an idle one can come
/// in anew.
proof fn lemma_access_takes_on(phase: Phase, event: Event, then: Phase)
    requires
        protocol::next_phase(phase, event) == Some(then),
        phase == Phase::Idle ==> !protocol::writes(event),
    ensures
        then == phase || turns::turns_before(then) < turns::turns_before(phase),
{
}

/// Without anybody new, a step leaves all clients where they are or brings them closer
/// to the end; one in which a client gets on does bring them closer.
#[verifier::rlimit(40)]
proof fn lemma_step_brings_closer(world: World, step: Move, next: World)
    requires
        world.leads(step, next),
        nobody_new(step),
    ensures
        same_clients(next, world) || closer(next, world),
        forall|phase: Phase| gets_on(step, phase) ==> closer(next, world),
{
    world::lemma_count_after(world, step, next);
    match step {
        Move::Access { phase, event } => {
            let then = protocol::next_phase(phase, event).unwrap();
            lemma_access_takes_on(phase, event, then);
            turns::lemma_turns_moved(world, phase, then, next);
        },
        Move::Arrive | Move::BeginRead | Move::BeginWrite => {},
        Move::ReaderGivesUp => {
            turns::lemma_turns_moved(world, Phase::ReaderWaiting, Phase::Idle, next);
        },
        Move::ReaderSleeps => {
            turns::lemma_turns_moved(world, Phase::ReaderWaiting, Phase::ReaderAsleep, next);
        },
        Move::WriterSleeps { phase } => {
            turns::lemma_turns_moved(world, phase, Phase::WriterAsleep, next);
        },
        Move::WriterStaysUp { phase } => {
            turns::lemma_turns_moved(world, phase, Phase::WriterCarrying, next);
        },
        Move::WakeReaders { phase } => {
            turns::lemma_turns_waking_readers(world, phase, next);
        },
        Move::WakeWriter => {
            turns::lemma_turns_waking_writer(world, next);
        },
    }
}

/// Being closer carries over.
proof fn lemma_closer_carries_over(last: World, next: World, world: World)
    requires
        closer(last, next),
        same_clients(next, world),
    ensures
        closer(last, world),
{
    lemma_turns_same(world, next);
}

/// While not everybody is done, some client can get on.
proof fn lemma_somebody_is_ready(world: World) -> (phase: Phase)
    requires
        world.orderly(),
        !world.quiet(),
    ensures
        ready(world, phase),
{
    let phase = progress::lemma_somebody_gets_on(world);
    if world.readers_inside() == 0 && world.writers_inside() == 0 {
        laws::law_free_lock_lets_waiters_in(world);
    }
    phase
}

/// Who can get on depends on where the clients stand.
proof fn lemma_ready_stays(world: World, next: World, phase: Phase)
    requires
        world.orderly(),
        next.orderly(),
        same_clients(next, world),
        ready(world, phase),
    ensures
        ready(next, phase),
{
}

/// Unless the end comes closer, all clients stay where they are.
proof fn lemma_stuck_clients_stay(b: Behaviour, i: nat, j: nat)
    requires
        b.valid(),
        i <= j,
        forall|k: nat| i <= k ==> nobody_new(#[trigger] b.takes(k)),
        forall|k: nat| i <= k ==> !closer(#[trigger] b.at(k), b.at(i)),
    ensures
        same_clients(b.at(j), b.at(i)),
    decreases j,
{
    if i < j {
        let before = (j - 1) as nat;
        lemma_stuck_clients_stay(b, i, before);
        assert(b.goes_on(before));
        assert(nobody_new(b.takes(before)));
        lemma_step_brings_closer(b.at(before), b.takes(before), b.at(j));
        if closer(b.at(j), b.at(before)) {
            lemma_closer_carries_over(b.at(j), b.at(before), b.at(i));
        }
    }
}

/// While not everybody is done, the end comes closer.
proof fn lemma_end_comes_closer(b: Behaviour, i: nat) -> (later: nat)
    requires
        b.valid(),
        forall|k: nat| i <= k ==> nobody_new(#[trigger] b.takes(k)),
        forall|phase: Phase| #[trigger] b.fair(i, phase),
        !b.at(i).quiet(),
    ensures
        i <= later,
        closer(b.at(later), b.at(i)),
{
    if forall|k: nat| i <= k ==> !closer(#[trigger] b.at(k), b.at(i)) {
        lemma_orderly(b, i);
        let phase = lemma_somebody_is_ready(b.at(i));
        assert forall|j: nat| i <= j implies ready(#[trigger] b.at(j), phase) by {
            lemma_orderly(b, j);
            lemma_stuck_clients_stay(b, i, j);
            lemma_ready_stays(b.at(i), b.at(j), phase);
        }
        assert(b.always_ready(i, phase));
        assert(b.fair(i, phase));
        assert(b.eventually_gets_on(i, phase));
        let j = choose|j: nat| i <= j && gets_on(#[trigger] b.takes(j), phase);
        assert(b.goes_on(j));
        lemma_step_brings_closer(b.at(j), b.takes(j), b.at(j + 1));
        lemma_stuck_clients_stay(b, i, j);
        lemma_closer_carries_over(b.at(j + 1), b.at(j), b.at(i));
        assert(false);
    }
    choose|k: nat| i <= k && closer(#[trigger] b.at(k), b.at(i))
}

/// Fairness from a time on is fairness from any later time on.
proof fn lemma_fair_later(b: Behaviour, i: nat, j: nat)
    requires
        i <= j,
        forall|phase: Phase| #[trigger] b.fair(i, phase),
    ensures
        forall|phase: Phase| #[trigger] b.fair(j, phase),
{
    assert forall|phase: Phase| #[trigger] b.fair(j, phase) by {
        assert(b.fair(i, phase));
    }
}

/// Sooner or later everybody is done.
proof fn lemma_everybody_gets_done(b: Behaviour, i: nat) -> (last: nat)
    requires
        b.valid(),
        forall|k: nat| i <= k ==> nobody_new(#[trigger] b.takes(k)),
        forall|phase: Phase| #[trigger] b.fair(i, phase),
    ensures
        i <= last,
        b.at(last).initial(),
    decreases
            turns::turns_left(b.at(i)),
            waiting_awake(b.at(i)),
            b.at(i).count(Phase::WriterWaiting),
{
    if b.at(i).quiet() {
        lemma_orderly(b, i);
        laws::law_quiet_lock_is_fresh(b.at(i));
        i
    } else {
        let later = lemma_end_comes_closer(b, i);
        lemma_fair_later(b, i, later);
        lemma_everybody_gets_done(b, later)
    }
}

/// Without anybody new, a waiting client leaves off waiting only by going in, but for
/// a reader that gives up at a full count.
#[verifier::rlimit(40)]
proof fn lemma_waiters_go_in(world: World, step: Move, next: World)
    requires
        world.leads(step, next),
        nobody_new(step),
    ensures
        writers_waiting(next) == writers_waiting(world) - (if writer_goes_in(step) {
            1int
        } else {
            0int
        }),
        next.readers_waiting() == world.readers_waiting() - (if reader_goes_in(step) || step
            is ReaderGivesUp {
            1int
        } else {
            0int
        }),
{
    world::lemma_count_after(world, step, next);
    if let Move::Access { phase, event } = step {
        lemma_access_takes_on(phase, event, protocol::next_phase(phase, event).unwrap());
    }
}

/// Whoever no longer waits has gone in.
proof fn lemma_those_let_in(b: Behaviour, i: nat, j: nat)
    requires
        b.valid(),
        i <= j,
        forall|k: nat| i <= k ==> nobody_new(#[trigger] b.takes(k)),
    ensures
        writers_waiting(b.at(j)) + b.writers_let_in(i, j) == writers_waiting(b.at(i)),
        b.at(j).readers_waiting() + b.readers_let_in(i, j) + b.readers_given_up(i, j) == b.at(
            i,
        ).readers_waiting(),
    decreases j,
{
    if i < j {
        let before = (j - 1) as nat;
        lemma_those_let_in(b, i, before);
        assert(b.goes_on(before));
        assert(nobody_new(b.takes(before)));
        lemma_waiters_go_in(b.at(before), b.takes(before), b.at(j));
    }
}

/// Everybody who waits gets in. Once nobody new asks for the lock, and as long as no
/// client that can get on stays put for ever (holders leave, those who have to wake
/// others do, a waiting client that finds a word which lets it in takes it), a time
/// comes when the lock is as good as new; by then every writer that waited has gone
/// in, and so has every reader that waited and did not give up at a full count.
pub proof fn law_whoever_waits_gets_in(b: Behaviour, i: nat) -> (last: nat)
    requires
        b.valid(),
        forall|k: nat| i <= k ==> nobody_new(#[trigger] b.takes(k)),
        forall|phase: Phase| #[trigger] b.fair(i, phase),
    ensures
        i <= last,
        b.at(last).initial(),
        b.writers_let_in(i, last) == writers_waiting(b.at(i)),
        b.readers_let_in(i, last) + b.readers_given_up(i, last) == b.at(i).readers_waiting(),
{
    let last = lemma_everybody_gets_done(b, i);
    lemma_those_let_in(b, i, last);
    assert(b.at(last).count(Phase::WriterWaiting) == 0);
    assert(b.at(last).count(Phase::WriterCarrying) == 0);
    assert(b.at(last).count(Phase::WriterAsleep) == 0);
    assert(b.at(last).count(Phase::ReaderWaiting) == 0);
    assert(b.at(last).count(Phase::ReaderAsleep) == 0);
    last
}

/// No writer goes in, no reader begins to wait, and the count of readers does not fill
/// up. Others may come and go meanwhile.
pub open spec fn only_readers_let_in(world: World, step: Move) -> bool {
    &&& !(step is BeginRead)
    &&& step matches Move::Access { phase, event } ==> protocol::next_phase(phase, event) != Some(
        Phase::Exclusive,
    )
    &&& word::writer_active(world.word) || word::reader_fits(world.word)
}

/// The phase matters to readers that wait: that of a writer inside, of one who has to
/// wake readers, or of a waiting reader itself.
pub open spec fn matters_to_readers(phase: Phase) -> bool {
    match phase {
        Phase::Exclusive
        | Phase::Marked
        | Phase::SawReaders
        | Phase::SawWriters
        | Phase::SawBoth
        | Phase::WakingReaders
        | Phase::SharedWaking
        | Phase::ReaderWaiting
        | Phase::ReaderAsleep => true,
        _ => false,
    }
}

/// How many turns a writer inside has before it is out.
pub open spec fn writer_turns_left(world: World) -> nat {
    5 * world.count(Phase::Exclusive) + 4 * world.count(Phase::Marked) + 3 * world.count(
        Phase::SawReaders,
    ) + 3 * world.count(Phase::SawWriters) + 2 * world.count(Phase::SawBoth)
}

/// How many clients have to wake readers.
pub open spec fn waking_left(world: World) -> nat {
    world.count(Phase::WakingReaders) + world.count(Phase::SharedWaking)
}

/// `next` is closer than `world` to the time when no reader waits: a writer inside is
/// closer to being out, or fewer clients have to wake readers, or fewer readers wait, or
/// fewer of them awake.
pub open spec fn closer_for_readers(next: World, world: World) -> bool {
    ||| writer_turns_left(next) < writer_turns_left(world)
    ||| {
        &&& writer_turns_left(next) == writer_turns_left(world)
        &&& waking_left(next) < waking_left(world)
    }
    ||| {
        &&& writer_turns_left(next) == writer_turns_left(world)
        &&& waking_left(next) == waking_left(world)
        &&& next.readers_waiting() < world.readers_waiting()
    }
    ||| {
        &&& writer_turns_left(next) == writer_turns_left(world)
        &&& waking_left(next) == waking_left(world)
        &&& next.readers_waiting() == world.readers_waiting()
        &&& next.count(Phase::ReaderWaiting) < world.count(Phase::ReaderWaiting)
    }
}

/// The clients that matter to waiting readers stand where they stood.
pub open spec fn same_for_readers(next: World, world: World) -> bool {
    forall|phase: Phase|
        matters_to_readers(phase) ==> #[trigger] next.count(phase) == world.count(phase)
}

/// Where an access takes a client whose phase matters to waiting readers, or brings it
/// to such a phase.
proof fn lemma_access_for_readers(phase: Phase, event: Event, then: Phase)
    requires
        protocol::next_phase(phase, event) == Some(then),
        then != Phase::Exclusive,
    ensures
        match phase {
            Phase::Exclusive => then == Phase::Idle || then == Phase::Marked || then
                == Phase::Shared || then == Phase::SharedWaking,
            Phase::Marked => then == Phase::SawReaders || then == Phase::SawWriters || then
                == Phase::SawBoth,
            Phase::SawReaders => then == Phase::SawBoth || then == Phase::WakingReaders,
            Phase::SawWriters => then == Phase::SawBoth || then == Phase::WakingWriter,
            Phase::SawBoth => then == Phase::WakingReaders,
            Phase::ReaderWaiting => then == phase || then == Phase::Shared,
            _ => !matters_to_readers(phase) && !matters_to_readers(then),
        },
{
}

/// While no writer goes in, an access does one or the other.
#[verifier::rlimit(40)]
proof fn lemma_access_helps_readers(world: World, phase: Phase, event: Event, next: World)
    requires
        world.leads(Move::Access { phase, event }, next),
        protocol::next_phase(phase, event) != Some(Phase::Exclusive),
    ensures
        same_for_readers(next, world) || closer_for_readers(next, world),
        matters_to_readers(phase) && protocol::next_phase(phase, event) != Some(phase)
            ==> closer_for_readers(next, world),
{
    let then = protocol::next_phase(phase, event).unwrap();
    lemma_access_for_readers(phase, event, then);
    world::lemma_count_after(world, Move::Access { phase, event }, next);
    if !matters_to_readers(phase) {
        assert(same_for_readers(next, world));
    } else if phase == Phase::ReaderWaiting {
        assert(writer_turns_left(next) == writer_turns_left(world));
        assert(waking_left(next) == waking_left(world));
    } else {
        assert(writer_turns_left(next) < writer_turns_left(world));
    }
}

/// While no writer goes in, waking readers up brings them closer.
proof fn lemma_waking_helps_readers(world: World, phase: Phase, next: World)
    requires
        world.leads(Move::WakeReaders { phase }, next),
    ensures
        closer_for_readers(next, world),
{
    world::lemma_count_after(world, Move::WakeReaders { phase }, next);
    assert(writer_turns_left(next) == writer_turns_left(world));
    assert(waking_left(next) < waking_left(world));
}

/// While no writer goes in, a step leaves the clients that matter to waiting readers
/// where they are or brings those readers closer to going in; one in which such a
/// client gets on does bring them closer.
#[verifier::rlimit(40)]
proof fn lemma_step_helps_readers(world: World, step: Move, next: World)
    requires
        world.leads(step, next),
        only_readers_let_in(world, step),
    ensures
        same_for_readers(next, world) || closer_for_readers(next, world),
        forall|phase: Phase|
            matters_to_readers(phase) && gets_on(step, phase) ==> closer_for_readers(next, world),
{
    world::lemma_count_after(world, step, next);
    match step {
        Move::Access { phase, event } => {
            lemma_access_helps_readers(world, phase, event, next);
        },
        Move::WakeReaders { phase } => {
            lemma_waking_helps_readers(world, phase, next);
        },
        Move::ReaderSleeps | Move::ReaderGivesUp => {
            assert(writer_turns_left(next) == writer_turns_left(world));
            assert(waking_left(next) == waking_left(world));
        },
        _ => {
            assert(same_for_readers(next, world));
        },
    }
}

/// While a reader waits, some client that matters to it can get on.
proof fn lemma_somebody_is_ready_for_readers(world: World) -> (phase: Phase)
    requires
        world.orderly(),
        world.readers_waiting() > 0,
        word::writer_active(world.word) || word::reader_fits(world.word),
    ensures
        matters_to_readers(phase),
        ready(world, phase),
{
    if world.count(Phase::Exclusive) > 0 {
        Phase::Exclusive
    } else if world.count(Phase::Marked) > 0 {
        Phase::Marked
    } else if world.count(Phase::SawReaders) > 0 {
        Phase::SawReaders
    } else if world.count(Phase::SawWriters) > 0 {
        Phase::SawWriters
    } else if world.count(Phase::SawBoth) > 0 {
        Phase::SawBoth
    } else if world.count(Phase::WakingReaders) > 0 {
        Phase::WakingReaders
    } else if world.count(Phase::SharedWaking) > 0 {
        Phase::SharedWaking
    } else {
        Phase::ReaderWaiting
    }
}

/// Who of those that matter to readers can get on depends on where they stand.
proof fn lemma_ready_stays_for_readers(world: World, next: World, phase: Phase)
    requires
        world.orderly(),
        next.orderly(),
        same_for_readers(next, world),
        word::writer_active(next.word) || word::reader_fits(next.word),
        matters_to_readers(phase),
        ready(world, phase),
    ensures
        ready(next, phase),
{
    assert(next.writers_inside() == world.writers_inside());
}

/// Unless the waiting readers come closer to going in, all that matter to them stay
/// where they are.
proof fn lemma_stuck_readers_stay(b: Behaviour, i: nat, j: nat)
    requires
        b.valid(),
        i <= j,
        forall|k: nat| i <= k ==> only_readers_let_in(b.at(k), #[trigger] b.takes(k)),
        forall|k: nat| i <= k ==> !closer_for_readers(#[trigger] b.at(k), b.at(i)),
    ensures
        same_for_readers(b.at(j), b.at(i)),
    decreases j,
{
    if i < j {
        let before = (j - 1) as nat;
        lemma_stuck_readers_stay(b, i, before);
        assert(b.goes_on(before));
        assert(only_readers_let_in(b.at(before), b.takes(before)));
        lemma_step_helps_readers(b.at(before), b.takes(before), b.at(j));
    }
}

/// While a reader waits, the readers come closer to going in.
proof fn lemma_readers_come_closer(b: Behaviour, i: nat) -> (later: nat)
    requires
        b.valid(),
        forall|k: nat| i <= k ==> only_readers_let_in(b.at(k), #[trigger] b.takes(k)),
        forall|phase: Phase| matters_to_readers(phase) ==> #[trigger] b.fair(i, phase),
        b.at(i).readers_waiting() > 0,
    ensures
        i <= later,
        closer_for_readers(b.at(later), b.at(i)),
{
    if forall|k: nat| i <= k ==> !closer_for_readers(#[trigger] b.at(k), b.at(i)) {
        lemma_orderly(b, i);
        assert(only_readers_let_in(b.at(i), b.takes(i)));
        let phase = lemma_somebody_is_ready_for_readers(b.at(i));
        assert forall|j: nat| i <= j implies ready(#[trigger] b.at(j), phase) by {
            lemma_orderly(b, j);
            lemma_stuck_readers_stay(b, i, j);
            assert(only_readers_let_in(b.at(j), b.takes(j)));
            lemma_ready_stays_for_readers(b.at(i), b.at(j), phase);
        }
        assert(b.always_ready(i, phase));
        assert(b.fair(i, phase));
        assert(b.eventually_gets_on(i, phase));
        let j = choose|j: nat| i <= j && gets_on(#[trigger] b.takes(j), phase);
        assert(b.goes_on(j));
        lemma_step_helps_readers(b.at(j), b.takes(j), b.at(j + 1));
        lemma_stuck_readers_stay(b, i, j);
        assert(false);
    }
    choose|k: nat| i <= k && closer_for_readers(#[trigger] b.at(k), b.at(i))
}

/// Sooner or later no reader waits.
proof fn lemma_no_reader_is_left(b: Behaviour, i: nat) -> (last: nat)
    requires
        b.valid(),
        forall|k: nat| i <= k ==> only_readers_let_in(b.at(k), #[trigger] b.takes(k)),
        forall|phase: Phase| matters_to_readers(phase) ==> #[trigger] b.fair(i, phase),
    ensures
        i <= last,
        b.at(last).readers_waiting() == 0,
    decreases
            writer_turns_left(b.at(i)),
            waking_left(b.at(i)),
            b.at(i).readers_waiting(),
            b.at(i).count(Phase::ReaderWaiting),
{
    if b.at(i).readers_waiting() == 0 {
        i
    } else {
        let later = lemma_readers_come_closer(b, i);
        assert forall|phase: Phase| matters_to_readers(phase) implies #[trigger] b.fair(
            later,
            phase,
        ) by {
            assert(b.fair(i, phase));
        }
        lemma_no_reader_is_left(b, later)
    }
}

/// While no reader begins to wait and the count does not fill up, a waiting reader
/// leaves off waiting only by going in.
#[verifier::rlimit(40)]
proof fn lemma_readers_go_in(world: World, step: Move, next: World)
    requires
        world.leads(step, next),
        only_readers_let_in(world, step),
    ensures
        next.readers_waiting() == world.readers_waiting() - (if reader_goes_in(step) {
            1int
        } else {
            0int
        }),
{
    if nobody_new(step) {
        lemma_waiters_go_in(world, step, next);
    } else {
        world::lemma_count_after(world, step, next);
        if let Move::Access { phase, event } = step {
            lemma_access_for_readers(phase, event, protocol::next_phase(phase, event).unwrap());
        }
    }
}

/// Every reader that no longer waits has gone in.
proof fn lemma_readers_let_in(b: Behaviour, i: nat, j: nat)
    requires
        b.valid(),
        i <= j,
        forall|k: nat| i <= k ==> only_readers_let_in(b.at(k), #[trigger] b.takes(k)),
    ensures
        b.at(j).readers_waiting() + b.readers_let_in(i, j) == b.at(i).readers_waiting(),
    decreases j,
{
    if i < j {
        let before = (j - 1) as nat;
        lemma_readers_let_in(b, i, before);
        assert(b.goes_on(before));
        assert(only_readers_let_in(b.at(before), b.takes(before)));
        lemma_readers_go_in(b.at(before), b.takes(before), b.at(j));
    }
}

/// Every reader that waits gets in once the writer leaves and no further one goes in,
/// parked writers or not, and however long the readers inside stay: it is enough that
/// the writer inside goes on its way out, that those who have to wake readers do, and
/// that a waiting reader which finds a word that lets it in takes it.
pub proof fn law_waiting_readers_get_in(b: Behaviour, i: nat) -> (last: nat)
    requires
        b.valid(),
        forall|k: nat| i <= k ==> only_readers_let_in(b.at(k), #[trigger] b.takes(k)),
        forall|phase: Phase| matters_to_readers(phase) ==> #[trigger] b.fair(i, phase),
    ensures
        i <= last,
        b.at(last).readers_waiting() == 0,
        b.readers_let_in(i, last) == b.at(i).readers_waiting(),
{
    let last = lemma_no_reader_is_left(b, i);
    lemma_readers_let_in(b, i, last);
    last
}

} // verus!
