//! A value behind the lock: what writers leave there is what others find.
//!
//! A writer inside may copy the value and may write it, in deeds of their own, so that
//! anybody who came between them would undo a write or go by an old copy; the lock sees
//! to it that nobody does. The value may be of any type.
use vstd::multiset::Multiset;
use vstd::prelude::*;

use crate::laws;
use crate::protocol::{self, Phase};
use crate::world::{self, Move, World};

verus! {

/// What a writer inside has done with the value so far.
pub struct Turn<V> {
    /// The copy that it took before it wrote, if it took one.
    pub copied: Option<V>,
    /// What it wrote last, if it wrote.
    pub wrote: Option<V>,
}

/// What a writer that has finished and did write had done with the value.
pub struct Left<V> {
    /// The copy that it took before it wrote, if it took one.
    pub copied: Option<V>,
    /// What it wrote last.
    pub wrote: V,
}

/// A lock with its clients and the value behind it.
pub struct Guarded<V> {
    /// The lock and its clients.
    pub world: World,
    /// The value that the lock was made with.
    pub first: V,
    /// The value.
    pub value: V,
    /// What the writers inside have done so far.
    pub turns: Multiset<Turn<V>>,
    /// What the writers that have finished have done, in the order in which they
    /// finished; those that did not write are left out.
    pub left: Seq<Left<V>>,
}

/// What happens next.
pub enum Deed<V> {
    /// A step of the lock and its clients; a writer that goes away with it has done
    /// `turn`.
    Lock { step: Move, turn: Turn<V> },
    /// A writer inside that has done `turn` copies the value, which it has not written
    /// yet.
    Copy { turn: Turn<V> },
    /// A writer inside that has done `turn` writes `value`.
    Write { turn: Turn<V>, value: V },
}

/// The step brings a writer in.
pub open spec fn comes_in(step: Move) -> bool {
    step matches Move::Access { phase, event } && phase != Phase::Exclusive
        && protocol::next_phase(phase, event) == Some(Phase::Exclusive)
}

/// With the step a writer begins to leave, or turns into a reader.
pub open spec fn goes_away(step: Move) -> bool {
    step matches Move::Access { phase, .. } && phase == Phase::Exclusive
}

/// What the first `n` finished writers leave behind.
pub open spec fn settled<V>(first: V, left: Seq<Left<V>>, n: int) -> V {
    if n <= 0 {
        first
    } else {
        left[n - 1].wrote
    }
}

impl<V> Guarded<V> {
    /// A fresh lock around its first value.
    pub open spec fn initial(self) -> bool {
        &&& self.world.initial()
        &&& self.value == self.first
        &&& self.turns == Multiset::<Turn<V>>::empty()
        &&& self.left == Seq::<Left<V>>::empty()
    }

    /// What the writers that have finished leave behind: what the last of them wrote, or
    /// the first value where none has written.
    pub open spec fn settled(self) -> V {
        settled(self.first, self.left, self.left.len() as int)
    }

    /// `deed` leads from here to `next`.
    pub open spec fn leads(self, deed: Deed<V>, next: Guarded<V>) -> bool {
        match deed {
            Deed::Lock { step, turn } => {
                &&& self.world.leads(step, next.world)
                &&& next.first == self.first
                &&& next.value == self.value
                &&& if comes_in(step) {
                    &&& next.turns == self.turns.insert(Turn { copied: None, wrote: None })
                    &&& next.left == self.left
                } else if goes_away(step) {
                    &&& self.turns.count(turn) > 0
                    &&& next.turns == self.turns.remove(turn)
                    &&& next.left == (match turn.wrote {
                        Some(wrote) => self.left.push(Left { copied: turn.copied, wrote }),
                        None => self.left,
                    })
                } else {
                    next.turns == self.turns && next.left == self.left
                }
            },
            Deed::Copy { turn } => {
                &&& self.turns.count(turn) > 0
                &&& turn.wrote is None
                &&& next == (Guarded {
                    turns: self.turns.remove(turn).insert(
                        Turn { copied: Some(self.value), wrote: None },
                    ),
                    ..self
                })
            },
            Deed::Write { turn, value } => {
                &&& self.turns.count(turn) > 0
                &&& next == (Guarded {
                    value,
                    turns: self.turns.remove(turn).insert(
                        Turn { copied: turn.copied, wrote: Some(value) },
                    ),
                    ..self
                })
            },
        }
    }

    /// What a writer inside has done fits the value: the value is what it wrote, or what
    /// the writers before it left, of which it may hold a copy.
    pub open spec fn fits(self, turn: Turn<V>) -> bool {
        &&& turn.copied matches Some(copy) ==> copy == self.settled()
        &&& self.value == (match turn.wrote {
            Some(wrote) => wrote,
            None => self.settled(),
        })
    }

    /// What holds whenever a fresh lock is used so.
    pub open spec fn orderly(self) -> bool {
        &&& self.world.orderly()
        &&& self.turns.len() == self.world.count(Phase::Exclusive)
        &&& forall|turn: Turn<V>| #[trigger] self.turns.count(turn) > 0 ==> self.fits(turn)
        &&& self.turns.len() == 0 ==> self.value == self.settled()
        &&& forall|n: int|
            0 <= n < self.left.len() && (#[trigger] self.left[n]).copied is Some
                ==> self.left[n].copied == Some(settled(self.first, self.left, n))
    }
}

/// A history of a guarded value.
pub open spec fn history<V>(states: Seq<Guarded<V>>, deeds: Seq<Deed<V>>) -> bool {
    &&& states.len() == deeds.len() + 1
    &&& states[0].initial()
    &&& forall|i: int|
        0 <= i < deeds.len() ==> (#[trigger] states[i]).leads(deeds[i], states[i + 1])
}

/// Where there is one turn at most, there is no other beside it.
proof fn lemma_single_turn<V>(turns: Multiset<Turn<V>>, turn: Turn<V>)
    requires
        turns.len() <= 1,
        turns.count(turn) > 0,
    ensures
        turns.len() == 1,
        turns.remove(turn).len() == 0,
        forall|other: Turn<V>| #[trigger] turns.remove(turn).count(other) == 0,
{
    broadcast use vstd::multiset::group_multiset_axioms;

    assert forall|other: Turn<V>| #[trigger] turns.remove(turn).count(other) == 0 by {
        assert(turns.remove(turn).count(other) <= turns.remove(turn).len());
    }
}

/// How a step changes the number of writers that are inside and not on their way out.
proof fn lemma_exclusive_after(world: World, step: Move, next: World)
    requires
        world.leads(step, next),
    ensures
        next.count(Phase::Exclusive) == world.count(Phase::Exclusive) + (if comes_in(step) {
            1int
        } else if goes_away(step) {
            -1int
        } else {
            0int
        }),
{
    world::lemma_count_after(world, step, next);
}

/// A step of the lock keeps the invariant.
#[verifier::rlimit(40)]
proof fn lemma_step_keeps_order<V>(
    state: Guarded<V>,
    step: Move,
    turn: Turn<V>,
    next: Guarded<V>,
)
    requires
        state.orderly(),
        state.leads(Deed::Lock { step, turn }, next),
    ensures
        next.orderly(),
{
    broadcast use vstd::multiset::group_multiset_axioms;

    laws::law_every_step_keeps_invariant(state.world, step, next.world);
    lemma_exclusive_after(state.world, step, next.world);
    if comes_in(step) {
        let fresh = Turn::<V> { copied: None, wrote: None };
        lemma_single_turn(next.turns, fresh);
        assert(next.turns.remove(fresh) =~= state.turns);
        assert forall|other: Turn<V>| #[trigger] next.turns.count(other) > 0 implies next.fits(
            other,
        ) by {
            assert(state.turns.count(other) == 0);
        }
    } else if goes_away(step) {
        lemma_single_turn(state.turns, turn);
        assert(state.fits(turn));
        assert forall|n: int|
            0 <= n < next.left.len() && (#[trigger] next.left[n]).copied
                is Some implies next.left[n].copied == Some(
            settled(next.first, next.left, n),
        ) by {
            if n < state.left.len() {
                assert(state.left[n].copied == Some(settled(state.first, state.left, n)));
            }
        }
    }
}

/// A deed of a writer inside keeps the invariant.
#[verifier::rlimit(40)]
proof fn lemma_turn_keeps_order<V>(
    state: Guarded<V>,
    turn: Turn<V>,
    then: Turn<V>,
    next: Guarded<V>,
)
    requires
        state.orderly(),
        state.turns.count(turn) > 0,
        next.world == state.world,
        next.first == state.first,
        next.left == state.left,
        next.turns == state.turns.remove(turn).insert(then),
        next.fits(then),
    ensures
        next.orderly(),
{
    broadcast use vstd::multiset::group_multiset_axioms;

    lemma_single_turn(state.turns, turn);
    assert forall|other: Turn<V>| #[trigger] next.turns.count(other) > 0 implies next.fits(
        other,
    ) by {
        assert(state.turns.remove(turn).count(other) == 0);
    }
}

/// Whatever the clients do within the protocol, and in whatever order, the invariant
/// holds.
pub proof fn law_guarded_value_is_orderly<V>(
    states: Seq<Guarded<V>>,
    deeds: Seq<Deed<V>>,
    i: int,
)
    requires
        history(states, deeds),
        0 <= i < states.len(),
    ensures
        states[i].orderly(),
        states[i].first == states[0].first,
    decreases i,
{
    broadcast use vstd::multiset::group_multiset_axioms;

    if i == 0 {
        laws::law_fresh_lock(states[0].world);
    } else {
        law_guarded_value_is_orderly(states, deeds, i - 1);
        let (state, next) = (states[i - 1], states[i]);
        assert(states[i - 1].leads(deeds[i - 1], states[i - 1 + 1]));
        match deeds[i - 1] {
            Deed::Lock { step, turn } => {
                lemma_step_keeps_order(state, step, turn, next);
            },
            Deed::Copy { turn } => {
                assert(state.fits(turn));
                let then = Turn { copied: Some(state.value), wrote: None };
                lemma_turn_keeps_order(state, turn, then, next);
            },
            Deed::Write { turn, value } => {
                assert(state.fits(turn));
                let then = Turn { copied: turn.copied, wrote: Some(value) };
                lemma_turn_keeps_order(state, turn, then, next);
            },
        }
    }
}

/// A reader inside finds what was written: the value is what the last writer that
/// finished and wrote left there, or the first value where none has, and no writer is
/// at work on it.
pub proof fn law_readers_find_what_was_written<V>(
    states: Seq<Guarded<V>>,
    deeds: Seq<Deed<V>>,
    i: int,
)
    requires
        history(states, deeds),
        0 <= i < states.len(),
        states[i].world.readers_inside() > 0,
    ensures
        states[i].value == (if states[i].left.len() == 0 {
            states[0].first
        } else {
            states[i].left.last().wrote
        }),
        states[i].turns.len() == 0,
{
    law_guarded_value_is_orderly(states, deeds, i);
}

/// While a reader is inside, nothing that anybody does changes the value.
pub proof fn law_value_rests_while_it_is_read<V>(
    states: Seq<Guarded<V>>,
    deeds: Seq<Deed<V>>,
    i: int,
)
    requires
        history(states, deeds),
        0 <= i < deeds.len(),
        states[i].world.readers_inside() > 0,
    ensures
        states[i + 1].value == states[i].value,
{
    broadcast use vstd::multiset::group_multiset_axioms;

    law_guarded_value_is_orderly(states, deeds, i);
    assert(states[i].leads(deeds[i], states[i + 1]));
    if let Deed::Write { turn, .. } = deeds[i] {
        assert(states[i].turns.count(turn) <= states[i].turns.len());
    }
}

/// When no writer is at its turn, with or without readers inside, the value is what the
/// last writer that finished and wrote left there, or the first value where none has.
pub proof fn law_written_value_stays<V>(states: Seq<Guarded<V>>, deeds: Seq<Deed<V>>, i: int)
    requires
        history(states, deeds),
        0 <= i < states.len(),
        states[i].world.count(Phase::Exclusive) == 0,
    ensures
        states[i].value == (if states[i].left.len() == 0 {
            states[0].first
        } else {
            states[i].left.last().wrote
        }),
{
    law_guarded_value_is_orderly(states, deeds, i);
}

/// Writers build on one another: a writer that copies the value before it writes gets
/// what the writer before it left, or the first value if it is the first.
pub proof fn law_writers_build_on_one_another<V>(
    states: Seq<Guarded<V>>,
    deeds: Seq<Deed<V>>,
    i: int,
    n: int,
)
    requires
        history(states, deeds),
        0 <= i < states.len(),
        0 <= n < states[i].left.len(),
        states[i].left[n].copied is Some,
    ensures
        states[i].left[n].copied == Some(
            if n == 0 {
                states[0].first
            } else {
                states[i].left[n - 1].wrote
            },
        ),
{
    law_guarded_value_is_orderly(states, deeds, i);
    assert(states[i].left[n].copied is Some);
}

/// The writer wrote one more than the copy that it took.
pub open spec fn counts_up(left: Left<nat>) -> bool {
    left.copied matches Some(copy) && left.wrote == copy + 1
}

/// No update is lost and none is made twice: where the value starts at zero and every
/// writer writes one more than the copy that it took, the value is the number of writers
/// that have finished, whenever none is at its turn.
pub proof fn law_no_update_is_lost(states: Seq<Guarded<nat>>, deeds: Seq<Deed<nat>>, i: int)
    requires
        history(states, deeds),
        0 <= i < states.len(),
        states[i].world.count(Phase::Exclusive) == 0,
        states[0].first == 0,
        forall|n: int|
            0 <= n < states[i].left.len() ==> counts_up(#[trigger] states[i].left[n]),
    ensures
        states[i].value == states[i].left.len(),
{
    law_written_value_stays(states, deeds, i);
    if states[i].left.len() > 0 {
        lemma_updates_add_up(states, deeds, i, states[i].left.len() - 1);
    }
}

/// Each writer leaves one more than the one before it.
proof fn lemma_updates_add_up(
    states: Seq<Guarded<nat>>,
    deeds: Seq<Deed<nat>>,
    i: int,
    n: int,
)
    requires
        history(states, deeds),
        0 <= i < states.len(),
        states[0].first == 0,
        0 <= n < states[i].left.len(),
        forall|k: int|
            0 <= k < states[i].left.len() ==> counts_up(#[trigger] states[i].left[k]),
    ensures
        states[i].left[n].wrote == n + 1,
    decreases n,
{
    assert(states[i].left[n].copied is Some);
    law_writers_build_on_one_another(states, deeds, i, n);
    if n > 0 {
        lemma_updates_add_up(states, deeds, i, n - 1);
    }
}

} // verus!
