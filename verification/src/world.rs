//! A lock with everybody who uses it.
//!
//! The clients of a [`World`] follow the protocol. Their accesses take effect one at
//! a time, though a client outside may see a value of the word that is out of date
//! where its access does not write. They go to sleep and are woken as the queues of a
//! parking lot have it: a client falls asleep only if its condition holds at that
//! moment, and a wake-up reaches whoever is asleep at that moment.
use vstd::multiset::Multiset;
use vstd::prelude::*;

use crate::protocol::{self, Phase};
use crate::trace::Event;
use crate::word::{self, ONE_READER, UNLOCKED};

verus! {

/// A lock and its clients.
pub struct World {
    /// The state word.
    pub word: usize,
    /// The phases of the clients.
    pub clients: Multiset<Phase>,
}

/// What happens next in a world.
pub enum Move {
    /// A client in `phase` makes an access.
    Access { phase: Phase, event: Event },
    /// A client comes up.
    Arrive,
    /// A client begins to wait as a reader.
    BeginRead,
    /// A client begins to wait as a writer.
    BeginWrite,
    /// A waiting reader finds the count of readers full and gives up. Here the count is
    /// full at that moment; a reader of the lock goes by the word that it saw last, which
    /// may be out of date.
    ReaderGivesUp,
    /// A waiting reader falls asleep.
    ReaderSleeps,
    /// A waiting writer in `phase` falls asleep.
    WriterSleeps { phase: Phase },
    /// A waiting writer in `phase` is refused sleep, and begins its wait anew.
    WriterStaysUp { phase: Phase },
    /// A client in `phase` wakes all sleeping readers.
    WakeReaders { phase: Phase },
    /// A client wakes one sleeping writer, where there is one.
    WakeWriter,
}

/// The access gives the answer that a word of this value gives.
pub open spec fn answers(word: usize, event: Event) -> bool {
    match event {
        Event::Load { seen } => seen == word,
        Event::Exchange { current, result: Ok(seen), .. } => seen == word && current == word,
        Event::Exchange { weak, current, result: Err(seen), .. } => seen == word && (current
            == word ==> weak),
        Event::Enter { result: Ok(seen), .. } => seen == word && word::reader_fits(word),
        Event::Enter { result: Err(seen), .. } => seen == word && !word::reader_fits(word),
        Event::Sub { seen, .. } => seen == word,
        Event::And { seen, .. } => seen == word,
        Event::Store { .. } => true,
    }
}

/// A client outside looks at the word and may see a value that it no longer has: a
/// relaxed load, or an exchange that fails.
pub open spec fn stale_look(phase: Phase, event: Event) -> bool {
    &&& !protocol::writes(event)
    &&& phase == Phase::Idle || phase == Phase::ReaderWaiting || phase == Phase::WriterWaiting
        || phase == Phase::WriterCarrying
}

/// The word after the access.
pub open spec fn written(word: usize, event: Event) -> usize {
    match event {
        Event::Load { .. } => word,
        Event::Exchange { new, result, .. } => if result is Ok {
            new
        } else {
            word
        },
        Event::Enter { result, .. } => if result is Ok {
            (word + ONE_READER) as usize
        } else {
            word
        },
        Event::Sub { operand, .. } => if operand <= word {
            (word - operand) as usize
        } else {
            (word - operand + usize::MAX + 1) as usize
        },
        Event::And { operand, .. } => word & operand,
        Event::Store { value, .. } => value,
    }
}

/// Where a client that has to wake readers stands once it has.
pub open spec fn woken_from(phase: Phase) -> Phase {
    if phase == Phase::SharedWaking {
        Phase::Shared
    } else {
        Phase::Idle
    }
}

impl World {
    /// The number of clients in a phase.
    pub open spec fn count(self, phase: Phase) -> nat {
        self.clients.count(phase)
    }

    /// The number of readers inside.
    pub open spec fn readers_inside(self) -> nat {
        self.count(Phase::Shared) + self.count(Phase::SharedWaking)
    }

    /// The number of writers inside.
    pub open spec fn writers_inside(self) -> nat {
        self.count(Phase::Exclusive) + self.count(Phase::Marked) + self.count(Phase::SawReaders)
            + self.count(Phase::SawWriters) + self.count(Phase::SawBoth)
    }

    /// The number of readers that wait, awake or asleep.
    pub open spec fn readers_waiting(self) -> nat {
        self.count(Phase::ReaderWaiting) + self.count(Phase::ReaderAsleep)
    }

    /// The world with one client gone from one phase to another.
    pub open spec fn moved(self, from: Phase, to: Phase) -> World {
        World { clients: self.clients.remove(from).insert(to), ..self }
    }

    /// The world with all sleeping readers awake.
    pub open spec fn roused(self) -> World
        decreases self.count(Phase::ReaderAsleep),
    {
        if self.count(Phase::ReaderAsleep) == 0 {
            self
        } else {
            proof {
                broadcast use vstd::multiset::group_multiset_axioms;

            }
            self.moved(Phase::ReaderAsleep, Phase::ReaderWaiting).roused()
        }
    }

    /// A fresh lock, whose clients are all idle.
    pub open spec fn initial(self) -> bool {
        &&& self.word == UNLOCKED
        &&& forall|phase: Phase| phase != Phase::Idle ==> #[trigger] self.count(phase) == 0
    }

    /// Nobody is inside, waits awake, or has still to wake somebody.
    pub open spec fn quiet(self) -> bool {
        forall|phase: Phase|
            phase != Phase::Idle && phase != Phase::ReaderAsleep && phase != Phase::WriterAsleep
                ==> #[trigger] self.count(phase) == 0
    }

    /// `step` leads from this world to `next`.
    pub open spec fn leads(self, step: Move, next: World) -> bool {
        match step {
            Move::Access { phase, event } => {
                &&& self.count(phase) > 0
                &&& answers(self.word, event) || stale_look(phase, event)
                &&& protocol::next_phase(phase, event) matches Some(then)
                &&& next == (World {
                    word: written(self.word, event),
                    ..self.moved(phase, then)
                })
            },
            Move::Arrive => next == (World { clients: self.clients.insert(Phase::Idle), ..self }),
            Move::BeginRead => {
                &&& self.count(Phase::Idle) > 0
                &&& next == self.moved(Phase::Idle, Phase::ReaderWaiting)
            },
            Move::BeginWrite => {
                &&& self.count(Phase::Idle) > 0
                &&& next == self.moved(Phase::Idle, Phase::WriterWaiting)
            },
            Move::ReaderGivesUp => {
                &&& self.count(Phase::ReaderWaiting) > 0
                &&& !word::reader_fits(self.word) && !word::writer_active(self.word)
                &&& next == self.moved(Phase::ReaderWaiting, Phase::Idle)
            },
            Move::ReaderSleeps => {
                &&& self.count(Phase::ReaderWaiting) > 0
                &&& word::writer_active(self.word) && word::readers_parked(self.word)
                &&& next == self.moved(Phase::ReaderWaiting, Phase::ReaderAsleep)
            },
            Move::WriterSleeps { phase } => {
                &&& phase == Phase::WriterWaiting || phase == Phase::WriterCarrying
                &&& self.count(phase) > 0
                &&& word::holders(self.word) != 0 && word::writers_parked(self.word)
                &&& next == self.moved(phase, Phase::WriterAsleep)
            },
            Move::WriterStaysUp { phase } => {
                &&& phase == Phase::WriterWaiting || phase == Phase::WriterCarrying
                &&& self.count(phase) > 0
                &&& next == self.moved(phase, Phase::WriterCarrying)
            },
            Move::WakeReaders { phase } => {
                &&& phase == Phase::SharedWaking || phase == Phase::WakingReaders
                &&& self.count(phase) > 0
                &&& next == self.moved(phase, woken_from(phase)).roused()
            },
            Move::WakeWriter => {
                &&& self.count(Phase::WakingWriter) > 0
                &&& next == (if self.count(Phase::WriterAsleep) > 0 {
                    self.moved(Phase::WakingWriter, Phase::Idle).moved(
                        Phase::WriterAsleep,
                        Phase::WriterCarrying,
                    )
                } else {
                    self.moved(Phase::WakingWriter, Phase::Idle)
                })
            },
        }
    }

    /// The number of clients in `phase` once one has gone from one phase to another.
    pub open spec fn count_moved(self, from: Phase, to: Phase, phase: Phase) -> int {
        self.count(phase) - (if phase == from {
            1int
        } else {
            0int
        }) + (if phase == to {
            1int
        } else {
            0int
        })
    }

    /// The number of clients in `phase` after a step.
    pub open spec fn count_after(self, step: Move, phase: Phase) -> int {
        match step {
            Move::Access { phase: from, event } => self.count_moved(
                from,
                protocol::next_phase(from, event).unwrap(),
                phase,
            ),
            Move::Arrive => self.count(phase) + (if phase == Phase::Idle {
                1int
            } else {
                0int
            }),
            Move::BeginRead => self.count_moved(Phase::Idle, Phase::ReaderWaiting, phase),
            Move::BeginWrite => self.count_moved(Phase::Idle, Phase::WriterWaiting, phase),
            Move::ReaderGivesUp => self.count_moved(Phase::ReaderWaiting, Phase::Idle, phase),
            Move::ReaderSleeps => self.count_moved(
                Phase::ReaderWaiting,
                Phase::ReaderAsleep,
                phase,
            ),
            Move::WriterSleeps { phase: from } => self.count_moved(
                from,
                Phase::WriterAsleep,
                phase,
            ),
            Move::WriterStaysUp { phase: from } => self.count_moved(
                from,
                Phase::WriterCarrying,
                phase,
            ),
            Move::WakeReaders { phase: from } => if phase == Phase::ReaderAsleep {
                0
            } else if phase == Phase::ReaderWaiting {
                self.readers_waiting() as int
            } else {
                self.count_moved(from, woken_from(from), phase)
            },
            Move::WakeWriter => self.count_moved(Phase::WakingWriter, Phase::Idle, phase) + (
            if self.count(Phase::WriterAsleep) == 0 {
                0int
            } else if phase == Phase::WriterAsleep {
                -1int
            } else if phase == Phase::WriterCarrying {
                1int
            } else {
                0int
            }),
        }
    }

    /// The word counts who is inside: readers only, or one writer only.
    pub open spec fn word_counts(self) -> bool {
        if self.writers_inside() == 0 {
            word::holders(self.word) == self.readers_inside() < word::writer_mark()
        } else {
            &&& self.writers_inside() == 1
            &&& self.readers_inside() == 0
            &&& word::writer_active(self.word)
        }
    }

    /// What a leaving writer saw of the parked bits is still so.
    pub open spec fn sightings_hold(self) -> bool {
        &&& self.count(Phase::Marked) > 0 ==> word::readers_parked(self.word)
            || word::writers_parked(self.word)
        &&& self.count(Phase::SawReaders) > 0 ==> word::readers_parked(self.word)
        &&& self.count(Phase::SawWriters) > 0 ==> word::writers_parked(self.word)
        &&& self.count(Phase::SawBoth) > 0 ==> word::readers_parked(self.word)
            && word::writers_parked(self.word)
    }

    /// The parked bits are kept by somebody who will see to them.
    pub open spec fn bits_are_kept(self) -> bool {
        &&& word::readers_parked(self.word) ==> self.writers_inside() == 1
            && self.readers_waiting() > 0
        &&& word::writers_parked(self.word) ==> self.writers_inside() == 1 || self.readers_inside()
            > 0 || self.count(Phase::LastOut) > 0 || self.readers_waiting() > 0
    }

    /// Whoever sleeps is remembered: by its parked bit, or by a client that is about
    /// to wake it or to set the bit again.
    pub open spec fn sleepers_are_remembered(self) -> bool {
        &&& self.count(Phase::ReaderAsleep) > 0 ==> word::readers_parked(self.word) || self.count(
            Phase::WakingReaders,
        ) > 0 || self.count(Phase::SharedWaking) > 0
        &&& self.count(Phase::WriterAsleep) > 0 ==> word::writers_parked(self.word) || self.count(
            Phase::WakingWriter,
        ) > 0 || self.count(Phase::WriterCarrying) > 0
    }

    /// What holds in every world that a fresh lock can get to.
    pub open spec fn orderly(self) -> bool {
        &&& self.word_counts()
        &&& self.sightings_hold()
        &&& self.bits_are_kept()
        &&& self.sleepers_are_remembered()
    }
}

/// Counts after one client has gone from one phase to another.
pub proof fn lemma_moved(world: World, from: Phase, to: Phase)
    requires
        world.count(from) > 0,
    ensures
        forall|phase: Phase| #[trigger]
            world.moved(from, to).count(phase) == world.count_moved(from, to, phase),
{
    broadcast use vstd::multiset::group_multiset_axioms;

}

/// Counts after all sleeping readers have woken up.
pub proof fn lemma_roused(world: World)
    ensures
        world.roused().word == world.word,
        world.roused().count(Phase::ReaderAsleep) == 0,
        world.roused().count(Phase::ReaderWaiting) == world.readers_waiting(),
        forall|phase: Phase|
            phase != Phase::ReaderAsleep && phase != Phase::ReaderWaiting
                ==> #[trigger] world.roused().count(phase) == world.count(phase),
    decreases world.count(Phase::ReaderAsleep),
{
    if world.count(Phase::ReaderAsleep) > 0 {
        let next = world.moved(Phase::ReaderAsleep, Phase::ReaderWaiting);
        lemma_moved(world, Phase::ReaderAsleep, Phase::ReaderWaiting);
        lemma_roused(next);
        assert forall|phase: Phase|
            phase != Phase::ReaderAsleep && phase
                != Phase::ReaderWaiting implies #[trigger] world.roused().count(phase)
            == world.count(phase) by {
            assert(next.roused().count(phase) == next.count(phase));
        }
    }
}

/// Where the clients stand after a step, and that only an access changes the word.
#[verifier::rlimit(40)]
pub proof fn lemma_count_after(world: World, step: Move, next: World)
    requires
        world.leads(step, next),
    ensures
        forall|phase: Phase| #[trigger] next.count(phase) == world.count_after(step, phase),
        !(step is Access) ==> next.word == world.word,
{
    match step {
        Move::Access { phase, event } => {
            let then = protocol::next_phase(phase, event).unwrap();
            lemma_moved(world, phase, then);
            assert(forall|p: Phase| #[trigger] next.count(p) == world.moved(phase, then).count(p));
        },
        Move::Arrive => {
            broadcast use vstd::multiset::group_multiset_axioms;

        },
        Move::BeginRead => {
            lemma_moved(world, Phase::Idle, Phase::ReaderWaiting);
        },
        Move::BeginWrite => {
            lemma_moved(world, Phase::Idle, Phase::WriterWaiting);
        },
        Move::ReaderGivesUp => {
            lemma_moved(world, Phase::ReaderWaiting, Phase::Idle);
        },
        Move::ReaderSleeps => {
            lemma_moved(world, Phase::ReaderWaiting, Phase::ReaderAsleep);
        },
        Move::WriterSleeps { phase } => {
            lemma_moved(world, phase, Phase::WriterAsleep);
        },
        Move::WriterStaysUp { phase } => {
            lemma_moved(world, phase, Phase::WriterCarrying);
        },
        Move::WakeReaders { phase } => {
            lemma_moved(world, phase, woken_from(phase));
            lemma_roused(world.moved(phase, woken_from(phase)));
        },
        Move::WakeWriter => {
            let done = world.moved(Phase::WakingWriter, Phase::Idle);
            lemma_moved(world, Phase::WakingWriter, Phase::Idle);
            if world.count(Phase::WriterAsleep) > 0 {
                lemma_moved(done, Phase::WriterAsleep, Phase::WriterCarrying);
            }
        },
    }
}

/// A history of a lock: `worlds[i + 1]` comes from `worlds[i]` by `steps[i]`.
pub open spec fn history(worlds: Seq<World>, steps: Seq<Move>) -> bool {
    &&& worlds.len() == steps.len() + 1
    &&& worlds[0].initial()
    &&& forall|i: int|
        0 <= i < steps.len() ==> (#[trigger] worlds[i]).leads(steps[i], worlds[i + 1])
}

} // verus!
