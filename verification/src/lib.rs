//! A read-biased reader-writer lock for short critical sections that are read far
//! more often than written.
//!
//! The short way in for a reader looks only for an active writer. Writers that wait
//! do not keep new readers out; they are woken when the last reader leaves, and then
//! race with new readers.
//!
//! [`raw`] holds the lock, [`word`] what its state word means and what each party
//! decides on seeing it, [`trace`] the accesses to that word, [`protocol`] which
//! accesses an operation makes, and [`world`] a lock with all who use it. [`laws`],
//! [`progress`], [`fairness`] and [`guarded`] state what follows for the lock as a
//! whole, the middle two by a measure in [`turns`]. [`conduct`], [`outcomes`] and
//! [`calls`] state what each operation does, what comes of it and what its caller can
//! count on. [`pause`] is the spin counter of `parking_lot_core`. Parking and unparking
//! threads is up to the caller.

pub mod calls;
pub mod conduct;
pub mod fairness;
pub mod guarded;
pub mod laws;
pub mod outcomes;
pub mod pause;
pub mod progress;
pub mod protocol;
pub mod raw;
pub mod trace;
pub mod turns;
pub mod word;
pub mod world;

pub use crate::protocol::Wake;
pub use crate::raw::{RawReadBiasedRwLock, ReaderWait, WaitStep, WriterWait};
pub use crate::trace::{Seal, StateWord, Trace};
pub use crate::word::{ReleaseFault, UNLOCKED};
