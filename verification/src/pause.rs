//! The spin counter of `parking_lot_core`, which says how long a waiting thread
//! spins before it parks.
use parking_lot_core::SpinWait;
use vstd::prelude::*;

verus! {

/// `parking_lot_core::SpinWait`, a counter with a private field.
#[verifier::external_type_specification]
#[verifier::external_body]
pub struct ExSpinWait(parking_lot_core::SpinWait);

/// What the counter inside a `SpinWait` stands at.
pub uninterp spec fn spins_done(counter: SpinWait) -> nat;

/// How often `SpinWait::spin` spins before it tells the caller to park.
pub open spec fn spin_limit() -> nat {
    10
}

/// The counter after one more pause.
pub open spec fn paused(count: nat) -> nat {
    if count < spin_limit() {
        count + 1
    } else {
        spin_limit()
    }
}

/// `SpinWait::new` starts the counter at zero.
pub assume_specification[ SpinWait::new ]() -> (counter: SpinWait)
    ensures
        spins_done(counter) == 0,
;

/// `SpinWait::spin` counts and waits a little while the counter is below its limit,
/// and then returns true; at the limit it does nothing and returns false.
pub assume_specification[ SpinWait::spin ](counter: &mut SpinWait) -> (again: bool)
    ensures
        again == (spins_done(*old(counter)) < spin_limit()),
        spins_done(*final(counter)) == spins_done(*old(counter)) + (if again {
            1nat
        } else {
            0nat
        }),
;

/// `SpinWait::spin_no_yield` waits a little and counts, up to the limit and no
/// further.
pub assume_specification[ SpinWait::spin_no_yield ](counter: &mut SpinWait)
    ensures
        spins_done(*final(counter)) == paused(spins_done(*old(counter))),
;

} // verus!
