//! What can go wrong while seeding or serving random bytes.
use vstd::prelude::*;

verus! {

/// Each failure ends the call that raised it.
#[derive(Debug, Clone, Copy, PartialEq, Eq, Structural)]
pub enum RngError {
    /// The cycle timer wrapped during a sample: the capacitor is likely too
    /// large, or the clock misconfigured.
    HardwareTimingOverflow,
    /// The measured rise times say the capacitor is missing, too small or
    /// too large.
    CapacitorOutOfRange,
    /// The noise source kept failing the health tests after the allowed
    /// restarts.
    HealthTestExhausted,
    /// Random bytes were asked for before a generator was installed.
    NotSeeded,
}

} // verus!
