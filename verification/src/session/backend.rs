//! How long nobody has used a session.
use vstd::prelude::*;

use crate::time::Duration;

verus! {

/// How long nobody has used a session.
#[derive(Clone, Copy, Debug, PartialEq, Eq, Structural)]
pub enum Idle {
    /// For this long.
    For(Duration),
    /// It cannot be told.
    Unknown,
}

/// The idle time in microseconds. The largest number stands for one that cannot be told, and for no
/// other: one that is too long to be counted is the number before it.
pub open spec fn idle_usec(idle: Idle) -> u64 {
    match idle {
        Idle::For(d) => if d.nanos / 1_000 < u64::MAX {
            (d.nanos / 1_000) as u64
        } else {
            (u64::MAX - 1) as u64
        },
        Idle::Unknown => u64::MAX,
    }
}

impl Idle {
    /// The idle time in microseconds.
    pub fn to_usec(self) -> (r: u64)
        ensures
            r == idle_usec(self),
            r == u64::MAX <==> self == Idle::Unknown,
    {
        match self {
            Idle::For(d) => {
                let micros: u128 = d.as_micros();
                if micros < u64::MAX as u128 {
                    micros as u64
                } else {
                    u64::MAX - 1
                }
            },
            Idle::Unknown => u64::MAX,
        }
    }
}

/// A known idle time is known on the other side, and one that cannot be told is not. It is told to
/// the microsecond, as far as it can be counted.
pub proof fn a_known_idle_time_is_known_on_the_other_side(d: Duration)
    ensures
        crate::agents::reported_idle(idle_usec(Idle::For(d))) is Some,
        crate::agents::reported_idle(idle_usec(Idle::Unknown)) is None,
        d.nanos / 1_000 < u64::MAX ==> {
            let told = crate::agents::reported_idle(idle_usec(Idle::For(d)))->Some_0;
            told.nanos == d.nanos - d.nanos % 1_000
        },
{
}

} // verus!
