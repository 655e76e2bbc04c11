//! A request to rest that waits for what holds it back.
use vstd::prelude::*;

use crate::action::Action;
use crate::clock::ClockOrigin;
use crate::time::BootInstant;

verus! {

/// A request that was accepted and is not yet carried out.
#[derive(Clone, Copy, Debug, PartialEq, Eq, Structural)]
pub struct Pending {
    /// The action that was asked for. No other is performed in its place.
    pub action: Action,
    /// When the request is given up.
    pub expires_at: BootInstant,
    /// When somebody had last used the machine as the request was made.
    pub human_origin: ClockOrigin,
    /// Who asked.
    pub uid: u32,
}

/// Why a request is no longer waiting.
#[derive(Clone, Copy, Debug, PartialEq, Eq, Structural)]
pub enum Dropped {
    /// Its time ran out.
    Expired,
    /// Somebody used the machine after it was made.
    HumanArrived,
}

impl Dropped {
    /// Why, in words.
    pub open spec fn text(self) -> Seq<char> {
        match self {
            Dropped::Expired => "its time to live ran out before every veto cleared"@,
            Dropped::HumanArrived => "somebody used the machine after it was asked to rest"@,
        }
    }

    /// Why, in words.
    pub fn reason(self) -> (r: &'static str)
        ensures
            r@ == self.text(),
    {
        match self {
            Dropped::Expired => "its time to live ran out before every veto cleared",
            Dropped::HumanArrived => "somebody used the machine after it was asked to rest",
        }
    }
}

/// Whether somebody is known to have used the machine between two readings of the clock: both
/// could be read, and it moved on.
pub open spec fn arrived(was: ClockOrigin, is: ClockOrigin) -> bool {
    match (was, is) {
        (ClockOrigin::At(a), ClockOrigin::At(b)) => b.nanos > a.nanos,
        _ => false,
    }
}

impl Pending {
    /// Whether the request is to be dropped, and why.
    ///
    /// Somebody who uses the machine cancels it. A clock that becomes readable or unreadable is
    /// nobody arriving.
    pub fn dropped_at(&self, now: BootInstant, human: ClockOrigin) -> (r: Option<Dropped>)
        ensures
            r == (if now.nanos >= self.expires_at.nanos {
                Some(Dropped::Expired)
            } else if arrived(self.human_origin, human) {
                Some(Dropped::HumanArrived)
            } else {
                None
            }),
    {
        if now.nanos >= self.expires_at.nanos {
            return Some(Dropped::Expired);
        }
        match (self.human_origin.instant(), human.instant()) {
            (Some(was), Some(is)) => if is.nanos > was.nanos {
                Some(Dropped::HumanArrived)
            } else {
                None
            },
            _ => None,
        }
    }
}

/// A clock that cannot be read, or could not, is never an arrival.
pub proof fn an_unreadable_clock_is_never_an_arrival(origin: ClockOrigin)
    ensures
        !arrived(ClockOrigin::Unreadable, origin),
        !arrived(origin, ClockOrigin::Unreadable),
        !arrived(ClockOrigin::NotYet, origin),
        !arrived(origin, ClockOrigin::NotYet),
        !arrived(origin, origin),
{
}

} // verus!
