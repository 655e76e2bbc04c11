//! The clocks that timeouts run on, and where each started.
use vstd::prelude::*;
use vstd::string::StringExecFns;

use crate::text::{push_decimal, same};
use crate::time::{BootInstant, NANOS_PER_SEC};

verus! {

/// What a block's timeouts are counted from.
#[derive(Clone, Copy, PartialEq, Eq, PartialOrd, Ord, Hash, Debug, Structural)]
pub enum Clock {
    /// When somebody last used the machine.
    HumanInput,
    /// When the machine last came back from a sleep.
    Resume,
    /// When the block's condition last became true.
    ConditionEdge,
    /// When the machine booted.
    Boot,
}

impl Clock {
    /// Every clock.
    pub const ALL: [Clock; 4] = [
        Clock::HumanInput,
        Clock::Resume,
        Clock::ConditionEdge,
        Clock::Boot,
    ];

    /// What the clock is called in a configuration.
    pub open spec fn text(self) -> Seq<char> {
        match self {
            Clock::HumanInput => "human_input"@,
            Clock::Resume => "resume"@,
            Clock::ConditionEdge => "condition"@,
            Clock::Boot => "boot"@,
        }
    }

    /// The one of this name, if there is one.
    pub open spec fn named(name: Seq<char>) -> Option<Clock> {
        if exists|x: Clock| #[trigger] x.text() == name {
            Some(choose|x: Clock| #[trigger] x.text() == name)
        } else {
            None
        }
    }

    /// What the clock is called in a configuration.
    pub fn name(self) -> (r: &'static str)
        ensures
            r@ == self.text(),
    {
        match self {
            Clock::HumanInput => "human_input",
            Clock::Resume => "resume",
            Clock::ConditionEdge => "condition",
            Clock::Boot => "boot",
        }
    }

    /// The clock of this name.
    pub fn from_name(name: &str) -> (r: Option<Self>)
        ensures
            r == Clock::named(name@),
    {
        if same(name, "human_input") {
            proof {
                lemma_clock_named(Clock::HumanInput);
            }
            return Some(Clock::HumanInput);
        }
        if same(name, "resume") {
            proof {
                lemma_clock_named(Clock::Resume);
            }
            return Some(Clock::Resume);
        }
        if same(name, "condition") {
            proof {
                lemma_clock_named(Clock::ConditionEdge);
            }
            return Some(Clock::ConditionEdge);
        }
        if same(name, "boot") {
            proof {
                lemma_clock_named(Clock::Boot);
            }
            return Some(Clock::Boot);
        }
        None
    }
}

/// Each name is the name of the one it was taken from.
pub proof fn lemma_clock_named(x: Clock)
    ensures
        Clock::named(x.text()) == Some(x),
{
    let y = choose|y: Clock| #[trigger] y.text() == x.text();
    clock_names_are_distinct(y, x);
}

/// No two clocks share a name.
pub proof fn clock_names_are_distinct(a: Clock, b: Clock)
    requires
        a.text() == b.text(),
    ensures
        a == b,
{
    reveal_strlit("human_input");
    assert("human_input"@.len() == 11);
    reveal_strlit("resume");
    assert("resume"@.len() == 6);
    reveal_strlit("condition");
    assert("condition"@.len() == 9);
    reveal_strlit("boot");
    assert("boot"@.len() == 4);
}

/// Where a clock started.
#[derive(Clone, Copy, PartialEq, Eq, Debug, Structural)]
pub enum ClockOrigin {
    /// At this instant.
    At(BootInstant),
    /// What it counts from has not happened since boot.
    NotYet,
    /// It cannot be told.
    Unreadable,
}

impl ClockOrigin {
    /// The origin in words.
    pub open spec fn text(self) -> Seq<char> {
        match self {
            ClockOrigin::At(t) => "+"@ + crate::text::decimal((t.nanos / 1_000_000_000) as nat)
                + "s since boot"@,
            ClockOrigin::NotYet => "not yet this boot"@,
            ClockOrigin::Unreadable => "unreadable"@,
        }
    }

    /// The instant of the origin, if there is one.
    pub fn instant(self) -> (r: Option<BootInstant>)
        ensures
            r == (match self {
                ClockOrigin::At(t) => Some(t),
                _ => None,
            }),
    {
        match self {
            ClockOrigin::At(t) => Some(t),
            ClockOrigin::NotYet | ClockOrigin::Unreadable => None,
        }
    }

    /// Whether the origin cannot be told, where it normally can.
    pub fn is_unreadable(self) -> (r: bool)
        ensures
            r == (self == ClockOrigin::Unreadable),
    {
        matches!(self, ClockOrigin::Unreadable)
    }

    /// The origin in words.
    pub fn to_string(&self) -> (r: String)
        ensures
            r@ == self.text(),
    {
        match *self {
            ClockOrigin::At(t) => {
                let mut out = "+".to_owned();
                push_decimal(&mut out, (t.nanos / NANOS_PER_SEC) as u128);
                out.append("s since boot");
                out
            },
            ClockOrigin::NotYet => "not yet this boot".to_owned(),
            ClockOrigin::Unreadable => "unreadable".to_owned(),
        }
    }
}

/// The clocks, read together.
#[derive(Clone, Copy, Debug)]
pub struct ClockSnapshot {
    /// The instant of the reading.
    pub now: BootInstant,
    /// When somebody last used the machine.
    pub human_input: ClockOrigin,
    /// When the machine last came back from a sleep.
    pub resume: ClockOrigin,
}

/// Where a clock counts from, given since when the block's condition has held.
///
/// A machine that nobody has touched since boot counts from boot: that is how a machine that
/// woke up by itself goes back to sleep. A clock that cannot be read has no origin, and one of a
/// resume that has not happened has none either.
pub open spec fn origin_of(
    clocks: ClockSnapshot,
    clock: Clock,
    since: Option<BootInstant>,
) -> Option<BootInstant> {
    match clock {
        Clock::HumanInput => match clocks.human_input {
            ClockOrigin::At(t) => Some(t),
            ClockOrigin::NotYet => Some(crate::time::boot()),
            ClockOrigin::Unreadable => None,
        },
        Clock::Resume => match clocks.resume {
            ClockOrigin::At(t) => Some(t),
            _ => None,
        },
        Clock::ConditionEdge => match since {
            Some(t) => Some(t),
            None => Some(clocks.now),
        },
        Clock::Boot => Some(crate::time::boot()),
    }
}

impl ClockSnapshot {
    /// A reading at an instant, where nobody has touched the machine and it has not slept.
    pub fn at(now: BootInstant) -> (r: Self)
        ensures
            r.now == now,
            r.human_input == ClockOrigin::NotYet,
            r.resume == ClockOrigin::NotYet,
    {
        ClockSnapshot { now, human_input: ClockOrigin::NotYet, resume: ClockOrigin::NotYet }
    }

    /// What is known of a clock's origin, so that a normal absence and a fault are told apart.
    pub fn origin_kind(&self, clock: Clock, condition_since: Option<BootInstant>) -> (r: ClockOrigin)
        ensures
            r == (match clock {
                Clock::HumanInput => self.human_input,
                Clock::Resume => self.resume,
                Clock::ConditionEdge => ClockOrigin::At(
                    match condition_since {
                        Some(t) => t,
                        None => self.now,
                    },
                ),
                Clock::Boot => ClockOrigin::At(crate::time::boot()),
            }),
    {
        match clock {
            Clock::HumanInput => self.human_input,
            Clock::Resume => self.resume,
            Clock::ConditionEdge => ClockOrigin::At(condition_since.unwrap_or(self.now)),
            Clock::Boot => ClockOrigin::At(BootInstant::boot()),
        }
    }

    /// Where a clock counts from.
    pub fn origin(&self, clock: Clock, condition_since: Option<BootInstant>) -> (r: Option<
        BootInstant,
    >)
        ensures
            r == origin_of(*self, clock, condition_since),
    {
        match clock {
            Clock::HumanInput => match self.human_input {
                ClockOrigin::At(t) => Some(t),
                ClockOrigin::NotYet => Some(BootInstant::boot()),
                ClockOrigin::Unreadable => None,
            },
            Clock::Resume => self.resume.instant(),
            Clock::ConditionEdge => Some(condition_since.unwrap_or(self.now)),
            Clock::Boot => Some(BootInstant::boot()),
        }
    }
}

} // verus!
