//! Instants on the boot clock, spans between them, and the deadlines that compose.
//!
//! Every instant counts nanoseconds since the machine booted, on a clock that keeps counting
//! while it is suspended. Deadlines are composed as instants and never as durations: two
//! durations measured from different origins do not compare.
use std::cmp::Ordering;
use vstd::prelude::*;
use vstd::string::StringExecFns;

use crate::text::push_decimal;

verus! {

/// How many nanoseconds a second has.
pub const NANOS_PER_SEC: u64 = 1_000_000_000;

/// A span of time, in nanoseconds.
#[derive(Clone, Copy, PartialEq, Eq, PartialOrd, Ord, Hash, Debug, Structural)]
pub struct Duration {
    /// The whole span.
    pub nanos: u128,
}

/// The span of this many seconds.
pub open spec fn seconds(secs: u64) -> Duration {
    Duration { nanos: (secs * 1_000_000_000) as u128 }
}

/// The whole seconds of a span; of one longer than can be counted, the largest count.
pub open spec fn whole_secs(d: Duration) -> nat {
    if d.nanos / 1_000_000_000 <= u64::MAX {
        (d.nanos / 1_000_000_000) as nat
    } else {
        u64::MAX as nat
    }
}

impl Duration {
    /// The span of this many seconds.
    pub fn from_secs(secs: u64) -> (r: Self)
        ensures
            r == seconds(secs),
            r.nanos == secs * 1_000_000_000,
    {
        Duration { nanos: (secs as u128) * 1_000_000_000 }
    }

    /// The span of this many milliseconds.
    pub fn from_millis(millis: u64) -> (r: Self)
        ensures
            r.nanos == millis * 1_000_000,
    {
        Duration { nanos: (millis as u128) * 1_000_000 }
    }

    /// The span of this many microseconds.
    pub fn from_micros(micros: u64) -> (r: Self)
        ensures
            r.nanos == micros * 1_000,
    {
        Duration { nanos: (micros as u128) * 1_000 }
    }

    /// The span of this many nanoseconds.
    pub fn from_nanos(nanos: u64) -> (r: Self)
        ensures
            r.nanos == nanos,
    {
        Duration { nanos: nanos as u128 }
    }

    /// The span in nanoseconds.
    pub fn as_nanos(self) -> (r: u128)
        ensures
            r == self.nanos,
    {
        self.nanos
    }

    /// The whole microseconds of the span.
    pub fn as_micros(self) -> (r: u128)
        ensures
            r == self.nanos / 1_000,
    {
        self.nanos / 1_000
    }

    /// The whole seconds of the span; of a span longer than can be counted, the largest count.
    pub fn as_secs(self) -> (r: u64)
        ensures
            r == whole_secs(self),
    {
        let secs: u128 = self.nanos / 1_000_000_000;
        if secs <= u64::MAX as u128 {
            secs as u64
        } else {
            u64::MAX
        }
    }
}

/// An instant on the boot clock.
#[derive(Clone, Copy, PartialEq, Eq, PartialOrd, Ord, Hash, Debug, Structural)]
pub struct BootInstant {
    /// Nanoseconds since boot.
    pub nanos: u64,
}

impl BootInstant {
    /// The instant at which the machine booted.
    pub fn boot() -> (r: Self)
        ensures
            r == boot(),
    {
        BootInstant { nanos: 0 }
    }

    /// The instant this many nanoseconds after boot.
    pub fn from_nanos(nanos: u64) -> (r: Self)
        ensures
            r.nanos == nanos,
    {
        BootInstant { nanos }
    }

    /// The instant this many seconds after boot, or the last one that can be counted.
    pub fn from_secs(secs: u64) -> (r: Self)
        ensures
            r.nanos == (if secs * 1_000_000_000 <= u64::MAX {
                secs * 1_000_000_000
            } else {
                u64::MAX as int
            }),
    {
        match secs.checked_mul(NANOS_PER_SEC) {
            Some(nanos) => BootInstant { nanos },
            None => BootInstant { nanos: u64::MAX },
        }
    }

    /// Nanoseconds since boot.
    pub fn as_nanos(self) -> (r: u64)
        ensures
            r == self.nanos,
    {
        self.nanos
    }

    /// Whole microseconds since boot.
    pub fn as_micros(self) -> (r: u64)
        ensures
            r == self.nanos / 1_000,
    {
        self.nanos / 1_000
    }

    /// The instant this span later, unless it lies past what can be counted.
    pub fn checked_add(self, delta: Duration) -> (r: Option<Self>)
        ensures
            r == later(self, delta),
    {
        if delta.nanos > u64::MAX as u128 {
            return None;
        }
        match self.nanos.checked_add(delta.nanos as u64) {
            Some(nanos) => Some(BootInstant { nanos }),
            None => None,
        }
    }

    /// The instant this span earlier, or boot where the span reaches past it.
    pub fn saturating_sub(self, delta: Duration) -> (r: Self)
        ensures
            r == earlier(self, delta),
    {
        if delta.nanos >= self.nanos as u128 {
            BootInstant { nanos: 0 }
        } else {
            BootInstant { nanos: self.nanos - delta.nanos as u64 }
        }
    }

    /// How long after `earlier` this instant is; zero if it is not after it.
    pub fn since(self, earlier: Self) -> (r: Duration)
        ensures
            r == between(earlier, self),
    {
        if self.nanos > earlier.nanos {
            Duration { nanos: (self.nanos - earlier.nanos) as u128 }
        } else {
            Duration { nanos: 0 }
        }
    }
}

/// The instant at which the machine booted.
pub open spec fn boot() -> BootInstant {
    BootInstant { nanos: 0 }
}

/// The instant a span after another, unless it lies past what can be counted.
pub open spec fn later(at: BootInstant, delta: Duration) -> Option<BootInstant> {
    if at.nanos + delta.nanos <= u64::MAX {
        Some(BootInstant { nanos: (at.nanos + delta.nanos) as u64 })
    } else {
        None
    }
}

/// The instant a span before another, or boot where the span reaches past it.
pub open spec fn earlier(at: BootInstant, delta: Duration) -> BootInstant {
    if at.nanos >= delta.nanos {
        BootInstant { nanos: (at.nanos - delta.nanos) as u64 }
    } else {
        boot()
    }
}

/// The span from one instant to another; zero if the second is not later.
pub open spec fn between(from: BootInstant, to: BootInstant) -> Duration {
    if to.nanos > from.nanos {
        Duration { nanos: (to.nanos - from.nanos) as u128 }
    } else {
        Duration { nanos: 0 }
    }
}

/// How long a block waits before an action.
#[derive(Clone, Copy, PartialEq, Eq, Debug, Structural)]
pub enum Timeout {
    /// This long after the origin of the block's clock.
    After(Duration),
    /// Forever.
    Never,
}

/// When something may happen.
///
/// The order is that of time, with `Never` after every instant.
#[derive(Clone, Copy, PartialEq, Eq, Ord, Debug, Structural)]
pub enum Deadline {
    /// At this instant and after.
    At(BootInstant),
    /// At no instant.
    Never,
}

/// Whether one deadline is strictly earlier than another.
pub open spec fn sooner(a: Deadline, b: Deadline) -> bool {
    match (a, b) {
        (Deadline::At(x), Deadline::At(y)) => x.nanos < y.nanos,
        (Deadline::At(_), Deadline::Never) => true,
        (Deadline::Never, _) => false,
    }
}

/// Whether one deadline is no later than another.
pub open spec fn no_later(a: Deadline, b: Deadline) -> bool {
    a == b || sooner(a, b)
}

/// Whether a deadline has come at an instant.
pub open spec fn due(deadline: Deadline, now: BootInstant) -> bool {
    match deadline {
        Deadline::At(at) => at.nanos <= now.nanos,
        Deadline::Never => false,
    }
}

/// The deadline of a timeout that runs from an origin. Past what can be counted there is none.
pub open spec fn deadline_of(origin: BootInstant, timeout: Timeout) -> Deadline {
    match timeout {
        Timeout::Never => Deadline::Never,
        Timeout::After(d) => match later(origin, d) {
            Some(at) => Deadline::At(at),
            None => Deadline::Never,
        },
    }
}

impl PartialOrd for Deadline {
    fn partial_cmp(&self, other: &Self) -> (r: Option<Ordering>) {
        match (*self, *other) {
            (Deadline::Never, Deadline::Never) => Some(Ordering::Equal),
            (Deadline::Never, Deadline::At(_)) => Some(Ordering::Greater),
            (Deadline::At(_), Deadline::Never) => Some(Ordering::Less),
            (Deadline::At(a), Deadline::At(b)) => {
                if a.nanos < b.nanos {
                    Some(Ordering::Less)
                } else if a.nanos > b.nanos {
                    Some(Ordering::Greater)
                } else {
                    Some(Ordering::Equal)
                }
            },
        }
    }
}

impl vstd::std_specs::cmp::PartialOrdSpecImpl for Deadline {
    open spec fn obeys_partial_cmp_spec() -> bool {
        true
    }

    open spec fn partial_cmp_spec(&self, other: &Self) -> Option<Ordering> {
        if sooner(*self, *other) {
            Some(Ordering::Less)
        } else if sooner(*other, *self) {
            Some(Ordering::Greater)
        } else {
            Some(Ordering::Equal)
        }
    }
}

impl Deadline {
    /// The deadline of a timeout that runs from an origin.
    ///
    /// A timeout whose end cannot be counted is a deadline that never comes, so that a number
    /// too large to hold fails towards staying awake.
    pub fn from_origin(origin: BootInstant, timeout: Timeout) -> (r: Self)
        ensures
            r == deadline_of(origin, timeout),
    {
        match timeout {
            Timeout::Never => Deadline::Never,
            Timeout::After(d) => match origin.checked_add(d) {
                Some(instant) => Deadline::At(instant),
                None => Deadline::Never,
            },
        }
    }

    /// Whether the deadline has come.
    pub fn is_due_at(self, now: BootInstant) -> (r: bool)
        ensures
            r == due(self, now),
    {
        match self {
            Deadline::Never => false,
            Deadline::At(instant) => now.nanos >= instant.nanos,
        }
    }

    /// How long until the deadline comes, while it is still to come.
    pub fn remaining_at(self, now: BootInstant) -> (r: Option<Duration>)
        ensures
            r == (match self {
                Deadline::At(at) if at.nanos > now.nanos => Some(between(now, at)),
                _ => None,
            }),
    {
        match self {
            Deadline::Never => None,
            Deadline::At(instant) => if instant.nanos > now.nanos {
                Some(instant.since(now))
            } else {
                None
            },
        }
    }

    /// The later of two deadlines.
    pub fn later_of(self, other: Self) -> (r: Self)
        ensures
            r == later_deadline(self, other),
    {
        if self < other {
            other
        } else {
            self
        }
    }

    /// The earlier of two deadlines.
    pub fn earlier_of(self, other: Self) -> (r: Self)
        ensures
            r == earlier_deadline(self, other),
    {
        if other < self {
            other
        } else {
            self
        }
    }

    /// The deadline in words: `never`, or the whole seconds since boot.
    pub fn to_string(&self) -> (r: String)
        ensures
            r@ == deadline_text(*self),
    {
        match *self {
            Deadline::Never => "never".to_owned(),
            Deadline::At(instant) => {
                let mut out = "boottime+".to_owned();
                push_decimal(&mut out, (instant.nanos / NANOS_PER_SEC) as u128);
                out.append("s");
                out
            },
        }
    }
}

/// The deadline in words.
pub open spec fn deadline_text(d: Deadline) -> Seq<char> {
    match d {
        Deadline::Never => "never"@,
        Deadline::At(at) => "boottime+"@ + crate::text::decimal((at.nanos / 1_000_000_000) as nat)
            + "s"@,
    }
}

/// The later of two deadlines.
pub open spec fn later_deadline(a: Deadline, b: Deadline) -> Deadline {
    if sooner(a, b) {
        b
    } else {
        a
    }
}

/// The earlier of two deadlines.
pub open spec fn earlier_deadline(a: Deadline, b: Deadline) -> Deadline {
    if sooner(b, a) {
        b
    } else {
        a
    }
}

/// The latest of some deadlines; `Never` of none at all.
///
/// An action that nothing permits never happens: silence is not permission.
pub open spec fn latest(deadlines: Seq<Deadline>) -> Deadline
    decreases deadlines.len(),
{
    if deadlines.len() == 0 {
        Deadline::Never
    } else if deadlines.len() == 1 {
        deadlines[0]
    } else {
        later_deadline(latest(deadlines.drop_last()), deadlines.last())
    }
}

/// The earliest of some deadlines; `Never` of none at all.
pub open spec fn earliest(deadlines: Seq<Deadline>) -> Deadline
    decreases deadlines.len(),
{
    if deadlines.len() == 0 {
        Deadline::Never
    } else {
        earlier_deadline(earliest(deadlines.drop_last()), deadlines.last())
    }
}

/// What the latest of some deadlines is: one of them, with none later.
pub proof fn latest_is_the_greatest(deadlines: Seq<Deadline>)
    ensures
        deadlines.len() > 0 ==> deadlines.contains(latest(deadlines)),
        forall|i: int|
            0 <= i < deadlines.len() ==> no_later(#[trigger] deadlines[i], latest(deadlines)),
        deadlines.len() == 0 ==> latest(deadlines) == Deadline::Never,
    decreases deadlines.len(),
{
    if deadlines.len() == 1 {
        assert(deadlines[0] == latest(deadlines));
    } else if deadlines.len() > 1 {
        let shorter = deadlines.drop_last();
        latest_is_the_greatest(shorter);
        let i = choose|i: int| 0 <= i < shorter.len() && shorter[i] == latest(shorter);
        assert(deadlines[i] == latest(shorter));
        assert(deadlines[deadlines.len() - 1] == deadlines.last());
        assert forall|i: int| 0 <= i < deadlines.len() implies no_later(
            #[trigger] deadlines[i],
            latest(deadlines),
        ) by {
            if i < shorter.len() {
                assert(shorter[i] == deadlines[i]);
            }
        }
    }
}

/// What the earliest of some deadlines is: one of them, with none earlier.
pub proof fn earliest_is_the_least(deadlines: Seq<Deadline>)
    ensures
        deadlines.len() > 0 ==> deadlines.contains(earliest(deadlines)),
        forall|i: int|
            0 <= i < deadlines.len() ==> no_later(earliest(deadlines), #[trigger] deadlines[i]),
        deadlines.len() == 0 ==> earliest(deadlines) == Deadline::Never,
    decreases deadlines.len(),
{
    if deadlines.len() > 0 {
        let shorter = deadlines.drop_last();
        earliest_is_the_least(shorter);
        assert(deadlines[deadlines.len() - 1] == deadlines.last());
        if shorter.len() > 0 {
            let i = choose|i: int| 0 <= i < shorter.len() && shorter[i] == earliest(shorter);
            assert(deadlines[i] == earliest(shorter));
        }
        assert forall|i: int| 0 <= i < deadlines.len() implies no_later(
            earliest(deadlines),
            #[trigger] deadlines[i],
        ) by {
            if i < shorter.len() {
                assert(shorter[i] == deadlines[i]);
            }
        }
    }
}

/// Composition depends on which deadlines there are, and not on how often or in what order.
pub proof fn composition_depends_on_members_alone(a: Seq<Deadline>, b: Seq<Deadline>)
    requires
        forall|d: Deadline| #[trigger] a.contains(d) <==> b.contains(d),
    ensures
        latest(a) == latest(b),
        earliest(a) == earliest(b),
{
    latest_is_the_greatest(a);
    latest_is_the_greatest(b);
    earliest_is_the_least(a);
    earliest_is_the_least(b);
    if a.len() > 0 {
        assert(a.contains(a[0]));
        assert(b.contains(latest(a)) && b.contains(earliest(a)));
    }
    if b.len() > 0 {
        assert(b.contains(b[0]));
        assert(a.contains(b[0]));
        assert(b.contains(latest(b)) && b.contains(earliest(b)));
        assert(a.contains(latest(b)) && a.contains(earliest(b)));
    }
}

/// The order in which deadlines are composed never matters.
pub proof fn order_of_composition_never_matters(a: Seq<Deadline>, b: Seq<Deadline>)
    requires
        a.to_multiset() == b.to_multiset(),
    ensures
        latest(a) == latest(b),
        earliest(a) == earliest(b),
{
    a.to_multiset_ensures();
    b.to_multiset_ensures();
    assert forall|d: Deadline| #[trigger] a.contains(d) <==> b.contains(d) by {
        assert(a.contains(d) <==> a.to_multiset().count(d) > 0);
        assert(b.contains(d) <==> b.to_multiset().count(d) > 0);
    }
    composition_depends_on_members_alone(a, b);
}

/// Composes floors: the latest of the deadlines, or `Never` where there is none.
pub fn compose_floor(deadlines: &Vec<Deadline>) -> (r: Deadline)
    ensures
        r == latest(deadlines@),
{
    if deadlines.len() == 0 {
        return Deadline::Never;
    }
    let mut acc = deadlines[0];
    let mut i: usize = 1;
    assert(deadlines@.take(1).len() == 1);
    while i < deadlines.len()
        invariant
            1 <= i <= deadlines@.len(),
            acc == latest(deadlines@.take(i as int)),
        decreases deadlines@.len() - i,
    {
        acc = acc.later_of(deadlines[i]);
        i += 1;
        assert(deadlines@.take(i as int).drop_last() =~= deadlines@.take(i as int - 1));
    }
    assert(deadlines@.take(i as int) =~= deadlines@);
    acc
}

/// Composes ceilings: the earliest of the deadlines, or `Never` where there is none.
pub fn compose_ceiling(deadlines: &Vec<Deadline>) -> (r: Deadline)
    ensures
        r == earliest(deadlines@),
{
    let mut acc = Deadline::Never;
    let mut i: usize = 0;
    while i < deadlines.len()
        invariant
            i <= deadlines@.len(),
            acc == earliest(deadlines@.take(i as int)),
        decreases deadlines@.len() - i,
    {
        acc = acc.earlier_of(deadlines[i]);
        i += 1;
        assert(deadlines@.take(i as int).drop_last() =~= deadlines@.take(i as int - 1));
    }
    assert(deadlines@.take(i as int) =~= deadlines@);
    acc
}

} // verus!
