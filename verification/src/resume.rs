//! Whether and when the machine came back from a sleep, by the time it spent suspended.
use vstd::prelude::*;

use crate::clock::ClockOrigin;
use crate::time::{deadline_of, no_later, BootInstant, Duration, Timeout, NANOS_PER_SEC};

verus! {

/// Nanoseconds of a clock reading. What is negative counts as nothing, and what cannot be counted
/// as the most that can.
pub open spec fn reading_nanos(secs: i64, nsec: i64) -> int {
    let s = if secs > 0 {
        secs as int
    } else {
        0
    };
    let n = if nsec > 0 {
        nsec as int
    } else {
        0
    };
    let scaled = if s * 1_000_000_000 <= u64::MAX {
        s * 1_000_000_000
    } else {
        u64::MAX as int
    };
    if scaled + n <= u64::MAX {
        scaled + n
    } else {
        u64::MAX as int
    }
}

/// Nanoseconds of a clock reading.
pub fn nanos(secs: i64, nsec: i64) -> (r: u64)
    ensures
        r == reading_nanos(secs, nsec),
{
    let s: u64 = if secs > 0 {
        secs as u64
    } else {
        0
    };
    let n: u64 = if nsec > 0 {
        nsec as u64
    } else {
        0
    };
    let scaled: u64 = match s.checked_mul(NANOS_PER_SEC) {
        Some(v) => v,
        None => u64::MAX,
    };
    scaled.saturating_add(n)
}

/// By how much the first reading is ahead of the second, and nothing where it is not.
pub open spec fn ahead(boottime: u64, monotonic: u64) -> int {
    if boottime > monotonic {
        boottime - monotonic
    } else {
        0
    }
}

/// How long the machine was suspended: what the clock that keeps counting is ahead of the one that
/// does not.
pub fn suspended_nanos(boottime: u64, monotonic: u64) -> (r: u64)
    ensures
        r == ahead(boottime, monotonic),
{
    boottime.saturating_sub(monotonic)
}

/// The clocks of the kernel that are read.
#[derive(Clone, Copy, Debug, PartialEq, Eq, Structural)]
pub enum KernelClock {
    /// Counts from boot on, through every sleep, and is never set.
    Boottime,
    /// Counts from boot on, and stands still while the machine is suspended.
    Monotonic,
}

/// Calls `rustix::time::clock_gettime` on the clock, and gives back the seconds and the nanoseconds
/// of the reading. What a clock reads is up to the kernel, so nothing is claimed of it.
#[verifier::external_body]
fn clock_gettime(clock: KernelClock) -> (r: (i64, i64)) {
    let id = match clock {
        KernelClock::Boottime => rustix::time::ClockId::Boottime,
        KernelClock::Monotonic => rustix::time::ClockId::Monotonic,
    };
    let at = rustix::time::clock_gettime(id);
    (at.tv_sec, at.tv_nsec)
}

/// Whether a number of nanoseconds is what a reading of a clock comes to: one that asking the kernel
/// for that clock, and for no other, can give.
pub closed spec fn read_off(clock: KernelClock, nanos: u64) -> bool {
    exists|reading: (i64, i64)| #[trigger]
        call_ensures(clock_gettime, (clock,), reading) && nanos == reading_nanos(
            reading.0,
            reading.1,
        )
}

/// What a clock reads, in nanoseconds.
fn read_clock(clock: KernelClock) -> (r: u64)
    ensures
        read_off(clock, r),
{
    let reading = clock_gettime(clock);
    assert(call_ensures(clock_gettime, (clock,), reading));
    nanos(reading.0, reading.1)
}

/// The present instant: a reading of the clock that keeps counting through a sleep. Which one is up
/// to the kernel.
pub fn now() -> (r: BootInstant)
    ensures
        read_off(KernelClock::Boottime, r.nanos),
{
    BootInstant::from_nanos(read_clock(KernelClock::Boottime))
}

/// How long the machine has been suspended since boot, in nanoseconds: by how much a reading of the
/// clock that keeps counting is ahead of one of the clock that stands still meanwhile. The former is
/// read first: a sleep between the two readings is noticed at the next look.
pub fn suspended() -> (r: u64)
    ensures
        exists|boottime: u64, monotonic: u64| #[trigger]
            ahead(boottime, monotonic) == r && read_off(KernelClock::Boottime, boottime)
                && read_off(KernelClock::Monotonic, monotonic),
{
    let boottime: u64 = read_clock(KernelClock::Boottime);
    let monotonic: u64 = read_clock(KernelClock::Monotonic);
    let r: u64 = suspended_nanos(boottime, monotonic);
    assert(ahead(boottime, monotonic) == r);
    r
}

/// By how much the suspended time must grow for a resume: in nanoseconds. More than two readings of
/// the clocks can drift apart, and less than any sleep lasts.
pub const RESUME_EPSILON_NANOS: u64 = 1_000_000_000;

/// Watches for resumes.
#[derive(Debug)]
pub struct ResumeTracker {
    /// The suspended time at the last look, in nanoseconds.
    pub seen: u64,
    /// When the last resume was noticed.
    pub last_resume: Option<BootInstant>,
    /// Whether there was one since boot.
    pub resumed_this_boot: bool,
}

/// Whether the suspended time has grown by enough for a resume.
pub open spec fn grown(seen: u64, suspended: u64) -> bool {
    let threshold: int = if seen + 1_000_000_000 <= u64::MAX {
        seen + 1_000_000_000
    } else {
        u64::MAX as int
    };
    suspended >= threshold
}

/// What is remembered at the start, by how long the machine has been suspended.
pub open spec fn adopted(now: BootInstant, suspended: u64) -> ResumeTracker {
    ResumeTracker {
        seen: suspended,
        last_resume: if suspended > 0 {
            Some(now)
        } else {
            None
        },
        resumed_this_boot: suspended > 0,
    }
}

/// What is remembered after another look at the suspended time.
pub open spec fn after_look(before: ResumeTracker, now: BootInstant, suspended: u64) -> ResumeTracker {
    if grown(before.seen, suspended) {
        ResumeTracker { seen: suspended, last_resume: Some(now), resumed_this_boot: true }
    } else {
        ResumeTracker {
            seen: if suspended > before.seen {
                suspended
            } else {
                before.seen
            },
            ..before
        }
    }
}

/// Where the clock of resumes started.
pub open spec fn resume_origin(tracker: ResumeTracker) -> ClockOrigin {
    match tracker.last_resume {
        Some(t) => ClockOrigin::At(t),
        None => ClockOrigin::NotYet,
    }
}

impl ResumeTracker {
    /// A resume is remembered with its instant, and an instant with its resume.
    pub open spec fn consistent(self) -> bool {
        self.resumed_this_boot == (self.last_resume is Some)
    }

    /// Starts watching. A machine that has been suspended has resumed; since when it is awake is
    /// not known, and the present stands for it, which delays a sleep and never hastens one.
    pub fn adopt(now: BootInstant, suspended: u64) -> (r: Self)
        ensures
            r == adopted(now, suspended),
            r.consistent(),
    {
        let resumed_this_boot = suspended > 0;
        ResumeTracker {
            seen: suspended,
            last_resume: if resumed_this_boot {
                Some(now)
            } else {
                None
            },
            resumed_this_boot,
        }
    }

    /// Looks at the suspended time again. Gives back whether the machine resumed since the last
    /// look.
    pub fn sample(&mut self, now: BootInstant, suspended: u64) -> (r: bool)
        ensures
            r == grown(old(self).seen, suspended),
            *final(self) == after_look(*old(self), now, suspended),
            old(self).resumed_this_boot ==> final(self).resumed_this_boot,
            old(self).consistent() ==> final(self).consistent(),
    {
        let threshold: u64 = self.seen.saturating_add(RESUME_EPSILON_NANOS);
        if suspended < threshold {
            if suspended > self.seen {
                self.seen = suspended;
            }
            return false;
        }
        self.seen = suspended;
        self.last_resume = Some(now);
        self.resumed_this_boot = true;
        true
    }

    /// Records a resume that was announced.
    pub fn note_announced_resume(&mut self, now: BootInstant, suspended: u64)
        ensures
            final(self).seen == suspended,
            final(self).last_resume == Some(now),
            final(self).resumed_this_boot,
            final(self).consistent(),
    {
        self.seen = suspended;
        self.last_resume = Some(now);
        self.resumed_this_boot = true;
    }

    /// Where the clock of resumes started. It can always be read.
    pub fn origin(&self) -> (r: ClockOrigin)
        ensures
            r == resume_origin(*self),
            r != ClockOrigin::Unreadable,
    {
        match self.last_resume {
            Some(t) => ClockOrigin::At(t),
            None => ClockOrigin::NotYet,
        }
    }

    /// Whether the machine has resumed since boot. Once true, this stays true.
    pub fn after_resume(&self) -> (r: bool)
        ensures
            r == self.resumed_this_boot,
    {
        self.resumed_this_boot
    }

    /// How long the machine has been suspended since boot.
    pub fn suspended_total(&self) -> (r: Duration)
        ensures
            r.nanos == self.seen,
    {
        Duration::from_nanos(self.seen)
    }
}

/// Starting anew never hastens a sleep: whatever timeout runs from the last resume, its deadline is
/// no earlier than it was before.
pub proof fn starting_anew_never_hastens_a_sleep(
    before: ResumeTracker,
    now: BootInstant,
    suspended: u64,
    timeout: Timeout,
)
    requires
        suspended > 0,
        before.last_resume matches Some(at) ==> at.nanos <= now.nanos,
    ensures
        adopted(now, suspended).last_resume is Some,
        before.last_resume matches Some(at) ==> no_later(
            deadline_of(at, timeout),
            deadline_of(adopted(now, suspended).last_resume->Some_0, timeout),
        ),
{
}

/// That the machine has resumed is never forgotten, whatever is seen later, and a resume that was
/// noticed is noticed once.
pub proof fn a_resume_is_noticed_once_and_never_forgotten(
    before: ResumeTracker,
    now: BootInstant,
    suspended: u64,
    next: BootInstant,
)
    ensures
        before.resumed_this_boot ==> after_look(before, now, suspended).resumed_this_boot,
        suspended < u64::MAX ==> !grown(after_look(before, now, suspended).seen, suspended),
        suspended < u64::MAX ==> after_look(after_look(before, now, suspended), next, suspended)
            == after_look(before, now, suspended),
{
}

} // verus!
