use idlectl::clock::ClockOrigin;
use idlectl::resume::{nanos, now, suspended, ResumeTracker};
use idlectl::time::BootInstant;
use rustix::time::{clock_gettime, ClockId};

fn read(clock: ClockId) -> u64 {
    let at = clock_gettime(clock);
    nanos(at.tv_sec, at.tv_nsec)
}

#[test]
fn boottime_is_at_least_monotonic() {
    let monotonic = read(ClockId::Monotonic);
    let boottime = read(ClockId::Boottime);
    assert!(
        boottime >= monotonic,
        "BOOTTIME {boottime} is behind MONOTONIC {monotonic}, which the kernel forbids"
    );
}

#[test]
fn a_machine_that_has_not_slept_reports_no_suspended_time() {
    let suspended = suspended();
    let uptime = read(ClockId::Boottime);
    assert!(
        suspended <= uptime,
        "suspended time {suspended} exceeds the age of the boot {uptime}"
    );
}

#[test]
fn now_advances() {
    let a = now();
    let mut b = now();
    let mut tries = 0;
    while b.as_nanos() <= a.as_nanos() && tries < 100_000_000 {
        b = now();
        tries += 1;
    }
    assert!(b.as_nanos() > a.as_nanos());
}

#[test]
fn advances() {
    let first = now();
    let second = now();
    assert!(second >= first);
}

#[test]
fn is_not_boot() {
    assert_ne!(now(), BootInstant::boot());
}

#[test]
fn a_machine_that_never_slept_reports_not_yet_rather_than_a_fault() {
    let tracker = ResumeTracker {
        seen: 0,
        last_resume: None,
        resumed_this_boot: false,
    };
    assert_eq!(tracker.origin(), ClockOrigin::NotYet);
    assert!(!tracker.after_resume());
}

#[test]
fn after_resume_latches_and_does_not_expire() {
    let mut tracker = ResumeTracker {
        seen: 0,
        last_resume: None,
        resumed_this_boot: false,
    };
    tracker.note_announced_resume(BootInstant::from_secs(100), 0);
    assert!(tracker.after_resume());
    assert!(tracker.after_resume());
    assert_eq!(
        tracker.origin(),
        ClockOrigin::At(BootInstant::from_secs(100))
    );
}
