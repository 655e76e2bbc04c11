use idlectl::manager::deadline_usec;
use idlectl::report::human;
use idlectl::time::{BootInstant, Deadline, Duration};

#[test]
fn never_is_the_uint64_sentinel_and_boot_is_not() {
    assert_eq!(deadline_usec(Deadline::Never), u64::MAX);
    assert_eq!(
        deadline_usec(Deadline::At(BootInstant::boot())),
        0
    );
}

#[test]
fn human_durations_round_down_rather_than_inventing_precision() {
    assert_eq!(human(Duration::from_secs(59)), "59s");
    assert_eq!(human(Duration::from_secs(90)), "1m30s");
    assert_eq!(
        human(Duration::from_secs(3 * 3600 + 61)),
        "3h01m"
    );
}
