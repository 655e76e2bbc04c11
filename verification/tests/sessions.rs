use idlectl::sessions::session_age;
use idlectl::time::Duration;

const NOW_SECS: u64 = 1_800_000_000;

fn now() -> Duration {
    Duration::from_secs(NOW_SECS)
}

fn opened_secs_ago(secs: u64) -> u64 {
    (NOW_SECS - secs) * 1_000_000
}

#[test]
fn a_session_age_is_elapsed_time_and_not_a_timestamp() {
    assert_eq!(session_age(opened_secs_ago(0), now()), "0s ago");
    assert_eq!(session_age(opened_secs_ago(120), now()), "2m ago");
    assert_eq!(session_age(opened_secs_ago(7200), now()), "2h00m ago");
}

#[test]
fn a_newer_session_reads_younger_than_an_older_one() {
    let older = session_age(opened_secs_ago(7260), now());
    let newer = session_age(opened_secs_ago(7200), now());
    assert_eq!((older.as_str(), newer.as_str()), ("2h01m ago", "2h00m ago"));
}

#[test]
fn a_session_stamped_in_the_future_is_not_rendered_as_an_age() {
    let ahead = (NOW_SECS + 60) * 1_000_000;
    assert_eq!(session_age(ahead, now()), "age unknown");
}
