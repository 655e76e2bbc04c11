use idlectl::session::backend::Idle;
use idlectl::session::lastinput::{last_used, load, store, taken_over, ADOPT_MAX_GAP_SECS};
use idlectl::time::{BootInstant, Duration};

#[test]
fn carries_the_instant_over_a_short_gap() {
    let input = BootInstant::from_secs(1000);
    let text = store(input, BootInstant::from_secs(1500));
    assert_eq!(load(&text, BootInstant::from_secs(1501)), Some(input));
}

#[test]
fn carries_the_input_instant_not_the_write() {
    let text = store(BootInstant::from_secs(1000), BootInstant::from_secs(9000));
    let carried = load(&text, BootInstant::from_secs(9001)).expect("adopted");
    assert_eq!(
        BootInstant::from_secs(9001).since(carried),
        Duration::from_secs(8001)
    );
}

#[test]
fn refuses_a_gap_nobody_was_watching() {
    let text = store(BootInstant::from_secs(1000), BootInstant::from_secs(1500));
    let late = BootInstant::from_secs(1500)
        .checked_add(Duration::from_secs(ADOPT_MAX_GAP_SECS + 1))
        .expect("representable");
    assert_eq!(load(&text, late), None);
}

#[test]
fn adopts_at_exactly_the_limit() {
    let text = store(BootInstant::from_secs(1000), BootInstant::from_secs(1500));
    let edge = BootInstant::from_secs(1500)
        .checked_add(Duration::from_secs(ADOPT_MAX_GAP_SECS))
        .expect("representable");
    assert_eq!(load(&text, edge), Some(BootInstant::from_secs(1000)));
}

#[test]
fn refuses_a_file_from_a_longer_boot() {
    let text = store(BootInstant::from_secs(5000), BootInstant::from_secs(5000));
    assert_eq!(load(&text, BootInstant::from_secs(100)), None);
}

#[test]
fn refuses_a_file_whose_input_is_after_its_write() {
    let text: &str = "9000000000000 1000000000\n";
    assert_eq!(load(text, BootInstant::from_secs(9001)), None);
}

#[test]
fn refuses_a_corrupt_file() {
    let text: &str = "not a number at all\n";
    assert_eq!(load(text, BootInstant::from_secs(100)), None);
}

#[test]
fn refuses_a_truncated_file() {
    let text: &str = "1000000000\n";
    assert_eq!(load(text, BootInstant::from_secs(100)), None);
}

#[test]
fn refuses_when_there_is_nothing_stored() {
    assert_eq!(load("", BootInstant::from_secs(100)), None);
}

#[test]
fn what_was_taken_over_stands_for_a_session_that_can_tell() {
    let now = BootInstant::from_secs(1_000);
    let fresh = Idle::For(Duration::from_secs(0));
    let before = Some(BootInstant::from_secs(400));
    assert_eq!(taken_over(fresh, before, now), Idle::For(Duration::from_secs(600)));
    assert_eq!(taken_over(fresh, None, now), fresh);
    assert_eq!(taken_over(Idle::Unknown, before, now), Idle::Unknown);
    assert_eq!(
        last_used(Idle::For(Duration::from_secs(600)), now),
        Some(BootInstant::from_secs(400))
    );
    assert_eq!(
        last_used(Idle::For(Duration::from_secs(2_000)), now),
        Some(BootInstant::from_secs(0))
    );
    assert_eq!(last_used(Idle::Unknown, now), None);
}
