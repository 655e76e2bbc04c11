use idlectl::fact::{FactId, FactMap, FactState};
use idlectl::reading::{ago, Detectors, Reading};
use idlectl::time::Duration;

#[test]
fn a_reading_that_cannot_answer_is_doubt_and_not_false() {
    assert_eq!(Reading::doubt("x").state, FactState::Indeterminate);
    assert_ne!(Reading::doubt("x").state, FactState::False);
    assert_eq!(Reading::absent("x").state, FactState::Unavailable);
}

#[test]
fn changed_reports_only_transitions() {
    let mut det = Detectors::default();
    let mut readings = FactMap::new();
    readings.insert(FactId::HumanActive, Reading::yes("keypress"));

    assert_eq!(det.changed(&readings), vec![FactId::HumanActive]);
    readings.insert(FactId::HumanActive, Reading::yes("mouse"));
    assert!(det.changed(&readings).is_empty());
    readings.insert(FactId::HumanActive, Reading::no("idle"));
    assert_eq!(det.changed(&readings), vec![FactId::HumanActive]);
}

#[test]
fn ago_never_pretends_to_sub_second_precision() {
    assert_eq!(ago(Duration::from_millis(1699)), "1s ago");
    assert_eq!(ago(Duration::from_secs(300)), "5m ago");
    assert_eq!(ago(Duration::from_secs(9 * 3600 + 60)), "9h01m ago");
}
