use idlectl::agents::{Agent, Registry, HEARTBEAT_MAX_AGE_SECS};
use idlectl::clock::ClockOrigin;
use idlectl::fact::FactState;
use idlectl::time::{BootInstant, Duration};

fn agent(session: &str, idle: Option<Duration>, last_report: u64) -> Agent {
    Agent {
        session_id: session.to_owned(),
        uid: 1000,
        can_blank: true,
        idle,
        media: "false".to_owned(),
        gpu_holders: Vec::new(),
        last_report: BootInstant::from_secs(last_report),
    }
}

fn min_idle() -> Duration {
    Duration::from_secs(300)
}

#[test]
fn recent_input_is_true() {
    let mut reg = Registry::default();
    reg.register(
        ":1.5",
        agent("c2", Some(Duration::from_secs(10)), 1000),
    );
    let (reading, origin) = reg.human(BootInstant::from_secs(1000), min_idle(), true);
    assert_eq!(reading.state, FactState::True);
    assert_eq!(origin, ClockOrigin::At(BootInstant::from_secs(990)));
}

#[test]
fn no_agent_and_no_graphical_session_is_false_not_doubt() {
    let reg = Registry::default();
    let (reading, origin) = reg.human(BootInstant::from_secs(1000), min_idle(), false);
    assert_eq!(reading.state, FactState::False);
    assert_eq!(origin, ClockOrigin::NotYet);
}

#[test]
fn a_graphical_session_with_no_agent_is_doubt() {
    let reg = Registry::default();
    let (reading, origin) = reg.human(BootInstant::from_secs(1000), min_idle(), true);
    assert_eq!(reading.state, FactState::Indeterminate);
    assert_eq!(origin, ClockOrigin::Unreadable);
}

#[test]
fn a_stale_agent_stops_counting() {
    let mut reg = Registry::default();
    reg.register(":1.5", agent("c2", Some(Duration::from_secs(0)), 0));
    let now = BootInstant::from_secs(HEARTBEAT_MAX_AGE_SECS + 1);
    let (reading, _) = reg.human(now, min_idle(), true);
    assert_eq!(reading.state, FactState::Indeterminate);
    assert_eq!(reg.reap(now).len(), 1);
    assert!(reg.is_empty());
}

#[test]
fn one_broken_agent_makes_the_whole_reading_doubt() {
    let mut reg = Registry::default();
    reg.register(
        ":1.5",
        agent("c2", Some(Duration::from_secs(1)), 1000),
    );
    reg.register(":1.6", agent("c3", None, 1000));
    let (reading, origin) = reg.human(BootInstant::from_secs(1000), min_idle(), true);
    assert_eq!(reading.state, FactState::Indeterminate);
    assert_eq!(origin, ClockOrigin::Unreadable);
}

#[test]
fn idle_accrues_between_reports() {
    let mut reg = Registry::default();
    reg.register(
        ":1.5",
        agent("c2", Some(Duration::from_secs(280)), 1000),
    );
    let (reading, _) = reg.human(BootInstant::from_secs(1030), min_idle(), true);
    assert_eq!(
        reading.state,
        FactState::False,
        "280 + 30 > 300"
    );
}

#[test]
fn the_most_recent_input_across_sessions_wins() {
    let mut reg = Registry::default();
    reg.register(
        ":1.5",
        agent("c2", Some(Duration::from_secs(9000)), 1000),
    );
    reg.register(
        ":1.6",
        agent("c3", Some(Duration::from_secs(3)), 1000),
    );
    let (reading, _) = reg.human(BootInstant::from_secs(1000), min_idle(), true);
    assert_eq!(reading.state, FactState::True);
}
