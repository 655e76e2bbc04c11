use idlectl::action::Action;
use idlectl::block::{Block, BlockId, BlockKind, Condition, Timeouts};
use idlectl::clock::{Clock, ClockOrigin, ClockSnapshot};
use idlectl::decision::{resolve_request, Decision, Request};
use idlectl::fact::{FactId, FactSet, FactState};
use idlectl::policy::{BlockEdges, ConfigFault, Policy};
use idlectl::time::{compose_ceiling, compose_floor, BootInstant, Deadline, Duration, Timeout};

fn at(secs: u64) -> BootInstant {
    BootInstant::from_secs(secs)
}

fn after(secs: u64) -> Option<Timeout> {
    Some(Timeout::After(Duration::from_secs(secs)))
}

fn block(kind: BlockKind, condition: Condition, clock: Clock, timeouts: Timeouts) -> Block {
    Block {
        id: BlockId::new(kind, condition),
        clock,
        enabled: true,
        timeouts,
    }
}

fn floor(condition: Condition, suspend: Option<Timeout>) -> Block {
    block(
        BlockKind::While,
        condition,
        Clock::HumanInput,
        Timeouts {
            suspend,
            ..Timeouts::default()
        },
    )
}

fn policy(blocks: Vec<Block>) -> Policy {
    Policy {
        blocks,
        ..Policy::empty()
    }
}

fn clocks() -> ClockSnapshot {
    ClockSnapshot {
        now: at(10_000),
        human_input: ClockOrigin::At(at(1_000)),
        resume: ClockOrigin::NotYet,
    }
}

fn decide(policy: &Policy, facts: &FactSet, request: &Request) -> Decision {
    resolve_request(policy, facts, &clocks(), &BlockEdges::new(), request)
}

fn playing() -> FactSet {
    FactSet::new().with(FactId::MediaPlaying, FactState::True)
}

#[test]
fn the_order_of_blocks_changes_no_deadline() {
    let one = || floor(Condition::Always, after(600));
    let two = || floor(Condition::Fact(FactId::MediaPlaying), after(7_200));
    let forward = decide(&policy(vec![one(), two()]), &playing(), &Request::none());
    let backward = decide(&policy(vec![two(), one()]), &playing(), &Request::none());
    assert_eq!(forward.suspend.deadline, Deadline::At(at(8_200)));
    assert_eq!(backward.suspend.deadline, Deadline::At(at(8_200)));
    assert!(forward.suspend.due && backward.suspend.due);
}

#[test]
fn a_block_that_applies_to_nothing_can_be_taken_out() {
    let quiet = floor(Condition::Fact(FactId::SteamGameRunning), Some(Timeout::Never));
    let with = decide(
        &policy(vec![floor(Condition::Always, after(600)), quiet]),
        &FactSet::new(),
        &Request::none(),
    );
    let without = decide(
        &policy(vec![floor(Condition::Always, after(600))]),
        &FactSet::new(),
        &Request::none(),
    );
    assert_eq!(with.suspend.deadline, without.suspend.deadline);
    assert_eq!(with.suspend.deadline, Deadline::At(at(1_600)));
}

#[test]
fn a_block_that_is_switched_off_contributes_nothing() {
    let mut off = floor(Condition::Always, Some(Timeout::Never));
    off.enabled = false;
    let decision = decide(
        &policy(vec![floor(Condition::Fact(FactId::MediaPlaying), after(60)), off]),
        &playing(),
        &Request::none(),
    );
    assert_eq!(decision.suspend.deadline, Deadline::At(at(1_060)));
    assert_eq!(decision.suspend.reasons.len(), 1);
}

#[test]
fn where_no_block_applies_nothing_happens() {
    let decision = decide(
        &policy(vec![floor(Condition::Fact(FactId::MediaPlaying), after(0))]),
        &FactSet::new(),
        &Request::none(),
    );
    for action in Action::ALL {
        assert_eq!(decision.get(action).deadline, Deadline::Never);
        assert!(!decision.get(action).due);
    }
}

#[test]
fn doubt_about_a_fact_that_no_block_names_holds_every_sleep() {
    let all = Timeouts {
        screen_off: after(1),
        suspend: after(1),
        hibernate: after(1),
        poweroff: after(1),
    };
    let facts = FactSet::new().with(FactId::RemoteSession, FactState::Indeterminate);
    let decision = decide(
        &policy(vec![block(
            BlockKind::While,
            Condition::Always,
            Clock::HumanInput,
            all,
        )]),
        &facts,
        &Request::none(),
    );
    for action in [Action::Suspend, Action::Hibernate, Action::PowerOff] {
        assert_eq!(decision.get(action).floor, Deadline::Never);
        assert!(!decision.get(action).due);
    }
    assert!(decision.screen_off.due, "the panel is held by blocks alone");
    assert_eq!(decision.doubtful_facts, vec![FactId::RemoteSession]);
}

#[test]
fn a_fault_holds_a_sleep_and_not_the_panel() {
    let mut faulty = policy(vec![block(
        BlockKind::While,
        Condition::Always,
        Clock::HumanInput,
        Timeouts {
            screen_off: after(1),
            suspend: after(1),
            ..Timeouts::default()
        },
    )]);
    faulty.faults.push(ConfigFault {
        source: "a.toml".to_owned(),
        location: String::new(),
        message: "broken".to_owned(),
    });
    let decision = decide(&faulty, &FactSet::new(), &Request::none());
    assert!(!decision.suspend.due);
    assert!(decision.screen_off.due);
    assert_eq!(decision.config_faults, 1);
}

#[test]
fn one_more_ceiling_only_hastens_and_one_more_floor_only_delays() {
    let base = || floor(Condition::Always, after(20_000));
    let ceiling = block(
        BlockKind::When,
        Condition::Fact(FactId::MediaPlaying),
        Clock::Boot,
        Timeouts {
            suspend: after(9_000),
            ..Timeouts::default()
        },
    );
    let plain = decide(&policy(vec![base()]), &playing(), &Request::none());
    let capped = decide(&policy(vec![base(), ceiling]), &playing(), &Request::none());
    let floored = decide(
        &policy(vec![
            base(),
            floor(Condition::Fact(FactId::MediaPlaying), after(30_000)),
        ]),
        &playing(),
        &Request::none(),
    );
    assert_eq!(plain.suspend.deadline, Deadline::At(at(21_000)));
    assert_eq!(capped.suspend.deadline, Deadline::At(at(9_000)));
    assert_eq!(capped.suspend.floor, Deadline::At(at(21_000)));
    assert!(capped.suspend.ceiling_defeated_floor());
    assert_eq!(
        capped.suspend.ceiling_blocks(),
        vec![BlockId::new(
            BlockKind::When,
            Condition::Fact(FactId::MediaPlaying)
        )]
    );
    assert_eq!(floored.suspend.deadline, Deadline::At(at(31_000)));
}

#[test]
fn a_lost_clock_only_delays() {
    let policy = policy(vec![floor(Condition::Always, after(600))]);
    let edges = BlockEdges::new();
    let lost = ClockSnapshot {
        human_input: ClockOrigin::Unreadable,
        ..clocks()
    };
    let read = resolve_request(&policy, &FactSet::new(), &clocks(), &edges, &Request::none());
    let blind = resolve_request(&policy, &FactSet::new(), &lost, &edges, &Request::none());
    assert!(read.suspend.due);
    assert!(!blind.suspend.due);
    assert_eq!(blind.suspend.deadline, Deadline::Never);
}

#[test]
fn force_is_for_one_action() {
    let policy = policy(vec![floor(Condition::Always, Some(Timeout::Never))]);
    let forced = Request {
        now: false,
        force: Some(Action::Hibernate),
        requested: Some(Action::Hibernate),
    };
    let facts = FactSet::new().with(FactId::GpuBusyGame, FactState::Indeterminate);
    let decision = decide(&policy, &facts, &forced);
    assert!(decision.hibernate.due);
    assert_eq!(decision.hibernate.deadline, Deadline::At(at(10_000)));
    assert!(!decision.suspend.due);
    assert_eq!(decision.action_to_perform(), Some(Action::Hibernate));
}

#[test]
fn resting_now_lifts_two_waits_and_no_doubt() {
    let policy = policy(vec![
        floor(Condition::Always, Some(Timeout::Never)),
        floor(Condition::Fact(FactId::AfterResume), Some(Timeout::Never)),
        floor(Condition::Fact(FactId::MediaPlaying), after(20_000)),
    ]);
    let now = Request {
        now: true,
        force: None,
        requested: Some(Action::Suspend),
    };
    let resumed = FactSet::new().with(FactId::AfterResume, FactState::True);
    assert!(decide(&policy, &resumed, &now).suspend.due);
    let busy = resumed.clone().with(FactId::MediaPlaying, FactState::True);
    assert_eq!(
        decide(&policy, &busy, &now).suspend.deadline,
        Deadline::At(at(21_000))
    );
    let doubt = resumed.with(FactId::LeaseHeld, FactState::Indeterminate);
    assert!(!decide(&policy, &doubt, &now).suspend.due);
}

#[test]
fn deadlines_compose_to_the_latest_floor_and_the_earliest_ceiling() {
    let some = vec![
        Deadline::At(at(5)),
        Deadline::At(at(9)),
        Deadline::At(at(7)),
    ];
    let same = vec![
        Deadline::At(at(7)),
        Deadline::At(at(5)),
        Deadline::At(at(9)),
        Deadline::At(at(5)),
    ];
    assert_eq!(compose_floor(&some), Deadline::At(at(9)));
    assert_eq!(compose_floor(&same), Deadline::At(at(9)));
    assert_eq!(compose_ceiling(&some), Deadline::At(at(5)));
    assert_eq!(compose_ceiling(&same), Deadline::At(at(5)));
    assert_eq!(compose_floor(&Vec::new()), Deadline::Never);
    assert_eq!(compose_ceiling(&Vec::new()), Deadline::Never);
    assert_eq!(
        compose_floor(&vec![Deadline::Never, Deadline::At(at(1))]),
        Deadline::Never
    );
}

#[test]
fn doubt_keeps_an_edge_where_it_is() {
    let policy = policy(vec![block(
        BlockKind::While,
        Condition::Fact(FactId::MediaPlaying),
        Clock::ConditionEdge,
        Timeouts {
            suspend: after(60),
            ..Timeouts::default()
        },
    )]);
    let id = BlockId::new(BlockKind::While, Condition::Fact(FactId::MediaPlaying));
    let mut edges = BlockEdges::new();
    edges.observe(&policy, &playing(), at(100));
    assert_eq!(edges.since(id), Some(at(100)));
    edges.observe(
        &policy,
        &FactSet::new().with(FactId::MediaPlaying, FactState::Indeterminate),
        at(200),
    );
    assert_eq!(edges.since(id), Some(at(100)));
    edges.observe(&policy, &playing(), at(300));
    assert_eq!(edges.since(id), Some(at(100)));
    edges.observe(
        &policy,
        &FactSet::new().with(FactId::MediaPlaying, FactState::False),
        at(400),
    );
    assert_eq!(edges.since(id), None);
}

#[test]
fn no_two_things_share_a_name() {
    for (i, a) in FactId::ALL.iter().enumerate() {
        for b in &FactId::ALL[i + 1..] {
            assert_ne!(a.name(), b.name());
        }
        assert_eq!(FactId::from_name(a.name()), Some(*a));
        assert_eq!(
            Condition::from_name(a.name()),
            Some(Condition::Fact(*a))
        );
    }
    assert_eq!(Condition::from_name("always"), Some(Condition::Always));
    assert_eq!(Condition::from_name("sometimes"), None);
    assert_eq!(Action::from_name("reboot"), None);
    assert_eq!(Clock::from_name("condition"), Some(Clock::ConditionEdge));
    assert_eq!(FactId::LocalServiceBusy.index(), 10);
}

#[test]
fn instants_and_deadlines_count_exactly() {
    assert_eq!(at(3).as_micros(), 3_000_000);
    assert_eq!(at(5).since(at(3)), Duration::from_secs(2));
    assert_eq!(at(3).since(at(5)), Duration::from_secs(0));
    assert_eq!(
        BootInstant::from_nanos(u64::MAX).checked_add(Duration::from_nanos(1)),
        None
    );
    assert_eq!(at(3).saturating_sub(Duration::from_secs(9)), BootInstant::boot());
    assert_eq!(
        Deadline::from_origin(at(5), Timeout::After(Duration::from_secs(2))),
        Deadline::At(at(7))
    );
    assert_eq!(
        Deadline::from_origin(
            BootInstant::from_nanos(u64::MAX),
            Timeout::After(Duration::from_secs(1))
        ),
        Deadline::Never
    );
    assert_eq!(
        Deadline::At(at(7)).remaining_at(at(5)),
        Some(Duration::from_secs(2))
    );
    assert_eq!(Deadline::Never.remaining_at(at(5)), None);
    assert_eq!(Deadline::At(at(7)).to_string(), "boottime+7s");
    assert_eq!(Deadline::Never.to_string(), "never");
    assert_eq!(Deadline::At(at(7)).later_of(Deadline::Never), Deadline::Never);
    assert_eq!(
        Deadline::At(at(7)).earlier_of(Deadline::Never),
        Deadline::At(at(7))
    );
}
