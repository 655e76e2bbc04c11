use idlectl::action::Action;
use idlectl::block::{Block, BlockId, BlockKind, Condition, Timeouts};
use idlectl::clock::{Clock, ClockOrigin, ClockSnapshot};
use idlectl::decision::{resolve, resolve_request, Decision, ImplicitFloor, Request};
use idlectl::fact::{FactId, FactSet, FactState};
use idlectl::policy::{BlockEdges, ConfigFault, FactSettings, Policy};
use idlectl::time::{compose_ceiling, compose_floor, BootInstant, Deadline, Duration, Timeout};


const MINUTE: u64 = 60;
const HOUR: u64 = 60 * MINUTE;

fn secs(n: u64) -> Duration {
    Duration::from_secs(n)
}

fn block(kind: BlockKind, condition: Condition, clock: Clock, timeouts: Timeouts) -> Block {
    Block {
        id: BlockId::new(kind, condition),
        clock,
        enabled: true,
        timeouts,
    }
}

fn suspend_after(t: Timeout) -> Timeouts {
    Timeouts {
        suspend: Some(t),
        ..Timeouts::default()
    }
}

fn base_schedule() -> Block {
    block(
        BlockKind::While,
        Condition::Always,
        Clock::HumanInput,
        suspend_after(Timeout::After(secs(30 * MINUTE))),
    )
}

fn resume_window() -> Block {
    block(
        BlockKind::While,
        Condition::Fact(FactId::AfterResume),
        Clock::Resume,
        suspend_after(Timeout::After(secs(5 * MINUTE))),
    )
}

fn evaluate(policy: &Policy, facts: &FactSet, clocks: &ClockSnapshot) -> Decision {
    evaluate_request(policy, facts, clocks, &Request::none())
}

fn evaluate_request(
    policy: &Policy,
    facts: &FactSet,
    clocks: &ClockSnapshot,
    request: &Request,
) -> Decision {
    let mut edges = BlockEdges::new();
    edges.observe(policy, facts, clocks.now);
    resolve_request(policy, facts, clocks, &edges, request)
}

fn base_panel_and_suspend() -> Block {
    block(
        BlockKind::While,
        Condition::Always,
        Clock::HumanInput,
        Timeouts {
            screen_off: Some(Timeout::After(secs(10 * MINUTE))),
            suspend: Some(Timeout::After(secs(30 * MINUTE))),
            ..Timeouts::default()
        },
    )
}

fn long_idle() -> ClockSnapshot {
    let now = BootInstant::from_secs(10 * HOUR);
    ClockSnapshot {
        now,
        human_input: ClockOrigin::At(now.saturating_sub(secs(2 * HOUR))),
        resume: ClockOrigin::NotYet,
    }
}

#[test]
fn resume_window_beats_nine_hours_of_accumulated_idle() {
    let now = BootInstant::from_secs(20 * HOUR);
    let clocks = ClockSnapshot {
        now,
        human_input: ClockOrigin::At(now.saturating_sub(secs(9 * HOUR))),
        resume: ClockOrigin::At(now),
    };
    let policy = Policy {
        blocks: vec![base_schedule(), resume_window()],
        ..Policy::empty()
    };
    let facts = FactSet::new()
        .with(FactId::AfterResume, FactState::True)
        .with(FactId::HumanActive, FactState::False);

    let decision = evaluate(&policy, &facts, &clocks);

    assert_eq!(
        decision.suspend.deadline,
        Deadline::At(now.checked_add(secs(5 * MINUTE)).unwrap()),
        "the settle window must push the deadline five minutes into the future"
    );
    assert!(
        !decision.suspend.due,
        "a machine that resumed this instant must not be due to suspend"
    );
    assert_ne!(
        decision.suspend.deadline,
        Deadline::At(now),
        "deadline collapsed onto now: durations were composed instead of instants"
    );
}

#[test]
fn composing_durations_would_have_fired_immediately() {
    let now = BootInstant::from_secs(20 * HOUR);
    let last_input = now.saturating_sub(secs(9 * HOUR));

    let wrong = last_input
        .checked_add(secs(30 * MINUTE).max(secs(5 * MINUTE)))
        .unwrap();
    assert!(
        wrong < now,
        "max(30m, 5m) from a nine-hour-old origin lands in the past -- fires at once"
    );
}

#[test]
fn empty_policy_never_acts() {
    let policy = Policy::empty();
    let clocks = ClockSnapshot::at(BootInstant::from_secs(10 * HOUR));
    let decision = evaluate(&policy, &FactSet::new(), &clocks);

    for action in Action::ALL {
        assert_eq!(decision.get(action).floor, Deadline::Never);
        assert!(!decision.get(action).due);
    }
    assert_eq!(decision.shallowest_sleep_due(), None);
}

#[test]
fn human_active_is_a_hard_floor() {
    let now = BootInstant::from_secs(10 * HOUR);
    let clocks = ClockSnapshot {
        now,
        human_input: ClockOrigin::At(now.saturating_sub(secs(2 * HOUR))),
        resume: ClockOrigin::NotYet,
    };
    let policy = Policy {
        blocks: vec![
            base_schedule(),
            block(
                BlockKind::While,
                Condition::Fact(FactId::HumanActive),
                Clock::HumanInput,
                suspend_after(Timeout::Never),
            ),
        ],
        ..Policy::empty()
    };

    let idle = FactSet::new().with(FactId::HumanActive, FactState::False);
    assert!(evaluate(&policy, &idle, &clocks).suspend.due);

    let present = FactSet::new().with(FactId::HumanActive, FactState::True);
    let decision = evaluate(&policy, &present, &clocks);
    assert_eq!(decision.suspend.deadline, Deadline::Never);
    assert!(!decision.suspend.due);
}

#[test]
fn doubt_vetoes_suspend_but_not_screen_off() {
    let now = BootInstant::from_secs(10 * HOUR);
    let clocks = ClockSnapshot {
        now,
        human_input: ClockOrigin::At(now.saturating_sub(secs(2 * HOUR))),
        resume: ClockOrigin::NotYet,
    };
    let policy = Policy {
        blocks: vec![
            block(
                BlockKind::While,
                Condition::Always,
                Clock::HumanInput,
                Timeouts {
                    screen_off: Some(Timeout::After(secs(10 * MINUTE))),
                    suspend: Some(Timeout::After(secs(30 * MINUTE))),
                    ..Timeouts::default()
                },
            ),
            block(
                BlockKind::While,
                Condition::Fact(FactId::SteamGameRunning),
                Clock::HumanInput,
                Timeouts {
                    screen_off: Some(Timeout::Never),
                    suspend: Some(Timeout::Never),
                    ..Timeouts::default()
                },
            ),
        ],
        ..Policy::empty()
    };

    let facts = FactSet::new().with(FactId::SteamGameRunning, FactState::Indeterminate);
    let decision = evaluate(&policy, &facts, &clocks);

    assert_eq!(
        decision.suspend.deadline,
        Deadline::Never,
        "an unreadable game detector must veto suspend"
    );
    assert!(
        decision.screen_off.due,
        "an unreadable detector must not pin an OLED panel on"
    );
}

#[test]
fn unavailable_behaves_as_false() {
    let now = BootInstant::from_secs(10 * HOUR);
    let clocks = ClockSnapshot {
        now,
        human_input: ClockOrigin::At(now.saturating_sub(secs(2 * HOUR))),
        resume: ClockOrigin::NotYet,
    };
    let policy = Policy {
        blocks: vec![
            base_schedule(),
            block(
                BlockKind::While,
                Condition::Fact(FactId::MediaPlaying),
                Clock::HumanInput,
                suspend_after(Timeout::Never),
            ),
        ],
        ..Policy::empty()
    };

    let decision = evaluate(&policy, &FactSet::new(), &clocks);
    assert!(
        decision.suspend.due,
        "a machine without a media player must still be allowed to sleep"
    );
}

#[test]
fn order_never_matters() {
    let now = BootInstant::from_secs(20 * HOUR);
    let clocks = ClockSnapshot {
        now,
        human_input: ClockOrigin::At(now.saturating_sub(secs(9 * HOUR))),
        resume: ClockOrigin::At(now),
    };
    let facts = FactSet::new().with(FactId::AfterResume, FactState::True);

    let forwards = Policy {
        blocks: vec![base_schedule(), resume_window()],
        ..Policy::empty()
    };
    let backwards = Policy {
        blocks: vec![resume_window(), base_schedule()],
        ..Policy::empty()
    };

    assert_eq!(
        evaluate(&forwards, &facts, &clocks).suspend.deadline,
        evaluate(&backwards, &facts, &clocks).suspend.deadline
    );
}

#[test]
fn a_ceiling_is_the_only_thing_that_beats_never() {
    let now = BootInstant::from_secs(10 * HOUR);
    let clocks = ClockSnapshot {
        now,
        human_input: ClockOrigin::At(now),
        resume: ClockOrigin::NotYet,
    };
    let hard_floor = block(
        BlockKind::While,
        Condition::Fact(FactId::HumanActive),
        Clock::HumanInput,
        suspend_after(Timeout::Never),
    );
    let facts = FactSet::new().with(FactId::HumanActive, FactState::True);

    let mut policy = Policy {
        blocks: vec![hard_floor],
        ..Policy::empty()
    };
    assert_eq!(
        evaluate(&policy, &facts, &clocks).suspend.deadline,
        Deadline::Never
    );

    policy.blocks.push(block(
        BlockKind::When,
        Condition::Always,
        Clock::HumanInput,
        suspend_after(Timeout::After(Duration::from_secs(0))),
    ));
    let forced = evaluate(&policy, &facts, &clocks);
    assert!(
        forced.suspend.due,
        "an explicit, logged override must be able to beat the human_active floor"
    );
}

#[test]
fn doubt_never_forces_an_action() {
    let now = BootInstant::from_secs(10 * HOUR);
    let clocks = ClockSnapshot::at(now);
    let policy = Policy {
        blocks: vec![block(
            BlockKind::When,
            Condition::Fact(FactId::LeaseHeld),
            Clock::HumanInput,
            suspend_after(Timeout::After(Duration::from_secs(0))),
        )],
        ..Policy::empty()
    };
    let facts = FactSet::new().with(FactId::LeaseHeld, FactState::Indeterminate);

    let decision = evaluate(&policy, &facts, &clocks);
    assert_eq!(
        decision.suspend.ceiling,
        Deadline::Never,
        "an unreadable [when] condition must not force a suspend"
    );
    assert!(!decision.suspend.due);
}

#[test]
fn silence_about_an_action_is_not_a_veto() {
    let clocks = long_idle();
    let policy = Policy {
        blocks: vec![
            base_panel_and_suspend(),
            block(
                BlockKind::While,
                Condition::Fact(FactId::SteamDownloading),
                Clock::HumanInput,
                suspend_after(Timeout::Never),
            ),
        ],
        ..Policy::empty()
    };
    let facts = FactSet::new().with(FactId::SteamDownloading, FactState::True);

    let decision = evaluate(&policy, &facts, &clocks);
    assert_eq!(decision.suspend.deadline, Deadline::Never);
    assert_eq!(
        decision.screen_off.deadline,
        Deadline::At(
            clocks
                .human_input
                .instant()
                .unwrap()
                .checked_add(secs(10 * MINUTE))
                .unwrap()
        ),
        "the download block must contribute nothing at all to screen_off"
    );
    assert!(decision.screen_off.due);
}

#[test]
fn doubt_vetoes_even_when_no_block_mentions_the_fact() {
    let clocks = long_idle();
    let policy = Policy {
        blocks: vec![base_panel_and_suspend()],
        ..Policy::empty()
    };
    let facts = FactSet::new().with(FactId::MediaPlaying, FactState::Indeterminate);

    let decision = evaluate(&policy, &facts, &clocks);

    assert_eq!(decision.doubtful_facts, vec![FactId::MediaPlaying]);
    assert_eq!(
        decision.suspend.floor,
        Deadline::Never,
        "one unreadable detector floors every sleep action, block or no block"
    );
    assert_eq!(
        decision.suspend.implicit_floors,
        vec![ImplicitFloor::Doubt(FactId::MediaPlaying)]
    );
    assert!(!decision.suspend.due);
    assert!(!decision.hibernate.due);
    assert!(!decision.poweroff.due);

    assert!(decision.screen_off.implicit_floors.is_empty());
    assert!(decision.screen_off.due);
}

#[test]
fn an_indeterminate_condition_selects_nothing() {
    let clocks = long_idle();
    let policy = Policy {
        blocks: vec![
            base_panel_and_suspend(),
            block(
                BlockKind::While,
                Condition::Fact(FactId::MediaPlaying),
                Clock::HumanInput,
                Timeouts {
                    screen_off: Some(Timeout::Never),
                    ..Timeouts::default()
                },
            ),
        ],
        ..Policy::empty()
    };
    let facts = FactSet::new().with(FactId::MediaPlaying, FactState::Indeterminate);

    let decision = evaluate(&policy, &facts, &clocks);
    assert!(
        decision
            .screen_off
            .reasons
            .iter()
            .all(|r| r.state.is_true()),
        "an indeterminate condition must not contribute a reason"
    );
    assert!(decision.screen_off.due);
    assert!(
        !decision.suspend.due,
        "but doubt still floors the sleep actions"
    );
}

#[test]
fn a_disabled_fact_contributes_no_doubt() {
    let clocks = long_idle();
    let mut policy = Policy {
        blocks: vec![base_panel_and_suspend()],
        ..Policy::empty()
    };
    policy.facts.insert(
        FactId::MediaPlaying,
        FactSettings {
            enabled: false,
            ..FactSettings::default_for(FactId::MediaPlaying)
        },
    );

    let facts = FactSet::new().with(FactId::MediaPlaying, FactState::Indeterminate);
    let decision = evaluate(&policy, &facts, &clocks);

    assert!(decision.doubtful_facts.is_empty());
    assert!(decision.suspend.due);
}

#[test]
fn only_local_service_busy_ships_disabled() {
    let policy = Policy::empty();
    for fact in FactId::ALL {
        assert_eq!(
            policy.fact_enabled(fact),
            fact != FactId::LocalServiceBusy,
            "{} has the wrong shipped default",
            fact.name()
        );
    }

    let facts = FactSet::new().with(FactId::LocalServiceBusy, FactState::Indeterminate);
    assert!(
        policy.doubtful_facts(&facts).is_empty(),
        "a disabled detector must not be able to wedge a fresh install"
    );
}

#[test]
fn a_configuration_fault_floors_sleep_but_not_the_panel() {
    let clocks = long_idle();
    let policy = Policy {
        blocks: vec![base_panel_and_suspend()],
        faults: vec![ConfigFault {
            source: "/etc/idlectl/conf.d/99-broken.toml".to_owned(),
            location: "while.always.suspend".to_owned(),
            message: "cannot parse \"half an hour\"".to_owned(),
        }],
        ..Policy::empty()
    };

    let decision = evaluate(&policy, &FactSet::new(), &clocks);
    assert_eq!(decision.config_faults, 1);
    assert_eq!(decision.suspend.floor, Deadline::Never);
    assert_eq!(
        decision.suspend.implicit_floors,
        vec![ImplicitFloor::ConfigFault(0)]
    );
    assert!(!decision.suspend.due);
    assert!(!decision.hibernate.due);
    assert!(!decision.poweroff.due);
    assert!(decision.screen_off.implicit_floors.is_empty());
    assert!(decision.screen_off.due);
}

#[test]
fn an_explicitly_requested_action_is_not_replaced_by_a_shallower_one() {
    let now = BootInstant::from_secs(10 * HOUR);
    let clocks = ClockSnapshot {
        now,
        human_input: ClockOrigin::At(now.saturating_sub(secs(5 * HOUR))),
        resume: ClockOrigin::NotYet,
    };
    let policy = Policy {
        blocks: vec![block(
            BlockKind::While,
            Condition::Always,
            Clock::HumanInput,
            Timeouts {
                suspend: Some(Timeout::After(secs(30 * MINUTE))),
                poweroff: Some(Timeout::Never),
                ..Timeouts::default()
            },
        )],
        ..Policy::empty()
    };

    let decision = evaluate_request(
        &policy,
        &FactSet::new(),
        &clocks,
        &Request {
            now: true,
            force: None,
            requested: Some(Action::PowerOff),
        },
    );

    assert!(decision.suspend.due, "suspend is due at the same instant");
    assert!(decision.poweroff.due, "the requested action is due");

    assert_eq!(decision.action_to_perform(), Some(Action::PowerOff));
}

#[test]
fn without_a_request_the_shallowest_action_still_wins() {
    let now = BootInstant::from_secs(10 * HOUR);
    let clocks = ClockSnapshot {
        now,
        human_input: ClockOrigin::At(now.saturating_sub(secs(9 * HOUR))),
        resume: ClockOrigin::NotYet,
    };
    let policy = Policy {
        blocks: vec![block(
            BlockKind::While,
            Condition::Always,
            Clock::HumanInput,
            Timeouts {
                suspend: Some(Timeout::After(secs(30 * MINUTE))),
                poweroff: Some(Timeout::After(secs(8 * HOUR))),
                ..Timeouts::default()
            },
        )],
        ..Policy::empty()
    };

    let decision = evaluate_request(&policy, &FactSet::new(), &clocks, &Request::none());
    assert!(decision.suspend.due);
    assert!(decision.poweroff.due);
    assert_eq!(decision.action_to_perform(), Some(Action::Suspend));
}

#[test]
fn a_requested_action_that_is_held_performs_nothing() {
    let now = BootInstant::from_secs(10 * HOUR);
    let clocks = ClockSnapshot {
        now,
        human_input: ClockOrigin::At(now.saturating_sub(secs(5 * HOUR))),
        resume: ClockOrigin::NotYet,
    };
    let policy = Policy {
        blocks: vec![
            base_schedule(),
            block(
                BlockKind::While,
                Condition::Fact(FactId::LeaseHeld),
                Clock::HumanInput,
                Timeouts {
                    poweroff: Some(Timeout::Never),
                    ..Timeouts::default()
                },
            ),
        ],
        ..Policy::empty()
    };
    let facts = FactSet::new().with(FactId::LeaseHeld, FactState::True);

    let decision = evaluate_request(
        &policy,
        &facts,
        &clocks,
        &Request {
            now: true,
            force: None,
            requested: Some(Action::PowerOff),
        },
    );

    assert!(decision.suspend.due, "the machine could suspend");
    assert!(!decision.poweroff.due, "but poweroff is held by the lease");
    assert_eq!(
        decision.action_to_perform(),
        None,
        "and nothing is performed: a suspend is not a poweroff"
    );
}

#[test]
fn rest_now_satisfies_two_blocks_by_name_and_no_others() {
    let now = BootInstant::from_secs(10 * HOUR);
    let clocks = ClockSnapshot {
        now,
        human_input: ClockOrigin::At(now.saturating_sub(secs(1))),
        resume: ClockOrigin::At(now.saturating_sub(secs(1))),
    };
    let policy = Policy {
        blocks: vec![
            base_schedule(),
            resume_window(),
            block(
                BlockKind::While,
                Condition::Fact(FactId::HumanActive),
                Clock::HumanInput,
                suspend_after(Timeout::Never),
            ),
        ],
        ..Policy::empty()
    };
    let request = Request {
        now: true,
        force: None,
        requested: None,
    };

    let present = FactSet::new()
        .with(FactId::HumanActive, FactState::True)
        .with(FactId::AfterResume, FactState::True);
    let held = evaluate_request(&policy, &present, &clocks, &request);
    assert_eq!(held.suspend.deadline, Deadline::Never);
    assert!(!held.suspend.due);

    let idle = FactSet::new()
        .with(FactId::HumanActive, FactState::False)
        .with(FactId::AfterResume, FactState::True);
    let granted = evaluate_request(&policy, &idle, &clocks, &request);
    assert_eq!(granted.suspend.deadline, Deadline::At(now));
    assert!(granted.suspend.due);
}

#[test]
fn force_defeats_the_doubt_floor_that_now_cannot_reach() {
    let clocks = long_idle();
    let policy = Policy {
        blocks: vec![base_panel_and_suspend()],
        ..Policy::empty()
    };
    let facts = FactSet::new().with(FactId::MediaPlaying, FactState::Indeterminate);

    let asked = evaluate_request(
        &policy,
        &facts,
        &clocks,
        &Request {
            now: true,
            force: None,
            requested: None,
        },
    );
    assert!(
        !asked.suspend.due,
        "`rest --now` must not satisfy an implicit floor"
    );
    assert_eq!(
        asked.suspend.implicit_floors,
        vec![ImplicitFloor::Doubt(FactId::MediaPlaying)]
    );

    let forced = evaluate_request(
        &policy,
        &facts,
        &clocks,
        &Request {
            now: true,
            force: Some(Action::Suspend),
            requested: Some(Action::Suspend),
        },
    );
    assert!(forced.suspend.due);
    assert_eq!(forced.suspend.floor, Deadline::Never);
    assert_eq!(forced.suspend.ceiling, Deadline::At(clocks.now));
    assert!(
        forced.suspend.ceiling_defeated_floor(),
        "the event must be loggable as a ceiling defeating a floor"
    );
    assert_eq!(
        forced.suspend.implicit_floors,
        vec![ImplicitFloor::Doubt(FactId::MediaPlaying)],
        "the defeated floor is still reported"
    );
    assert!(!forced.poweroff.due);
}

#[test]
fn a_ceiling_can_never_delay_an_action() {
    let clocks = long_idle();
    let policy = Policy {
        blocks: vec![
            base_panel_and_suspend(),
            block(
                BlockKind::When,
                Condition::Always,
                Clock::HumanInput,
                suspend_after(Timeout::Never),
            ),
        ],
        ..Policy::empty()
    };

    let decision = evaluate(&policy, &FactSet::new(), &clocks);
    assert!(decision.suspend.deadline <= decision.suspend.floor);
    assert!(
        decision.suspend.due,
        "a `never` ceiling must change nothing"
    );
}

#[test]
fn a_resume_clock_with_no_resume_never_fires_a_sleep() {
    let now = BootInstant::from_secs(10 * HOUR);
    let clocks = ClockSnapshot {
        now,
        human_input: ClockOrigin::At(BootInstant::boot()),
        resume: ClockOrigin::NotYet,
    };
    let policy = Policy {
        blocks: vec![block(
            BlockKind::While,
            Condition::Always,
            Clock::Resume,
            Timeouts {
                screen_off: Some(Timeout::After(secs(10 * MINUTE))),
                suspend: Some(Timeout::After(secs(30 * MINUTE))),
                ..Timeouts::default()
            },
        )],
        ..Policy::empty()
    };

    let decision = evaluate(&policy, &FactSet::new(), &clocks);
    assert_eq!(decision.suspend.deadline, Deadline::Never);
    assert!(!decision.suspend.due);
    assert_eq!(
        decision.screen_off.deadline,
        Deadline::At(BootInstant::boot().checked_add(secs(10 * MINUTE)).unwrap())
    );
    assert!(decision.screen_off.due);
}

#[test]
fn an_unreadable_human_clock_is_not_the_never_touched_fast_path() {
    let now = BootInstant::from_secs(10 * HOUR);
    let policy = Policy {
        blocks: vec![block(
            BlockKind::While,
            Condition::Always,
            Clock::HumanInput,
            Timeouts {
                screen_off: Some(Timeout::After(secs(10 * MINUTE))),
                suspend: Some(Timeout::After(secs(30 * MINUTE))),
                ..Timeouts::default()
            },
        )],
        ..Policy::empty()
    };

    let untouched = evaluate(
        &policy,
        &FactSet::new(),
        &ClockSnapshot {
            now,
            human_input: ClockOrigin::NotYet,
            resume: ClockOrigin::NotYet,
        },
    );
    assert!(
        untouched.suspend.due,
        "a machine nobody has touched must still be able to go back to sleep"
    );

    let broken = evaluate(
        &policy,
        &FactSet::new(),
        &ClockSnapshot {
            now,
            human_input: ClockOrigin::Unreadable,
            resume: ClockOrigin::NotYet,
        },
    );
    assert_eq!(broken.suspend.deadline, Deadline::Never);
    assert!(!broken.suspend.due);
    assert_eq!(
        broken.screen_off.deadline,
        Deadline::At(BootInstant::boot().checked_add(secs(10 * MINUTE)).unwrap())
    );
    assert!(broken.screen_off.due);
}

#[test]
fn origin_kind_separates_normal_absence_from_a_fault() {
    let now = BootInstant::from_secs(HOUR);
    let not_yet = ClockSnapshot {
        now,
        human_input: ClockOrigin::NotYet,
        resume: ClockOrigin::NotYet,
    };
    let broken = ClockSnapshot {
        human_input: ClockOrigin::Unreadable,
        ..not_yet
    };

    assert_eq!(
        not_yet.origin_kind(Clock::Resume, None),
        ClockOrigin::NotYet
    );
    assert!(!not_yet.origin_kind(Clock::Resume, None).is_unreadable());
    assert!(broken.origin_kind(Clock::HumanInput, None).is_unreadable());
    assert_eq!(broken.origin(Clock::HumanInput, None), None);
    assert_eq!(not_yet.origin(Clock::Resume, None), None);
}

#[test]
fn an_unknown_origin_never_forces_an_action() {
    let now = BootInstant::from_secs(10 * HOUR);
    let clocks = ClockSnapshot {
        now,
        human_input: ClockOrigin::At(now),
        resume: ClockOrigin::NotYet,
    };
    let policy = Policy {
        blocks: vec![block(
            BlockKind::When,
            Condition::Always,
            Clock::Resume,
            suspend_after(Timeout::After(secs(MINUTE))),
        )],
        ..Policy::empty()
    };

    let decision = evaluate(&policy, &FactSet::new(), &clocks);
    assert_eq!(decision.suspend.ceiling, Deadline::Never);
    assert!(!decision.suspend.due);
}

#[test]
fn condition_clock_counts_from_the_edge_not_from_input() {
    let start = BootInstant::from_secs(HOUR);
    let policy = Policy {
        blocks: vec![block(
            BlockKind::While,
            Condition::Fact(FactId::SteamDownloading),
            Clock::ConditionEdge,
            suspend_after(Timeout::After(secs(10 * MINUTE))),
        )],
        ..Policy::empty()
    };
    let facts = FactSet::new().with(FactId::SteamDownloading, FactState::True);

    let mut edges = BlockEdges::new();
    edges.observe(&policy, &facts, start);

    let later = start.checked_add(secs(5 * MINUTE)).unwrap();
    edges.observe(&policy, &facts, later);
    let decision = resolve(
        &policy,
        &facts,
        &ClockSnapshot {
            now: later,
            human_input: ClockOrigin::At(BootInstant::boot()),
            resume: ClockOrigin::NotYet,
        },
        &edges,
    );
    assert_eq!(
        decision.suspend.deadline,
        Deadline::At(start.checked_add(secs(10 * MINUTE)).unwrap())
    );
}

#[test]
fn indeterminate_does_not_reset_a_running_edge() {
    let start = BootInstant::from_secs(HOUR);
    let policy = Policy {
        blocks: vec![block(
            BlockKind::While,
            Condition::Fact(FactId::SteamDownloading),
            Clock::ConditionEdge,
            suspend_after(Timeout::After(secs(10 * MINUTE))),
        )],
        ..Policy::empty()
    };
    let id = BlockId::new(BlockKind::While, Condition::Fact(FactId::SteamDownloading));

    let mut edges = BlockEdges::new();
    edges.observe(
        &policy,
        &FactSet::new().with(FactId::SteamDownloading, FactState::True),
        start,
    );

    edges.observe(
        &policy,
        &FactSet::new().with(FactId::SteamDownloading, FactState::Indeterminate),
        start.checked_add(secs(30 * MINUTE)).unwrap(),
    );
    assert_eq!(edges.since(id), Some(start));

    edges.observe(
        &policy,
        &FactSet::new().with(FactId::SteamDownloading, FactState::False),
        start.checked_add(secs(31 * MINUTE)).unwrap(),
    );
    assert_eq!(edges.since(id), None);
}

#[test]
fn deadline_ordering_puts_never_at_infinity() {
    let early = Deadline::At(BootInstant::from_secs(1));
    let late = Deadline::At(BootInstant::from_secs(100));
    assert!(Deadline::Never > late);
    assert!(early < late);
    assert_eq!(
        compose_floor(&vec![early, late, Deadline::Never]),
        Deadline::Never
    );
    assert_eq!(compose_ceiling(&vec![early, late, Deadline::Never]), early);

    assert_eq!(compose_floor(&Vec::new()), Deadline::Never);
    assert_eq!(compose_ceiling(&Vec::new()), Deadline::Never);
}

#[test]
fn the_shallowest_due_sleep_action_wins() {
    let now = BootInstant::from_secs(20 * HOUR);
    let clocks = ClockSnapshot {
        now,
        human_input: ClockOrigin::At(BootInstant::boot()),
        resume: ClockOrigin::NotYet,
    };
    let policy = Policy {
        blocks: vec![block(
            BlockKind::While,
            Condition::Always,
            Clock::HumanInput,
            Timeouts {
                screen_off: Some(Timeout::After(secs(10 * MINUTE))),
                suspend: Some(Timeout::After(secs(30 * MINUTE))),
                hibernate: Some(Timeout::Never),
                poweroff: Some(Timeout::After(secs(8 * HOUR))),
            },
        )],
        ..Policy::empty()
    };

    let decision = evaluate(&policy, &FactSet::new(), &clocks);
    assert_eq!(
        decision.due_actions(),
        vec![Action::ScreenOff, Action::Suspend, Action::PowerOff],
        "all three are past their deadlines"
    );
    assert_eq!(
        decision.shallowest_sleep_due(),
        Some(Action::Suspend),
        "suspend, never poweroff: a deeper action is not a safe substitute"
    );
}

#[test]
fn names_round_trip() {
    for fact in FactId::ALL {
        assert_eq!(FactId::from_name(fact.name()), Some(fact));
    }
    for action in Action::ALL {
        assert_eq!(Action::from_name(action.name()), Some(action));
    }
    for clock in Clock::ALL {
        assert_eq!(Clock::from_name(clock.name()), Some(clock));
    }
    assert_eq!(Condition::from_name("always"), Some(Condition::Always));
    assert_eq!(Condition::from_name("not_a_fact"), None);
    assert_eq!(
        BlockId::new(BlockKind::While, Condition::Fact(FactId::HumanActive)).to_string(),
        "while.human_active"
    );
}
