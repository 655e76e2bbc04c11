use idlectl::action::Action;
use idlectl::agents::{Agent, Registry, HEARTBEAT_INTERVAL_SECS, HEARTBEAT_MAX_AGE_SECS, IDLE_UNKNOWN};
use idlectl::clock::ClockOrigin;
use idlectl::config::document::Source;
use idlectl::counters::Sampler;
use idlectl::decision::Request;
use idlectl::detect::Asked;
use idlectl::doctor::{doctor, report_json};
use idlectl::engine::{
    kind_of, Announcement, Engine, Event, Outside, Screen, Sources, Tick, MAX_FORCED,
};
use idlectl::fact::{FactId, FactState};
use idlectl::gpu::{Holder as GpuHolder, NvidiaResult};
use idlectl::leases::{Ended, Holder, Refusal, Table, MAX_TEXT};
use idlectl::manager::{
    action_to_rest, check, deadline_rows, fact_rows, forced_request, heartbeat_usec, lease_row,
    new_agent, next_deadline_usec, parse_action, parse_optional_action, pending_row,
    refuse_reason, refuse_ttl, rest_request, satisfied_by, transition_for, Authority, Transition,
    ACTION_REST,
};
use idlectl::pending::Dropped;
use idlectl::process::Process;
use idlectl::reading::Reading;
use idlectl::report::{explain, why_due};
use idlectl::resume::ResumeTracker;
use idlectl::sessions::Logind;
use idlectl::steam::Staging;
use idlectl::time::{BootInstant, Deadline, Duration};

const CONFIG: &str = "\
[while.always]
screen_off = \"10m\"
suspend = \"30m\"

[while.media_playing]
suspend = \"never\"
";

fn at(secs: u64) -> BootInstant {
    BootInstant::from_secs(secs)
}

fn engine(dry_run: bool) -> Engine {
    Engine::new(&[Source::new("base.toml", CONFIG)], dry_run, at(1_000), 0)
}

fn agent(idle: Option<Duration>, media: &str, now: BootInstant) -> Agent {
    Agent {
        session_id: "c2".to_owned(),
        uid: 1000,
        can_blank: true,
        idle,
        media: media.to_owned(),
        gpu_holders: Vec::new(),
        last_report: now,
    }
}

fn outside(now: BootInstant) -> Outside {
    Outside {
        now,
        suspended: 0,
        closed: Vec::new(),
        has_graphical_session: true,
        remote_session: Reading::no("none"),
        inhibitor_block: Reading::no("none"),
        steam_game_running: Reading::absent("none"),
        steam_downloading: Reading::absent("none"),
        gpu_busy_game: Reading::absent("none"),
        gpu_busy_other: Reading::absent("none"),
        local_service_busy: Reading::absent("none"),
    }
}

fn idle_for_an_hour(engine: &mut Engine) -> BootInstant {
    let now = at(10_000);
    engine
        .agents
        .register(":1.5", agent(Some(Duration::from_secs(3_600)), "false", now));
    now
}

#[test]
fn an_idle_machine_suspends_after_two_looks() {
    let mut engine = engine(false);
    let now = idle_for_an_hour(&mut engine);
    let (tick, dropped) = engine.begin(&Request::none());
    assert_eq!(tick, Tick::Look(Request::none()));
    assert_eq!(dropped, None);

    let seen = engine.evaluate(&outside(now), &Request::none());
    assert!(!seen.resumed);
    assert_eq!(seen.changed.len(), 11);
    let tick = engine.advance(tick);
    assert_eq!(tick, Tick::Confirm(Request::none(), Action::Suspend));

    let seen = engine.evaluate(&outside(now), &Request::none());
    assert!(seen.changed.is_empty(), "a state is news once");
    let tick = engine.advance(tick);
    assert_eq!(tick, Tick::Perform(Request::none(), Action::Suspend));
    assert!(engine.transition_in_flight);

    let tick = engine.finish(Action::Suspend, true);
    assert_eq!(tick, Tick::Done(Some(Action::Suspend)));
    assert!(!engine.transition_in_flight);
    match engine.announce(Some(Action::Suspend)) {
        Announcement::Taken(action, why) => {
            assert_eq!(action, Action::Suspend);
            assert_eq!(
                why,
                "while.always (boottime+8200s on the human_input clock)"
            );
        }
        other => panic!("{other:?}"),
    }
}

#[test]
fn a_second_look_that_finds_music_stops_a_suspend() {
    let mut engine = engine(false);
    let now = idle_for_an_hour(&mut engine);
    let (tick, _) = engine.begin(&Request::none());
    engine.evaluate(&outside(now), &Request::none());
    let tick = engine.advance(tick);
    assert_eq!(tick, Tick::Confirm(Request::none(), Action::Suspend));
    engine
        .agents
        .register(":1.5", agent(Some(Duration::from_secs(3_600)), "true", now));
    engine.evaluate(&outside(now), &Request::none());
    assert_eq!(engine.advance(tick), Tick::Done(None));
}

#[test]
fn a_dry_run_touches_nothing() {
    let mut engine = engine(true);
    let now = idle_for_an_hour(&mut engine);
    let (tick, _) = engine.begin(&Request::none());
    engine.evaluate(&outside(now), &Request::none());
    assert_eq!(engine.screen(), Screen::Report(true));
    let tick = engine.advance(tick);
    engine.evaluate(&outside(now), &Request::none());
    assert_eq!(engine.advance(tick), Tick::Done(None));
    match engine.announce(None) {
        Announcement::Held(rows) => {
            assert_eq!(rows.len(), 1);
            assert_eq!(rows[0].0, Action::Suspend);
            assert_eq!(rows[0].1, vec!["while.always".to_owned()]);
        }
        other => panic!("{other:?}"),
    }
}

#[test]
fn one_transition_stands_in_the_way_of_another_until_the_machine_is_back() {
    let mut engine = engine(false);
    let now = idle_for_an_hour(&mut engine);
    engine.transition_in_flight = true;
    let (tick, _) = engine.begin(&Request::none());
    engine.evaluate(&outside(now), &Request::none());
    assert_eq!(engine.advance(tick), Tick::Done(None));
    assert!(engine.on_event(Event::Resume, at(11_000), 900));
    assert!(!engine.transition_in_flight);
    assert_eq!(engine.resume.origin(), ClockOrigin::At(at(11_000)));
    assert!(engine.on_event(Event::SleepStart, at(11_001), 900));
    assert!(!engine.on_event(Event::BusClosed, at(11_002), 900));
}

#[test]
fn the_panel_is_darkened_once() {
    let mut engine = engine(false);
    let now = idle_for_an_hour(&mut engine);
    assert_eq!(engine.screen(), Screen::Leave);
    engine.evaluate(&outside(now), &Request::none());
    assert_eq!(engine.screen(), Screen::Change(true));
    engine.screen_changed(true, &Vec::new());
    assert_eq!(engine.screen(), Screen::Change(true), "in no session is not at all");
    engine.screen_changed(true, &vec!["c2".to_owned()]);
    assert_eq!(engine.screen(), Screen::Leave);
}

#[test]
fn doubt_sets_out_on_no_sleep_and_force_does() {
    let mut engine = engine(false);
    let now = at(10_000);
    let (tick, _) = engine.begin(&Request::none());
    engine.evaluate(&outside(now), &Request::none());
    let reading = engine.readings.get(FactId::HumanActive).expect("sampled");
    assert_eq!(reading.state, FactState::Indeterminate);
    assert_eq!(engine.advance(tick), Tick::Done(None));

    let forced = forced_request(Action::PowerOff);
    let (tick, _) = engine.begin(&forced);
    engine.evaluate(&outside(now), &forced);
    assert_eq!(engine.advance(tick), Tick::Confirm(forced, Action::PowerOff));
}

#[test]
fn a_request_that_waits_rides_on_every_look() {
    let mut engine = engine(false);
    let now = idle_for_an_hour(&mut engine);
    engine.evaluate(&outside(now), &Request::none());
    engine.hold(Action::PowerOff, 60_000_000, 1000);
    assert_eq!(
        pending_row(&engine.pending),
        Some(("poweroff".to_owned(), 10_060_000_000, 1000))
    );
    let (tick, dropped) = engine.begin(&Request::none());
    assert_eq!(tick, Tick::Look(rest_request(Action::PowerOff)));
    assert_eq!(dropped, None);
    let other = rest_request(Action::Suspend);
    assert_eq!(engine.begin(&other).0, Tick::Look(other));

    engine.clocks.now = at(10_061);
    let (tick, dropped) = engine.begin(&Request::none());
    assert_eq!(tick, Tick::Look(Request::none()));
    assert_eq!(dropped, Some(Dropped::Expired));
    assert!(engine.pending.is_none());
    assert!(engine.cancel_pending().is_none());
}

#[test]
fn only_the_action_that_was_asked_for_satisfies_a_request() {
    assert!(satisfied_by(Some(Action::Suspend), Action::Suspend));
    assert!(!satisfied_by(Some(Action::Suspend), Action::PowerOff));
    assert!(!satisfied_by(None, Action::Suspend));

    let mut engine = engine(false);
    let now = idle_for_an_hour(&mut engine);
    engine.evaluate(&outside(now), &Request::none());
    let done = Some(Action::Suspend);
    assert!(engine.satisfied_or_held(done, Action::Suspend, 60_000_000, 1000));
    assert!(engine.pending.is_none());
    assert!(!engine.satisfied_or_held(done, Action::PowerOff, 60_000_000, 1000));
    assert_eq!(
        pending_row(&engine.pending),
        Some(("poweroff".to_owned(), 10_060_000_000, 1000))
    );
}

#[test]
fn a_request_that_was_carried_out_waits_no_more() {
    let mut engine = engine(false);
    engine.hold(Action::Suspend, 1_000_000, 0);
    assert_eq!(
        engine.finish(Action::Hibernate, true),
        Tick::Done(Some(Action::Hibernate))
    );
    assert!(engine.pending.is_some());
    assert_eq!(engine.finish(Action::Suspend, false), Tick::Done(None));
    assert!(engine.pending.is_some());
    assert_eq!(
        engine.finish(Action::Suspend, true),
        Tick::Done(Some(Action::Suspend))
    );
    assert!(engine.pending.is_none());
}

#[test]
fn a_wakeup_comes_with_the_first_of_what_is_waited_for() {
    let mut engine = engine(false);
    assert_eq!(engine.next_wakeup(at(1_000)), None);
    let now = at(10_000);
    engine
        .agents
        .register(":1.5", agent(Some(Duration::from_secs(60)), "false", now));
    engine.evaluate(&outside(now), &Request::none());
    assert_eq!(engine.next_wakeup(now), Some(Duration::from_secs(540)));
    engine
        .leases
        .acquire("job", "", 0, Holder::of(None, None), Duration::from_secs(90), now)
        .expect("taken");
    assert_eq!(engine.next_wakeup(now), Some(Duration::from_secs(90)));
    engine.hold(Action::Suspend, 70_000_000, 0);
    assert_eq!(engine.next_wakeup(now), Some(Duration::from_secs(70)));
    let mut busy = outside(now);
    busy.steam_downloading = Reading::yes("moving");
    engine.evaluate(&busy, &Request::none());
    assert!(engine.sweep_needed());
    assert_eq!(engine.next_wakeup(now), Some(Duration::from_secs(60)));
    assert_eq!(
        engine.next_wakeup(at(50_000)),
        Some(Duration::from_millis(250)),
        "what has passed does not spin the loop"
    );
}

#[test]
fn only_the_last_forced_actions_are_remembered() {
    let mut engine = engine(false);
    for n in 0..70 {
        engine.record_forced(Action::Suspend, "why", n, at(u64::from(n)));
    }
    assert_eq!(engine.forced.len(), MAX_FORCED);
    assert_eq!(engine.forced[0].uid, 6);
    assert_eq!(engine.forced[63].uid, 69);
}

#[test]
fn what_a_request_is_called() {
    assert_eq!(kind_of(&Request::none(), Action::Suspend), "autonomous");
    assert_eq!(kind_of(&rest_request(Action::Suspend), Action::Suspend), "requested");
    assert_eq!(kind_of(&forced_request(Action::Suspend), Action::Suspend), "forced");
}

#[test]
fn a_reload_replaces_the_policy_and_keeps_the_rest() {
    let mut engine = engine(false);
    let now = idle_for_an_hour(&mut engine);
    engine.evaluate(&outside(now), &Request::none());
    let layers = engine.reload(&[Source::new("new.toml", "[while.always]\nsuspend = \"1h\"\n")]);
    assert_eq!(layers, vec!["new.toml".to_owned()]);
    assert_eq!(engine.policy.blocks.len(), 1);
    assert!(engine.faults.is_empty());
    assert!(engine.decision.is_some());
    assert!(!engine.agents.is_empty());
}

#[test]
fn files_count_in_the_order_of_their_names() {
    let sources = Sources {
        vendor: "/usr/lib/idlectl/idlectl.toml".to_owned(),
        admin: "/etc/idlectl/idlectl.toml".to_owned(),
        dropin_dir: "/etc/idlectl/conf.d".to_owned(),
    };
    let found = vec![
        "/etc/idlectl/conf.d/20-b.toml".to_owned(),
        "/etc/idlectl/conf.d/README".to_owned(),
        "/etc/idlectl/conf.d/.toml".to_owned(),
        "/etc/idlectl/conf.d/10-a.toml".to_owned(),
    ];
    assert_eq!(
        sources.order(true, false, &found),
        vec![
            "/usr/lib/idlectl/idlectl.toml".to_owned(),
            "/etc/idlectl/conf.d/10-a.toml".to_owned(),
            "/etc/idlectl/conf.d/20-b.toml".to_owned(),
        ]
    );
    assert_eq!(sources.order(false, true, &Vec::new()).len(), 1);
}

#[test]
fn a_machine_that_slept_before_the_start_has_resumed() {
    let tracker = ResumeTracker::adopt(at(500), 90_000_000_000);
    assert!(tracker.after_resume());
    assert_eq!(tracker.origin(), ClockOrigin::At(at(500)));
    assert_eq!(tracker.suspended_total(), Duration::from_secs(90));
    let fresh = ResumeTracker::adopt(at(500), 0);
    assert!(!fresh.after_resume());
    assert_eq!(fresh.origin(), ClockOrigin::NotYet);
}

#[test]
fn a_resume_is_noticed_once() {
    let mut tracker = ResumeTracker::adopt(at(500), 0);
    assert!(!tracker.sample(at(600), 999_999_999));
    assert!(!tracker.after_resume());
    assert!(tracker.sample(at(700), 8_000_000_000));
    assert_eq!(tracker.origin(), ClockOrigin::At(at(700)));
    assert!(!tracker.sample(at(800), 8_000_000_000));
    assert_eq!(tracker.origin(), ClockOrigin::At(at(700)));
    assert!(tracker.after_resume());
}

#[test]
fn one_session_with_music_is_enough_and_one_that_cannot_tell_is_doubt() {
    let now = at(1_000);
    let mut registry = Registry::new();
    assert_eq!(registry.media(now).state, FactState::Unavailable);
    registry.register(":1.1", agent(None, "", now));
    assert_eq!(registry.media(now).state, FactState::Unavailable);
    registry.register(":1.2", agent(None, "false", now));
    assert_eq!(registry.media(now).state, FactState::False);
    registry.register(":1.3", agent(None, "indeterminate", now));
    assert_eq!(
        registry.media(now).detail,
        "the agent in session c2 could not read MPRIS"
    );
    registry.register(":1.4", agent(None, "true", now));
    assert_eq!(registry.media(now), Reading::yes("playing in session c2"));
}

#[test]
fn an_agent_reports_only_once_it_is_registered() {
    let mut registry = Registry::new();
    assert!(!registry.report(":1.1", 5, "true", Vec::new(), at(10)));
    registry.register(":1.1", new_agent("c2", 1000, false, at(10)));
    let holders = vec![GpuHolder {
        pid: 7,
        name: "game".to_owned(),
        bytes: 9,
    }];
    assert!(registry.report(":1.1", 5_000_000, "false", holders, at(20)));
    let agents = registry.iter();
    assert_eq!(agents[0].1.idle, Some(Duration::from_secs(5)));
    assert_eq!(registry.gpu_holders(at(20)).len(), 1);
    assert_eq!(registry.gpu_holders(at(20 + HEARTBEAT_MAX_AGE_SECS + 1)).len(), 0);
    assert!(registry.report(":1.1", IDLE_UNKNOWN, "false", Vec::new(), at(30)));
    assert_eq!(registry.iter()[0].1.idle, None);
    assert!(!registry.can_blank());
    assert!(registry.blankers().is_empty());
    assert!(registry.remove(":1.1"));
    assert!(!registry.remove(":1.1"));
    assert_eq!(heartbeat_usec(), HEARTBEAT_INTERVAL_SECS * 1_000_000);
}

#[test]
fn silence_is_not_an_empty_room_and_its_end_changes_no_answer() {
    let mut registry = Registry::new();
    registry.register(":1.1", agent(Some(Duration::from_secs(1)), "false", at(0)));
    registry.register(":1.2", agent(Some(Duration::from_secs(400)), "false", at(100)));
    let now = at(100);
    let min_idle = Duration::from_secs(300);
    let before = registry.human(now, min_idle, true);
    assert_eq!(
        before.0,
        Reading::no("last input 6m ago (threshold 300s)")
    );
    assert_eq!(before.1, ClockOrigin::At(BootInstant::boot()));
    let silent = registry.reap(now);
    assert_eq!(silent.len(), 1);
    assert_eq!(silent[0].session_id, "c2");
    assert_eq!(silent[0].idle, Some(Duration::from_secs(1)));
    assert_eq!(silent[0].last_report, at(0));
    let after = registry.human(now, min_idle, true);
    assert_eq!(before.0, after.0);
    assert_eq!(before.1, after.1);
    assert_eq!(registry.reap(at(1_000)).len(), 1);
    assert_eq!(registry.human(at(1_000), min_idle, true).0.state, FactState::Indeterminate);
}

#[test]
fn a_lease_that_is_given_back_leaves_nothing() {
    let mut table = Table::new();
    let nobody = Holder::of(None, None);
    table
        .acquire(" job ", "w", 1, nobody, Duration::from_secs(5), at(10))
        .expect("taken");
    assert_eq!(table.iter()[0].who, "job");
    assert_eq!(table.next_expiry(), Some(at(15)));
    assert_eq!(table.summary(), Some("held by job (w)".to_owned()));
    assert!(table.release("job"));
    assert!(!table.release("job"));
    assert!(table.is_empty());
    assert_eq!(table.summary(), None);
    assert_eq!(table.next_expiry(), None);
}

#[test]
fn no_lease_lasts_longer_than_a_day() {
    let mut table = Table::new();
    let nobody = Holder::of(None, None);
    let day = Duration::from_secs(86_400);
    table
        .acquire("job", "", 1, nobody, day, at(10))
        .expect("taken");
    assert_eq!(table.next_expiry(), Some(at(86_410)));
    let more = Duration::from_nanos(86_400_000_000_001);
    assert_eq!(table.refusal("other", "", more), Some(Refusal::TtlTooLong));
    let long = "y".repeat(MAX_TEXT + 1);
    assert_eq!(
        table.refusal("other", &long, day),
        Some(Refusal::TooLong("why"))
    );
    assert_eq!(Refusal::TtlTooLong.to_string(), "ttl is longer than the 86400s maximum");
    assert_eq!(Refusal::TooLong("why").to_string(), "why is longer than 256 bytes");
    assert_eq!(Refusal::EmptyId.to_string(), "a lease needs a non-empty identifier");
    assert_eq!(
        Refusal::AlreadyHeld.to_string(),
        "a lease with this identifier is already held"
    );
}

#[test]
fn only_leases_that_have_ended_are_dropped() {
    let mut table = Table::new();
    let nobody = Holder::of(None, None);
    for (who, ttl) in [("a", 5), ("b", 50), ("c", 50)] {
        table
            .acquire(who, "", 1, nobody, Duration::from_secs(ttl), at(10))
            .expect("taken");
    }
    let gone = vec!["c".to_owned(), "a".to_owned()];
    assert_eq!(
        table.reap(at(15), &gone),
        vec![
            ("a".to_owned(), Ended::TtlExpired),
            ("c".to_owned(), Ended::HandleClosed)
        ]
    );
    assert!(table.reap(at(15), &gone).is_empty());
    assert_eq!(table.iter().len(), 1);
}

#[test]
fn names_of_actions_are_read_or_refused() {
    assert_eq!(parse_action("hibernate"), Ok(Action::Hibernate));
    assert_eq!(
        parse_action("re\"boot\n"),
        Err("unknown action \"re\\\"boot\\n\": expected screen_off, suspend, hibernate or poweroff"
            .to_owned())
    );
    assert_eq!(parse_optional_action(""), Ok(None));
    assert_eq!(parse_optional_action("suspend"), Ok(Some(Action::Suspend)));
    assert!(parse_optional_action("Suspend").is_err());
    assert_eq!(action_to_rest(""), Ok(Action::Suspend));
    assert_eq!(action_to_rest("poweroff"), Ok(Action::PowerOff));
    assert!(refuse_ttl(0).is_some());
    assert!(refuse_ttl(1).is_none());
    assert!(refuse_reason(" \t").is_some());
    assert!(refuse_reason("because").is_none());
    assert_eq!(transition_for(Action::PowerOff), Ok(Transition::PowerOff));
    assert!(transition_for(Action::ScreenOff).is_err());
}

#[test]
fn who_may_do_what() {
    let unreachable = Authority::Unreachable("gone".to_owned());
    assert_eq!(check(Some(0), ACTION_REST, &unreachable), Ok(()));
    assert_eq!(
        check(Some(1000), "act", &unreachable),
        Err("polkit could not be consulted (gone), so only uid 0 may perform act".to_owned())
    );
    let yes = Authority::Answered {
        is_authorized: true,
        is_challenge: false,
    };
    assert_eq!(check(Some(1000), "act", &yes), Ok(()));
    assert_eq!(check(None, "act", &yes), Ok(()));
    let challenge = Authority::Answered {
        is_authorized: false,
        is_challenge: true,
    };
    assert_eq!(
        check(None, "act", &challenge),
        Err("not authorized for act (authentication is required and no agent answered)".to_owned())
    );
    let no = Authority::Answered {
        is_authorized: false,
        is_challenge: false,
    };
    assert_eq!(check(None, "act", &no), Err("not authorized for act".to_owned()));
}

#[test]
fn what_is_said_on_the_bus() {
    let mut engine = engine(false);
    assert_eq!(fact_rows(&engine.readings)[0].1, "unavailable");
    assert_eq!(deadline_rows(&engine.decision)[1], ("suspend".to_owned(), u64::MAX, false));
    assert_eq!(next_deadline_usec(&engine.decision), u64::MAX);
    let now = idle_for_an_hour(&mut engine);
    engine.evaluate(&outside(now), &Request::none());
    let rows = fact_rows(&engine.readings);
    assert_eq!(rows.len(), 11);
    assert_eq!(rows[0], ("human_active".to_owned(), "false".to_owned()));
    let rows = deadline_rows(&engine.decision);
    assert_eq!(rows[0], ("screen_off".to_owned(), 7_000_000_000, true));
    assert_eq!(rows[1], ("suspend".to_owned(), 8_200_000_000, true));
    assert_eq!(rows[3], ("poweroff".to_owned(), u64::MAX, false));
    let decision = engine.decision.as_ref().expect("decided");
    assert_eq!(
        why_due(decision, Action::PowerOff, &engine.policy),
        "no block sets a floor for this action"
    );
    assert_eq!(decision.poweroff.deadline, Deadline::Never);
    engine
        .leases
        .acquire("job", "w", 7, Holder::of(Some(9), None), Duration::from_secs(5), now)
        .expect("taken");
    let leases = engine.leases.iter();
    let row = lease_row(leases[0], &leases[0].holder.state(Some(1), Some("sh".to_owned())));
    assert_eq!(row.who, "job");
    assert_eq!(row.expires_usec, 10_005_000_000);
    assert_eq!((row.uid, row.holder_pid), (7, 9));
    assert_eq!((row.holder_state.as_str(), row.holder_comm.as_str()), ("alive", "sh"));
}

#[test]
fn an_explanation_shows_the_numbers_of_the_decision() {
    let mut engine = engine(false);
    assert_eq!(
        explain(&engine, None),
        "no evaluation has completed yet\n"
    );
    let now = idle_for_an_hour(&mut engine);
    engine.evaluate(&outside(now), &Request::none());
    assert_eq!(
        explain(&engine, Some(Action::Suspend)),
        "evaluated 0s ago\n\
         min_idle  300s\n\
         \n\
         \u{2500}\u{2500} suspend \u{2500}\u{2500}\n\
         \x20 while.always                 true           30m       clock=human_input origin=+6400s (60m ago) -> boottime+8200s\n\
         \x20 while.media_playing          false          never     clock=human_input origin=+6400s (60m ago) -> contributes nothing\n\
         \x20 ---\n\
         \x20 floor    boottime+8200s\n\
         \x20 ceiling  never\n\
         \x20 resolved boottime+8200s   DUE\n\
         \x20 held by  while.always\n\
         \n"
    );
}

#[test]
fn a_broken_machine_is_told_from_a_healthy_one() {
    let mut engine = engine(false);
    let (text, healthy) = doctor(&engine, at(10_000), &Vec::new());
    assert!(!healthy);
    assert!(text.contains("last evaluation  NEVER -- the daemon has not evaluated once\n"));
    let now = idle_for_an_hour(&mut engine);
    engine.evaluate(&outside(now), &Request::none());
    let (text, healthy) = doctor(&engine, now, &Vec::new());
    assert!(healthy, "{text}");
    assert!(text.starts_with("configuration\n  layer     base.toml\n\nlast evaluation  0s ago\n"));
    assert!(text.contains(
        "  agent :1.5 in session c2 (uid 1000), can_blank=true, 0 GPU holder(s), last report 0s ago\n"
    ));
    assert!(text.contains("screen_off       available\n"));
    assert!(text.contains("leases           none held\n"));
    assert!(text.ends_with(
        "conflict scan\n  no other candidate owner of this machine's power state found\n"
    ));
    let (text, healthy) = doctor(&engine, now, &vec!["swayidle".to_owned()]);
    assert!(!healthy);
    assert!(text.contains("  CONFLICT  swayidle\n"));

    let mut doubtful = outside(now);
    doubtful.remote_session = Reading::doubt("gone");
    engine.evaluate(&doubtful, &Request::none());
    assert!(!doctor(&engine, now, &Vec::new()).1);

    engine.reload(&[Source::new("b.toml", "nonsense = 1\n")]);
    engine.evaluate(&outside(now), &Request::none());
    let (text, healthy) = doctor(&engine, now, &Vec::new());
    assert!(!healthy);
    assert!(text.contains("  FAULT     b.toml: "));

    engine.reload(&[Source::new("c.toml", "[when.always]\nsuspend = \"1h\"\n")]);
    engine.evaluate(&outside(now), &Request::none());
    let (text, healthy) = doctor(&engine, now, &Vec::new());
    assert!(!healthy);
    assert!(text.contains(
        "standing hazards\n  ceiling when.always can pull an action earlier than any floor allows\n"
    ));
}

#[test]
fn a_report_holds_the_same_numbers() {
    let mut engine = engine(true);
    let now = idle_for_an_hour(&mut engine);
    engine.evaluate(&outside(now), &Request::none());
    let report = report_json(&engine, at(10_005));
    assert_eq!(report.schema, 1);
    assert!(report.dry_run);
    assert_eq!(report.layers, vec!["base.toml".to_owned()]);
    assert_eq!(report.min_idle_secs, 300);
    assert_eq!(report.last_evaluation_secs_ago, Some(5));
    assert_eq!(report.facts.len(), 11);
    assert_eq!(report.actions[1].deadline_usec, 8_200_000_000);
    assert_eq!(report.actions[1].remaining_secs, None);
    assert_eq!(report.actions[1].held_by, vec!["while.always".to_owned()]);
    assert!(report.actions[0].available);
    assert!(report.leases.is_empty());
    assert!(report.faults.is_empty());
}

fn asked(now: BootInstant) -> Asked {
    Asked {
        now,
        wall: Duration::from_secs(1_000_000),
        suspended: 0,
        closed: Vec::new(),
        kinds: Logind::Answered(vec![(1000, "wayland".to_owned())]),
        sessions: Logind::Answered(Vec::new()),
        excluded: Vec::new(),
        blocked: Logind::Answered(String::new()),
        inhibitors: None,
        procs: vec![Process {
            pid: 10,
            ppid: 1,
            comm: "reaper".to_owned(),
            cmdline: "reaper SteamLaunch AppId=7".to_owned(),
        }],
        steam_installed: true,
        staging: Staging::NoDirectory,
        nvidia: NvidiaResult::Holders(vec![GpuHolder {
            pid: 10,
            name: "game".to_owned(),
            bytes: 1 << 30,
        }]),
        system_pids: Vec::new(),
        fetched: Ok("total 5\n".to_owned()),
        wholes: vec![Some(5)],
    }
}

#[test]
fn what_the_machine_answers_is_what_is_seen() {
    let engine = engine(false);
    let mut sampler = Sampler::new();
    let seen = engine.detect(&mut sampler, asked(at(100)));
    assert!(seen.has_graphical_session);
    assert_eq!(seen.remote_session, Reading::no("no remote user session"));
    assert_eq!(seen.inhibitor_block, Reading::no("no block inhibitor"));
    assert_eq!(
        seen.steam_game_running,
        Reading::yes("a game (1 process(es), pid 10)")
    );
    assert_eq!(seen.gpu_busy_game, Reading::yes("game (pid 10, 1024 MiB) [nvidia-smi]"));
    assert_eq!(seen.gpu_busy_other.state, FactState::False);
    assert_eq!(
        seen.local_service_busy,
        Reading::absent("no counters_url is configured")
    );
    assert_eq!(sampler, Sampler::new(), "what is switched off is left alone");
}

#[test]
fn a_game_that_is_not_looked_for_holds_no_memory() {
    let engine = Engine::new(
        &[Source::new(
            "x.toml",
            "[facts.steam_game_running]\nenabled = false\n\
             [facts.local_service_busy]\ncounters_url = \"http://localhost/\"\n",
        )],
        false,
        at(1),
        0,
    );
    let mut sampler = Sampler::new();
    let seen = engine.detect(&mut sampler, asked(at(100)));
    assert_eq!(
        seen.steam_game_running,
        Reading::absent("disabled by configuration")
    );
    assert_eq!(seen.gpu_busy_game.state, FactState::False);
    assert_eq!(seen.gpu_busy_other.state, FactState::True);
    assert_eq!(seen.local_service_busy.state, FactState::True);
    assert_eq!(sampler.last_movement, Some(at(100)));
    let mut silent = asked(at(100));
    silent.kinds = Logind::Silent("x".to_owned());
    assert!(!engine.detect(&mut sampler, silent).has_graphical_session);
}
