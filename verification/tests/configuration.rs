use idlectl::action::Action;
use idlectl::block::{BlockId, BlockKind, Condition};
use idlectl::clock::Clock;
use idlectl::config::document::Source;
use idlectl::config::load::{load, Loaded, ADMIN_CONFIG, FALLBACK_SCREEN_OFF_SECS, VENDOR_CONFIG};
use idlectl::config::timeout::{format_timeout, parse_duration, parse_timeout, TimeoutError};
use idlectl::fact::FactId;
use idlectl::policy::DEFAULT_MIN_IDLE_SECS;
use idlectl::time::{Duration, Timeout};

fn source(label: &str, text: &str) -> Source {
    Source::new(label, text)
}

fn load_clean(sources: &[Source]) -> Loaded {
    let (loaded, faults) = load(sources);
    assert!(
        faults.is_empty(),
        "expected a clean load, got {:?}",
        faults.iter().map(|f| f.to_string()).collect::<Vec<_>>()
    );
    loaded
}

#[test]
fn timeouts_parse_and_round_trip() {
    assert_eq!(parse_timeout("0s"), Ok(Timeout::After(Duration::from_secs(0))));
    assert_eq!(
        parse_timeout("45s"),
        Ok(Timeout::After(Duration::from_secs(45)))
    );
    assert_eq!(
        parse_timeout("10m"),
        Ok(Timeout::After(Duration::from_secs(600)))
    );
    assert_eq!(
        parse_timeout("2h"),
        Ok(Timeout::After(Duration::from_secs(7_200)))
    );
    assert_eq!(
        parse_timeout("1d"),
        Ok(Timeout::After(Duration::from_secs(86_400)))
    );
    assert_eq!(
        parse_timeout("1h30m"),
        Ok(Timeout::After(Duration::from_secs(5_400)))
    );
    assert_eq!(
        parse_timeout(" 1h 30m "),
        Ok(Timeout::After(Duration::from_secs(5_400))),
        "whitespace and underscores inside a duration are ignored, as documented"
    );
    assert_eq!(
        parse_timeout("90_000s"),
        Ok(Timeout::After(Duration::from_secs(90_000)))
    );
    assert_eq!(parse_timeout("never"), Ok(Timeout::Never));

    for text in ["30m", "1h30m", "never", "0s", "1d2h3m4s"] {
        let parsed = parse_timeout(text).expect("valid");
        assert_eq!(parse_timeout(&format_timeout(parsed)), Ok(parsed));
    }
}

#[test]
fn unparseable_timeouts_are_errors_not_panics() {
    assert_eq!(parse_timeout("30"), Err(TimeoutError::MissingUnit));
    assert_eq!(
        parse_timeout("0"),
        Err(TimeoutError::MissingUnit),
        "a bare 0 is a bare integer like any other; zero is spelled \"0s\""
    );
    assert_eq!(parse_timeout(""), Err(TimeoutError::Empty));
    assert_eq!(parse_timeout("   "), Err(TimeoutError::Empty));
    assert_eq!(parse_timeout("m"), Err(TimeoutError::MissingNumber));
    assert_eq!(parse_timeout("10y"), Err(TimeoutError::UnknownUnit('y')));
    assert_eq!(parse_timeout("later"), Err(TimeoutError::UnknownUnit('l')));
    assert_eq!(
        parse_timeout("99999999999999999999d"),
        Err(TimeoutError::Overflow)
    );
    assert_eq!(parse_duration("never"), Err(TimeoutError::NeverNotAllowed));
}

#[test]
fn never_is_case_sensitive() {
    assert_eq!(parse_timeout("never"), Ok(Timeout::Never));
    assert!(parse_timeout("Never").is_err());
    assert!(parse_timeout("NEVER").is_err());
}

#[test]
fn a_bare_integer_timeout_says_which_unit_is_missing() {
    let (_, faults) = load(&[source("v", "[while.always]\nsuspend = 30\n")]);
    assert_eq!(faults.len(), 1, "{faults:?}");
    assert_eq!(faults[0].location, "while.always.suspend");
    let text = faults[0].to_string();
    assert!(text.contains("missing unit"), "{text}");
    assert!(text.contains("30s"), "{text}");
}

#[test]
fn a_dropin_overrides_one_key_and_leaves_the_rest() {
    let vendor = source(
        "/usr/lib/idlectl/idlectl.toml",
        r#"
        [while.always]
        screen_off = "10m"
        suspend = "30m"
        poweroff = "never"
        "#,
    );
    let dropin = source(
        "/etc/idlectl/conf.d/10-local.toml",
        r#"
        [while.always]
        suspend = "45m"
        "#,
    );

    let loaded = load_clean(&[vendor, dropin]);
    let block = loaded
        .policy
        .block(BlockId::new(BlockKind::While, Condition::Always))
        .expect("present");

    assert_eq!(
        block.timeouts.get(Action::Suspend),
        Some(Timeout::After(Duration::from_secs(2_700))),
        "a drop-in is applied after the admin file and therefore wins"
    );
    assert_eq!(
        block.timeouts.get(Action::ScreenOff),
        Some(Timeout::After(Duration::from_secs(600))),
        "a drop-in that did not mention screen_off must not clear it"
    );
    assert_eq!(block.timeouts.get(Action::PowerOff), Some(Timeout::Never));
    assert_eq!(loaded.layers.len(), 2);
}

#[test]
fn a_dropin_can_switch_a_vendor_block_off() {
    let vendor = source(
        "vendor",
        r#"
        [while.media_playing]
        suspend = "never"
        "#,
    );
    let dropin = source(
        "dropin",
        r#"
        [while.media_playing]
        enabled = false
        "#,
    );

    let loaded = load_clean(&[vendor, dropin]);
    let block = loaded
        .policy
        .block(BlockId::new(
            BlockKind::While,
            Condition::Fact(FactId::MediaPlaying),
        ))
        .expect("present");
    assert!(!block.enabled);
    assert_eq!(
        block.timeouts.get(Action::Suspend),
        Some(Timeout::Never),
        "a disabled block keeps its values so `explain` can show what it would do"
    );
}

#[test]
fn a_misspelled_condition_is_a_fault_and_the_message_lists_the_valid_ones() {
    let bad = source(
        "/etc/idlectl/idlectl.toml",
        r#"
        [while.game_runing]
        suspend = "never"
        "#,
    );
    let (loaded, faults) = load(&[bad]);
    assert_eq!(faults.len(), 1);
    let text = faults[0].to_string();
    assert!(text.contains("game_runing"), "{text}");
    assert!(text.contains("steam_game_running"), "{text}");
    assert!(text.contains("/etc/idlectl/idlectl.toml"), "{text}");

    assert_eq!(
        loaded.policy.blocks.len(),
        1,
        "nothing from the dropped file survives: the only block left is the fallback"
    );
    let fallback = loaded
        .policy
        .block(BlockId::new(BlockKind::While, Condition::Always))
        .expect("the compiled-in fallback is installed");
    assert_eq!(
        fallback.timeouts.get(Action::ScreenOff),
        Some(Timeout::After(Duration::from_secs(FALLBACK_SCREEN_OFF_SECS)))
    );
    assert_eq!(
        fallback.timeouts.get(Action::Suspend),
        None,
        "the fallback sets screen_off and nothing else"
    );
    assert!(
        !loaded.policy.faults.is_empty(),
        "the fault stands: the machine still must not sleep"
    );
}

#[test]
fn a_misspelled_key_is_a_fault() {
    let bad = source(
        "vendor",
        r#"
        [while.always]
        suspned = "never"
        "#,
    );
    let (_, faults) = load(&[bad]);
    assert_eq!(faults.len(), 1);
}

#[test]
fn an_unknown_clock_is_a_fault() {
    let bad = source(
        "vendor",
        r#"
        [while.always]
        clock = "wall"
        suspend = "30m"
        "#,
    );
    let (_, faults) = load(&[bad]);
    assert!(
        faults[0].to_string().contains("human_input"),
        "{}",
        faults[0].to_string()
    );
}

#[test]
fn one_bad_file_is_dropped_and_the_others_survive() {
    let vendor = source(
        "vendor.toml",
        r#"
        [while.always]
        screen_off = "10m"
        suspend = "30m"
        "#,
    );
    let dropin = source(
        "99-broken.toml",
        r#"
        [while.always]
        suspend = "half an hour"
        "#,
    );

    let (loaded, faults) = load(&[vendor, dropin]);

    assert_eq!(faults.len(), 1);
    assert_eq!(faults[0].source, "99-broken.toml");
    assert_eq!(faults[0].location, "while.always.suspend");

    assert_eq!(
        loaded.layers,
        vec!["vendor.toml".to_owned()],
        "the broken layer is not applied and is not listed as applied"
    );
    let block = loaded
        .policy
        .block(BlockId::new(BlockKind::While, Condition::Always))
        .expect("the vendor block survived");
    assert_eq!(
        block.timeouts.get(Action::Suspend),
        Some(Timeout::After(Duration::from_secs(1_800))),
        "the vendor value is untouched by the file that was dropped"
    );

    assert_eq!(loaded.policy.faults.len(), 1);
    assert_eq!(loaded.policy.faults[0].source, "99-broken.toml");
    assert!(loaded.policy.faults[0].message.contains("half an hour"));
}

#[test]
fn an_unparseable_file_is_dropped_not_fatal() {
    let vendor = source("vendor.toml", "[while.always]\nsuspend = \"30m\"\n");
    let broken = source("10-broken.toml", "this is not toml at all\n");

    let (loaded, faults) = load(&[vendor, broken]);
    assert_eq!(faults.len(), 1);
    assert_eq!(faults[0].source, "10-broken.toml");
    assert_eq!(loaded.policy.blocks.len(), 1);
    assert_eq!(loaded.policy.faults.len(), 1);
}

#[test]
fn a_broken_vendor_layer_still_leaves_a_screen_off_floor() {
    let vendor = source(VENDOR_CONFIG, "[while.always]\nsuspend = \"nonsense\"\n");
    let (loaded, faults) = load(&[vendor]);

    assert_eq!(faults.len(), 1);
    let block = loaded
        .policy
        .block(BlockId::new(BlockKind::While, Condition::Always))
        .expect("the compiled-in fallback is installed");
    assert_eq!(
        block.timeouts.get(Action::ScreenOff),
        Some(Timeout::After(Duration::from_secs(FALLBACK_SCREEN_OFF_SECS)))
    );
    assert_eq!(
        block.timeouts.get(Action::Suspend),
        None,
        "the fallback sets screen_off and nothing else"
    );
    assert!(
        loaded
            .warnings
            .iter()
            .any(|w| w.message.contains("fallback"))
    );
    assert!(
        !loaded.policy.faults.is_empty(),
        "the fallback does not clear the fault: the machine still must not sleep"
    );
}

#[test]
fn the_fallback_does_not_fight_a_working_admin_layer() {
    let vendor = source(VENDOR_CONFIG, "[while.always]\nsuspend = \"nonsense\"\n");
    let admin = source(ADMIN_CONFIG, "[while.always]\nscreen_off = \"3m\"\n");
    let (loaded, _) = load(&[vendor, admin]);

    let block = loaded
        .policy
        .block(BlockId::new(BlockKind::While, Condition::Always))
        .expect("present");
    assert_eq!(
        block.timeouts.get(Action::ScreenOff),
        Some(Timeout::After(Duration::from_secs(180)))
    );
    assert_eq!(loaded.policy.blocks.len(), 1, "no duplicate always block");
}

#[test]
fn an_empty_config_is_valid_and_does_nothing() {
    let loaded = load_clean(&[source("empty", "")]);
    assert!(loaded.policy.blocks.is_empty());
    assert_eq!(loaded.policy.min_idle, Duration::from_secs(DEFAULT_MIN_IDLE_SECS));
    assert!(loaded.policy.faults.is_empty());
}

#[test]
fn min_idle_is_read_and_must_be_finite() {
    let loaded = load_clean(&[source("v", "[general]\nmin_idle = \"90s\"\n")]);
    assert_eq!(loaded.policy.min_idle, Duration::from_secs(90));

    let (_, faults) = load(&[source("v", "[general]\nmin_idle = \"never\"\n")]);
    assert_eq!(
        faults.len(),
        1,
        "never is meaningless as a presence threshold"
    );
    assert_eq!(faults[0].location, "general.min_idle");
}

#[test]
fn a_block_that_does_nothing_warns() {
    let loaded = load_clean(&[source("v", "[while.media_playing]\n")]);
    assert!(
        loaded
            .warnings
            .iter()
            .any(|w| w.location == "while.media_playing"),
        "{:?}",
        loaded.warnings
    );
}

#[test]
fn every_when_block_warns_that_it_overrides_every_floor() {
    let loaded = load_clean(&[source("v", "[when.lease_held]\nsuspend = \"0s\"\n")]);
    let warning = loaded
        .warnings
        .iter()
        .find(|w| w.location == "when.lease_held")
        .expect("a ceiling must be announced");
    assert_eq!(warning.source, "v");
    assert!(warning.message.contains("human_active"), "{}", warning.to_string());
    assert!(warning.message.contains("doubt floor"), "{}", warning.to_string());
}

#[test]
fn a_fact_can_be_disabled_and_the_disabling_is_reported() {
    let loaded = load_clean(&[source(
        "v",
        "[facts.media_playing]\nenabled = false\n[while.always]\nsuspend = \"30m\"\n",
    )]);
    assert!(!loaded.policy.fact_enabled(FactId::MediaPlaying));
    assert!(loaded.policy.fact_enabled(FactId::HumanActive));
    assert!(
        loaded
            .warnings
            .iter()
            .any(|w| w.location == "facts.media_playing"),
        "doctor must be able to list every fact switched off"
    );
}

#[test]
fn local_service_busy_is_enabled_by_its_endpoint() {
    let bare = load_clean(&[source("v", "")]);
    assert!(!bare.policy.fact_enabled(FactId::LocalServiceBusy));

    let configured = load_clean(&[source(
        "v",
        "[facts.local_service_busy]\ncounters_url = \"http://127.0.0.1:8080/metrics\"\n\
         idle_window = \"30m\"\n",
    )]);
    assert!(configured.policy.fact_enabled(FactId::LocalServiceBusy));
    let settings = configured.policy.fact_settings(FactId::LocalServiceBusy);
    assert_eq!(settings.idle_window, Some(Duration::from_secs(1_800)));
    assert!(settings.counters_url.is_some());

    let hopeful = load_clean(&[source("v", "[facts.local_service_busy]\nenabled = true\n")]);
    assert!(!hopeful.policy.fact_enabled(FactId::LocalServiceBusy));
    assert!(
        hopeful
            .warnings
            .iter()
            .any(|w| w.message.contains("counters_url"))
    );
}

#[test]
fn a_fact_key_that_belongs_to_another_fact_is_a_fault() {
    let (_, faults) = load(&[source(
        "v",
        "[facts.local_service_busy]\nsteam_root = \"/opt/steam\"\n",
    )]);
    assert_eq!(faults.len(), 1);
    assert_eq!(faults[0].location, "facts.local_service_busy.steam_root");

    let (_, unknown) = load(&[source("v", "[facts.not_a_fact]\nenabled = false\n")]);
    assert_eq!(unknown.len(), 1);
    assert!(unknown[0].to_string().contains("steam_downloading"));
}

#[test]
fn steam_facts_take_their_own_keys() {
    let loaded = load_clean(&[source(
        "v",
        "[facts.steam_downloading]\nsteam_root = \"/games/steam\"\nwindow = \"5m\"\n",
    )]);
    let settings = loaded.policy.fact_settings(FactId::SteamDownloading);
    assert_eq!(settings.steam_root.as_deref(), Some("/games/steam"));
    assert_eq!(settings.window, Some(Duration::from_secs(300)));
}

#[test]
fn both_kinds_of_block_load_together() {
    let text = r#"
        version = 1

        [general]
        min_idle = "5m"

        [while.always]
        screen_off = "10m"
        suspend = "30m"
        hibernate = "never"
        poweroff = "never"

        [while.after_resume]
        clock = "resume"
        suspend = "5m"
        hibernate = "5m"
        poweroff = "5m"

        [while.human_active]
        suspend = "never"
        hibernate = "never"
        poweroff = "never"

        [when.lease_held]
        suspend = "never"
    "#;
    let loaded = load_clean(&[source("v", text)]);
    assert_eq!(loaded.policy.blocks.len(), 4);

    let resume = loaded
        .policy
        .block(BlockId::new(
            BlockKind::While,
            Condition::Fact(FactId::AfterResume),
        ))
        .expect("present");
    assert_eq!(resume.clock, Clock::Resume);
    assert_eq!(
        resume.timeouts.get(Action::ScreenOff),
        None,
        "the settle window must not relight a panel on a headless wake"
    );
}
