use idlectl::action::Action;
use idlectl::block::{BlockId, BlockKind, Condition};
use idlectl::clock::Clock;
use idlectl::config::document::{parse, Source};
use idlectl::config::error::ErrorKind;
use idlectl::config::listing::{check_config, fault_verdict, print_policy};
use idlectl::config::load::{load, validate};
use idlectl::config::section::{FactSection, TimeoutValue};
use idlectl::config::timeout::{format_timeout, parse_duration, parse_timeout, TimeoutError};
use idlectl::fact::FactId;
use idlectl::text::{parse_u64, rsplit_once, signed_text, split_fields, split_lines, trim};
use idlectl::time::{Duration, Timeout};

fn only(text: &str) -> Vec<String> {
    let (_, faults) = load(&[Source::new("x.toml", text)]);
    faults.iter().map(|fault| fault.to_string()).collect()
}

#[test]
fn a_later_file_wins_key_by_key() {
    let (loaded, faults) = load(&[
        Source::new(
            "a.toml",
            "[while.always]\nsuspend = \"30m\"\nscreen_off = \"5m\"\nclock = \"boot\"\n\
             [when.media_playing]\nsuspend = \"1h\"\n\
             [facts.steam_downloading]\nwindow = \"2m\"\nsteam_root = \"/g\"\n",
        ),
        Source::new(
            "b.toml",
            "[general]\nmin_idle = \"10m\"\n[while.always]\nsuspend = \"1h\"\n\
             [facts.steam_downloading]\nwindow = \"3m\"\n",
        ),
    ]);
    assert!(faults.is_empty());
    let block = loaded
        .policy
        .block(BlockId::new(BlockKind::While, Condition::Always))
        .expect("there");
    assert_eq!(block.timeouts.suspend, Some(Timeout::After(Duration::from_secs(3_600))));
    assert_eq!(block.timeouts.screen_off, Some(Timeout::After(Duration::from_secs(300))));
    assert_eq!(block.clock, Clock::Boot);
    assert_eq!(loaded.policy.min_idle, Duration::from_secs(600));
    let settings = loaded.policy.fact_settings(FactId::SteamDownloading);
    assert_eq!(settings.window, Some(Duration::from_secs(180)));
    assert_eq!(settings.steam_root, Some("/g".to_owned()));
    assert_eq!(loaded.policy.blocks_of(BlockKind::When).len(), 1);
    assert_eq!(loaded.layers, vec!["a.toml".to_owned(), "b.toml".to_owned()]);
}

#[test]
fn a_faulty_file_leaves_the_others_as_they_were() {
    let good = Source::new("a.toml", "[while.always]\nsuspend = \"30m\"\n");
    let last = Source::new("c.toml", "[while.always]\nhibernate = \"2h\"\n");
    let bad = Source::new("b.toml", "[while.always]\nsuspend = \"soon\"\n");
    let (with, faults) = load(&[good.clone(), bad, last.clone()]);
    let (without, none) = load(&[good, last]);
    assert_eq!(faults.len(), 1);
    assert!(none.is_empty());
    assert_eq!(with.layers, without.layers);
    assert_eq!(with.policy.blocks.len(), 1);
    assert_eq!(with.policy.blocks[0].timeouts.suspend, without.policy.blocks[0].timeouts.suspend);
    assert_eq!(with.policy.faults.len(), 1);
    assert_eq!(with.policy.faults[0].location, "while.always.suspend");
}

#[test]
fn every_fault_is_said_in_words() {
    assert_eq!(
        only("[while.alway]\nsuspend = \"1h\"\n"),
        vec![
            "x.toml: while.alway: unknown condition \"alway\". Valid conditions are: always, \
             human_active, after_resume, remote_session, lease_held, inhibitor_block, \
             media_playing, steam_game_running, steam_downloading, gpu_busy_game, gpu_busy_other, \
             local_service_busy"
                .to_owned()
        ]
    );
    assert_eq!(
        only("[while.always]\nclock = \"sun\"\nsuspend = \"1h\"\n"),
        vec![
            "x.toml: while.always.clock: unknown clock \"sun\". Valid clocks are: human_input, \
             resume, condition, boot"
                .to_owned()
        ]
    );
    assert_eq!(
        only("[facts.media_playing]\nwindow = \"1m\"\n"),
        vec![
            "x.toml: facts.media_playing.window: \"window\" is not a key of the \"media_playing\" \
             fact"
                .to_owned()
        ]
    );
    let faults = only("[while.always]\nsuspend = \"1w\"\n");
    assert_eq!(faults.len(), 1);
    assert!(faults[0].contains("unknown unit 'w'"), "{}", faults[0]);
    let faults = only("[facts.moon]\nenabled = false\n");
    assert!(faults[0].contains("unknown fact \"moon\". Valid facts are: human_active, "));
}

#[test]
fn what_cannot_be_read_says_what_could() {
    for (text, wanted) in [
        (
            "[while.always]\nsupsend = \"1h\"\n",
            "x.toml: line 2, column 1: unknown key \"while.always.supsend\". Valid keys are: enabled, clock, \
             screen_off, suspend, hibernate, poweroff",
        ),
        (
            "[general]\nmax_idle = \"1m\"\n",
            "x.toml: line 2, column 1: unknown key \"general.max_idle\". Valid keys are: min_idle",
        ),
        (
            "[facts.media_playing]\nroot = 1\n",
            "x.toml: line 2, column 1: unknown key \"facts.media_playing.root\". Valid keys are: enabled, \
             counters_url, idle_window, steam_root, window",
        ),
        (
            "extra = 1\n",
            "x.toml: line 1, column 1: unknown key \"extra\". Valid keys are: version, general, facts, while, when",
        ),
        (
            "[while.always]\nenabled = \"yes\"\n",
            "x.toml: line 2, column 1: the value of \"while.always.enabled\" has the wrong type: expected true or \
             false",
        ),
        (
            "[when.always]\nsuspend = 1.5\n",
            "x.toml: line 2, column 1: the value of \"when.always.suspend\" has the wrong type: expected a text or \
             a whole number",
        ),
        (
            "[while]\nalways = 3\n",
            "x.toml: line 2, column 1: the value of \"while.always\" has the wrong type: expected a table",
        ),
        (
            "version = -1\n",
            "x.toml: line 1, column 1: the value of \"version\" has the wrong type: expected a whole number from 0 \
             to 4294967295",
        ),
        (
            "# \u{e9}\u{20ac}\n\ngeneral = { max_idle = 1 }\n",
            "x.toml: line 3, column 13: unknown key \"general.max_idle\". Valid keys are: min_idle",
        ),
        (
            "facts = { \"\u{e9}\" = {}, y = 1 }\n",
            "x.toml: line 1, column 21: the value of \"facts.y\" has the wrong type: expected a \
             table",
        ),
        (
            "[while.always]\n  suspend = 99999999999999999999\n",
            "x.toml: line 2, column 3: the value of \"while.always.suspend\" has the wrong type: \
             expected a text or a whole number",
        ),
    ] {
        assert_eq!(only(text), vec![wanted.to_owned()]);
    }
}

#[test]
fn a_whole_number_is_read_as_it_is_written() {
    for (text, wanted) in [
        ("version = 1\n", Some(1)),
        ("version = +12\n", Some(12)),
        ("version = 1_000\n", Some(1_000)),
        ("version = 0xFf\n", Some(255)),
        ("version = 0o17\n", Some(15)),
        ("version = 0b101\n", Some(5)),
        ("version = 4294967295\n", Some(u32::MAX)),
        ("version = 4294967296\n", None),
        ("version = -1\n", None),
        ("version = 9223372036854775808\n", None),
    ] {
        let read = parse(&Source::new("x.toml", text)).ok();
        assert_eq!(read.and_then(|file| file.version), wanted, "{text}");
    }
    let file = parse(&Source::new(
        "x.toml",
        "[while.always]\nsuspend = -9223372036854775808\nhibernate = 9223372036854775807\n",
    ))
    .expect("read");
    let block = file.while_blocks.get("always").expect("there");
    assert!(matches!(block.suspend, Some(TimeoutValue::Integer(i64::MIN))));
    assert!(matches!(block.hibernate, Some(TimeoutValue::Integer(i64::MAX))));
}

#[test]
fn what_no_file_may_hold_makes_it_unreadable() {
    for text in [
        "[while.always]\nsupsend = \"1h\"\n",
        "[while.always]\nenabled = \"yes\"\n",
        "[while.always]\nsuspend = true\n",
        "[while.always]\nsuspend = 1.5\n",
        "[while]\nalways = 3\n",
        "[general]\nmin_idle = 2020-01-01\n",
        "[general]\nmax_idle = \"1m\"\n",
        "[facts.media_playing]\nenabled = []\n",
        "version = -1\n",
        "extra = 1\n",
        "= broken",
    ] {
        let error = parse(&Source::new("x.toml", text)).expect_err(text);
        assert!(matches!(error.kind, ErrorKind::Syntax(_)), "{text}");
        assert_eq!(error.location, "");
        assert_eq!(only(text).len(), 1);
    }
    let file = parse(&Source::new(
        "x.toml",
        "version = 1\n[while.always]\nsuspend = \"1h\"\n",
    ))
    .expect("read");
    assert_eq!(file.version, Some(1));
    assert!(validate(&file, "x.toml").is_empty());
}

#[test]
fn a_package_that_is_broken_still_darkens_the_panel() {
    let (loaded, faults) = load(&[Source::new("vendor.toml", "not toml at all")]);
    assert_eq!(faults.len(), 1);
    assert_eq!(loaded.policy.blocks.len(), 1);
    assert_eq!(
        loaded.policy.blocks[0].timeouts.get(Action::ScreenOff),
        Some(Timeout::After(Duration::from_secs(900)))
    );
    assert!(!loaded.policy.fact_enabled(FactId::LocalServiceBusy));
}

#[test]
fn a_service_without_an_address_is_not_read() {
    let (loaded, faults) = load(&[Source::new(
        "x.toml",
        "[facts.local_service_busy]\nenabled = true\n[facts.media_playing]\nenabled = false\n",
    )]);
    assert!(faults.is_empty());
    assert!(!loaded.policy.fact_enabled(FactId::LocalServiceBusy));
    assert!(!loaded.policy.fact_enabled(FactId::MediaPlaying));
}

#[test]
fn a_policy_is_listed_as_the_daemon_reads_it() {
    let (loaded, faults) = load(&[Source::new(
        "x.toml",
        "[general]\nmin_idle = \"1m30s\"\n[while.always]\nscreen_off = \"10m\"\nsuspend = \"never\"\n\
         [while.media_playing]\nenabled = false\nsuspend = \"2h\"\n",
    )]);
    assert_eq!(
        print_policy(&loaded),
        "layers:\n  x.toml\nmin_idle: 90s\nblocks:\n\
         \x20 [while.always] clock=human_input\n\
         \x20     screen_off  10m\n\
         \x20     suspend     never\n\
         \x20 [while.media_playing] clock=human_input (disabled)\n\
         \x20     suspend     2h\n"
    );
    let checked = check_config(&loaded, &faults);
    assert!(checked.out.starts_with("layer   x.toml\nmin_idle 90s\n\n[while.always]  clock = human_input\n"));
    assert!(checked.out.ends_with("\n2 block(s), configuration is valid.\n"));
    assert_eq!(checked.err, "");
    assert_eq!(checked.verdict, None);
    let (loaded, faults) = load(&[Source::new("y.toml", "a = 1\n")]);
    let checked = check_config(&loaded, &faults);
    assert!(checked.err.starts_with("\nfault: y.toml: "));
    assert_eq!(checked.verdict, Some("1 configuration fault(s)".to_owned()));
    assert_eq!(fault_verdict(0), None);
}

#[test]
fn timeouts_are_spelled_and_read_back() {
    for secs in [0, 1, 59, 60, 3_599, 3_600, 86_400, 93_784] {
        let timeout = Timeout::After(Duration::from_secs(secs));
        assert_eq!(parse_timeout(&format_timeout(timeout)), Ok(timeout));
    }
    assert_eq!(format_timeout(Timeout::After(Duration::from_secs(93_784))), "1d2h3m4s");
    assert_eq!(format_timeout(Timeout::Never), "never");
    assert_eq!(parse_timeout(" "), Err(TimeoutError::Empty));
    assert_eq!(parse_timeout("5"), Err(TimeoutError::MissingUnit));
    assert_eq!(parse_timeout("s"), Err(TimeoutError::MissingNumber));
    assert_eq!(parse_timeout("5x"), Err(TimeoutError::UnknownUnit('x')));
    assert_eq!(parse_timeout("99999999999999999999s"), Err(TimeoutError::Overflow));
    assert_eq!(parse_timeout("18446744073709551615d"), Err(TimeoutError::Overflow));
    assert_eq!(parse_duration("never"), Err(TimeoutError::NeverNotAllowed));
    assert_eq!(TimeoutError::Empty.to_string(), "empty value");
    assert_eq!(TimeoutError::Overflow.to_string(), "value too large");
    assert_eq!(
        TimeoutError::MissingNumber.to_string(),
        "unit with no number in front of it"
    );
    assert_eq!(TimeoutValue::Integer(-5).as_written(), "-5");
    assert_eq!(TimeoutValue::Integer(5).parse(), Err(TimeoutError::MissingUnit));
    assert_eq!(
        TimeoutValue::Text("2m".to_owned()).parse_finite(),
        Ok(Duration::from_secs(120))
    );
}

#[test]
fn facts_have_keys_of_their_own() {
    assert_eq!(
        FactSection::allowed_keys(FactId::SteamDownloading),
        vec!["steam_root", "window"]
    );
    assert!(FactSection::allowed_keys(FactId::HumanActive).is_empty());
    let mut section = FactSection::new();
    section.window = Some(TimeoutValue::Integer(1));
    assert_eq!(section.keys_present(), vec!["window"]);
}

#[test]
fn texts_are_cut_where_they_should_be() {
    assert_eq!(trim("\u{a0} a b\t"), "a b");
    assert_eq!(split_lines("a\r\nb\n\nc"), vec!["a", "b", "", "c"]);
    assert_eq!(split_fields("a,,b,", ','), vec!["a", "", "b", ""]);
    assert_eq!(
        rsplit_once("a b c", ' '),
        Some(("a b".to_owned(), "c".to_owned()))
    );
    assert_eq!(parse_u64("+18446744073709551615"), Some(u64::MAX));
    assert_eq!(parse_u64("18446744073709551616"), None);
    assert_eq!(parse_u64(""), None);
    assert_eq!(signed_text(i64::MIN), "-9223372036854775808");
}
