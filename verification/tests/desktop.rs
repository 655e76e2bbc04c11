use std::collections::HashMap;

use idlectl::agents::IDLE_UNKNOWN;
use idlectl::session::backend::Idle;
use idlectl::session::display::{
    describe_wayland, describe_x11, wayland_idle, x11_idle, BlankVia, Global,
};
use idlectl::session::fdinfo::{fold, name_of, read, ProcessFiles};
use idlectl::session::gamepad::{
    any_human, decode, decode_all, decode_with, is_human, joysticks, Event, Gamepads, DEADZONE,
    JS_EVENT_AXIS, JS_EVENT_BUTTON, MAX_WATCHED,
};
use idlectl::session::lastinput::{load, store};
use idlectl::session::mpris::{is_player, read as media, Player, SessionBus};
use idlectl::time::{BootInstant, Duration};

fn at(secs: u64) -> BootInstant {
    BootInstant::from_secs(secs)
}

fn axis(value: i16) -> Event {
    Event {
        value,
        kind: JS_EVENT_AXIS,
        number: 0,
        initial: false,
    }
}

#[test]
fn a_wobble_never_counts_and_a_sweep_adds_up() {
    let mut axes = HashMap::new();
    axes.insert(0, 0);
    let wobble = vec![axis(4_000), axis(-4_000), axis(4_095), axis(-4_095)];
    assert!(!any_human(&mut axes, &wobble));
    assert_eq!(axes.get(&0), Some(&0), "small steps move nothing");
    assert_eq!(DEADZONE, 4_095);
    assert!(any_human(&mut axes, &vec![axis(2_000), axis(4_096)]));
    assert_eq!(axes.get(&0), Some(&4_096));
}

#[test]
fn what_a_device_repeats_is_nobody() {
    let mut axes = HashMap::new();
    let mut press = axis(1);
    press.kind = JS_EVENT_BUTTON;
    press.initial = true;
    assert!(!is_human(&mut axes, press));
    press.initial = false;
    assert!(is_human(&mut axes, press));
    press.kind = 9;
    assert!(!is_human(&mut axes, press));
}

#[test]
fn events_are_read_eight_bytes_at_a_time() {
    let mut raw = vec![0u8; 20];
    raw[4..6].copy_from_slice(&(-2i16).to_ne_bytes());
    raw[6] = 0x82;
    raw[7] = 3;
    raw[14] = 1;
    let events = decode_all(&raw);
    assert_eq!(events.len(), 2);
    assert_eq!(
        events[0],
        Event {
            value: -2,
            kind: 2,
            number: 3,
            initial: true
        }
    );
    assert_eq!(events[1].kind, JS_EVENT_BUTTON);
    assert!(decode(&raw).is_none());
    assert_eq!(decode_with(&raw[..8], 77).map(|event| event.value), Some(77));
}

#[test]
fn a_touch_is_news_after_a_while() {
    let mut pads = Gamepads::new();
    assert!(pads.touch(at(100)));
    assert!(!pads.touch(at(104)));
    assert!(pads.touch(at(109)));
    assert!(pads.scan_due(at(100)));
    assert!(!pads.scan_due(at(104)));
    assert!(pads.scan_due(at(105)));
    assert_eq!(
        pads.merge(Idle::For(Duration::from_secs(60)), at(119)),
        Idle::For(Duration::from_secs(10))
    );
    assert!(pads.pad_is_source);
    assert_eq!(pads.merge(Idle::Unknown, at(119)), Idle::Unknown);
    assert!(!pads.pad_is_source);
}

#[test]
fn so_many_pads_are_watched_and_no_more() {
    let mut pads = Gamepads::new();
    for n in 0..MAX_WATCHED {
        assert!(pads.start(&format!("/dev/input/js{n}")));
    }
    assert!(!pads.start("/dev/input/js99"));
    pads.forget("/dev/input/js0");
    assert!(!pads.start("/dev/input/js1"));
    assert!(pads.start("/dev/input/js99"));
    let names: Vec<String> = ["js1", "js", "mouse0", "js0", "js1x", "js10"]
        .iter()
        .map(|name| (*name).to_owned())
        .collect();
    assert_eq!(
        joysticks(&names),
        vec!["js0".to_owned(), "js1".to_owned(), "js10".to_owned()]
    );
}

#[test]
fn what_cannot_be_told_is_told_apart_on_the_other_side() {
    assert_eq!(Idle::Unknown.to_usec(), IDLE_UNKNOWN);
    assert_eq!(Idle::For(Duration::from_millis(2)).to_usec(), 2_000);
    assert_eq!(Idle::For(Duration { nanos: u128::MAX }).to_usec(), u64::MAX - 1);
    let largest = u128::from(u64::MAX) * 1_000;
    assert_eq!(Idle::For(Duration { nanos: largest }).to_usec(), u64::MAX - 1);
    assert_eq!(Idle::For(Duration { nanos: largest - 1 }).to_usec(), u64::MAX - 1);
    assert_eq!(Idle::For(Duration { nanos: largest - 1_001 }).to_usec(), u64::MAX - 2);
}

#[test]
fn a_client_counts_once_however_often_its_file_is_open() {
    let file = |id: u64, kib: u64| {
        format!("drm-driver: x\ndrm-client-id: {id}\ndrm-memory-vram: {kib} KiB\n")
    };
    let files = vec![file(1, 8), file(2, 4), file(1, 8), file(1, 2)];
    assert_eq!(fold(&files), (12 * 1024, true));
    let mut again = files.clone();
    again.push(file(2, 4));
    assert_eq!(fold(&again), fold(&files));
    assert_eq!(
        fold(&vec![file(1, u64::MAX), file(2, 1)]),
        (u64::MAX, true),
        "a sum that cannot be counted is the largest count"
    );
}

#[test]
fn only_processes_that_hold_memory_are_reported() {
    let process = |pid: u32, files: Vec<String>| ProcessFiles {
        pid,
        cmdline: "/opt/bin/app\0".to_owned(),
        comm: None,
        files,
    };
    let memory = "drm-driver: x\ndrm-client-id: 1\ndrm-resident-gtt: 3\n".to_owned();
    let none = "drm-driver: x\ndrm-client-id: 1\ndrm-resident-gtt: 0\n".to_owned();
    assert_eq!(
        read(&vec![
            process(1, vec![memory.clone()]),
            process(2, vec![none.clone()]),
            process(3, Vec::new())
        ]),
        vec![(1, "app".to_owned(), 3 * 1024)]
    );
    assert!(read(&vec![process(2, vec![none])]).is_empty());
    assert_eq!(name_of("", &Some("kthread\n".to_owned())), "kthread");
    assert_eq!(name_of("", &None), "");
}

#[test]
fn what_was_stored_reads_back() {
    assert_eq!(store(at(1), at(2)), "1000000000 2000000000\n");
    assert_eq!(load(&store(at(1), at(2)), at(92)), Some(at(1)));
    assert_eq!(load(&store(at(1), at(2)), at(93)), None);
    assert_eq!(load(&store(at(3), at(2)), at(4)), None);
    assert_eq!(load("1 2 3", BootInstant::from_nanos(5)), Some(BootInstant::from_nanos(1)));
}

#[test]
fn what_plays_is_named() {
    let player = |name: &str, status| Player {
        name: name.to_owned(),
        status,
    };
    let ok = |text: &str| Ok(Some(text.to_owned()));
    let prefix = "org.mpris.MediaPlayer2.";
    assert!(is_player("org.mpris.MediaPlayer2.vlc"));
    assert!(!is_player("org.mpris.MediaPlayer"));
    assert_eq!(
        media(&SessionBus::Listed(vec![
            player(":1.1", ok("Playing")),
            player(&format!("{prefix}vlc"), ok("Playing")),
            player(&format!("{prefix}mpv"), ok("Paused")),
            player(&format!("{prefix}{prefix}odd"), ok("Playing")),
        ])),
        ("true", "playing: vlc, odd".to_owned())
    );
    assert_eq!(
        media(&SessionBus::Listed(vec![
            player(&format!("{prefix}mpv"), Ok(None)),
            player(":1.1", ok("Playing")),
        ])),
        ("false", "1 MPRIS player(s), none playing".to_owned())
    );
    assert_eq!(
        media(&SessionBus::Listed(vec![player(
            &format!("{prefix}mpv"),
            Err("late".to_owned())
        )])),
        (
            "indeterminate",
            "org.mpris.MediaPlayer2.mpv did not report PlaybackStatus: late".to_owned()
        )
    );
    assert_eq!(
        media(&SessionBus::Missing("x".to_owned())),
        ("unavailable", "no session bus: x".to_owned())
    );
    assert_eq!(
        media(&SessionBus::Closed("x".to_owned())),
        ("indeterminate", "cannot query the session bus: x".to_owned())
    );
    assert_eq!(
        media(&SessionBus::Unlisted("x".to_owned())),
        ("indeterminate", "ListNames failed: x".to_owned())
    );
}

#[test]
fn what_a_display_offers_is_used() {
    assert_eq!(Global::of("wl_seat").map(|global| global.version(9)), Some(7));
    assert_eq!(Global::of("wl_output").map(|global| global.version(3)), Some(3));
    assert_eq!(Global::of("wl_shm"), None);
    assert_eq!(BlankVia::to_try(true, true, 1), BlankVia::WlrOutputPower);
    assert_eq!(BlankVia::to_try(false, true, 1), BlankVia::KdeDpms);
    assert_eq!(BlankVia::to_try(true, true, 0), BlankVia::Nothing);
    assert_eq!(BlankVia::KdeDpms.settled(false), BlankVia::Nothing);
    assert!(BlankVia::KdeDpms.settled(true).can_blank());
    assert_eq!(
        describe_wayland("KDE", BlankVia::KdeDpms),
        "wayland (KDE), ext-idle-notify-v1, org_kde_kwin_dpms"
    );
    assert_eq!(describe_x11(true), "x11, MIT-SCREEN-SAVER, DPMS");
    assert_eq!(describe_x11(false), "x11, MIT-SCREEN-SAVER, no DPMS");
    assert_eq!(
        wayland_idle(false, Some(Duration::from_secs(5))),
        Idle::For(Duration::from_secs(15))
    );
    assert_eq!(wayland_idle(false, None), Idle::For(Duration::from_secs(0)));
    assert_eq!(wayland_idle(true, None), Idle::Unknown);
    assert_eq!(x11_idle(Some(1_500)), Idle::For(Duration::from_millis(1_500)));
    assert_eq!(x11_idle(None), Idle::Unknown);
}
