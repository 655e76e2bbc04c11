use std::collections::HashMap;

use idlectl::session::backend::Idle;
use idlectl::session::gamepad::{
    decode, is_human, Event, Gamepads, EVENT_SIZE, JS_EVENT_AXIS, JS_EVENT_BUTTON, JS_EVENT_INIT,
};
use idlectl::time::{BootInstant, Duration};

fn now() -> BootInstant {
    BootInstant::from_secs(10_000)
}

fn raw(kind: u8, number: u8, value: i16) -> [u8; EVENT_SIZE] {
    let mut out = [0u8; EVENT_SIZE];
    out[0..4].copy_from_slice(&1234u32.to_ne_bytes());
    out[4..6].copy_from_slice(&value.to_ne_bytes());
    out[6] = kind;
    out[7] = number;
    out
}

#[test]
fn an_event_is_decoded_at_the_offsets_the_kernel_uses() {
    let event = decode(&raw(JS_EVENT_AXIS, 3, -20000)).expect("eight bytes decode");
    assert_eq!(
        event,
        Event {
            value: -20000,
            kind: JS_EVENT_AXIS,
            number: 3,
            initial: false
        }
    );
    let replay = decode(&raw(JS_EVENT_AXIS | JS_EVENT_INIT, 3, 500)).expect("decodes");
    assert_eq!(replay.kind, JS_EVENT_AXIS);
    assert!(replay.initial);
    assert!(decode(&[0u8; 4]).is_none());
}

#[test]
fn jitter_is_not_a_human_and_a_real_push_is() {
    let mut axes = HashMap::new();
    assert!(!is_human(
        &mut axes,
        decode(&raw(JS_EVENT_AXIS | JS_EVENT_INIT, 0, 0)).unwrap()
    ));

    for noise in [40i16, -40, 300, -300, 4095, -4095, 200] {
        assert!(
            !is_human(&mut axes, decode(&raw(JS_EVENT_AXIS, 0, noise)).unwrap()),
            "{noise} is noise around the resting point, not a person"
        );
    }
    assert!(is_human(
        &mut axes,
        decode(&raw(JS_EVENT_AXIS, 0, 20000)).unwrap()
    ));
    assert!(!is_human(
        &mut axes,
        decode(&raw(JS_EVENT_AXIS, 0, 21000)).unwrap()
    ));
    assert!(is_human(
        &mut axes,
        decode(&raw(JS_EVENT_AXIS, 0, 0)).unwrap()
    ));
}

#[test]
fn a_stick_swept_gradually_is_a_person() {
    let mut axes = HashMap::new();
    assert!(!is_human(
        &mut axes,
        decode(&raw(JS_EVENT_AXIS | JS_EVENT_INIT, 0, 0)).unwrap()
    ));

    let mut counted = 0;
    for step in 1..=60 {
        let value = i16::try_from(step * 200).expect("within range");
        if is_human(&mut axes, decode(&raw(JS_EVENT_AXIS, 0, value)).unwrap()) {
            counted += 1;
        }
    }
    assert!(
        counted >= 2,
        "a sweep to full deflection must register, and did {counted} time(s)"
    );
}

#[test]
fn the_replay_on_open_is_never_a_person() {
    let mut axes = HashMap::new();
    assert!(!is_human(
        &mut axes,
        decode(&raw(JS_EVENT_BUTTON | JS_EVENT_INIT, 0, 1)).unwrap()
    ));
    assert!(!is_human(
        &mut axes,
        decode(&raw(JS_EVENT_AXIS | JS_EVENT_INIT, 1, 32767)).unwrap()
    ));
    assert!(!is_human(
        &mut axes,
        decode(&raw(JS_EVENT_AXIS, 1, 32000)).unwrap()
    ));
    assert!(is_human(
        &mut axes,
        decode(&raw(JS_EVENT_AXIS, 1, 0)).unwrap()
    ));
}

#[test]
fn a_press_counts_once_and_a_release_does_not() {
    let mut axes = HashMap::new();
    assert!(is_human(
        &mut axes,
        decode(&raw(JS_EVENT_BUTTON, 2, 1)).unwrap()
    ));
    assert!(!is_human(
        &mut axes,
        decode(&raw(JS_EVENT_BUTTON, 2, 0)).unwrap()
    ));
}

#[test]
fn an_axis_that_speaks_before_its_replay_is_remembered_and_not_counted() {
    let mut axes = HashMap::new();
    assert!(!is_human(
        &mut axes,
        decode(&raw(JS_EVENT_AXIS, 7, 30000)).unwrap()
    ));
    assert_eq!(axes.get(&7), Some(&30000));
    assert!(is_human(
        &mut axes,
        decode(&raw(JS_EVENT_AXIS, 7, 0)).unwrap()
    ));
}

#[test]
fn the_pad_never_overrules_doubt() {
    let mut pads = Gamepads::new();
    pads.touch(BootInstant::from_secs(10));
    assert_eq!(pads.merge(Idle::Unknown, now()), Idle::Unknown);
}

#[test]
fn the_pad_only_ever_shortens_the_compositors_number() {
    let mut pads = Gamepads::new();
    assert_eq!(
        pads.merge(Idle::For(Duration::from_secs(600)), now()),
        Idle::For(Duration::from_secs(600))
    );
    pads.touch(BootInstant::from_secs(1));
    let seen = Idle::For(Duration::from_secs(2));
    assert_eq!(pads.merge(seen, now()), seen, "a pad may not lengthen idle time");
}
