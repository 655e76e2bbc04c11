use idlectl::gpu::{is_desktop_process, merge, parse_nvidia_csv, Holder, THRESHOLD_BYTES};

#[test]
fn nvidia_csv_is_parsed_in_mib() {
    let holders = parse_nvidia_csv("1234, /usr/bin/game, 10240\n5678, /usr/lib/other, 300\n")
        .expect("well-formed");
    assert_eq!(holders.len(), 2);
    assert_eq!(holders[0].name, "game");
    assert_eq!(holders[0].bytes, 10240 * 1024 * 1024);
    assert!(holders[0].bytes > THRESHOLD_BYTES);
    assert!(holders[1].bytes < THRESHOLD_BYTES);
}

#[test]
fn a_malformed_nvidia_line_is_a_fault_not_a_skip() {
    assert!(parse_nvidia_csv("1234, /usr/bin/game, not-a-number\n").is_err());
    assert!(parse_nvidia_csv("only-one-field\n").is_err());
}

#[test]
fn a_process_seen_by_both_sources_is_not_counted_twice() {
    let mut holders = vec![Holder {
        pid: 42,
        name: "game".into(),
        bytes: 600 * 1024 * 1024,
    }];
    merge(
        &mut holders,
        vec![
            Holder {
                pid: 42,
                name: "game".into(),
                bytes: 700 * 1024 * 1024,
            },
            Holder {
                pid: 43,
                name: "other".into(),
                bytes: 100 * 1024 * 1024,
            },
        ],
    );
    assert_eq!(holders.len(), 2);
    assert_eq!(
        holders[0].bytes,
        700 * 1024 * 1024,
        "the larger, not the sum"
    );
    assert_eq!(holders[1].pid, 43);
}

#[test]
fn the_microcompositor_is_not_treated_as_desktop_furniture() {
    assert!(!is_desktop_process("gamescope"));
    assert!(is_desktop_process("kwin_wayland"));
}

#[test]
fn the_threshold_is_512_mib() {
    assert_eq!(THRESHOLD_BYTES, 536_870_912);
}
