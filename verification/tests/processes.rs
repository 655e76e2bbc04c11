use idlectl::process::{ancestry, descends_from, parse_ppid, parse_starttime, Process};

#[test]
fn ppid_survives_a_parenthesis_in_the_process_name() {
    let stat = "42 (evil) name) S 7 42 42 0 -1 4194304 0 0";
    assert_eq!(parse_ppid(stat), Some(7));
}

#[test]
fn ppid_of_a_normal_line() {
    assert_eq!(parse_ppid("1234 (bash) S 1 1234 1234 34816"), Some(1));
}

#[test]
fn starttime_is_field_22_counted_from_the_last_parenthesis() {
    let stat = "3878 (odd) name) S 3877 3878 3877 34816 3878 4194304 \
                100 0 200 0 5 6 0 0 20 0 3 0 987654 123456 789";
    assert_eq!(parse_starttime(stat), Some(987_654));
    assert_eq!(parse_ppid(stat), Some(3877));
}

#[test]
fn ancestry_terminates_on_a_cycle() {
    let procs = vec![
        Process {
            pid: 1,
            ppid: 2,
            comm: "a".into(),
            cmdline: String::new(),
        },
        Process {
            pid: 2,
            ppid: 1,
            comm: "b".into(),
            cmdline: String::new(),
        },
    ];
    let chain = ancestry(&procs, 1);
    assert_eq!(chain, vec![2, 1]);
    assert!(
        chain.len() < 64,
        "the walk must be bounded, not merely finite"
    );
}

#[test]
fn ancestry_terminates_on_a_self_parent() {
    let procs = vec![Process {
        pid: 5,
        ppid: 5,
        comm: "x".into(),
        cmdline: String::new(),
    }];
    assert_eq!(ancestry(&procs, 5), vec![5]);
}

#[test]
fn name_prefers_argv0_over_truncated_comm() {
    let p = Process {
        pid: 1,
        ppid: 0,
        comm: "fossilize_repla".into(),
        cmdline: "/usr/bin/fossilize_replay --num-threads 4".into(),
    };
    assert_eq!(p.name(), "fossilize_replay");
}

#[test]
fn name_falls_back_to_comm_for_a_kernel_thread() {
    let p = Process {
        pid: 2,
        ppid: 0,
        comm: "kthreadd".into(),
        cmdline: String::new(),
    };
    assert_eq!(p.name(), "kthreadd");
}

#[test]
fn descends_from_includes_the_root_itself() {
    let procs = vec![
        Process {
            pid: 10,
            ppid: 1,
            comm: "game".into(),
            cmdline: String::new(),
        },
        Process {
            pid: 11,
            ppid: 10,
            comm: "child".into(),
            cmdline: String::new(),
        },
    ];
    assert!(descends_from(&procs, 10, &[10]));
    assert!(descends_from(&procs, 11, &[10]));
    assert!(!descends_from(&procs, 1, &[10]));
}
