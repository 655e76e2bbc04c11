use idlectl::counters::{published, read_response, request_for, Sampler};
use idlectl::fact::{FactId, FactState};
use idlectl::gpu::{in_system_slice, merge, nvidia_answer, read, Holder, NvidiaResult, Split};
use idlectl::policy::FactSettings;
use idlectl::process::{any_process_named, listed, matching, Process};
use idlectl::reading::Reading;
use idlectl::sessions::{
    conflict_scan, graphical_uids, inhibitor, is_gone, is_holding, remote, InhibitorEntry, Logind,
    Look, SessionEntry, SessionRecord,
};
use idlectl::steam::{candidates, downloading, game_pids, game_running, newest_mtime, Entry, Staging};
use idlectl::time::{BootInstant, Duration};

const GIB: u64 = 1 << 30;

fn at(secs: u64) -> BootInstant {
    BootInstant::from_secs(secs)
}

fn process(pid: u32, ppid: u32, cmdline: &str) -> Process {
    Process {
        pid,
        ppid,
        comm: "comm".to_owned(),
        cmdline: cmdline.to_owned(),
    }
}

fn holder(pid: u32, name: &str, bytes: u64) -> Holder {
    Holder {
        pid,
        name: name.to_owned(),
        bytes,
    }
}

fn split(reported: &Vec<Holder>, nvidia: NvidiaResult, game: bool, service: FactState) -> Split {
    let procs = vec![
        process(1, 0, "init"),
        process(10, 1, "/usr/bin/reaper SteamLaunch AppId=7 -- game"),
        process(11, 10, "/opt/game"),
        process(12, 10, "/opt/model"),
        process(13, 1, "/opt/render"),
    ];
    let games = game_pids(&procs);
    read(&procs, reported, nvidia, &games, game, service, &[12])
}

#[test]
fn memory_of_a_game_is_told_from_other_memory() {
    let reported = vec![
        holder(11, "game", GIB),
        holder(13, "render", GIB),
        holder(14, "small", 1),
        holder(15, "Xwayland", GIB),
    ];
    let seen = split(&reported, NvidiaResult::Absent, true, FactState::False);
    assert_eq!(
        seen.game,
        Reading::yes("game (pid 11, 1024 MiB) [DRM fdinfo via the session agent]")
    );
    assert_eq!(
        seen.other,
        Reading::yes("render (pid 13, 1024 MiB) [DRM fdinfo via the session agent]")
    );
    let seen = split(&reported, NvidiaResult::Absent, false, FactState::False);
    assert_eq!(seen.game.state, FactState::False);
    assert_eq!(
        seen.other.detail,
        "game (pid 11, 1024 MiB); render (pid 13, 1024 MiB) [DRM fdinfo via the session agent]"
    );
}

#[test]
fn a_service_under_a_game_is_not_the_game() {
    let reported = vec![holder(12, "model", GIB)];
    let idle = split(&reported, NvidiaResult::Absent, true, FactState::False);
    assert_eq!(idle.game.state, FactState::True);
    for state in [FactState::True, FactState::Indeterminate] {
        let busy = split(&reported, NvidiaResult::Absent, true, state);
        assert_eq!(busy.game.state, FactState::False);
        assert_eq!(busy.other.state, FactState::True);
    }
}

#[test]
fn another_source_adds_and_clears_nothing() {
    let reported = vec![holder(11, "game", GIB)];
    let found = NvidiaResult::Holders(vec![holder(11, "game", 1), holder(13, "render", 2 * GIB)]);
    let seen = split(&reported, found, true, FactState::False);
    assert_eq!(
        seen.game.detail,
        "game (pid 11, 1024 MiB) [DRM fdinfo via the session agent + nvidia-smi]"
    );
    assert_eq!(
        seen.other.detail,
        "render (pid 13, 2048 MiB) [DRM fdinfo via the session agent + nvidia-smi]"
    );
    let mut once = vec![holder(1, "a", 5)];
    merge(&mut once, vec![holder(1, "b", 3), holder(2, "c", 1), holder(2, "d", 9)]);
    assert_eq!(once, vec![holder(1, "a", 5), holder(2, "c", 9)]);
}

#[test]
fn no_answer_from_a_driver_is_doubt_and_no_driver_is_not() {
    let failed = NvidiaResult::Failed("hung".to_owned());
    let seen = split(&vec![holder(11, "game", GIB)], failed, true, FactState::False);
    assert_eq!(seen.game, Reading::doubt("nvidia-smi did not answer: hung"));
    assert_eq!(seen.other.state, FactState::Indeterminate);
    let seen = split(&Vec::new(), NvidiaResult::Absent, true, FactState::False);
    assert_eq!(
        seen.game,
        Reading::absent("no GPU query interface (no DRM fdinfo, no nvidia-smi)")
    );
    let none = read(&[], &Vec::new(), NvidiaResult::Absent, &[], false, FactState::False, &[]);
    assert_eq!(none.other, Reading::doubt("/proc could not be read"));
    assert!(matches!(
        nvidia_answer(false, "exit status: 6", "No devices were found\n", ""),
        NvidiaResult::Absent
    ));
    match nvidia_answer(false, "exit status: 9", "", " broken \n") {
        NvidiaResult::Failed(why) => assert_eq!(why, "exit exit status: 9: broken"),
        other => panic!("{other:?}"),
    }
    match nvidia_answer(true, "exit status: 0", "7, a, b\n", "") {
        NvidiaResult::Failed(why) => assert_eq!(why, "unreadable output line: 7, a, b"),
        other => panic!("{other:?}"),
    }
    match nvidia_answer(true, "exit status: 0", "7, /bin/x, 3\n", "") {
        NvidiaResult::Holders(found) => assert_eq!(found, vec![holder(7, "x", 3 << 20)]),
        other => panic!("{other:?}"),
    }
    assert!(in_system_slice("0::/system.slice/model.service"));
    assert!(!in_system_slice("0::/user.slice/user-1000.slice"));
}

fn settings() -> FactSettings {
    FactSettings {
        enabled: true,
        counters_url: Some("http://localhost:9/m".to_owned()),
        idle_window: Some(Duration::from_secs(100)),
        ..FactSettings::default_for(FactId::LocalServiceBusy)
    }
}

#[test]
fn a_service_is_in_use_until_its_counters_stand_still() {
    let mut sampler = Sampler::new();
    let body = |n: u64| Ok(format!("total {n}\n"));
    let first = sampler.sample(&settings(), at(0), &body(5), &vec![Some(5)]);
    assert_eq!(
        first,
        Reading::yes("counters last moved 0s ago (idle window 100s)")
    );
    let still = sampler.sample(&settings(), at(100), &body(5), &vec![Some(5)]);
    assert_eq!(
        still,
        Reading::no("no counter has moved for 1m ago (idle window 100s)")
    );
    let moved = sampler.sample(&settings(), at(5_000), &body(6), &vec![Some(6)]);
    assert_eq!(moved.state, FactState::True);
    assert_eq!(sampler.last_movement, Some(at(5_000)));
    let before = sampler;
    let lost = sampler.sample(&settings(), at(6_000), &Err("refused".to_owned()), &Vec::new());
    assert_eq!(
        lost,
        Reading::doubt("http://localhost:9/m could not be read: refused")
    );
    assert_eq!(sampler, before);
    let empty = sampler.sample(&settings(), at(6_000), &Ok(String::new()), &Vec::new());
    assert_eq!(
        empty,
        Reading::doubt("http://localhost:9/m exposed no counters this detector understands")
    );
    let unset = FactSettings::default_for(FactId::LocalServiceBusy);
    let absent = sampler.sample(&unset, at(6_000), &body(1), &vec![Some(1)]);
    assert_eq!(absent, Reading::absent("no counters_url is configured"));
}

#[test]
fn requests_in_flight_keep_a_service_in_use() {
    let mut sampler = Sampler::new();
    let body = "# TYPE a counter\na 1\n# TYPE b_inflight gauge\nb_inflight 3\n".to_owned();
    let busy = sampler.sample(&settings(), at(0), &Ok(body), &vec![Some(1), Some(3)]);
    assert_eq!(busy, Reading::yes("3 request(s) in flight"));
}

#[test]
fn what_is_asked_of_a_service_and_how_its_answer_is_read() {
    let request = request_for("http://127.0.0.1:8080/metrics?x=1").expect("a request");
    assert_eq!(request.addr, "127.0.0.1:8080");
    assert_eq!(
        request.text,
        "GET /metrics?x=1 HTTP/1.1\r\nHost: 127.0.0.1\r\nUser-Agent: idlepolicyd\r\nAccept: text/plain\r\nConnection: close\r\n\r\n"
    );
    assert_eq!(request_for("http://localhost").expect("a request").addr, "localhost:80");
    assert_eq!(
        read_response("HTTP/1.1 200 OK\r\nA: b\r\n\r\nbody\n"),
        Ok("body\n".to_owned())
    );
    assert_eq!(
        read_response("HTTP/1.1 404 Not Found\r\n\r\n"),
        Err("HTTP status: HTTP/1.1 404 Not Found".to_owned())
    );
    assert_eq!(read_response("nothing"), Err("malformed HTTP response".to_owned()));
    assert_eq!(
        published("# x\n a{l=\"1 2\"} 4.5 \n\nlonely\nb 7\n"),
        vec![
            ("a".to_owned(), "4.5".to_owned()),
            ("b".to_owned(), "7".to_owned())
        ]
    );
}

#[test]
fn steam_is_looked_for_where_it_may_be() {
    assert_eq!(
        candidates(&None, &vec!["/home/a".to_owned()]),
        vec![
            "/home/a/.local/share/Steam".to_owned(),
            "/root/.local/share/Steam".to_owned()
        ]
    );
    assert_eq!(
        candidates(&Some("/games".to_owned()), &vec!["/home/a".to_owned()]),
        vec!["/games".to_owned()]
    );
    let procs = vec![
        process(5, 1, "reaper SteamLaunch AppId=1"),
        process(6, 5, "gamescope -W 100"),
        process(7, 5, "reaper SteamLaunch AppId=1 again"),
    ];
    assert_eq!(
        game_running(true, &procs),
        Reading::yes("a game (2 process(es), pid 5), the microcompositor (1 process(es), pid 6)")
    );
    assert_eq!(game_pids(&procs), vec![5, 7, 6]);
    assert_eq!(game_running(false, &procs), Reading::absent("Steam is not installed"));
    assert_eq!(game_running(true, &[]), Reading::doubt("/proc could not be read"));
    assert_eq!(
        game_running(true, &[process(1, 0, "init")]),
        Reading::no("no Steam application running")
    );
}

#[test]
fn a_download_is_seen_by_its_newest_file() {
    let now: i128 = 1_000_000_000_000;
    let file = |name: &str, secs_ago: i128| {
        Entry::File(name.to_owned(), Some(now - secs_ago * 1_000_000_000))
    };
    let walked = |entries| Staging::Walked("/d".to_owned(), entries);
    assert_eq!(
        downloading(&walked(vec![file("a", 400), file("b", 10), file("c", 20)]), None, now),
        Reading::yes("b written 10s ago (3 file(s) in the staging tree)")
    );
    assert_eq!(
        downloading(
            &walked(vec![file("a", 400)]),
            Some(Duration::from_secs(60)),
            now
        ),
        Reading::no("newest staging file a is 6m ago (window 60s)")
    );
    assert_eq!(
        downloading(&walked(vec![file("f", -50)]), None, now).state,
        FactState::True
    );
    assert_eq!(
        downloading(&walked(vec![Entry::Unreadable]), None, now),
        Reading::doubt("staging tree at /d could not be read")
    );
    assert_eq!(
        downloading(&walked(Vec::new()), None, now),
        Reading::no("staging directory is empty")
    );
    assert_eq!(
        downloading(&Staging::NoDirectory, None, now),
        Reading::absent("no staging directory (nothing has been queued)")
    );
    assert_eq!(
        downloading(&Staging::NotInstalled, None, now),
        Reading::absent("Steam is not installed")
    );
    assert_eq!(
        newest_mtime(&vec![
            Entry::File("x".to_owned(), None),
            file("y", 1),
            file("z", 1),
            Entry::Unreadable
        ]),
        (Some(("y".to_owned(), now - 1_000_000_000)), 3, 2)
    );
}

fn session(id: &str, look: Look) -> SessionEntry {
    SessionEntry {
        id: id.to_owned(),
        uid: 1000,
        user: "ann".to_owned(),
        look,
    }
}

fn record(class: &str, remote: bool, service: &str) -> Look {
    Look::Read(SessionRecord {
        class: class.to_owned(),
        remote,
        service: service.to_owned(),
        kind: "tty".to_owned(),
        opened_usec: Some(880_000_000),
    })
}

#[test]
fn somebody_from_elsewhere_is_seen() {
    let now = Duration::from_secs(1_000);
    let none = Vec::new();
    let ask = |sessions| remote(&Logind::Answered(sessions), &none, now);
    assert_eq!(ask(Vec::new()), Reading::no("no remote user session"));
    assert_eq!(
        ask(vec![
            session("1", record("user", false, "sddm")),
            session("2", record("greeter", true, "sshd")),
            session("3", record("user", false, "sshd")),
            session("4", record("user", true, "")),
        ]),
        Reading::yes(
            "3 (ann, uid 1000, sshd, opened 2m ago); 4 (ann, uid 1000, tty, opened 2m ago)"
        )
    );
    assert_eq!(
        remote(
            &Logind::Answered(vec![session("3", record("user", true, "sshd"))]),
            &vec!["3".to_owned()],
            now
        ),
        Reading::no("no remote user session")
    );
    assert_eq!(
        ask(vec![session("5", Look::BadPath("bad".to_owned()))]),
        Reading::doubt("bad session path for 5: bad")
    );
    assert_eq!(
        ask(vec![session("5", Look::Unreachable("gone".to_owned()))]),
        Reading::doubt("cannot read session 5: gone")
    );
    assert_eq!(
        ask(vec![session("5", Look::NoClass(None, "odd".to_owned()))]),
        Reading::doubt("cannot read class of 5: odd")
    );
    let gone = Some("org.freedesktop.DBus.Error.UnknownObject".to_owned());
    assert!(is_gone(&gone));
    assert!(!is_gone(&Some("org.freedesktop.DBus.Error.NoReply".to_owned())));
    assert_eq!(
        ask(vec![session("5", Look::NoClass(gone, "odd".to_owned()))]),
        Reading::no("no remote user session")
    );
    let missing: Logind<Vec<SessionEntry>> = Logind::Missing("x".to_owned());
    assert_eq!(
        remote(&missing, &none, now),
        Reading::absent("no session manager: x")
    );
    let silent: Logind<Vec<SessionEntry>> = Logind::Silent("x".to_owned());
    assert_eq!(
        remote(&silent, &none, now),
        Reading::doubt("logind did not answer ListSessions: x")
    );
}

#[test]
fn only_a_block_on_sleep_counts() {
    let blocked = |what: &str| Logind::Answered(what.to_owned());
    let entry = |what: &str, mode: &str| InhibitorEntry {
        what: what.to_owned(),
        who: "pkg".to_owned(),
        why: "update".to_owned(),
        mode: mode.to_owned(),
        uid: 0,
        pid: 42,
    };
    assert_eq!(inhibitor(&blocked(""), &None), Reading::no("no block inhibitor"));
    assert_eq!(
        inhibitor(&blocked("handle-lid-switch:idle"), &None),
        Reading::no("block inhibitors present but not on sleep/shutdown: handle-lid-switch:idle")
    );
    assert_eq!(
        inhibitor(&blocked("shutdown:idle:sleep"), &None),
        Reading::yes("block inhibitor on shutdown+sleep")
    );
    assert_eq!(
        inhibitor(
            &blocked("sleep"),
            &Some(vec![
                entry("sleep", "delay"),
                entry("shutdown:sleep", "block"),
                entry("idle", "block")
            ])
        ),
        Reading::yes("block inhibitor on sleep: pkg (uid 0, pid 42): update [shutdown:sleep]")
    );
    assert_eq!(
        inhibitor(&Logind::Silent("x".to_owned()), &None),
        Reading::doubt("cannot read BlockInhibited: x")
    );
    assert_eq!(
        inhibitor(&Logind::Missing("x".to_owned()), &None),
        Reading::absent("no session manager: x")
    );
}

#[test]
fn graphical_sessions_are_counted_by_user() {
    let asked = Logind::Answered(vec![
        (1000, "wayland".to_owned()),
        (1001, "tty".to_owned()),
        (1000, "x11".to_owned()),
        (1002, "x11".to_owned()),
    ]);
    assert_eq!(graphical_uids(&asked), Ok(vec![1000, 1002]));
    assert_eq!(
        graphical_uids(&Logind::Missing("x".to_owned())),
        Err("no session manager: x".to_owned())
    );
    assert_eq!(
        graphical_uids(&Logind::Silent("x".to_owned())),
        Err("logind did not answer ListSessions: x".to_owned())
    );
}

#[test]
fn every_other_owner_of_power_is_named() {
    let procs = vec![process(4, 1, "/usr/bin/swayidle -w")];
    assert_eq!(
        conflict_scan(
            &Some(("suspend".to_owned(), 1_800_000_000)),
            &vec!["org.kde.Solid.PowerManagement".to_owned(), ":1.2".to_owned()],
            &procs
        ),
        vec![
            "logind IdleAction=suspend after 1800s -- logind will act on its own".to_owned(),
            "org.kde.Solid.PowerManagement is owned -- a desktop power manager is running"
                .to_owned(),
            "swayidle is running -- a second idle helper".to_owned(),
        ]
    );
    assert!(conflict_scan(&Some(("ignore".to_owned(), 1)), &Vec::new(), &[]).is_empty());
    assert!(conflict_scan(&Some(("suspend".to_owned(), u64::MAX)), &Vec::new(), &[]).is_empty());
    assert!(conflict_scan(&None, &Vec::new(), &[]).is_empty());
}

#[test]
fn processes_are_read_and_found() {
    let read = Process::read(
        9,
        &Some("/usr/bin/x\0-y\0".to_owned()),
        &Some("x\n".to_owned()),
        &Some("9 (x) S 3 9 9".to_owned()),
    );
    assert_eq!(
        read,
        Process {
            pid: 9,
            ppid: 3,
            comm: "x".to_owned(),
            cmdline: "/usr/bin/x -y".to_owned()
        }
    );
    let blank = Process::read(9, &None, &None, &None);
    assert_eq!((blank.ppid, blank.comm.as_str(), blank.cmdline.as_str()), (0, "", ""));
    let procs = vec![read, blank];
    assert!(any_process_named(&procs, "x"));
    assert!(!any_process_named(&procs, "y"));
    assert_eq!(matching(&procs, "-y").len(), 1);
    assert!(listed(&[3, 4], 4));
    assert!(!listed(&[3, 4], 5));
    assert!(is_holding(FactState::Indeterminate));
    assert!(!is_holding(FactState::Unavailable));
}
