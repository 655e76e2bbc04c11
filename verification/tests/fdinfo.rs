use idlectl::session::fdinfo::{fold, parse_size, read, ProcessFiles};

const VRAM: &str = "\
pos:    0
drm-driver:     amdgpu
drm-client-id:  42
drm-resident-vram:      614400 KiB
";

#[test]
fn memory_is_counted_once_per_drm_client_not_once_per_descriptor() {
    let (bytes, saw) = fold(&vec![VRAM.to_owned(), VRAM.to_owned(), VRAM.to_owned()]);
    assert!(saw);
    assert_eq!(bytes, 614_400 * 1024, "one client, counted once");
}

#[test]
fn separate_drm_clients_in_one_process_add_up() {
    let second = VRAM.replace("drm-client-id:  42", "drm-client-id:  43");
    let (bytes, _) = fold(&vec![VRAM.to_owned(), second]);
    assert_eq!(bytes, 2 * 614_400 * 1024);
}

#[test]
fn a_client_id_with_no_memory_key_is_not_a_reading() {
    let text = "\
pos:    0
drm-driver:     nvidia-drm
drm-client-id:  7
";
    let (bytes, saw) = fold(&vec![text.to_owned()]);
    assert_eq!(bytes, 0);
    assert!(
        !saw,
        "no memory key was published, so this source saw nothing"
    );
}

#[test]
fn an_integrated_gpu_falls_back_to_the_shared_aperture() {
    let text = "\
drm-driver:     i915
drm-client-id:  3
drm-resident-vram:      0 KiB
drm-resident-gtt:       2 MiB
";
    let (bytes, saw) = fold(&vec![text.to_owned()]);
    assert!(saw);
    assert_eq!(bytes, 2 * 1024 * 1024);
}

#[test]
fn a_file_that_is_not_a_drm_client_is_ignored() {
    let (bytes, saw) = fold(&vec!["pos:\t0\nflags:\t02\nmnt_id:\t24\n".to_owned()]);
    assert_eq!(bytes, 0);
    assert!(!saw);
}

#[test]
fn fdinfo_sizes_default_to_kib() {
    assert_eq!(parse_size("16384 KiB"), 16 * 1024 * 1024);
    assert_eq!(parse_size("2 MiB"), 2 * 1024 * 1024);
    assert_eq!(parse_size("1048576"), 1024 * 1024 * 1024);
    assert_eq!(parse_size("nonsense"), 0);
}

#[test]
fn the_walk_reports_each_pid_at_most_once() {
    let process = |pid: u32| ProcessFiles {
        pid,
        cmdline: "/usr/bin/game\0--fullscreen\0".to_owned(),
        comm: Some("game\n".to_owned()),
        files: vec![VRAM.to_owned(), VRAM.to_owned()],
    };
    let procs = vec![process(1), process(2), process(3)];
    let mut pids: Vec<u32> = read(&procs).into_iter().map(|(pid, _, _)| pid).collect();
    let before = pids.len();
    assert_eq!(before, 3);
    pids.sort_unstable();
    pids.dedup();
    assert_eq!(pids.len(), before, "one entry per process");
}
