use idlectl::steam::{newest_mtime, Entry, LAUNCH_SIGNATURE, SHADER_PRECOMPILE};

const NOW: i128 = 1_800_000_000_000_000_000;
const HOUR: i128 = 3_600_000_000_000;

#[test]
fn newest_mtime_reports_the_newest_and_not_the_first() {
    let walked = vec![
        Entry::File("old.bin".to_owned(), Some(NOW - HOUR)),
        Entry::File("new.bin".to_owned(), Some(NOW)),
    ];
    let (newest, count, errors) = newest_mtime(&walked);
    let (name, _) = newest.expect("a file was written");
    assert_eq!(name, "new.bin");
    assert_eq!(count, 2, "the walk must descend into subdirectories");
    assert_eq!(errors, 0);
}

#[test]
fn an_empty_tree_has_no_newest() {
    let (newest, count, errors) = newest_mtime(&Vec::new());
    assert!(newest.is_none());
    assert_eq!((count, errors), (0, 0));
}

#[test]
fn the_launch_signature_spans_two_argv_entries() {
    assert!(LAUNCH_SIGNATURE.contains(' '));
    let joined = "/usr/bin/reaper SteamLaunch AppId=1551360 -- /usr/bin/proton run";
    assert!(joined.contains(LAUNCH_SIGNATURE));
}

#[test]
fn the_shader_precompiler_name_does_not_fit_in_comm() {
    assert!(SHADER_PRECOMPILE.len() > 15);
}
