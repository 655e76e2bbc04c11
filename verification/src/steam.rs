//! Whether Steam runs a game, and whether it downloads one. The client alone is neither.
use vstd::prelude::*;
use vstd::string::StringExecFns;

use crate::fact::FactState;
use crate::lines::{none, one, push_line};
use crate::process::{has_argument, matching, Process};
use crate::reading::{ago, ago_text, Reading};
use crate::text::{decimal, join, joined, push_decimal, views};
use crate::time::{whole_secs, Duration};

verus! {

/// Where Steam keeps itself in a home directory.
pub const DEFAULT_ROOT_SUFFIX: &'static str = ".local/share/Steam";

/// What the arguments of every game that Steam starts hold.
pub const LAUNCH_SIGNATURE: &'static str = "SteamLaunch AppId=";

/// What the arguments of the shader precompiler hold.
pub const SHADER_PRECOMPILE: &'static str = "fossilize_replay";

/// What the arguments of the compositor of a game session hold.
pub const MICROCOMPOSITOR: &'static str = "gamescope";

/// How recent a download must be where no configuration says so: in seconds.
pub const DEFAULT_WINDOW_SECS: u64 = 300;

/// Where Steam may be, in the order in which to look: where the configuration says, or else in each
/// home directory and then in that of the administrator.
pub open spec fn roots(configured: Option<Seq<char>>, homes: Seq<Seq<char>>) -> Seq<Seq<char>> {
    match configured {
        Some(path) => seq![path],
        None => homes.push("/root"@).map_values(
            |home: Seq<char>| home + "/"@ + DEFAULT_ROOT_SUFFIX@,
        ),
    }
}

/// Where Steam may be, in the order in which to look.
pub fn candidates(configured: &Option<String>, homes: &Vec<String>) -> (r: Vec<String>)
    ensures
        views(r@) == roots(crate::policy::text_view(*configured), views(homes@)),
{
    match configured {
        Some(path) => return one(path.clone()),
        None => {},
    }
    let mut all = none();
    let mut i: usize = 0;
    assert(views(homes@).take(0) =~= Seq::empty());
    while i < homes.len()
        invariant
            i <= homes@.len(),
            views(all@) == views(homes@).take(i as int),
        decreases homes@.len() - i,
    {
        push_line(&mut all, homes[i].clone());
        assert(views(homes@)[i as int] == homes@[i as int]@);
        assert(views(homes@).take(i as int + 1) =~= views(homes@).take(i as int).push(
            homes@[i as int]@,
        ));
        i += 1;
    }
    assert(views(homes@).take(i as int) =~= views(homes@));
    push_line(&mut all, "/root".to_owned());
    let ghost wanted = views(all@).map_values(
        |home: Seq<char>| home + "/"@ + DEFAULT_ROOT_SUFFIX@,
    );
    let mut out = none();
    let mut k: usize = 0;
    assert(wanted.take(0) =~= Seq::empty());
    while k < all.len()
        invariant
            k <= all@.len(),
            wanted == views(all@).map_values(
                |home: Seq<char>| home + "/"@ + DEFAULT_ROOT_SUFFIX@,
            ),
            views(out@) == wanted.take(k as int),
        decreases all@.len() - k,
    {
        let mut path = all[k].clone();
        path.append("/");
        path.append(DEFAULT_ROOT_SUFFIX);
        assert(views(all@)[k as int] == all@[k as int]@);
        assert(wanted[k as int] == path@);
        assert(wanted.take(k as int + 1) =~= wanted.take(k as int).push(path@));
        push_line(&mut out, path);
        k += 1;
    }
    assert(wanted.take(k as int) =~= wanted);
    out
}

/// The processes that match are so much evidence: none, or a line.
pub open spec fn hits_text(label: Seq<char>, hits: Seq<Process>) -> Seq<Seq<char>> {
    if hits.len() == 0 {
        Seq::empty()
    } else {
        seq![
            label + " ("@ + decimal(hits.len()) + " process(es), pid "@ + decimal(
                hits[0].pid as nat,
            ) + ")"@,
        ]
    }
}

/// The evidence that a game is running.
pub open spec fn game_evidence(procs: Seq<Process>) -> Seq<Seq<char>> {
    hits_text("a game"@, procs.filter(has_argument(LAUNCH_SIGNATURE@))) + hits_text(
        "the microcompositor"@,
        procs.filter(has_argument(MICROCOMPOSITOR@)),
    ) + hits_text("shader precompilation"@, procs.filter(has_argument(SHADER_PRECOMPILE@)))
}

/// Whether Steam runs a game.
pub open spec fn game_of(installed: bool, procs: Seq<Process>) -> (FactState, Seq<char>) {
    let evidence = game_evidence(procs);
    if procs.len() == 0 {
        (FactState::Indeterminate, "/proc could not be read"@)
    } else if !installed {
        (FactState::Unavailable, "Steam is not installed"@)
    } else if evidence.len() == 0 {
        (FactState::False, "no Steam application running"@)
    } else {
        (FactState::True, joined(evidence, ", "@))
    }
}

fn add_hits(evidence: &mut Vec<String>, label: &str, procs: &[Process], needle: &str)
    ensures
        views(final(evidence)@) == views(old(evidence)@) + hits_text(
            label@,
            procs@.filter(has_argument(needle@)),
        ),
{
    let hits = matching(procs, needle);
    let ghost found = procs@.filter(has_argument(needle@));
    assert(found.len() == hits@.len());
    let ghost before = views(evidence@);
    if hits.len() > 0 {
        assert(found[0] == *hits@[0]);
        let mut line = label.to_owned();
        line.append(" (");
        push_decimal(&mut line, hits.len() as u128);
        line.append(" process(es), pid ");
        push_decimal(&mut line, hits[0].pid as u128);
        line.append(")");
        assert(views(evidence@.push(line)) =~= before + seq![line@]);
        evidence.push(line);
    } else {
        assert(before + Seq::<Seq<char>>::empty() =~= before);
    }
}

/// Decides whether Steam runs a game, by whether it is installed and by the processes.
pub fn game_running(installed: bool, procs: &[Process]) -> (r: Reading)
    ensures
        r.says(game_of(installed, procs@).0, game_of(installed, procs@).1),
{
    if procs.len() == 0 {
        return Reading::doubt("/proc could not be read");
    }
    if !installed {
        return Reading::absent("Steam is not installed");
    }
    let mut evidence: Vec<String> = Vec::new();
    assert(views(evidence@) =~= Seq::empty());
    add_hits(&mut evidence, "a game", procs, LAUNCH_SIGNATURE);
    add_hits(&mut evidence, "the microcompositor", procs, MICROCOMPOSITOR);
    add_hits(&mut evidence, "shader precompilation", procs, SHADER_PRECOMPILE);
    assert(views(evidence@) =~= game_evidence(procs@));
    assert(views(evidence@).len() == evidence@.len());
    if evidence.len() == 0 {
        Reading::no("no Steam application running")
    } else {
        let detail = join(&evidence, ", ");
        Reading::yes(detail.as_str())
    }
}

/// The numbers of processes.
pub open spec fn pids_of(procs: Seq<Process>) -> Seq<u32> {
    procs.map_values(|p: Process| p.pid)
}

fn add_pids(pids: &mut Vec<u32>, procs: &[Process], needle: &str)
    ensures
        final(pids)@ == old(pids)@ + pids_of(procs@.filter(has_argument(needle@))),
{
    let hits = matching(procs, needle);
    let ghost found = procs@.filter(has_argument(needle@));
    let ghost wanted = pids_of(found);
    let ghost before = pids@;
    assert(found.len() == hits@.len());
    assert(before + wanted.take(0) =~= before);
    let mut i: usize = 0;
    while i < hits.len()
        invariant
            i <= hits@.len(),
            hits@.len() == found.len(),
            found == hits@.map_values(|p: &Process| *p),
            wanted == pids_of(found),
            pids@ == before + wanted.take(i as int),
        decreases hits@.len() - i,
    {
        assert(found[i as int] == *hits@[i as int]);
        assert(wanted[i as int] == hits@[i as int].pid);
        pids.push(hits[i].pid);
        assert(before + wanted.take(i as int + 1) =~= (before + wanted.take(i as int)).push(
            wanted[i as int],
        ));
        i += 1;
    }
    assert(wanted.take(i as int) =~= wanted);
}

/// The processes that belong to games: those that Steam launched, the compositor and the shader
/// precompiler.
pub open spec fn launched(procs: Seq<Process>) -> Seq<u32> {
    pids_of(procs.filter(has_argument(LAUNCH_SIGNATURE@))) + pids_of(
        procs.filter(has_argument(MICROCOMPOSITOR@)),
    ) + pids_of(procs.filter(has_argument(SHADER_PRECOMPILE@)))
}

/// The processes that a game runs as.
pub fn game_pids(procs: &[Process]) -> (r: Vec<u32>)
    ensures
        r@ == launched(procs@),
{
    let mut pids: Vec<u32> = Vec::new();
    add_pids(&mut pids, procs, LAUNCH_SIGNATURE);
    assert(Seq::<u32>::empty() + pids_of(procs@.filter(has_argument(LAUNCH_SIGNATURE@)))
        =~= pids_of(procs@.filter(has_argument(LAUNCH_SIGNATURE@))));
    add_pids(&mut pids, procs, MICROCOMPOSITOR);
    add_pids(&mut pids, procs, SHADER_PRECOMPILE);
    pids
}

// ---- downloads ------------------------------------------------------------------------

/// What walking a tree came upon.
#[derive(Debug)]
pub enum Entry {
    /// A file: its name, and when it was last written, in nanoseconds since the epoch, if that
    /// could be read.
    File(String, Option<i128>),
    /// Something that could not be read.
    Unreadable,
}

/// The newest of the files: its name and when it was written. Of several, the first.
pub open spec fn newest_of(entries: Seq<Entry>) -> Option<(Seq<char>, i128)>
    decreases entries.len(),
{
    if entries.len() == 0 {
        None
    } else {
        let before = newest_of(entries.drop_last());
        match entries.last() {
            Entry::File(name, Some(written)) => match before {
                Some((_, best)) => if written > best {
                    Some((name@, written))
                } else {
                    before
                },
                None => Some((name@, written)),
            },
            _ => before,
        }
    }
}

/// How many files there are.
pub open spec fn file_count(entries: Seq<Entry>) -> nat
    decreases entries.len(),
{
    if entries.len() == 0 {
        0
    } else {
        file_count(entries.drop_last()) + if entries.last() is File {
            1nat
        } else {
            0nat
        }
    }
}

/// How many entries, or times of files, could not be read.
pub open spec fn error_count(entries: Seq<Entry>) -> nat
    decreases entries.len(),
{
    if entries.len() == 0 {
        0
    } else {
        error_count(entries.drop_last()) + match entries.last() {
            Entry::File(_, Some(_)) => 0nat,
            _ => 1nat,
        }
    }
}

/// The newest of the files, how many there are, and how many errors there were.
pub fn newest_mtime(entries: &Vec<Entry>) -> (r: (Option<(String, i128)>, usize, usize))
    ensures
        match (r.0, newest_of(entries@)) {
            (Some((name, at)), Some((wanted, written))) => name@ == wanted && at == written,
            (None, None) => true,
            _ => false,
        },
        r.1 == file_count(entries@),
        r.2 == error_count(entries@),
{
    let mut newest: Option<(String, i128)> = None;
    let mut count: usize = 0;
    let mut errors: usize = 0;
    let mut i: usize = 0;
    while i < entries.len()
        invariant
            i <= entries@.len(),
            count <= i,
            errors <= i,
            count == file_count(entries@.take(i as int)),
            errors == error_count(entries@.take(i as int)),
            match (newest, newest_of(entries@.take(i as int))) {
                (Some((name, at)), Some((wanted, written))) => name@ == wanted && at == written,
                (None, None) => true,
                _ => false,
            },
        decreases entries@.len() - i,
    {
        assert(entries@.take(i as int + 1).drop_last() =~= entries@.take(i as int));
        match &entries[i] {
            Entry::File(name, Some(written)) => {
                count += 1;
                let newer = match &newest {
                    Some((_, best)) => *written > *best,
                    None => true,
                };
                if newer {
                    newest = Some((name.clone(), *written));
                }
            },
            Entry::File(_, None) => {
                count += 1;
                errors += 1;
            },
            Entry::Unreadable => {
                errors += 1;
            },
        }
        i += 1;
    }
    assert(entries@.take(i as int) =~= entries@);
    (newest, count, errors)
}

/// What looking for a download came to.
#[derive(Debug)]
pub enum Staging {
    /// Steam is not installed.
    NotInstalled,
    /// There is no staging directory.
    NoDirectory,
    /// There is one: where it is, and what walking it came upon.
    Walked(String, Vec<Entry>),
}

/// How old a file is: one from the future is brand new.
pub open spec fn age_of(written: i128, now: i128) -> Duration {
    Duration {
        nanos: if written <= now {
            (now - written) as u128
        } else {
            0
        },
    }
}

/// Whether Steam downloads.
pub open spec fn download_of(
    staging: Staging,
    window: Option<Duration>,
    now: i128,
) -> (FactState, Seq<char>) {
    let window = match window {
        Some(window) => window,
        None => crate::time::seconds(300),
    };
    match staging {
        Staging::NotInstalled => (FactState::Unavailable, "Steam is not installed"@),
        Staging::NoDirectory => (
            FactState::Unavailable,
            "no staging directory (nothing has been queued)"@,
        ),
        Staging::Walked(path, entries) => match newest_of(entries@) {
            None => if error_count(entries@) > 0 {
                (
                    FactState::Indeterminate,
                    "staging tree at "@ + path@ + " could not be read"@,
                )
            } else {
                (FactState::False, "staging directory is empty"@)
            },
            Some((name, written)) => {
                let age = age_of(written, now);
                if age.nanos < window.nanos {
                    (
                        FactState::True,
                        name + " written "@ + ago_text(whole_secs(age)) + " ("@ + decimal(
                            file_count(entries@),
                        ) + " file(s) in the staging tree)"@,
                    )
                } else {
                    (
                        FactState::False,
                        "newest staging file "@ + name + " is "@ + ago_text(whole_secs(age))
                            + " (window "@ + decimal(whole_secs(window)) + "s)"@,
                    )
                }
            },
        },
    }
}

/// Decides whether Steam downloads, by the newest file that it is putting together and by the wall
/// clock in nanoseconds since the epoch.
pub fn downloading(staging: &Staging, window: Option<Duration>, now: i128) -> (r: Reading)
    ensures
        r.says(download_of(*staging, window, now).0, download_of(*staging, window, now).1),
{
    let window = match window {
        Some(window) => window,
        None => Duration::from_secs(DEFAULT_WINDOW_SECS),
    };
    let (path, entries) = match staging {
        Staging::NotInstalled => return Reading::absent("Steam is not installed"),
        Staging::NoDirectory => {
            return Reading::absent("no staging directory (nothing has been queued)");
        },
        Staging::Walked(path, entries) => (path, entries),
    };
    let (newest, count, errors) = newest_mtime(entries);
    let (name, written) = match newest {
        Some(found) => found,
        None => {
            if errors > 0 {
                let mut detail = "staging tree at ".to_owned();
                detail.append(path.as_str());
                detail.append(" could not be read");
                return Reading::doubt(detail.as_str());
            }
            return Reading::no("staging directory is empty");
        },
    };
    let age = age_at(written, now);
    let text = ago(age);
    if age.nanos < window.nanos {
        let mut detail = name.clone();
        detail.append(" written ");
        detail.append(text.as_str());
        detail.append(" (");
        push_decimal(&mut detail, count as u128);
        detail.append(" file(s) in the staging tree)");
        Reading::yes(detail.as_str())
    } else {
        let mut detail = "newest staging file ".to_owned();
        detail.append(name.as_str());
        detail.append(" is ");
        detail.append(text.as_str());
        detail.append(" (window ");
        push_decimal(&mut detail, window.as_secs() as u128);
        detail.append("s)");
        Reading::no(detail.as_str())
    }
}

fn age_at(written: i128, now: i128) -> (r: Duration)
    ensures
        r == age_of(written, now),
{
    if written > now {
        return Duration { nanos: 0 };
    }
    let nanos: u128 = if written >= 0 || now < 0 {
        (now - written) as u128
    } else if written == i128::MIN {
        (now as u128) + (i128::MAX as u128) + 1
    } else {
        (now as u128) + ((-written) as u128)
    };
    Duration { nanos }
}

/// The file that is reported is the newest of all, whatever the order in which they were found.
pub proof fn the_newest_is_the_newest(entries: Seq<Entry>)
    ensures
        forall|i: int|
            #![trigger entries[i]]
            0 <= i < entries.len() ==> (entries[i] matches Entry::File(_, Some(written)) ==> {
                &&& newest_of(entries) is Some
                &&& written <= newest_of(entries)->Some_0.1
            }),
        newest_of(entries) is Some ==> exists|i: int|
            #![trigger entries[i]]
            0 <= i < entries.len() && (entries[i] matches Entry::File(name, Some(written))
                && newest_of(entries) == Some((name@, written))),
    decreases entries.len(),
{
    if entries.len() > 0 {
        let fewer = entries.drop_last();
        the_newest_is_the_newest(fewer);
        assert forall|i: int|
            #![trigger entries[i]]
            0 <= i < entries.len() implies (entries[i] matches Entry::File(_, Some(written)) ==> {
            &&& newest_of(entries) is Some
            &&& written <= newest_of(entries)->Some_0.1
        }) by {
            if i < fewer.len() {
                assert(fewer[i] == entries[i]);
            }
        }
        if newest_of(fewer) is Some {
            let i = choose|i: int|
                #![trigger fewer[i]]
                0 <= i < fewer.len() && (fewer[i] matches Entry::File(name, Some(written))
                    && newest_of(fewer) == Some((name@, written)));
            assert(entries[i] == fewer[i]);
        }
        assert(entries[entries.len() - 1] == entries.last());
    }
}

} // verus!
