//! What counts as evidence of work: memory of the GPU, games, downloads and the counters of a service.
use vstd::prelude::*;

use crate::counters::{
    answer_of, authority_of, closing, declared, host_of, is_labels, listens_at, metric, metrics, path_of, sample_of,
    service_of, tally, Sample, Sampler,
};
use crate::fact::FactState;
use crate::gpu::{
    csv_fields, csv_holder, csv_holders, evidence_of, holder_views, no_device, place_of, split_of, splits, with_holder,
    with_holders, Held, NvidiaResult, Split,
};
use crate::policy::FactSettings;
use crate::process::{comes_from, has_argument, Process};
use crate::reading::Reading;
use crate::spelling::{
    fields_are_what_a_separator_parts, lacks, lemma_index_at, lemma_last_index_at, one_word,
    the_first_place_is_the_first, the_last_part_follows_the_last_separator, white_space_around_a_text_is_no_part_of_it,
    words_are_what_white_space_parts,
};
use crate::steam::{
    download_of, error_count, game_evidence, game_of, launched, newest_of, pids_of, roots, Entry,
    Staging,
};
use crate::text::{decimal, fields, holds, is_space, lines, place_of_text, trimmed, words};
use crate::time::{BootInstant, Duration};

verus! {

// ---- memory of the GPU ----------------------------------------------------------------

/// Whether a name is that of a part of the desktop.
pub open spec fn names_the_desktop(name: Seq<char>) -> bool {
    ||| name == "kwin_wayland"@
    ||| name == "kwin_x11"@
    ||| name == "plasmashell"@
    ||| name == "kded6"@
    ||| name == "ksmserver"@
    ||| name == "Xwayland"@
    ||| name == "Xorg"@
    ||| name == "gnome-shell"@
    ||| name == "mutter"@
    ||| name == "sway"@
    ||| name == "Hyprland"@
    ||| name == "wayfire"@
    ||| name == "labwc"@
    ||| name == "cosmic-comp"@
}

proof fn lemma_desktop(name: Seq<char>)
    ensures
        crate::gpu::desktop_names().contains(name) <==> names_the_desktop(name),
{
    let names = crate::gpu::desktop_names();
    assert(names.len() == 14);
    assert(names[0] == "kwin_wayland"@ && names[1] == "kwin_x11"@ && names[2] == "plasmashell"@
        && names[3] == "kded6"@ && names[4] == "ksmserver"@ && names[5] == "Xwayland"@ && names[6]
        == "Xorg"@ && names[7] == "gnome-shell"@ && names[8] == "mutter"@ && names[9] == "sway"@
        && names[10] == "Hyprland"@ && names[11] == "wayfire"@ && names[12] == "labwc"@
        && names[13] == "cosmic-comp"@);
    if names.contains(name) {
        let i = choose|i: int| 0 <= i < names.len() && names[i] == name;
        assert(0 <= i < 14);
    }
}

/// A process is part of the desktop exactly where it has one of the names of the desktop.
pub proof fn the_desktop_is_known_by_name(name: Seq<char>)
    ensures
        crate::gpu::desktop_names().contains(name) <==> names_the_desktop(name),
{
    lemma_desktop(name);
}

/// Whether a holder is in use: it holds half a gibibyte or more, and is no part of the desktop.
pub open spec fn in_use(h: Held) -> bool {
    h.bytes >= 536_870_912 && !names_the_desktop(h.name)
}

/// Whether a holder belongs to a game that is running. A process of the system does not, while a
/// service is at work or may be.
pub open spec fn of_a_game(
    h: Held,
    procs: Seq<Process>,
    game_pids: Seq<u32>,
    game_running: bool,
    service: FactState,
    system_pids: Seq<u32>,
) -> bool {
    &&& game_running
    &&& comes_from(procs, h.pid, game_pids)
    &&& (service == FactState::True || service == FactState::Indeterminate)
        ==> !system_pids.contains(h.pid)
}

/// Whether some holder is in use that belongs to a game, or that does not.
pub open spec fn some_in_use(
    holders: Seq<Held>,
    game: bool,
    procs: Seq<Process>,
    game_pids: Seq<u32>,
    game_running: bool,
    service: FactState,
    system_pids: Seq<u32>,
) -> bool {
    exists|i: int|
        #![trigger holders[i]]
        0 <= i < holders.len() && in_use(holders[i]) && of_a_game(
            holders[i],
            procs,
            game_pids,
            game_running,
            service,
            system_pids,
        ) == game
}

proof fn lemma_some_evidence(
    holders: Seq<Held>,
    game: bool,
    procs: Seq<Process>,
    game_pids: Seq<u32>,
    game_running: bool,
    service: FactState,
    system_pids: Seq<u32>,
)
    ensures
        evidence_of(
            holders,
            game,
            procs,
            game_pids,
            game_running,
            service == FactState::True || service == FactState::Indeterminate,
            system_pids,
        ).len() > 0 <==> some_in_use(
            holders,
            game,
            procs,
            game_pids,
            game_running,
            service,
            system_pids,
        ),
    decreases holders.len(),
{
    if holders.len() > 0 {
        let fewer = holders.drop_last();
        let last = holders[holders.len() - 1];
        assert(last == holders.last());
        lemma_some_evidence(fewer, game, procs, game_pids, game_running, service, system_pids);
        lemma_desktop(last.name);
        assert forall|i: int| 0 <= i < fewer.len() implies #[trigger] fewer[i] == holders[i] by {}
        if some_in_use(holders, game, procs, game_pids, game_running, service, system_pids) {
            let i = choose|i: int|
                #![trigger holders[i]]
                0 <= i < holders.len() && in_use(holders[i]) && of_a_game(
                    holders[i],
                    procs,
                    game_pids,
                    game_running,
                    service,
                    system_pids,
                ) == game;
            if i < fewer.len() {
                assert(fewer[i] == holders[i]);
            }
        }
    }
}

/// Every holder that is in use is evidence of one of the two facts: of a game where it belongs to
/// one, and else of other work. Without processes, or where the driver does not answer, both facts
/// are in doubt; without any source there is nothing that could hold memory.
pub proof fn memory_in_use_is_a_games_or_other_work(
    split: Split,
    procs: Seq<Process>,
    reported: Seq<Held>,
    nvidia: NvidiaResult,
    game_pids: Seq<u32>,
    game_running: bool,
    service: FactState,
    system_pids: Seq<u32>,
)
    requires
        splits(
            split,
            split_of(procs, reported, nvidia, game_pids, game_running, service, system_pids),
        ),
    ensures
        procs.len() == 0 || nvidia is Failed ==> split.game.state == FactState::Indeterminate
            && split.other.state == FactState::Indeterminate,
        procs.len() > 0 && nvidia is Absent && reported.len() == 0 ==> split.game.state
            == FactState::Unavailable && split.other.state == FactState::Unavailable,
        procs.len() > 0 && (nvidia is Holders || (nvidia is Absent && reported.len() > 0)) ==> {
            let all = match nvidia {
                NvidiaResult::Holders(found) => with_holders(reported, holder_views(found@)),
                _ => reported,
            };
            &&& split.game.state == (if some_in_use(
                all,
                true,
                procs,
                game_pids,
                game_running,
                service,
                system_pids,
            ) {
                FactState::True
            } else {
                FactState::False
            })
            &&& split.other.state == (if some_in_use(
                all,
                false,
                procs,
                game_pids,
                game_running,
                service,
                system_pids,
            ) {
                FactState::True
            } else {
                FactState::False
            })
        },
{
    let all = match nvidia {
        NvidiaResult::Holders(found) => with_holders(reported, holder_views(found@)),
        _ => reported,
    };
    lemma_some_evidence(all, true, procs, game_pids, game_running, service, system_pids);
    lemma_some_evidence(all, false, procs, game_pids, game_running, service, system_pids);
}

proof fn lemma_place(holders: Seq<Held>, pid: u32)
    ensures
        0 <= place_of(holders, pid) <= holders.len(),
        place_of(holders, pid) < holders.len() ==> holders[place_of(holders, pid)].pid == pid,
        forall|i: int| 0 <= i < place_of(holders, pid) ==> (#[trigger] holders[i]).pid != pid,
    decreases holders.len(),
{
    if holders.len() > 0 && holders[0].pid != pid {
        lemma_place(holders.skip(1), pid);
        assert forall|i: int| 0 <= i < place_of(holders, pid) implies (#[trigger] holders[i]).pid
            != pid by {
            if i > 0 {
                assert(holders.skip(1)[i - 1] == holders[i]);
            }
        }
    }
}

/// Whether a list has a process with an amount of memory.
pub open spec fn names_amount(holders: Seq<Held>, pid: u32, bytes: u64) -> bool {
    exists|i: int|
        #![trigger holders[i]]
        0 <= i < holders.len() && holders[i].pid == pid && holders[i].bytes == bytes
}

/// Where two sources are put together, who was there stays, in its place and under its name, and
/// never with less. Each process of the second source is there with no less than that source says.
/// No amount is made up: each is one that a source says of that process.
pub proof fn two_sources_make_the_larger_amount(into: Seq<Held>, extra: Seq<Held>)
    ensures
        ({
            let all = with_holders(into, extra);
            &&& all.len() >= into.len()
            &&& forall|i: int|
                0 <= i < into.len() ==> (#[trigger] all[i]).pid == into[i].pid && all[i].name
                    == into[i].name && all[i].bytes >= into[i].bytes
            &&& forall|j: int|
                #![trigger extra[j]]
                0 <= j < extra.len() ==> exists|i: int|
                    #![trigger all[i]]
                    0 <= i < all.len() && all[i].pid == extra[j].pid && all[i].bytes
                        >= extra[j].bytes
            &&& forall|i: int|
                #![trigger all[i]]
                0 <= i < all.len() ==> names_amount(into, all[i].pid, all[i].bytes)
                    || names_amount(extra, all[i].pid, all[i].bytes)
        }),
    decreases extra.len(),
{
    let all = with_holders(into, extra);
    if extra.len() == 0 {
        assert forall|i: int|
            #![trigger all[i]]
            0 <= i < all.len() implies names_amount(into, all[i].pid, all[i].bytes)
            || names_amount(extra, all[i].pid, all[i].bytes) by {
            assert(into[i] == all[i]);
        }
    } else {
        let fewer = extra.drop_last();
        let last = extra[extra.len() - 1];
        let before = with_holders(into, fewer);
        assert(last == extra.last());
        two_sources_make_the_larger_amount(into, fewer);
        assert(all == with_holder(before, last));
        let at = place_of(before, last.pid);
        lemma_place(before, last.pid);
        assert forall|i: int| 0 <= i < into.len() implies (#[trigger] all[i]).pid == into[i].pid
            && all[i].name == into[i].name && all[i].bytes >= into[i].bytes by {
            assert(before[i].pid == into[i].pid);
        }
        assert(at < before.len() ==> all[at].bytes >= last.bytes && all[at].pid == last.pid);
        assert(at >= before.len() ==> all[before.len() as int] == last);
        assert forall|j: int|
            #![trigger extra[j]]
            0 <= j < extra.len() implies exists|i: int|
            #![trigger all[i]]
            0 <= i < all.len() && all[i].pid == extra[j].pid && all[i].bytes >= extra[j].bytes by {
            if j < fewer.len() {
                assert(fewer[j] == extra[j]);
                let i = choose|i: int|
                    #![trigger before[i]]
                    0 <= i < before.len() && before[i].pid == fewer[j].pid && before[i].bytes
                        >= fewer[j].bytes;
                assert(all[i].pid == extra[j].pid && all[i].bytes >= extra[j].bytes);
            } else if at < before.len() {
                assert(all[at].pid == extra[j].pid);
            } else {
                assert(all[before.len() as int] == last);
            }
        }
        assert forall|i: int|
            #![trigger all[i]]
            0 <= i < all.len() implies names_amount(into, all[i].pid, all[i].bytes)
            || names_amount(extra, all[i].pid, all[i].bytes) by {
            if i < before.len() && all[i] == before[i] {
                assert(names_amount(into, before[i].pid, before[i].bytes) || names_amount(
                    fewer,
                    before[i].pid,
                    before[i].bytes,
                ));
                if names_amount(fewer, before[i].pid, before[i].bytes) {
                    let k = choose|k: int|
                        #![trigger fewer[k]]
                        0 <= k < fewer.len() && fewer[k].pid == before[i].pid && fewer[k].bytes
                            == before[i].bytes;
                    assert(extra[k] == fewer[k]);
                }
            } else {
                assert(extra[extra.len() - 1].bytes == all[i].bytes);
            }
        }
    }
}

/// A line of the driver is read as the number of the process, the last part of its path and its
/// memory, which is told in mebibytes.
pub proof fn a_line_of_the_driver_is_read(pid: u32, dir: Seq<char>, file: Seq<char>, mib: u64)
    requires
        lacks(dir, ','),
        lacks(file, ','),
        lacks(file, '/'),
        dir.len() > 0 ==> !is_space(dir[0]),
        file.len() > 0,
        !is_space(file[file.len() - 1]),
        mib * 1_048_576 <= u64::MAX,
    ensures
        csv_holder(
            decimal(pid as nat) + seq![','] + (seq![' '] + (dir + seq!['/'] + file) + seq![','] + (
            seq![' '] + decimal(mib as nat))),
        ) == Some(Held { pid, name: file, bytes: (mib * 1_048_576) as u64 }),
{
    let path = dir + seq!['/'] + file;
    let a = decimal(pid as nat);
    let b = seq![' '] + path;
    let c = seq![' '] + decimal(mib as nat);
    let rest = b + seq![','] + c;
    let line = a + seq![','] + rest;
    crate::text::lemma_decimal_reads_back(pid as nat);
    crate::text::lemma_decimal_reads_back(mib as nat);
    assert forall|i: int| 0 <= i < a.len() implies #[trigger] a[i] != ',' by {
        assert(crate::text::is_digit(a[i]));
    }
    assert forall|i: int| 0 <= i < c.len() implies #[trigger] c[i] != ',' by {
        if i > 0 {
            assert(c[i] == decimal(mib as nat)[i - 1]);
            assert(crate::text::is_digit(decimal(mib as nat)[i - 1]));
        }
    }
    assert forall|i: int| 0 <= i < b.len() implies #[trigger] b[i] != ',' by {
        if 0 < i <= dir.len() {
            assert(b[i] == dir[i - 1]);
        } else if i > dir.len() + 1 {
            assert(b[i] == file[i - dir.len() - 2]);
        }
    }
    fields_are_what_a_separator_parts(a, ',', rest);
    fields_are_what_a_separator_parts(b, ',', c);
    fields_are_what_a_separator_parts(c, ',', Seq::empty());
    let raw = fields(line, ',');
    assert(raw =~= seq![a, b, c]);
    let parts = csv_fields(line);
    let none = Seq::<char>::empty();
    assert(is_space(' '));
    assert forall|i: int| 0 <= i < a.len() implies !is_space(#[trigger] a[i]) by {
        assert(crate::text::is_digit(a[i]));
    }
    let d = decimal(mib as nat);
    assert forall|i: int| 0 <= i < d.len() implies !is_space(#[trigger] d[i]) by {
        assert(crate::text::is_digit(d[i]));
    }
    white_space_around_a_text_is_no_part_of_it(none, a, none);
    assert(none + a + none =~= a);
    assert(path[0] == (if dir.len() > 0 {
        dir[0]
    } else {
        '/'
    }));
    assert(path[path.len() - 1] == file[file.len() - 1]);
    white_space_around_a_text_is_no_part_of_it(seq![' '], path, none);
    assert(seq![' '] + path + none =~= b);
    white_space_around_a_text_is_no_part_of_it(seq![' '], d, none);
    assert(seq![' '] + d + none =~= c);
    assert(parts =~= seq![a, path, d]);
    the_last_part_follows_the_last_separator(dir, '/', file);
}

// ---- games and downloads --------------------------------------------------------------

/// Whether a process belongs to a game: by its arguments it was launched as one, is the compositor of
/// a game session or compiles shaders.
pub open spec fn plays(p: Process) -> bool {
    ||| holds(p.cmdline@, "SteamLaunch AppId="@)
    ||| holds(p.cmdline@, "gamescope"@)
    ||| holds(p.cmdline@, "fossilize_replay"@)
}

proof fn lemma_filtered(procs: Seq<Process>, needle: Seq<char>)
    ensures
        procs.filter(has_argument(needle)).len() > 0 <==> exists|i: int|
            #![trigger procs[i]]
            0 <= i < procs.len() && holds(procs[i].cmdline@, needle),
        forall|pid: u32| #[trigger]
            pids_of(procs.filter(has_argument(needle))).contains(pid) <==> exists|i: int|
                #![trigger procs[i]]
                0 <= i < procs.len() && procs[i].pid == pid && holds(procs[i].cmdline@, needle),
    decreases procs.len(),
{
    reveal(Seq::filter);
    let want = has_argument(needle);
    let found = procs.filter(want);
    if procs.len() > 0 {
        let fewer = procs.drop_last();
        let last = procs[procs.len() - 1];
        assert(last == procs.last());
        lemma_filtered(fewer, needle);
        let before = fewer.filter(want);
        assert forall|i: int| 0 <= i < fewer.len() implies #[trigger] fewer[i] == procs[i] by {}
        assert(found == (if want(last) {
            before.push(last)
        } else {
            before
        }));
        if exists|i: int|
            #![trigger procs[i]]
            0 <= i < procs.len() && holds(procs[i].cmdline@, needle) {
            let i = choose|i: int|
                #![trigger procs[i]]
                0 <= i < procs.len() && holds(procs[i].cmdline@, needle);
            if i < fewer.len() {
                assert(fewer[i] == procs[i]);
            }
        }
        assert forall|pid: u32| #[trigger] pids_of(found).contains(pid) <==> exists|i: int|
            #![trigger procs[i]]
            0 <= i < procs.len() && procs[i].pid == pid && holds(procs[i].cmdline@, needle) by {
            if pids_of(found).contains(pid) {
                let k = choose|k: int| 0 <= k < pids_of(found).len() && pids_of(found)[k] == pid;
                if k < before.len() {
                    assert(pids_of(before)[k] == pid);
                    assert(pids_of(before).contains(pid));
                    let i = choose|i: int|
                        #![trigger fewer[i]]
                        0 <= i < fewer.len() && fewer[i].pid == pid && holds(
                            fewer[i].cmdline@,
                            needle,
                        );
                    assert(procs[i] == fewer[i]);
                } else {
                    assert(last.pid == pid);
                }
            }
            if exists|i: int|
                #![trigger procs[i]]
                0 <= i < procs.len() && procs[i].pid == pid && holds(procs[i].cmdline@, needle) {
                let i = choose|i: int|
                    #![trigger procs[i]]
                    0 <= i < procs.len() && procs[i].pid == pid && holds(procs[i].cmdline@, needle);
                if i < fewer.len() {
                    assert(fewer[i] == procs[i]);
                    assert(pids_of(before).contains(pid));
                    let k = choose|k: int|
                        0 <= k < pids_of(before).len() && pids_of(before)[k] == pid;
                    assert(pids_of(found)[k] == pid);
                } else {
                    assert(pids_of(found)[before.len() as int] == pid);
                }
            }
        }
    }
}

/// A game is running exactly where Steam is installed and a process belongs to a game. Without
/// processes there is doubt, and without Steam there is nothing that could run.
pub proof fn a_game_runs_where_a_process_plays(installed: bool, procs: Seq<Process>, reading: Reading)
    requires
        reading.says(game_of(installed, procs).0, game_of(installed, procs).1),
    ensures
        reading.state == (if procs.len() == 0 {
            FactState::Indeterminate
        } else if !installed {
            FactState::Unavailable
        } else if exists|i: int| #![trigger procs[i]] 0 <= i < procs.len() && plays(procs[i]) {
            FactState::True
        } else {
            FactState::False
        }),
{
    lemma_filtered(procs, "SteamLaunch AppId="@);
    lemma_filtered(procs, "gamescope"@);
    lemma_filtered(procs, "fossilize_replay"@);
    let plain = game_evidence(procs).len() > 0;
    if exists|i: int| #![trigger procs[i]] 0 <= i < procs.len() && plays(procs[i]) {
        let i = choose|i: int| #![trigger procs[i]] 0 <= i < procs.len() && plays(procs[i]);
        assert(plays(procs[i]));
        assert(plain);
    }
    if plain {
        assert(exists|i: int| #![trigger procs[i]] 0 <= i < procs.len() && plays(procs[i]));
    }
}

/// The processes of games are those that belong to one, and no others.
pub proof fn the_processes_of_games_are_those_that_play(procs: Seq<Process>, pid: u32)
    ensures
        launched(procs).contains(pid) <==> exists|i: int|
            #![trigger procs[i]]
            0 <= i < procs.len() && procs[i].pid == pid && plays(procs[i]),
{
    lemma_filtered(procs, "SteamLaunch AppId="@);
    lemma_filtered(procs, "gamescope"@);
    lemma_filtered(procs, "fossilize_replay"@);
    let a = pids_of(procs.filter(has_argument("SteamLaunch AppId="@)));
    let b = pids_of(procs.filter(has_argument("gamescope"@)));
    let c = pids_of(procs.filter(has_argument("fossilize_replay"@)));
    let all = launched(procs);
    assert(all =~= a + b + c);
    if all.contains(pid) {
        let k = choose|k: int| 0 <= k < all.len() && all[k] == pid;
        if k < a.len() {
            assert(a[k] == pid);
        } else if k < a.len() + b.len() {
            assert(b[k - a.len()] == pid);
        } else {
            assert(c[k - a.len() - b.len()] == pid);
        }
        assert(a.contains(pid) || b.contains(pid) || c.contains(pid));
    }
    if a.contains(pid) {
        let k = choose|k: int| 0 <= k < a.len() && a[k] == pid;
        assert(all[k] == pid);
    }
    if b.contains(pid) {
        let k = choose|k: int| 0 <= k < b.len() && b[k] == pid;
        assert(all[a.len() + k] == pid);
    }
    if c.contains(pid) {
        let k = choose|k: int| 0 <= k < c.len() && c[k] == pid;
        assert(all[a.len() + b.len() + k] == pid);
    }
    if exists|i: int|
        #![trigger procs[i]]
        0 <= i < procs.len() && procs[i].pid == pid && plays(procs[i]) {
        let i = choose|i: int|
            #![trigger procs[i]]
            0 <= i < procs.len() && procs[i].pid == pid && plays(procs[i]);
        assert(plays(procs[i]));
        assert(a.contains(pid) || b.contains(pid) || c.contains(pid));
    }
}

/// Whether an entry is a file that was written within a span before an instant, or after it.
pub open spec fn fresh(entry: Entry, span: int, now: i128) -> bool {
    entry matches Entry::File(_, Some(written)) && span > 0 && now - written < span
}

/// Whether the time of an entry is known.
pub open spec fn dated(entry: Entry) -> bool {
    entry matches Entry::File(_, Some(_))
}

proof fn lemma_newest(entries: Seq<Entry>)
    ensures
        newest_of(entries) is None <==> forall|i: int|
            0 <= i < entries.len() ==> !dated(#[trigger] entries[i]),
        newest_of(entries) matches Some((_, best)) ==> (forall|i: int|
            #![trigger entries[i]]
            0 <= i < entries.len() ==> (entries[i] matches Entry::File(_, Some(written)) ==> written
                <= best)) && (exists|i: int|
            #![trigger entries[i]]
            0 <= i < entries.len() && (entries[i] matches Entry::File(_, Some(written)) && written
                == best)),
        error_count(entries) > 0 <==> exists|i: int|
            #![trigger entries[i]]
            0 <= i < entries.len() && !dated(entries[i]),
    decreases entries.len(),
{
    if entries.len() > 0 {
        let fewer = entries.drop_last();
        lemma_newest(fewer);
        assert forall|i: int| 0 <= i < fewer.len() implies #[trigger] fewer[i] == entries[i] by {}
        assert(entries[entries.len() - 1] == entries.last());
        if newest_of(entries) is None {
            assert forall|i: int| 0 <= i < entries.len() implies !dated(#[trigger] entries[i]) by {
                if i < fewer.len() {
                    assert(!dated(fewer[i]));
                }
            }
        } else if newest_of(fewer) is Some {
            let best = newest_of(entries)->Some_0.1;
            assert forall|i: int|
                #![trigger entries[i]]
                0 <= i < entries.len() implies (entries[i] matches Entry::File(_, Some(written))
                ==> written <= best) by {
                if i < fewer.len() {
                    assert(fewer[i] == entries[i]);
                }
            }
            let i = choose|i: int|
                #![trigger fewer[i]]
                0 <= i < fewer.len() && (fewer[i] matches Entry::File(_, Some(written)) && written
                    == newest_of(fewer)->Some_0.1);
            assert(entries[i] == fewer[i]);
        } else {
            assert forall|i: int|
                #![trigger entries[i]]
                0 <= i < entries.len() implies (entries[i] matches Entry::File(_, Some(written))
                ==> written <= newest_of(entries)->Some_0.1) by {
                if i < fewer.len() {
                    assert(!dated(fewer[i]));
                }
            }
        }
        if exists|i: int| #![trigger entries[i]] 0 <= i < entries.len() && !dated(entries[i]) {
            let i = choose|i: int|
                #![trigger entries[i]]
                0 <= i < entries.len() && !dated(entries[i]);
            if i < fewer.len() {
                assert(!dated(fewer[i]));
            }
        }
    }
}

/// Steam downloads exactly where some file of the staging tree was written within the window, which
/// is five minutes where none is set. Where no time of a file is known and something could not be
/// read there is doubt. Without Steam, or without a staging directory, there is nothing to download.
pub proof fn a_download_is_a_file_written_lately(
    staging: Staging,
    window: Option<Duration>,
    now: i128,
    reading: Reading,
)
    requires
        reading.says(download_of(staging, window, now).0, download_of(staging, window, now).1),
    ensures
        ({
            let span = match window {
                Some(d) => d.nanos as int,
                None => 300_000_000_000,
            };
            match staging {
                Staging::NotInstalled => reading.state == FactState::Unavailable,
                Staging::NoDirectory => reading.state == FactState::Unavailable,
                Staging::Walked(_, entries) => {
                    let lately = exists|i: int|
                        #![trigger entries@[i]]
                        0 <= i < entries@.len() && fresh(entries@[i], span, now);
                    let blind = entries@.len() > 0 && forall|i: int|
                        0 <= i < entries@.len() ==> !dated(#[trigger] entries@[i]);
                    &&& reading.state == FactState::True <==> lately
                    &&& reading.state == FactState::Indeterminate <==> blind
                    &&& reading.state == FactState::False <==> !lately && !blind
                },
            }
        }),
{
    if let Staging::Walked(_, entries) = staging {
        lemma_newest(entries@);
        let span = match window {
            Some(d) => d.nanos as int,
            None => 300_000_000_000,
        };
        if newest_of(entries@) is Some {
            let best = newest_of(entries@)->Some_0.1;
            let i = choose|i: int|
                #![trigger entries@[i]]
                0 <= i < entries@.len() && (entries@[i] matches Entry::File(_, Some(written))
                    && written == best);
            assert(dated(entries@[i]));
            assert(span > 0 && now - best < span ==> fresh(entries@[i], span, now));
            assert forall|k: int| 0 <= k < entries@.len() && fresh(#[trigger] entries@[k], span, now)
                implies now - best < span by {}
        } else if entries@.len() > 0 {
            assert(!dated(entries@[0]));
            assert forall|k: int| 0 <= k < entries@.len() implies !fresh(
                #[trigger] entries@[k],
                span,
                now,
            ) by {
                assert(!dated(entries@[k]));
            }
        }
    }
}

/// Steam is looked for where the configuration says, and nowhere else; where it says nothing, under
/// each home directory in turn and last under that of the administrator.
pub proof fn steam_is_looked_for_where_it_is_said_to_be(
    path: Seq<char>,
    homes: Seq<Seq<char>>,
    i: int,
)
    ensures
        roots(Some(path), homes) == seq![path],
        roots(None, homes).len() == homes.len() + 1,
        0 <= i < homes.len() ==> roots(None, homes)[i] == homes[i] + "/"@ + ".local/share/Steam"@,
        roots(None, homes)[homes.len() as int] == "/root"@ + "/"@ + ".local/share/Steam"@,
{
}

// ---- the counters of a service --------------------------------------------------------

/// A service is at work exactly where requests are in flight, or where its counters last moved less
/// than the window ago, which is half an hour where none is set. Counters move where they are not
/// what they were at the sample before.
pub proof fn a_service_is_at_work_while_it_moves(
    before: Sampler,
    settings: FactSettings,
    now: BootInstant,
    fetched: Result<String, String>,
    wholes: Seq<Option<u64>>,
    sample: Sample,
    reading: Reading,
    after: Sampler,
)
    requires
        settings.counters_url is Some,
        fetched matches Ok(body) && sample_of(body@, wholes) == Some(sample),
        after == service_of(before, settings, now, fetched, wholes).0,
        reading.says(
            service_of(before, settings, now, fetched, wholes).1,
            service_of(before, settings, now, fetched, wholes).2,
        ),
    ensures
        after.previous == Some(sample.counters),
        before.previous != Some(sample.counters) || sample.in_flight > 0 ==> after.last_movement
            == Some(now),
        before.previous == Some(sample.counters) && sample.in_flight == 0 ==> after.last_movement
            == before.last_movement,
        ({
            let window = match settings.idle_window {
                Some(d) => d.nanos as int,
                None => 1_800_000_000_000,
            };
            let still = match after.last_movement {
                Some(at) => if now.nanos > at.nanos {
                    now.nanos - at.nanos
                } else {
                    0
                },
                None => 0,
            };
            reading.state == (if sample.in_flight > 0 || still < window {
                FactState::True
            } else {
                FactState::False
            })
        }),
{
}

/// A service without an address is not there; one that cannot be read, or that publishes nothing
/// that can be counted, is in doubt. Either way nothing is remembered of it.
pub proof fn a_service_that_says_nothing_is_remembered_as_it_was(
    before: Sampler,
    settings: FactSettings,
    now: BootInstant,
    fetched: Result<String, String>,
    wholes: Seq<Option<u64>>,
    reading: Reading,
)
    requires
        settings.counters_url is None || fetched is Err || (fetched matches Ok(body) && sample_of(
            body@,
            wholes,
        ) is None),
        reading.says(
            service_of(before, settings, now, fetched, wholes).1,
            service_of(before, settings, now, fetched, wholes).2,
        ),
    ensures
        service_of(before, settings, now, fetched, wholes).0 == before,
        reading.state == (if settings.counters_url is None {
            FactState::Unavailable
        } else {
            FactState::Indeterminate
        }),
{
}

/// A sum that stays at the largest number where it would exceed it.
pub open spec fn sum_at_most(a: u64, b: u64) -> int {
    if a + b > u64::MAX {
        u64::MAX as int
    } else {
        a + b
    }
}

/// A further metric adds its whole value to the counters where it is declared a counter, or where
/// nothing is declared at all; to the requests in flight where it is declared a gauge and its name
/// speaks of work in progress; and else to nothing. Without a whole value it changes nothing.
pub proof fn each_metric_counts_where_it_belongs(
    names: Seq<Seq<char>>,
    name: Seq<char>,
    wholes: Seq<Option<u64>>,
    counters: Seq<Seq<char>>,
    gauges: Seq<Seq<char>>,
)
    ensures
        tally(Seq::<Seq<char>>::empty(), wholes, counters, gauges) is None,
        ({
            let before = tally(names, wholes, counters, gauges);
            let after = tally(names.push(name), wholes, counters, gauges);
            let (c, f) = match before {
                Some(sample) => (sample.counters, sample.in_flight),
                None => (0u64, 0u64),
            };
            let untyped = counters.len() == 0 && gauges.len() == 0;
            let work = holds(name, "processing"@) || holds(name, "in_flight"@) || holds(
                name,
                "inflight"@,
            ) || holds(name, "active_requests"@);
            if names.len() < wholes.len() && wholes[names.len() as int] is Some {
                let whole = wholes[names.len() as int]->Some_0;
                &&& after matches Some(sample)
                &&& sample.counters == (if untyped || counters.contains(name) {
                    sum_at_most(c, whole)
                } else {
                    c as int
                })
                &&& sample.in_flight == (if !untyped && !counters.contains(name)
                    && gauges.contains(name) && work {
                    sum_at_most(f, whole)
                } else {
                    f as int
                })
            } else {
                after == before
            }
        }),
{
    let all = names.push(name);
    assert(all.drop_last() =~= names);
    assert(all.last() == name);
}

/// A line declares a metric where it says its type, and every other line leaves what is declared as it
/// was.
pub proof fn a_type_line_declares_its_metric(
    rows: Seq<Seq<char>>,
    name: Seq<char>,
    said: Seq<char>,
    kind: Seq<char>,
    other: Seq<char>,
)
    requires
        one_word(name),
        one_word(said),
        !"# TYPE "@.is_prefix_of(other),
    ensures
        declared(rows.push("# TYPE "@ + (name + seq![' '] + said)), kind) == (if said == kind {
            declared(rows, kind).push(name)
        } else {
            declared(rows, kind)
        }),
        declared(rows.push(other), kind) == declared(rows, kind),
{
    let row = "# TYPE "@ + (name + seq![' '] + said);
    let all = rows.push(row);
    assert(all.drop_last() =~= rows);
    assert(rows.push(other).drop_last() =~= rows);
    assert(row.skip("# TYPE "@.len() as int) =~= name + seq![' '] + said);
    assert("# TYPE "@.is_prefix_of(row)) by {
        assert(row.subrange(0, "# TYPE "@.len() as int) =~= "# TYPE "@);
    }
    assert(is_space(' '));
    words_are_what_white_space_parts(name, ' ', said);
    words_are_what_white_space_parts(said, ' ', Seq::empty());
    assert(words(name + seq![' '] + said) =~= seq![name, said]);
}

/// An address is taken apart at its first slash, and its host and port at the last colon; without a
/// port it is the usual one, and without a path the top.
pub proof fn an_address_is_taken_apart(host: Seq<char>, port: Seq<char>, path: Seq<char>)
    requires
        lacks(host, '/'),
        lacks(host, ':'),
        lacks(port, '/'),
        lacks(port, ':'),
    ensures
        ({
            let full = host + seq![':'] + port;
            &&& authority_of(full + (seq!['/'] + path)) == full
            &&& path_of(full + (seq!['/'] + path)) == seq!['/'] + path
            &&& authority_of(full) == full
            &&& path_of(full) == "/"@
            &&& listens_at(full) == full
            &&& host_of(full) == host
            &&& listens_at(host) == host + ":80"@
            &&& host_of(host) == host
        }),
{
    let full = host + seq![':'] + port;
    assert forall|i: int| 0 <= i < full.len() implies #[trigger] full[i] != '/' by {
        if i < host.len() {
            assert(full[i] == host[i]);
        } else if i > host.len() {
            assert(full[i] == port[i - host.len() - 1]);
        }
    }
    lemma_index_at(full, '/', path);
    assert(full + (seq!['/'] + path) =~= full + seq!['/'] + path);
    assert((full + seq!['/'] + path).take(full.len() as int) =~= full);
    assert((full + seq!['/'] + path).skip(full.len() as int) =~= seq!['/'] + path);
    assert(full.take(full.len() as int) =~= full);
    lemma_last_index_at(host, ':', port);
    lemma_last_index_at(port, ':', host);
    assert(full.take(host.len() as int) =~= host);
}

/// A further line of the driver adds the holder that it stands for, passes over nothing but an empty
/// one, and makes the whole unreadable where it stands for none.
pub proof fn no_line_of_the_driver_is_passed_over(
    rows: Seq<Seq<char>>,
    row: Seq<char>,
    found: Seq<Held>,
)
    requires
        csv_holders(rows) == Ok::<Seq<Held>, Seq<char>>(found),
    ensures
        ({
            let after = csv_holders(rows.push(row));
            &&& trimmed(row).len() == 0 ==> after == Ok::<Seq<Held>, Seq<char>>(found)
            &&& trimmed(row).len() > 0 ==> match csv_holder(trimmed(row)) {
                Some(h) => after == Ok::<Seq<Held>, Seq<char>>(found.push(h)),
                None => after is Err,
            }
        }),
        csv_holders(Seq::empty()) == Ok::<Seq<Held>, Seq<char>>(Seq::empty()),
{
    assert(rows.push(row).drop_last() =~= rows);
}

/// An answer is what follows the first empty line of a reply whose first line has the status 200; a
/// reply with another status, or without an empty line, is refused.
pub proof fn an_answer_follows_the_first_empty_line(head: Seq<char>, body: Seq<char>, status: Seq<char>)
    requires
        lines(head).len() > 0,
        lines(head)[0] == status,
        forall|i: int|
            0 <= i < head.len() ==> !"\r\n\r\n"@.is_prefix_of(
                #[trigger] (head + "\r\n\r\n"@ + body).skip(i),
            ),
    ensures
        holds(status, " 200"@) ==> answer_of(head + "\r\n\r\n"@ + body) == Ok::<
            Seq<char>,
            Seq<char>,
        >(body),
        !holds(status, " 200"@) ==> answer_of(head + "\r\n\r\n"@ + body) is Err,
{
    let sep = "\r\n\r\n"@;
    let whole = head + sep + body;
    let at = head.len() as int;
    the_first_place_is_the_first(whole, sep);
    assert(whole.skip(at).subrange(0, sep.len() as int) =~= sep);
    assert(sep.is_prefix_of(whole.skip(at)));
    let n = place_of_text(whole, sep);
    assert(n <= at);
    if n < at {
        assert(sep.is_prefix_of(whole.skip(n)));
    }
    assert(whole.take(at) =~= head);
    assert(whole.skip(at + sep.len()) =~= body);
}

/// A reply without an empty line is no answer.
pub proof fn without_an_empty_line_there_is_no_answer(reply: Seq<char>)
    requires
        forall|i: int|
            0 <= i <= reply.len() ==> !"\r\n\r\n"@.is_prefix_of(#[trigger] reply.skip(i)),
    ensures
        answer_of(reply) is Err,
{
    the_first_place_is_the_first(reply, "\r\n\r\n"@);
}

/// A line that starts with a number sign tells no metric; every other line tells one or none, and the
/// metrics stand in the order of their lines.
pub proof fn metrics_stand_in_the_order_of_their_lines(rows: Seq<Seq<char>>, row: Seq<char>)
    ensures
        "#"@.is_prefix_of(row) ==> metric(row) is None,
        metrics(Seq::empty()).len() == 0,
        metrics(rows.push(row)) == (match metric(row) {
            Some(found) => metrics(rows).push(found),
            None => metrics(rows),
        }),
{
    assert(rows.push(row).drop_last() =~= rows);
}

proof fn lemma_closes(text: Seq<char>, from: int, to: int)
    requires
        0 <= from <= to < text.len(),
        text[to] == '}',
        forall|i: int| from <= i < to ==> #[trigger] text[i] != '"' && text[i] != '}',
    ensures
        closing(text, from, false) == Some(to),
    decreases to - from,
{
    if from < to {
        assert(text[from] != '"' && text[from] != '}');
        lemma_closes(text, from + 1, to);
    }
}

proof fn lemma_quoted_on(text: Seq<char>, from: int, to: int)
    requires
        0 <= from <= to < text.len(),
        text[to] == '"',
        forall|i: int| from <= i < to ==> #[trigger] text[i] != '"' && text[i] != '\\',
    ensures
        closing(text, from, true) == closing(text, to + 1, false),
    decreases to - from,
{
    if from < to {
        assert(text[from] != '"' && text[from] != '\\');
        lemma_quoted_on(text, from + 1, to);
    }
}

proof fn lemma_unquoted_on(text: Seq<char>, from: int, to: int)
    requires
        0 <= from <= to < text.len(),
        text[to] == '"',
        forall|i: int| from <= i < to ==> #[trigger] text[i] != '"' && text[i] != '}',
    ensures
        closing(text, from, false) == closing(text, to + 1, true),
    decreases to - from,
{
    if from < to {
        assert(text[from] != '"' && text[from] != '}');
        lemma_unquoted_on(text, from + 1, to);
    }
}

/// Labels end at the first brace that is not quoted: one in quotes is part of a label.
pub proof fn a_quoted_brace_ends_no_labels(before: Seq<char>, quoted: Seq<char>, after: Seq<char>)
    requires
        lacks(before, '"'),
        lacks(before, '}'),
        lacks(quoted, '"'),
        lacks(quoted, '\\'),
        lacks(after, '"'),
        lacks(after, '}'),
    ensures
        is_labels(seq!['{'] + before + seq!['}']),
        is_labels(seq!['{'] + before + seq!['"'] + quoted + seq!['"'] + after + seq!['}']),
{
    let plain = seq!['{'] + before + seq!['}'];
    assert forall|i: int| 0 <= i < plain.len() - 1 implies #[trigger] plain[i] != '"' && plain[i]
        != '}' by {
        if i > 0 {
            assert(plain[i] == before[i - 1]);
        }
    }
    lemma_closes(plain, 0, plain.len() - 1);
    let text = seq!['{'] + before + seq!['"'] + quoted + seq!['"'] + after + seq!['}'];
    let a: int = 1 + before.len() as int;
    let b: int = a + 1 + quoted.len();
    assert(text[a] == '"' && text[b] == '"');
    assert forall|i: int| 0 <= i < a implies #[trigger] text[i] != '"' && text[i] != '}' by {
        if i > 0 {
            assert(text[i] == before[i - 1]);
        }
    }
    lemma_unquoted_on(text, 0, a);
    assert forall|i: int| a + 1 <= i < b implies #[trigger] text[i] != '"' && text[i] != '\\' by {
        assert(text[i] == quoted[i - a - 1]);
    }
    lemma_quoted_on(text, a + 1, b);
    assert forall|i: int| b + 1 <= i < text.len() - 1 implies #[trigger] text[i] != '"' && text[i]
        != '}' by {
        assert(text[i] == after[i - b - 1]);
    }
    lemma_closes(text, b + 1, text.len() - 1);
}

/// A driver without a device is none, by what its program prints on failing.
pub proof fn a_driver_without_a_device_is_none(stdout: Seq<char>, stderr: Seq<char>)
    ensures
        no_device(stdout, stderr) <==> {
            ||| holds(stdout, "No devices were found"@)
            ||| holds(stderr, "No devices were found"@)
            ||| holds(stderr, "NVIDIA-SMI has failed"@)
        },
{
}

} // verus!
