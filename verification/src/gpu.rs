//! Who holds the memory of the GPU, and whether that is a game.
use vstd::prelude::*;
use vstd::string::StringExecFns;

use crate::fact::FactState;
use crate::process::{comes_from, descends_from, listed, Process};
use crate::reading::Reading;
use crate::text::{
    after_last, contains, decimal, fields, holds, join, joined, last_part, lines, parse_u32,
    parse_u64, parsed_unsigned, push_decimal, same, split_fields, split_lines, trim, trimmed,
    views,
};

verus! {

/// How much memory counts: in bytes.
pub const THRESHOLD_BYTES: u64 = 536_870_912;

/// How many bytes a mebibyte has.
pub const MIB: u64 = 1_048_576;

/// A process that holds GPU memory.
#[derive(Debug, PartialEq, Eq)]
pub struct Holder {
    /// Its number.
    pub pid: u32,
    /// Its name.
    pub name: String,
    /// How much it holds.
    pub bytes: u64,
}

/// A process that holds GPU memory, as a value of the model.
pub struct Held {
    /// Its number.
    pub pid: u32,
    /// Its name.
    pub name: Seq<char>,
    /// How much it holds.
    pub bytes: u64,
}

impl View for Holder {
    type V = Held;

    open spec fn view(&self) -> Held {
        Held { pid: self.pid, name: self.name@, bytes: self.bytes }
    }
}

/// What the holders of a list are, in order.
pub open spec fn holder_views(holders: Seq<Holder>) -> Seq<Held> {
    holders.map_values(|h: Holder| h@)
}

impl Clone for Holder {
    fn clone(&self) -> (r: Self)
        ensures
            r == *self,
    {
        Holder { pid: self.pid, name: self.name.clone(), bytes: self.bytes }
    }
}

/// What the desktop itself is called. It holds GPU memory whether or not anybody does anything.
pub open spec fn desktop_names() -> Seq<Seq<char>> {
    seq![
        "kwin_wayland"@,
        "kwin_x11"@,
        "plasmashell"@,
        "kded6"@,
        "ksmserver"@,
        "Xwayland"@,
        "Xorg"@,
        "gnome-shell"@,
        "mutter"@,
        "sway"@,
        "Hyprland"@,
        "wayfire"@,
        "labwc"@,
        "cosmic-comp"@,
    ]
}

/// Whether a process is part of the desktop itself.
pub fn is_desktop_process(name: &str) -> (r: bool)
    ensures
        r == desktop_names().contains(name@),
{
    let ghost names = desktop_names();
    assert(names[0] == "kwin_wayland"@ && names[1] == "kwin_x11"@ && names[2] == "plasmashell"@
        && names[3] == "kded6"@ && names[4] == "ksmserver"@ && names[5] == "Xwayland"@ && names[6]
        == "Xorg"@ && names[7] == "gnome-shell"@ && names[8] == "mutter"@ && names[9] == "sway"@
        && names[10] == "Hyprland"@ && names[11] == "wayfire"@ && names[12] == "labwc"@
        && names[13] == "cosmic-comp"@);
    same(name, "kwin_wayland") || same(name, "kwin_x11") || same(name, "plasmashell") || same(
        name,
        "kded6",
    ) || same(name, "ksmserver") || same(name, "Xwayland") || same(name, "Xorg") || same(
        name,
        "gnome-shell",
    ) || same(name, "mutter") || same(name, "sway") || same(name, "Hyprland") || same(
        name,
        "wayfire",
    ) || same(name, "labwc") || same(name, "cosmic-comp")
}

/// Whether a process belongs to the system and not to a session, by its control group.
pub fn in_system_slice(cgroup: &str) -> (r: bool)
    ensures
        r == holds(cgroup@, "/system.slice/"@),
{
    contains(cgroup, "/system.slice/")
}

/// The first place where a process stands, or the length.
pub open spec fn place_of(holders: Seq<Held>, pid: u32) -> int
    decreases holders.len(),
{
    if holders.len() == 0 || holders[0].pid == pid {
        0
    } else {
        1 + place_of(holders.skip(1), pid)
    }
}

/// Holders with one more: a process that is there already keeps the larger amount, not the sum.
pub open spec fn with_holder(into: Seq<Held>, extra: Held) -> Seq<Held> {
    let at = place_of(into, extra.pid);
    if at < into.len() {
        if into[at].bytes < extra.bytes {
            into.update(at, (Held { bytes: extra.bytes, ..into[at] }))
        } else {
            into
        }
    } else {
        into.push(extra)
    }
}

/// Holders with others, one after the other.
pub open spec fn with_holders(into: Seq<Held>, extra: Seq<Held>) -> Seq<Held>
    decreases extra.len(),
{
    if extra.len() == 0 {
        into
    } else {
        with_holder(with_holders(into, extra.drop_last()), extra.last())
    }
}

fn find_holder(holders: &Vec<Holder>, pid: u32) -> (r: usize)
    ensures
        r == place_of(holder_views(holders@), pid),
        r <= holders@.len(),
{
    let ghost all = holder_views(holders@);
    let mut i: usize = 0;
    assert(all.skip(0) =~= all);
    while i < holders.len()
        invariant
            i <= holders@.len(),
            all == holder_views(holders@),
            place_of(all, pid) == i + place_of(all.skip(i as int), pid),
        decreases holders@.len() - i,
    {
        assert(all[i as int] == holders@[i as int]@);
        if holders[i].pid == pid {
            return i;
        }
        assert(all.skip(i as int).skip(1) =~= all.skip(i as int + 1));
        i += 1;
    }
    i
}

/// Adds holders that another source found. A process that both sources see is not counted twice.
pub fn merge(into: &mut Vec<Holder>, extra: Vec<Holder>)
    ensures
        holder_views(final(into)@) == with_holders(holder_views(old(into)@), holder_views(extra@)),
{
    let ghost before = holder_views(into@);
    let ghost more = holder_views(extra@);
    let mut i: usize = 0;
    while i < extra.len()
        invariant
            i <= extra@.len(),
            more == holder_views(extra@),
            holder_views(into@) == with_holders(before, more.take(i as int)),
        decreases extra@.len() - i,
    {
        assert(more[i as int] == extra@[i as int]@);
        assert(more.take(i as int + 1).drop_last() =~= more.take(i as int));
        let ghost so_far = holder_views(into@);
        let at = find_holder(into, extra[i].pid);
        if at < into.len() {
            assert(so_far[at as int] == into@[at as int]@);
            if into[at].bytes < extra[i].bytes {
                let raised = Holder {
                    pid: into[at].pid,
                    name: into[at].name.clone(),
                    bytes: extra[i].bytes,
                };
                into[at] = raised;
            }
            assert(holder_views(into@) =~= with_holder(so_far, extra@[i as int]@));
        } else {
            into.push(extra[i].clone());
            assert(holder_views(into@) =~= with_holder(so_far, extra@[i as int]@));
        }
        i += 1;
    }
    assert(more.take(i as int) =~= more);
}

proof fn lemma_place_of(holders: Seq<Held>, pid: u32)
    ensures
        0 <= place_of(holders, pid) <= holders.len(),
        place_of(holders, pid) < holders.len() ==> holders[place_of(holders, pid)].pid == pid,
        forall|i: int| 0 <= i < place_of(holders, pid) ==> (#[trigger] holders[i]).pid != pid,
    decreases holders.len(),
{
    if holders.len() > 0 && holders[0].pid != pid {
        lemma_place_of(holders.skip(1), pid);
        assert forall|i: int| 0 <= i < place_of(holders, pid) implies (#[trigger] holders[i]).pid
            != pid by {
            if i > 0 {
                assert(holders.skip(1)[i - 1] == holders[i]);
            }
        }
    }
}

/// Whether no process is listed twice.
pub open spec fn each_once(holders: Seq<Held>) -> bool {
    forall|i: int, j: int|
        0 <= i < j < holders.len() ==> (#[trigger] holders[i]).pid != (#[trigger] holders[j]).pid
}

/// However many sources see a process, it is listed once.
pub proof fn merging_lists_each_process_once(into: Seq<Held>, extra: Seq<Held>)
    requires
        each_once(into),
    ensures
        each_once(with_holders(into, extra)),
    decreases extra.len(),
{
    if extra.len() > 0 {
        merging_lists_each_process_once(into, extra.drop_last());
        let so_far = with_holders(into, extra.drop_last());
        lemma_place_of(so_far, extra.last().pid);
    }
}

/// What the evidence of a kind says: who holds how much, or that nobody does.
pub open spec fn verdict_of(evidence: Seq<Seq<char>>, source: Seq<char>, what: Seq<char>) -> (
    FactState,
    Seq<char>,
) {
    if evidence.len() == 0 {
        (
            FactState::False,
            "no process over 512 MiB "@ + what + " ("@ + source + ")"@,
        )
    } else {
        (FactState::True, joined(evidence, "; "@) + " ["@ + source + "]"@)
    }
}

/// What the evidence of a kind says.
pub fn verdict(evidence: &Vec<String>, source: &str, what: &str) -> (r: Reading)
    ensures
        r.says(
            verdict_of(views(evidence@), source@, what@).0,
            verdict_of(views(evidence@), source@, what@).1,
        ),
{
    assert(views(evidence@).len() == evidence@.len());
    if evidence.len() == 0 {
        let mut detail = "no process over 512 MiB ".to_owned();
        detail.append(what);
        detail.append(" (");
        detail.append(source);
        detail.append(")");
        Reading::no(detail.as_str())
    } else {
        let mut detail = join(evidence, "; ");
        detail.append(" [");
        detail.append(source);
        detail.append("]");
        Reading::yes(detail.as_str())
    }
}

/// The two GPU facts.
#[derive(Debug)]
pub struct Split {
    /// Whether a game holds GPU memory.
    pub game: Reading,
    /// Whether something other than a game does.
    pub other: Reading,
}

/// What asking the NVIDIA driver came to.
#[derive(Debug)]
pub enum NvidiaResult {
    /// It answered with these.
    Holders(Vec<Holder>),
    /// There is no such driver here.
    Absent,
    /// It is here and did not answer: why.
    Failed(String),
}

/// A holder in words.
pub open spec fn holder_text(h: Held) -> Seq<char> {
    h.name + " (pid "@ + decimal(h.pid as nat) + ", "@ + decimal((h.bytes / 1_048_576) as nat)
        + " MiB)"@
}

/// Whether a holder counts: it holds enough, and is not the desktop itself.
pub open spec fn counts(h: Held) -> bool {
    h.bytes >= 536_870_912 && !desktop_names().contains(h.name)
}

/// Whether a holder is a game: one is running, the process descends from it, and it is not a
/// service of the system while one is at work.
pub open spec fn is_game(
    h: Held,
    procs: Seq<Process>,
    game_pids: Seq<u32>,
    game_running: bool,
    service_running: bool,
    system_pids: Seq<u32>,
) -> bool {
    &&& !(service_running && system_pids.contains(h.pid))
    &&& game_running
    &&& comes_from(procs, h.pid, game_pids)
}

/// The holders that count and are games, or are not, in words and in order.
pub open spec fn evidence_of(
    holders: Seq<Held>,
    game: bool,
    procs: Seq<Process>,
    game_pids: Seq<u32>,
    game_running: bool,
    service_running: bool,
    system_pids: Seq<u32>,
) -> Seq<Seq<char>>
    decreases holders.len(),
{
    if holders.len() == 0 {
        Seq::empty()
    } else {
        let before = evidence_of(
            holders.drop_last(),
            game,
            procs,
            game_pids,
            game_running,
            service_running,
            system_pids,
        );
        let h = holders.last();
        if counts(h) && is_game(h, procs, game_pids, game_running, service_running, system_pids)
            == game {
            before.push(holder_text(h))
        } else {
            before
        }
    }
}

/// The sources that answered, in words.
pub open spec fn source_text(reported: bool, nvidia: bool) -> Seq<char> {
    let drm = "DRM fdinfo via the session agent"@;
    if reported && nvidia {
        drm + " + "@ + "nvidia-smi"@
    } else if reported {
        drm
    } else {
        "nvidia-smi"@
    }
}

/// What the two GPU facts are.
pub open spec fn split_of(
    procs: Seq<Process>,
    reported: Seq<Held>,
    nvidia: NvidiaResult,
    game_pids: Seq<u32>,
    game_running: bool,
    service: FactState,
    system_pids: Seq<u32>,
) -> ((FactState, Seq<char>), (FactState, Seq<char>)) {
    let service_running = service == FactState::True || service == FactState::Indeterminate;
    let holders = match nvidia {
        NvidiaResult::Holders(found) => with_holders(reported, holder_views(found@)),
        _ => reported,
    };
    let source = source_text(reported.len() > 0, nvidia is Holders);
    if procs.len() == 0 {
        let doubt = (FactState::Indeterminate, "/proc could not be read"@);
        (doubt, doubt)
    } else if nvidia is Failed {
        let doubt = (
            FactState::Indeterminate,
            "nvidia-smi did not answer: "@ + nvidia->Failed_0@,
        );
        (doubt, doubt)
    } else if reported.len() == 0 && nvidia is Absent {
        let absent = (
            FactState::Unavailable,
            "no GPU query interface (no DRM fdinfo, no nvidia-smi)"@,
        );
        (absent, absent)
    } else {
        (
            verdict_of(
                evidence_of(
                    holders,
                    true,
                    procs,
                    game_pids,
                    game_running,
                    service_running,
                    system_pids,
                ),
                source,
                "attributable to a running game"@,
            ),
            verdict_of(
                evidence_of(
                    holders,
                    false,
                    procs,
                    game_pids,
                    game_running,
                    service_running,
                    system_pids,
                ),
                source,
                "not attributable to a game"@,
            ),
        )
    }
}

/// Whether the two GPU facts are these.
pub open spec fn splits(
    split: Split,
    answer: ((FactState, Seq<char>), (FactState, Seq<char>)),
) -> bool {
    split.game.says(answer.0.0, answer.0.1) && split.other.says(answer.1.0, answer.1.1)
}

fn describe(holder: &Holder) -> (r: String)
    ensures
        r@ == holder_text(holder@),
{
    let mut out = holder.name.clone();
    out.append(" (pid ");
    push_decimal(&mut out, holder.pid as u128);
    out.append(", ");
    push_decimal(&mut out, (holder.bytes / MIB) as u128);
    out.append(" MiB)");
    out
}

/// Decides the two GPU facts from what the sources said.
///
/// A driver that is here and does not answer is doubt about both. No source at all is nothing to
/// read. Otherwise every holder that counts is put down to a game or to something else.
pub fn read(
    procs: &[Process],
    reported: &Vec<Holder>,
    nvidia: NvidiaResult,
    game_pids: &[u32],
    game_running: bool,
    service: FactState,
    system_pids: &[u32],
) -> (r: Split)
    ensures
        splits(
            r,
            split_of(
                procs@,
                holder_views(reported@),
                nvidia,
                game_pids@,
                game_running,
                service,
                system_pids@,
            ),
        ),
{
    assert(holder_views(reported@).len() == reported@.len());
    if procs.len() == 0 {
        return Split {
            game: Reading::doubt("/proc could not be read"),
            other: Reading::doubt("/proc could not be read"),
        };
    }
    let mut holders: Vec<Holder> = Vec::new();
    let mut i: usize = 0;
    while i < reported.len()
        invariant
            i <= reported@.len(),
            holders@ == reported@.take(i as int),
        decreases reported@.len() - i,
    {
        holders.push(reported[i].clone());
        i += 1;
        assert(reported@.take(i as int) =~= reported@.take(i as int - 1).push(
            reported@[i as int - 1],
        ));
    }
    assert(reported@.take(i as int) =~= reported@);
    let from_agents = reported.len() > 0;
    let ghost asked = nvidia;
    let from_driver = match nvidia {
        NvidiaResult::Holders(found) => {
            merge(&mut holders, found);
            true
        },
        NvidiaResult::Absent => false,
        NvidiaResult::Failed(why) => {
            let mut detail = "nvidia-smi did not answer: ".to_owned();
            detail.append(why.as_str());
            return Split {
                game: Reading::doubt(detail.as_str()),
                other: Reading::doubt(detail.as_str()),
            };
        },
    };
    if !from_agents && !from_driver {
        return Split {
            game: Reading::absent("no GPU query interface (no DRM fdinfo, no nvidia-smi)"),
            other: Reading::absent("no GPU query interface (no DRM fdinfo, no nvidia-smi)"),
        };
    }
    let mut source = String::new();
    if from_agents {
        source.append("DRM fdinfo via the session agent");
        assert(source@ =~= "DRM fdinfo via the session agent"@);
        if from_driver {
            source.append(" + ");
            source.append("nvidia-smi");
        }
    } else {
        source.append("nvidia-smi");
        assert(source@ =~= "nvidia-smi"@);
    }
    let service_running = service == FactState::True || service == FactState::Indeterminate;
    let mut game_evidence: Vec<String> = Vec::new();
    let mut other_evidence: Vec<String> = Vec::new();
    let ghost all = holder_views(holders@);
    let mut k: usize = 0;
    assert(views(game_evidence@) =~= Seq::empty());
    assert(views(other_evidence@) =~= Seq::empty());
    while k < holders.len()
        invariant
            k <= holders@.len(),
            all == holder_views(holders@),
            views(game_evidence@) == evidence_of(
                all.take(k as int),
                true,
                procs@,
                game_pids@,
                game_running,
                service_running,
                system_pids@,
            ),
            views(other_evidence@) == evidence_of(
                all.take(k as int),
                false,
                procs@,
                game_pids@,
                game_running,
                service_running,
                system_pids@,
            ),
        decreases holders@.len() - k,
    {
        let holder = &holders[k];
        assert(all[k as int] == holder@);
        assert(all.take(k as int + 1).drop_last() =~= all.take(k as int));
        if holder.bytes >= THRESHOLD_BYTES && !is_desktop_process(holder.name.as_str()) {
            let line = describe(holder);
            let is_service = service_running && listed(system_pids, holder.pid);
            let game = !is_service && game_running && descends_from(procs, holder.pid, game_pids);
            let ghost games = views(game_evidence@);
            let ghost others = views(other_evidence@);
            if game {
                assert(views(game_evidence@.push(line)) =~= games.push(line@));
                game_evidence.push(line);
            } else {
                assert(views(other_evidence@.push(line)) =~= others.push(line@));
                other_evidence.push(line);
            }
        }
        k += 1;
    }
    assert(all.take(k as int) =~= all);
    Split {
        game: verdict(&game_evidence, source.as_str(), "attributable to a running game"),
        other: verdict(&other_evidence, source.as_str(), "not attributable to a game"),
    }
}

// ---- what the driver prints -----------------------------------------------------------

/// The fields of a line, without the space around each.
pub open spec fn csv_fields(line: Seq<char>) -> Seq<Seq<char>> {
    fields(line, ',').map_values(|f: Seq<char>| trimmed(f))
}

/// A number of mebibytes in bytes, as far as it can be counted.
pub open spec fn mib_bytes(mib: nat) -> u64 {
    if mib * 1_048_576 <= u64::MAX {
        (mib * 1_048_576) as u64
    } else {
        u64::MAX
    }
}

/// The holder that a line stands for: a number, a path, and a number of mebibytes.
pub open spec fn csv_holder(line: Seq<char>) -> Option<Held> {
    let parts = csv_fields(line);
    if parts.len() != 3 {
        None
    } else {
        match (parsed_unsigned(parts[0], u32::MAX as nat), parsed_unsigned(
            parts[2],
            u64::MAX as nat,
        )) {
            (Some(pid), Some(mib)) => Some(
                Held {
                    pid: pid as u32,
                    name: after_last(parts[1], '/'),
                    bytes: mib_bytes(mib),
                },
            ),
            _ => None,
        }
    }
}

/// The holders that lines stand for, or the first line that stands for none. Empty lines are
/// passed over.
pub open spec fn csv_holders(rows: Seq<Seq<char>>) -> Result<Seq<Held>, Seq<char>>
    decreases rows.len(),
{
    if rows.len() == 0 {
        Ok(Seq::empty())
    } else {
        let line = trimmed(rows.last());
        match csv_holders(rows.drop_last()) {
            Err(bad) => Err(bad),
            Ok(before) => if line.len() == 0 {
                Ok(before)
            } else {
                match csv_holder(line) {
                    Some(h) => Ok(before.push(h)),
                    None => Err(line),
                }
            },
        }
    }
}

proof fn lemma_csv_stops(rows: Seq<Seq<char>>, i: int)
    requires
        0 <= i < rows.len(),
        csv_holders(rows.take(i + 1)) is Err,
    ensures
        csv_holders(rows) == csv_holders(rows.take(i + 1)),
    decreases rows.len() - i,
{
    if i + 1 < rows.len() {
        assert(rows.take(i + 2).drop_last() =~= rows.take(i + 1));
        lemma_csv_stops(rows, i + 1);
    } else {
        assert(rows.take(i + 1) =~= rows);
    }
}

fn parse_csv_line(line: &str) -> (r: Option<Holder>)
    ensures
        match r {
            Some(holder) => csv_holder(line@) == Some(holder@),
            None => csv_holder(line@) is None,
        },
{
    let raw = split_fields(line, ',');
    let ghost parts = csv_fields(line@);
    assert(views(raw@).len() == raw@.len());
    if raw.len() != 3 {
        return None;
    }
    assert(views(raw@)[0] == raw@[0]@ && views(raw@)[1] == raw@[1]@ && views(raw@)[2]
        == raw@[2]@);
    let pid = trim(raw[0].as_str());
    let name = trim(raw[1].as_str());
    let mib = trim(raw[2].as_str());
    assert(parts[0] == pid@ && parts[1] == name@ && parts[2] == mib@);
    match (parse_u32(pid.as_str()), parse_u64(mib.as_str())) {
        (Some(pid), Some(mib)) => {
            let bytes: u64 = match mib.checked_mul(MIB) {
                Some(bytes) => bytes,
                None => u64::MAX,
            };
            Some(Holder { pid, name: last_part(name.as_str(), '/'), bytes })
        },
        _ => None,
    }
}

/// Reads what the driver prints. A line that cannot be read is a fault and not passed over.
pub fn parse_nvidia_csv(stdout: &str) -> (r: Result<Vec<Holder>, String>)
    ensures
        match r {
            Ok(holders) => csv_holders(lines(stdout@)) == Ok::<Seq<Held>, Seq<char>>(
                holder_views(holders@),
            ),
            Err(line) => csv_holders(lines(stdout@)) == Err::<Seq<Held>, Seq<char>>(line@),
        },
{
    let rows = split_lines(stdout);
    let ghost all = lines(stdout@);
    let mut out: Vec<Holder> = Vec::new();
    let mut i: usize = 0;
    assert(holder_views(out@) =~= Seq::empty());
    while i < rows.len()
        invariant
            i <= rows@.len(),
            all == views(rows@),
            all == lines(stdout@),
            csv_holders(all.take(i as int)) == Ok::<Seq<Held>, Seq<char>>(holder_views(out@)),
        decreases rows@.len() - i,
    {
        assert(all[i as int] == rows@[i as int]@);
        assert(all.take(i as int + 1).drop_last() =~= all.take(i as int));
        let line = trim(rows[i].as_str());
        if !line.as_str().is_empty() {
            match parse_csv_line(line.as_str()) {
                Some(holder) => {
                    let ghost before = holder_views(out@);
                    assert(holder_views(out@.push(holder)) =~= before.push(holder@));
                    out.push(holder);
                },
                None => {
                    proof {
                        lemma_csv_stops(all, i as int);
                    }
                    return Err(line);
                },
            }
        }
        i += 1;
    }
    assert(all.take(i as int) =~= all);
    Ok(out)
}

/// What asking the driver came to, by how its program ended and what it printed.
///
/// No device is no driver here. Any other failure, and any line that cannot be read, is a driver
/// that does not answer.
pub fn nvidia_answer(success: bool, status: &str, stdout: &str, stderr: &str) -> (r: NvidiaResult)
    ensures
        match r {
            NvidiaResult::Absent => !success && no_device(stdout@, stderr@),
            NvidiaResult::Holders(holders) => success && csv_holders(lines(stdout@)) == Ok::<
                Seq<Held>,
                Seq<char>,
            >(holder_views(holders@)),
            NvidiaResult::Failed(why) => {
                ||| !success && !no_device(stdout@, stderr@) && why@ == "exit "@ + status@ + ": "@
                    + trimmed(stderr@)
                ||| success && csv_holders(lines(stdout@)) is Err && why@
                    == "unreadable output line: "@ + csv_holders(lines(stdout@))->Err_0
            },
        },
{
    if !success {
        if contains(stderr, "No devices were found") || contains(stdout, "No devices were found")
            || contains(stderr, "NVIDIA-SMI has failed") {
            return NvidiaResult::Absent;
        }
        let mut why = "exit ".to_owned();
        why.append(status);
        why.append(": ");
        let said = trim(stderr);
        why.append(said.as_str());
        return NvidiaResult::Failed(why);
    }
    match parse_nvidia_csv(stdout) {
        Ok(holders) => NvidiaResult::Holders(holders),
        Err(line) => {
            let mut why = "unreadable output line: ".to_owned();
            why.append(line.as_str());
            NvidiaResult::Failed(why)
        },
    }
}

/// Whether the driver says that it has no device.
pub open spec fn no_device(stdout: Seq<char>, stderr: Seq<char>) -> bool {
    holds(stderr, "No devices were found"@) || holds(stdout, "No devices were found"@) || holds(
        stderr,
        "NVIDIA-SMI has failed"@,
    )
}

/// Whether a holder is evidence of a kind.
pub open spec fn testifies(
    h: Held,
    game: bool,
    procs: Seq<Process>,
    game_pids: Seq<u32>,
    game_running: bool,
    service_running: bool,
    system_pids: Seq<u32>,
) -> bool {
    counts(h) && is_game(h, procs, game_pids, game_running, service_running, system_pids) == game
}

proof fn lemma_evidence(
    holders: Seq<Held>,
    game: bool,
    procs: Seq<Process>,
    game_pids: Seq<u32>,
    game_running: bool,
    service_running: bool,
    system_pids: Seq<u32>,
)
    ensures
        evidence_of(
            holders,
            game,
            procs,
            game_pids,
            game_running,
            service_running,
            system_pids,
        ).len() > 0 <==> exists|i: int|
            0 <= i < holders.len() && testifies(
                #[trigger] holders[i],
                game,
                procs,
                game_pids,
                game_running,
                service_running,
                system_pids,
            ),
    decreases holders.len(),
{
    if holders.len() > 0 {
        let fewer = holders.drop_last();
        lemma_evidence(
            fewer,
            game,
            procs,
            game_pids,
            game_running,
            service_running,
            system_pids,
        );
        if evidence_of(
            fewer,
            game,
            procs,
            game_pids,
            game_running,
            service_running,
            system_pids,
        ).len() > 0 {
            let i = choose|i: int|
                0 <= i < fewer.len() && testifies(
                    #[trigger] fewer[i],
                    game,
                    procs,
                    game_pids,
                    game_running,
                    service_running,
                    system_pids,
                );
            assert(holders[i] == fewer[i]);
        }
        if exists|i: int|
            0 <= i < holders.len() && testifies(
                #[trigger] holders[i],
                game,
                procs,
                game_pids,
                game_running,
                service_running,
                system_pids,
            ) {
            let i = choose|i: int|
                0 <= i < holders.len() && testifies(
                    #[trigger] holders[i],
                    game,
                    procs,
                    game_pids,
                    game_running,
                    service_running,
                    system_pids,
                );
            if i < fewer.len() {
                assert(fewer[i] == holders[i]);
            }
        }
        assert(holders[holders.len() - 1] == holders.last());
    }
}

proof fn lemma_holder_stays(into: Seq<Held>, extra: Held, i: int)
    requires
        0 <= i < into.len(),
    ensures
        i < with_holder(into, extra).len(),
        with_holder(into, extra)[i].pid == into[i].pid,
        with_holder(into, extra)[i].name == into[i].name,
        with_holder(into, extra)[i].bytes >= into[i].bytes,
{
    lemma_place_of(into, extra.pid);
}

proof fn lemma_holders_stay(into: Seq<Held>, extra: Seq<Held>, i: int)
    requires
        0 <= i < into.len(),
    ensures
        i < with_holders(into, extra).len(),
        with_holders(into, extra)[i].pid == into[i].pid,
        with_holders(into, extra)[i].name == into[i].name,
        with_holders(into, extra)[i].bytes >= into[i].bytes,
    decreases extra.len(),
{
    if extra.len() > 0 {
        lemma_holders_stay(into, extra.drop_last(), i);
        lemma_holder_stays(with_holders(into, extra.drop_last()), extra.last(), i);
    }
}

/// Whatever another source adds, it only adds reasons to stay awake: evidence of a kind that was
/// there is still there.
pub proof fn another_source_never_clears_a_fact(
    holders: Seq<Held>,
    extra: Seq<Held>,
    game: bool,
    procs: Seq<Process>,
    game_pids: Seq<u32>,
    game_running: bool,
    service_running: bool,
    system_pids: Seq<u32>,
)
    requires
        evidence_of(
            holders,
            game,
            procs,
            game_pids,
            game_running,
            service_running,
            system_pids,
        ).len() > 0,
    ensures
        evidence_of(
            with_holders(holders, extra),
            game,
            procs,
            game_pids,
            game_running,
            service_running,
            system_pids,
        ).len() > 0,
{
    lemma_evidence(
        holders,
        game,
        procs,
        game_pids,
        game_running,
        service_running,
        system_pids,
    );
    let i = choose|i: int|
        0 <= i < holders.len() && testifies(
            #[trigger] holders[i],
            game,
            procs,
            game_pids,
            game_running,
            service_running,
            system_pids,
        );
    lemma_holders_stay(holders, extra, i);
    let all = with_holders(holders, extra);
    assert(testifies(
        all[i],
        game,
        procs,
        game_pids,
        game_running,
        service_running,
        system_pids,
    ));
    lemma_evidence(all, game, procs, game_pids, game_running, service_running, system_pids);
}

proof fn lemma_one_more_reported(reported: Seq<Held>, h: Held, found: Seq<Held>)
    requires
        forall|i: int| 0 <= i < found.len() ==> (#[trigger] found[i]).pid != h.pid,
    ensures
        with_holders(reported, found).len() >= reported.len(),
        with_holders(reported.push(h), found) == with_holders(reported, found).insert(
            reported.len() as int,
            h,
        ),
    decreases found.len(),
{
    let n = reported.len() as int;
    if found.len() == 0 {
        assert(reported.push(h) =~= reported.insert(n, h));
    } else {
        let fewer = found.drop_last();
        let extra = found.last();
        lemma_one_more_reported(reported, h, fewer);
        let a = with_holders(reported, fewer);
        let b = with_holders(reported.push(h), fewer);
        lemma_place_of(a, extra.pid);
        lemma_place_of(b, extra.pid);
        let k = place_of(a, extra.pid);
        let m = if k < n {
            k
        } else {
            k + 1
        };
        assert(place_of(b, extra.pid) == m) by {
            let p = place_of(b, extra.pid);
            if p < m {
                assert(p != n);
                assert(b[p] == a[if p < n {
                    p
                } else {
                    p - 1
                }]);
            }
            if m < p {
                assert(b[m] == a[k]);
            }
        }
        assert(with_holder(b, extra) =~= with_holder(a, extra).insert(n, h));
    }
}

/// What an agent reports of a process that the driver does not list only adds reasons to stay awake:
/// evidence of a kind that was there is still there.
pub proof fn what_an_agent_reports_only_adds(
    reported: Seq<Held>,
    h: Held,
    found: Seq<Held>,
    game: bool,
    procs: Seq<Process>,
    game_pids: Seq<u32>,
    game_running: bool,
    service_running: bool,
    system_pids: Seq<u32>,
)
    requires
        forall|i: int| 0 <= i < found.len() ==> (#[trigger] found[i]).pid != h.pid,
        evidence_of(
            with_holders(reported, found),
            game,
            procs,
            game_pids,
            game_running,
            service_running,
            system_pids,
        ).len() > 0,
    ensures
        evidence_of(
            with_holders(reported.push(h), found),
            game,
            procs,
            game_pids,
            game_running,
            service_running,
            system_pids,
        ).len() > 0,
{
    lemma_one_more_reported(reported, h, found);
    let before = with_holders(reported, found);
    let all = with_holders(reported.push(h), found);
    lemma_evidence(before, game, procs, game_pids, game_running, service_running, system_pids);
    let i = choose|i: int|
        0 <= i < before.len() && testifies(
            #[trigger] before[i],
            game,
            procs,
            game_pids,
            game_running,
            service_running,
            system_pids,
        );
    let j = if i < reported.len() {
        i
    } else {
        i + 1
    };
    assert(all[j] == before[i]);
    lemma_evidence(all, game, procs, game_pids, game_running, service_running, system_pids);
}

/// A process of a service is never taken for a game while the service is at work, whatever it
/// descends from. Without a running game, nothing is.
pub proof fn a_service_is_never_taken_for_a_game(
    h: Held,
    procs: Seq<Process>,
    game_pids: Seq<u32>,
    game_running: bool,
    service_running: bool,
    system_pids: Seq<u32>,
)
    ensures
        service_running && system_pids.contains(h.pid) ==> !is_game(
            h,
            procs,
            game_pids,
            game_running,
            service_running,
            system_pids,
        ),
        !game_running ==> !is_game(
            h,
            procs,
            game_pids,
            game_running,
            service_running,
            system_pids,
        ),
{
}

/// Without a running game there is no evidence of one.
pub proof fn without_a_game_there_is_no_evidence_of_one(
    holders: Seq<Held>,
    procs: Seq<Process>,
    game_pids: Seq<u32>,
    service_running: bool,
    system_pids: Seq<u32>,
)
    ensures
        evidence_of(
            holders,
            true,
            procs,
            game_pids,
            false,
            service_running,
            system_pids,
        ).len() == 0,
    decreases holders.len(),
{
    if holders.len() > 0 {
        without_a_game_there_is_no_evidence_of_one(
            holders.drop_last(),
            procs,
            game_pids,
            service_running,
            system_pids,
        );
    }
}

/// How many holders count.
pub open spec fn counting(holders: Seq<Held>) -> nat
    decreases holders.len(),
{
    if holders.len() == 0 {
        0
    } else {
        counting(holders.drop_last()) + (if counts(holders.last()) {
            1nat
        } else {
            0nat
        })
    }
}

/// Every holder that counts is evidence for one of the two facts, and for one only: what is no game
/// holds the machine as something else.
pub proof fn every_holder_that_counts_is_evidence_once(
    holders: Seq<Held>,
    procs: Seq<Process>,
    game_pids: Seq<u32>,
    game_running: bool,
    service_running: bool,
    system_pids: Seq<u32>,
)
    ensures
        ({
            let game = evidence_of(
                holders,
                true,
                procs,
                game_pids,
                game_running,
                service_running,
                system_pids,
            );
            let other = evidence_of(
                holders,
                false,
                procs,
                game_pids,
                game_running,
                service_running,
                system_pids,
            );
            game.len() + other.len() == counting(holders)
        }),
    decreases holders.len(),
{
    if holders.len() > 0 {
        every_holder_that_counts_is_evidence_once(
            holders.drop_last(),
            procs,
            game_pids,
            game_running,
            service_running,
            system_pids,
        );
    }
}

/// A driver that is here and does not answer is doubt about both facts, whatever else is known.
pub proof fn a_driver_that_does_not_answer_is_doubt(
    procs: Seq<Process>,
    reported: Seq<Held>,
    why: String,
    game_pids: Seq<u32>,
    game_running: bool,
    service: FactState,
    system_pids: Seq<u32>,
)
    ensures
        ({
            let said = split_of(
                procs,
                reported,
                NvidiaResult::Failed(why),
                game_pids,
                game_running,
                service,
                system_pids,
            );
            said.0.0 == FactState::Indeterminate && said.1.0 == FactState::Indeterminate
        }),
{
}

} // verus!
