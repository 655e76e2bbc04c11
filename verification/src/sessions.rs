//! What the login manager says: who is logged in from elsewhere, what holds sleep back, and what
//! else might put the machine to sleep.
use vstd::prelude::*;
use vstd::string::StringExecFns;

use crate::fact::FactState;
use crate::process::{any_process_named, listed, process_name, Process};
use crate::reading::{ago, ago_text, Reading};
use crate::text::{
    decimal, fields, in_list, join, joined, push_decimal, same, split_fields, views,
};
use crate::time::{whole_secs, Duration};

verus! {

/// What asking the login manager came to.
#[derive(Debug)]
pub enum Logind<T> {
    /// There is none: why.
    Missing(String),
    /// There is one, and it does not answer: why.
    Silent(String),
    /// It answered with this.
    Answered(T),
}

/// What the login manager knows of a session.
#[derive(Debug)]
pub struct SessionRecord {
    /// Its class.
    pub class: String,
    /// Whether the login manager takes it to come from elsewhere.
    pub remote: bool,
    /// The service that opened it.
    pub service: String,
    /// Its type.
    pub kind: String,
    /// When it was opened, in microseconds of the wall clock, if that could be read.
    pub opened_usec: Option<u64>,
}

/// What looking at a session came to.
#[derive(Debug)]
pub enum Look {
    /// Its path on the bus is not one: why.
    BadPath(String),
    /// It could not be reached: why.
    Unreachable(String),
    /// Its class could not be read: the name of the error on the bus, if it came from there, and
    /// the error in words.
    NoClass(Option<String>, String),
    /// It was read.
    Read(SessionRecord),
}

/// A session that the login manager lists.
#[derive(Debug)]
pub struct SessionEntry {
    /// Its identifier.
    pub id: String,
    /// Its user.
    pub uid: u32,
    /// The name of its user.
    pub user: String,
    /// What looking at it came to.
    pub look: Look,
}

/// What has passed since a session was opened.
pub open spec fn since_opened(opened_usec: u64, now: Duration) -> Duration {
    Duration { nanos: (now.nanos - opened_usec * 1_000) as u128 }
}

/// How long ago a session was opened, in words: by when that was and by the wall clock, both since
/// the epoch. A session from the future has no age.
pub open spec fn session_age_text(opened_usec: u64, now: Duration) -> Seq<char> {
    if opened_usec * 1_000 <= now.nanos {
        ago_text(whole_secs(since_opened(opened_usec, now)))
    } else {
        "age unknown"@
    }
}

/// How long ago a session was opened, in words.
pub fn session_age(opened_usec: u64, now: Duration) -> (r: String)
    ensures
        r@ == session_age_text(opened_usec, now),
{
    let opened = Duration::from_micros(opened_usec);
    if opened.nanos <= now.nanos {
        ago(Duration { nanos: now.nanos - opened.nanos })
    } else {
        "age unknown".to_owned()
    }
}

/// Whether an error on the bus means that the session has ended meanwhile.
pub open spec fn says_gone(error: Option<Seq<char>>) -> bool {
    match error {
        Some(name) => name == "org.freedesktop.DBus.Error.UnknownObject"@ || name
            == "org.freedesktop.DBus.Error.NoSuchUnit"@ || name
            == "org.freedesktop.DBus.Error.UnknownInterface"@,
        None => false,
    }
}

/// Whether an error on the bus means that the session has ended meanwhile.
pub fn is_gone(error: &Option<String>) -> (r: bool)
    ensures
        r == says_gone(crate::policy::text_view(*error)),
{
    match error {
        Some(name) => same(name.as_str(), "org.freedesktop.DBus.Error.UnknownObject") || same(
            name.as_str(),
            "org.freedesktop.DBus.Error.NoSuchUnit",
        ) || same(name.as_str(), "org.freedesktop.DBus.Error.UnknownInterface"),
        None => false,
    }
}

/// Whether a session is a user who came from elsewhere.
pub open spec fn comes_from_elsewhere(record: SessionRecord) -> bool {
    record.class@ == "user"@ && (record.remote || record.service@ == "sshd"@)
}

/// A session in words.
pub open spec fn session_text(entry: SessionEntry, record: SessionRecord, now: Duration) -> Seq<
    char,
> {
    entry.id@ + " ("@ + entry.user@ + ", uid "@ + decimal(entry.uid as nat) + ", "@ + (
    if record.service@.len() == 0 {
        record.kind@
    } else {
        record.service@
    }) + ", opened "@ + (match record.opened_usec {
        Some(usec) => session_age_text(usec, now),
        None => "age unknown"@,
    }) + ")"@
}

/// What a session adds to the evidence: nothing, a line, or a fault that ends the search.
pub open spec fn session_says(
    entry: SessionEntry,
    excluded: Seq<Seq<char>>,
    now: Duration,
) -> Result<Option<Seq<char>>, Seq<char>> {
    if excluded.contains(entry.id@) {
        Ok(None)
    } else {
        match entry.look {
            Look::BadPath(err) => Err("bad session path for "@ + entry.id@ + ": "@ + err@),
            Look::Unreachable(err) => Err("cannot read session "@ + entry.id@ + ": "@ + err@),
            Look::NoClass(name, err) => if says_gone(crate::policy::text_view(name)) {
                Ok(None)
            } else {
                Err("cannot read class of "@ + entry.id@ + ": "@ + err@)
            },
            Look::Read(record) => if comes_from_elsewhere(record) {
                Ok(Some(session_text(entry, record, now)))
            } else {
                Ok(None)
            },
        }
    }
}

/// The sessions from elsewhere in words, or the first fault.
pub open spec fn remote_lines(
    sessions: Seq<SessionEntry>,
    excluded: Seq<Seq<char>>,
    now: Duration,
) -> Result<Seq<Seq<char>>, Seq<char>>
    decreases sessions.len(),
{
    if sessions.len() == 0 {
        Ok(Seq::empty())
    } else {
        match remote_lines(sessions.drop_last(), excluded, now) {
            Err(fault) => Err(fault),
            Ok(before) => match session_says(sessions.last(), excluded, now) {
                Err(fault) => Err(fault),
                Ok(None) => Ok(before),
                Ok(Some(line)) => Ok(before.push(line)),
            },
        }
    }
}

/// Whether somebody is logged in from elsewhere.
pub open spec fn remote_of(
    asked: Logind<Vec<SessionEntry>>,
    excluded: Seq<Seq<char>>,
    now: Duration,
) -> (FactState, Seq<char>) {
    match asked {
        Logind::Missing(err) => (FactState::Unavailable, "no session manager: "@ + err@),
        Logind::Silent(err) => (
            FactState::Indeterminate,
            "logind did not answer ListSessions: "@ + err@,
        ),
        Logind::Answered(sessions) => match remote_lines(sessions@, excluded, now) {
            Err(fault) => (FactState::Indeterminate, fault),
            Ok(found) => if found.len() == 0 {
                (FactState::False, "no remote user session"@)
            } else {
                (FactState::True, joined(found, "; "@))
            },
        },
    }
}

proof fn lemma_fault_stays(
    sessions: Seq<SessionEntry>,
    excluded: Seq<Seq<char>>,
    now: Duration,
    i: int,
)
    requires
        0 <= i < sessions.len(),
        remote_lines(sessions.take(i + 1), excluded, now) is Err,
    ensures
        remote_lines(sessions, excluded, now) == remote_lines(sessions.take(i + 1), excluded, now),
    decreases sessions.len() - i,
{
    if i + 1 < sessions.len() {
        assert(sessions.take(i + 2).drop_last() =~= sessions.take(i + 1));
        lemma_fault_stays(sessions, excluded, now, i + 1);
    } else {
        assert(sessions.take(i + 1) =~= sessions);
    }
}

fn about(what: &str, id: &str, err: &str) -> (r: String)
    ensures
        r@ == what@ + id@ + ": "@ + err@,
{
    let mut out = what.to_owned();
    out.append(id);
    out.append(": ");
    out.append(err);
    out
}

fn look_at(entry: &SessionEntry, excluded: &Vec<String>, now: Duration) -> (r: Result<
    Option<String>,
    String,
>)
    ensures
        match (r, session_says(*entry, views(excluded@), now)) {
            (Ok(None), Ok(None)) => true,
            (Ok(Some(line)), Ok(Some(text))) => line@ == text,
            (Err(fault), Err(text)) => fault@ == text,
            _ => false,
        },
{
    let id = entry.id.as_str();
    if in_list(excluded, id) {
        return Ok(None);
    }
    match &entry.look {
        Look::BadPath(err) => Err(about("bad session path for ", id, err.as_str())),
        Look::Unreachable(err) => Err(about("cannot read session ", id, err.as_str())),
        Look::NoClass(name, err) => if is_gone(name) {
            Ok(None)
        } else {
            Err(about("cannot read class of ", id, err.as_str()))
        },
        Look::Read(record) => {
            let user = same(record.class.as_str(), "user");
            if !user || !(record.remote || same(record.service.as_str(), "sshd")) {
                return Ok(None);
            }
            let mut line = entry.id.clone();
            line.append(" (");
            line.append(entry.user.as_str());
            line.append(", uid ");
            push_decimal(&mut line, entry.uid as u128);
            line.append(", ");
            if record.service.as_str().is_empty() {
                line.append(record.kind.as_str());
            } else {
                line.append(record.service.as_str());
            }
            line.append(", opened ");
            let age = match record.opened_usec {
                Some(usec) => session_age(usec, now),
                None => "age unknown".to_owned(),
            };
            line.append(age.as_str());
            line.append(")");
            Ok(Some(line))
        },
    }
}

/// Decides whether somebody is logged in from elsewhere, by what the login manager said and by the
/// wall clock.
///
/// Sessions that a request names as its own do not count. A session that ended meanwhile does not
/// either; any other failure to look is doubt.
pub fn remote(asked: &Logind<Vec<SessionEntry>>, excluded: &Vec<String>, now: Duration) -> (r:
    Reading)
    ensures
        r.says(
            remote_of(*asked, views(excluded@), now).0,
            remote_of(*asked, views(excluded@), now).1,
        ),
{
    let sessions = match asked {
        Logind::Missing(err) => {
            let mut detail = "no session manager: ".to_owned();
            detail.append(err.as_str());
            return Reading::absent(detail.as_str());
        },
        Logind::Silent(err) => {
            let mut detail = "logind did not answer ListSessions: ".to_owned();
            detail.append(err.as_str());
            return Reading::doubt(detail.as_str());
        },
        Logind::Answered(sessions) => sessions,
    };
    let ghost shut = views(excluded@);
    let mut found: Vec<String> = Vec::new();
    let mut i: usize = 0;
    assert(views(found@) =~= Seq::empty());
    while i < sessions.len()
        invariant
            i <= sessions@.len(),
            shut == views(excluded@),
            *asked == Logind::<Vec<SessionEntry>>::Answered(*sessions),
            remote_lines(sessions@.take(i as int), shut, now) == Ok::<Seq<Seq<char>>, Seq<char>>(
                views(found@),
            ),
        decreases sessions@.len() - i,
    {
        assert(sessions@.take(i as int + 1).drop_last() =~= sessions@.take(i as int));
        match look_at(&sessions[i], excluded, now) {
            Ok(None) => {},
            Ok(Some(line)) => {
                let ghost before = views(found@);
                assert(views(found@.push(line)) =~= before.push(line@));
                found.push(line);
            },
            Err(fault) => {
                proof {
                    lemma_fault_stays(sessions@, shut, now, i as int);
                }
                return Reading::doubt(fault.as_str());
            },
        }
        i += 1;
    }
    assert(sessions@.take(i as int) =~= sessions@);
    assert(views(found@).len() == found@.len());
    if found.len() == 0 {
        Reading::no("no remote user session")
    } else {
        let detail = join(&found, "; ");
        Reading::yes(detail.as_str())
    }
}

// ---- inhibitors -----------------------------------------------------------------------

/// An inhibitor that the login manager lists.
#[derive(Debug)]
pub struct InhibitorEntry {
    /// What it covers, with a colon between each.
    pub what: String,
    /// Who holds it.
    pub who: String,
    /// Why.
    pub why: String,
    /// How it holds.
    pub mode: String,
    /// The user who holds it.
    pub uid: u32,
    /// The process that holds it.
    pub pid: u32,
}

/// Whether a word stands for the machine going to sleep or off.
pub open spec fn holds_power(word: Seq<char>) -> bool {
    word == "sleep"@ || word == "shutdown"@
}

/// The words of a list that stand for the machine going to sleep or off, in order.
pub open spec fn power_words(words: Seq<Seq<char>>) -> Seq<Seq<char>>
    decreases words.len(),
{
    if words.len() == 0 {
        Seq::empty()
    } else if holds_power(words.last()) {
        power_words(words.drop_last()).push(words.last())
    } else {
        power_words(words.drop_last())
    }
}

/// Who blocks sleep, in words and in order.
pub open spec fn blockers(list: Seq<InhibitorEntry>) -> Seq<Seq<char>>
    decreases list.len(),
{
    if list.len() == 0 {
        Seq::empty()
    } else {
        let last = list.last();
        let before = blockers(list.drop_last());
        if last.mode@ == "block"@ && power_words(fields(last.what@, ':')).len() > 0 {
            before.push(
                last.who@ + " (uid "@ + decimal(last.uid as nat) + ", pid "@ + decimal(
                    last.pid as nat,
                ) + "): "@ + last.why@ + " ["@ + last.what@ + "]"@,
            )
        } else {
            before
        }
    }
}

/// Whether the login manager was asked to block sleep.
pub open spec fn inhibitor_of(
    asked: Logind<String>,
    list: Option<Vec<InhibitorEntry>>,
) -> (FactState, Seq<char>) {
    match asked {
        Logind::Missing(err) => (FactState::Unavailable, "no session manager: "@ + err@),
        Logind::Silent(err) => (FactState::Indeterminate, "cannot read BlockInhibited: "@ + err@),
        Logind::Answered(blocked) => {
            let relevant = power_words(fields(blocked@, ':'));
            let held = joined(relevant, "+"@);
            let who = match list {
                Some(entries) => joined(blockers(entries@), "; "@),
                None => Seq::empty(),
            };
            if relevant.len() == 0 {
                (
                    FactState::False,
                    if blocked@.len() == 0 {
                        "no block inhibitor"@
                    } else {
                        "block inhibitors present but not on sleep/shutdown: "@ + blocked@
                    },
                )
            } else if who.len() == 0 {
                (FactState::True, "block inhibitor on "@ + held)
            } else {
                (FactState::True, "block inhibitor on "@ + held + ": "@ + who)
            }
        },
    }
}

fn relevant_words(text: &str) -> (r: Vec<String>)
    ensures
        views(r@) == power_words(fields(text@, ':')),
{
    let words = split_fields(text, ':');
    let ghost all = views(words@);
    let mut out: Vec<String> = Vec::new();
    let mut i: usize = 0;
    assert(views(out@) =~= Seq::empty());
    while i < words.len()
        invariant
            i <= words@.len(),
            all == views(words@),
            views(out@) == power_words(all.take(i as int)),
        decreases words@.len() - i,
    {
        assert(all[i as int] == words@[i as int]@);
        assert(all.take(i as int + 1).drop_last() =~= all.take(i as int));
        if same(words[i].as_str(), "sleep") || same(words[i].as_str(), "shutdown") {
            let word = words[i].clone();
            let ghost before = views(out@);
            assert(views(out@.push(word)) =~= before.push(word@));
            out.push(word);
        }
        i += 1;
    }
    assert(all.take(i as int) =~= all);
    out
}

fn who_blocks(list: &Vec<InhibitorEntry>) -> (r: Vec<String>)
    ensures
        views(r@) == blockers(list@),
{
    let mut out: Vec<String> = Vec::new();
    let mut i: usize = 0;
    assert(views(out@) =~= Seq::empty());
    while i < list.len()
        invariant
            i <= list@.len(),
            views(out@) == blockers(list@.take(i as int)),
        decreases list@.len() - i,
    {
        let entry = &list[i];
        assert(list@.take(i as int + 1).drop_last() =~= list@.take(i as int));
        let words = relevant_words(entry.what.as_str());
        assert(views(words@).len() == words@.len());
        if same(entry.mode.as_str(), "block") && words.len() > 0 {
            let mut line = entry.who.clone();
            line.append(" (uid ");
            push_decimal(&mut line, entry.uid as u128);
            line.append(", pid ");
            push_decimal(&mut line, entry.pid as u128);
            line.append("): ");
            line.append(entry.why.as_str());
            line.append(" [");
            line.append(entry.what.as_str());
            line.append("]");
            let ghost before = views(out@);
            assert(views(out@.push(line)) =~= before.push(line@));
            out.push(line);
        }
        i += 1;
    }
    assert(list@.take(i as int) =~= list@);
    out
}

/// Decides whether the login manager was asked to block sleep, by what it says is blocked and by
/// who it says does.
///
/// Only sleep and shutdown count. Not knowing who blocks makes the evidence shorter and changes
/// nothing else.
pub fn inhibitor(asked: &Logind<String>, list: &Option<Vec<InhibitorEntry>>) -> (r: Reading)
    ensures
        r.says(inhibitor_of(*asked, *list).0, inhibitor_of(*asked, *list).1),
{
    let blocked = match asked {
        Logind::Missing(err) => {
            let mut detail = "no session manager: ".to_owned();
            detail.append(err.as_str());
            return Reading::absent(detail.as_str());
        },
        Logind::Silent(err) => {
            let mut detail = "cannot read BlockInhibited: ".to_owned();
            detail.append(err.as_str());
            return Reading::doubt(detail.as_str());
        },
        Logind::Answered(blocked) => blocked,
    };
    let relevant = relevant_words(blocked.as_str());
    assert(views(relevant@).len() == relevant@.len());
    if relevant.len() == 0 {
        if blocked.as_str().is_empty() {
            return Reading::no("no block inhibitor");
        }
        let mut detail = "block inhibitors present but not on sleep/shutdown: ".to_owned();
        detail.append(blocked.as_str());
        return Reading::no(detail.as_str());
    }
    let who = match list {
        Some(entries) => {
            let lines = who_blocks(entries);
            join(&lines, "; ")
        },
        None => String::new(),
    };
    let held = join(&relevant, "+");
    let mut detail = "block inhibitor on ".to_owned();
    detail.append(held.as_str());
    if !who.as_str().is_empty() {
        detail.append(": ");
        detail.append(who.as_str());
    }
    Reading::yes(detail.as_str())
}

// ---- graphical sessions ---------------------------------------------------------------

/// The users of the graphical sessions among some, each once and in order. Of each session: its
/// user and its type.
pub open spec fn graphical_users(sessions: Seq<(u32, String)>) -> Seq<u32>
    decreases sessions.len(),
{
    if sessions.len() == 0 {
        Seq::empty()
    } else {
        let before = graphical_users(sessions.drop_last());
        let (uid, kind) = sessions.last();
        if (kind@ == "wayland"@ || kind@ == "x11"@) && !before.contains(uid) {
            before.push(uid)
        } else {
            before
        }
    }
}

/// The users of the graphical sessions, each once. Of each session: its user and its type.
pub fn graphical_uids(asked: &Logind<Vec<(u32, String)>>) -> (r: Result<Vec<u32>, String>)
    ensures
        match (*asked, r) {
            (Logind::Missing(err), Err(why)) => why@ == "no session manager: "@ + err@,
            (Logind::Silent(err), Err(why)) => why@ == "logind did not answer ListSessions: "@
                + err@,
            (Logind::Answered(sessions), Ok(uids)) => uids@ == graphical_users(sessions@),
            _ => false,
        },
{
    let sessions = match asked {
        Logind::Missing(err) => {
            let mut why = "no session manager: ".to_owned();
            why.append(err.as_str());
            return Err(why);
        },
        Logind::Silent(err) => {
            let mut why = "logind did not answer ListSessions: ".to_owned();
            why.append(err.as_str());
            return Err(why);
        },
        Logind::Answered(sessions) => sessions,
    };
    let mut uids: Vec<u32> = Vec::new();
    let mut i: usize = 0;
    while i < sessions.len()
        invariant
            i <= sessions@.len(),
            uids@ == graphical_users(sessions@.take(i as int)),
        decreases sessions@.len() - i,
    {
        assert(sessions@.take(i as int + 1).drop_last() =~= sessions@.take(i as int));
        let uid: u32 = sessions[i].0;
        let kind = sessions[i].1.as_str();
        if (same(kind, "wayland") || same(kind, "x11")) && !listed(uids.as_slice(), uid) {
            uids.push(uid);
        }
        i += 1;
    }
    assert(sessions@.take(i as int) =~= sessions@);
    Ok(uids)
}

// ---- what else might put the machine to sleep -----------------------------------------

/// The names of desktop power managers on the bus.
pub open spec fn power_managers() -> Seq<Seq<char>> {
    seq![
        "org.freedesktop.PowerManagement"@,
        "org.kde.Solid.PowerManagement"@,
        "org.gnome.SettingsDaemon.Power"@,
        "org.freedesktop.ScreenSaver"@,
    ]
}

/// The names of other programs that watch for an idle session.
pub open spec fn idle_helpers() -> Seq<Seq<char>> {
    seq!["swayidle"@, "hypridle"@, "xautolock"@, "xidlehook"@]
}

/// Whether a process of this name is among some.
pub open spec fn runs(procs: Seq<Process>, name: Seq<char>) -> bool {
    exists|i: int|
        #![trigger procs[i]]
        0 <= i < procs.len() && (procs[i].comm@ == name || process_name(procs[i]) == name)
}

/// What the login manager would do on its own: what, and after how many microseconds.
pub open spec fn own_action(idle_action: Option<(String, u64)>) -> Seq<Seq<char>> {
    match idle_action {
        Some((action, usec)) => if action@ != "ignore"@ && usec != u64::MAX {
            seq![
                "logind IdleAction="@ + action@ + " after "@ + decimal((usec / 1_000_000) as nat)
                    + "s -- logind will act on its own"@,
            ]
        } else {
            Seq::empty()
        },
        None => Seq::empty(),
    }
}

/// Those of the candidates that own a name on the bus.
pub open spec fn owned(candidates: Seq<Seq<char>>, names: Seq<Seq<char>>) -> Seq<Seq<char>>
    decreases candidates.len(),
{
    if candidates.len() == 0 {
        Seq::empty()
    } else if names.contains(candidates.last()) {
        owned(candidates.drop_last(), names).push(
            candidates.last() + " is owned -- a desktop power manager is running"@,
        )
    } else {
        owned(candidates.drop_last(), names)
    }
}

/// Those of the candidates that are running.
pub open spec fn running(candidates: Seq<Seq<char>>, procs: Seq<Process>) -> Seq<Seq<char>>
    decreases candidates.len(),
{
    if candidates.len() == 0 {
        Seq::empty()
    } else if runs(procs, candidates.last()) {
        running(candidates.drop_last(), procs).push(
            candidates.last() + " is running -- a second idle helper"@,
        )
    } else {
        running(candidates.drop_last(), procs)
    }
}

/// What else might put the machine to sleep, in words.
pub open spec fn conflicts_of(
    idle_action: Option<(String, u64)>,
    names: Seq<Seq<char>>,
    procs: Seq<Process>,
) -> Seq<Seq<char>> {
    own_action(idle_action) + owned(power_managers(), names) + running(idle_helpers(), procs)
}

/// What else might put the machine to sleep: the login manager itself, a desktop power manager
/// whose name is on the bus, or another idle helper among the processes.
pub fn conflict_scan(
    idle_action: &Option<(String, u64)>,
    names: &Vec<String>,
    procs: &[Process],
) -> (r: Vec<String>)
    ensures
        views(r@) == conflicts_of(*idle_action, views(names@), procs@),
{
    let mut found: Vec<String> = Vec::new();
    assert(views(found@) =~= Seq::empty());
    match idle_action {
        Some((action, usec)) => {
            if !same(action.as_str(), "ignore") && *usec != u64::MAX {
                let mut line = "logind IdleAction=".to_owned();
                line.append(action.as_str());
                line.append(" after ");
                push_decimal(&mut line, (*usec / 1_000_000) as u128);
                line.append("s -- logind will act on its own");
                found.push(line);
                assert(views(found@) =~= seq![line@]);
            }
        },
        None => {},
    }
    assert(views(found@) == own_action(*idle_action));
    let managers: [&str; 4] = [
        "org.freedesktop.PowerManagement",
        "org.kde.Solid.PowerManagement",
        "org.gnome.SettingsDaemon.Power",
        "org.freedesktop.ScreenSaver",
    ];
    let ghost own = views(found@);
    let ghost bus = views(names@);
    assert(own + owned(power_managers().take(0), bus) =~= own);
    let mut i: usize = 0;
    while i < 4
        invariant
            i <= 4,
            bus == views(names@),
            managers@.len() == 4,
            power_managers().len() == 4,
            forall|j: int| 0 <= j < 4 ==> (#[trigger] managers@[j])@ == power_managers()[j],
            views(found@) == own + owned(power_managers().take(i as int), bus),
        decreases 4 - i,
    {
        let candidate = managers[i];
        let ghost before = views(found@);
        let ghost so_far = owned(power_managers().take(i as int), bus);
        assert(power_managers().take(i as int + 1).drop_last() =~= power_managers().take(i as int));
        assert(power_managers().take(i as int + 1).last() == candidate@);
        if in_list(names, candidate) {
            let mut line = candidate.to_owned();
            line.append(" is owned -- a desktop power manager is running");
            assert(views(found@.push(line)) =~= before.push(line@));
            assert(own + so_far.push(line@) =~= (own + so_far).push(line@));
            found.push(line);
        }
        i += 1;
    }
    assert(power_managers().take(4) =~= power_managers());
    let helpers: [&str; 4] = ["swayidle", "hypridle", "xautolock", "xidlehook"];
    let ghost first = views(found@);
    assert(first + running(idle_helpers().take(0), procs@) =~= first);
    let mut k: usize = 0;
    while k < 4
        invariant
            k <= 4,
            helpers@.len() == 4,
            idle_helpers().len() == 4,
            forall|j: int| 0 <= j < 4 ==> (#[trigger] helpers@[j])@ == idle_helpers()[j],
            views(found@) == first + running(idle_helpers().take(k as int), procs@),
        decreases 4 - k,
    {
        let helper = helpers[k];
        let ghost before = views(found@);
        let ghost so_far = running(idle_helpers().take(k as int), procs@);
        assert(idle_helpers().take(k as int + 1).drop_last() =~= idle_helpers().take(k as int));
        assert(idle_helpers().take(k as int + 1).last() == helper@);
        if any_process_named(procs, helper) {
            let mut line = helper.to_owned();
            line.append(" is running -- a second idle helper");
            assert(views(found@.push(line)) =~= before.push(line@));
            assert(first + so_far.push(line@) =~= (first + so_far).push(line@));
            found.push(line);
        }
        k += 1;
    }
    assert(idle_helpers().take(4) =~= idle_helpers());
    found
}

/// Whether a fact in this state holds the machine awake.
pub fn is_holding(state: FactState) -> (r: bool)
    ensures
        r == (state == FactState::True || state == FactState::Indeterminate),
{
    match state {
        FactState::True => true,
        FactState::Indeterminate => true,
        _ => false,
    }
}

/// The later a session was opened, the younger it is: its age is what has passed since.
pub proof fn a_later_session_is_younger(older: u64, newer: u64, now: Duration)
    requires
        older <= newer,
        newer * 1_000 <= now.nanos,
    ensures
        session_age_text(older, now) == ago_text(whole_secs(since_opened(older, now))),
        session_age_text(newer, now) == ago_text(whole_secs(since_opened(newer, now))),
        whole_secs(since_opened(newer, now)) <= whole_secs(since_opened(older, now)),
{
}

/// A session whose own request is being answered changes nothing.
pub proof fn an_excluded_session_changes_nothing(
    sessions: Seq<SessionEntry>,
    at: int,
    extra: SessionEntry,
    excluded: Seq<Seq<char>>,
    now: Duration,
)
    requires
        0 <= at <= sessions.len(),
        excluded.contains(extra.id@),
    ensures
        remote_lines(sessions.insert(at, extra), excluded, now) == remote_lines(
            sessions,
            excluded,
            now,
        ),
    decreases sessions.len(),
{
    let more = sessions.insert(at, extra);
    if at == sessions.len() {
        assert(more.drop_last() =~= sessions);
    } else {
        assert(more.drop_last() =~= sessions.drop_last().insert(at, extra));
        assert(more.last() == sessions.last());
        an_excluded_session_changes_nothing(sessions.drop_last(), at, extra, excluded, now);
    }
}

} // verus!
