//! What callers on the bus may ask for, and what they are answered.
use vstd::prelude::*;
use vstd::string::StringExecFns;

use crate::action::Action;
use crate::agents::{Agent, HEARTBEAT_INTERVAL_SECS};
use crate::clock::ClockSnapshot;
use crate::decision::{next_of, no_request, Decision, Request};
use crate::engine::{request_of, Engine};
use crate::fact::{FactId, FactMap, FactState};
use crate::gpu::{holder_views, Held, Holder};
use crate::leases::{HolderState, Lease};
use crate::pending::{arrived, Pending};
use crate::reading::Reading;
use crate::text::{chars_of, text_of, trim, trimmed};
use crate::time::{later, BootInstant, Deadline, Duration};

verus! {

/// The name on the bus.
pub const BUS_NAME: &'static str = "io.github.ericcanas.Idlectl1";

/// The path of the object on the bus.
pub const OBJECT_PATH: &'static str = "/io/github/ericcanas/Idlectl1";

/// How many holders of GPU memory one agent may report.
pub const MAX_HOLDERS: usize = 256;

/// How many characters the name of one may have.
pub const MAX_HOLDER_NAME: usize = 64;

// ---- what agents report ---------------------------------------------------------------

/// The first ones of a list.
pub open spec fn at_most<T>(items: Seq<T>, limit: int) -> Seq<T> {
    if items.len() > limit {
        items.take(limit)
    } else {
        items
    }
}

/// What is kept of the holders that an agent reports: not too many, and not too long a name.
pub open spec fn bounded(raw: Seq<(u32, String, u64)>) -> Seq<Held> {
    at_most(raw, 256).map_values(
        |h: (u32, String, u64)| Held { pid: h.0, name: at_most(h.1@, 64), bytes: h.2 },
    )
}

/// What is kept of the holders that an agent reports: not too many, and not too long a name. What
/// is too much is cut off; the rest is still evidence.
pub fn bounded_holders(raw: &Vec<(u32, String, u64)>) -> (r: Vec<Holder>)
    ensures
        holder_views(r@) == bounded(raw@),
{
    let ghost all = bounded(raw@);
    let count: usize = if raw.len() > MAX_HOLDERS {
        MAX_HOLDERS
    } else {
        raw.len()
    };
    assert(at_most(raw@, 256) =~= raw@.take(count as int));
    assert(all.len() == count);
    let mut out: Vec<Holder> = Vec::new();
    let mut i: usize = 0;
    assert(holder_views(out@) =~= all.take(0));
    while i < count
        invariant
            i <= count,
            count <= raw@.len(),
            all == bounded(raw@),
            all.len() == count,
            at_most(raw@, 256) == raw@.take(count as int),
            holder_views(out@) == all.take(i as int),
        decreases count - i,
    {
        let chars = chars_of(raw[i].1.as_str());
        let end: usize = if chars.len() > MAX_HOLDER_NAME {
            MAX_HOLDER_NAME
        } else {
            chars.len()
        };
        let name = text_of(chars.as_slice(), 0, end);
        assert(name@ =~= at_most(raw@[i as int].1@, 64));
        let holder = Holder { pid: raw[i].0, name, bytes: raw[i].2 };
        let ghost before = holder_views(out@);
        assert(all[i as int] == holder@);
        assert(holder_views(out@.push(holder)) =~= before.push(holder@));
        assert(all.take(i as int + 1) =~= all.take(i as int).push(holder@));
        out.push(holder);
        i += 1;
    }
    assert(all.take(i as int) =~= all);
    out
}

/// However much an agent reports, what is kept of it is bounded.
pub proof fn a_report_is_bounded(raw: Seq<(u32, String, u64)>)
    ensures
        bounded(raw).len() <= 256,
        forall|i: int| 0 <= i < bounded(raw).len() ==> (#[trigger] bounded(raw)[i]).name.len() <= 64,
        forall|i: int|
            0 <= i < bounded(raw).len() ==> (#[trigger] bounded(raw)[i]).pid == raw[i].0
                && bounded(raw)[i].bytes == raw[i].2,
{
}

/// An agent that has registered and not yet reported. Nothing is known of its session.
pub fn new_agent(session_id: &str, uid: u32, can_blank: bool, now: BootInstant) -> (r: Agent)
    ensures
        r.session_id@ == session_id@,
        r.uid == uid,
        r.can_blank == can_blank,
        r.idle is None,
        r.media@.len() == 0,
        r.gpu_holders@.len() == 0,
        r.last_report == now,
{
    Agent {
        session_id: session_id.to_owned(),
        uid,
        can_blank,
        idle: None,
        media: String::new(),
        gpu_holders: Vec::new(),
        last_report: now,
    }
}

/// How often an agent has to report, in microseconds.
pub fn heartbeat_usec() -> (r: u64)
    ensures
        r == 30_000_000,
{
    HEARTBEAT_INTERVAL_SECS * 1_000_000
}

// ---- what is asked for ----------------------------------------------------------------

/// A text in quotes, as the standard library writes it for debugging.
pub uninterp spec fn debug_text(text: Seq<char>) -> Seq<char>;

/// Writes a text in quotes, by the `Debug` impl of `str` in the standard library: in double quotes,
/// with what cannot be printed escaped. The result is named and not described further.
#[verifier::external_body]
fn quoted(text: &str) -> (r: String)
    ensures
        r@ == debug_text(text@),
{
    format!("{text:?}")
}

/// The action of a name, or why there is none.
pub fn parse_action(name: &str) -> (r: Result<Action, String>)
    ensures
        match r {
            Ok(action) => Action::named(name@) == Some(action),
            Err(why) => Action::named(name@) is None && why@ == unknown_action(
                debug_text(name@),
            ),
        },
{
    match Action::from_name(name) {
        Some(action) => Ok(action),
        None => {
            let shown = quoted(name);
            Err(refuse_action(shown.as_str()))
        },
    }
}

/// Why there is no action of a name, by the name in quotes.
pub open spec fn unknown_action(shown: Seq<char>) -> Seq<char> {
    "unknown action "@ + shown + ": expected screen_off, suspend, hibernate or poweroff"@
}

/// Why there is no action of a name, by the name in quotes.
pub fn refuse_action(shown: &str) -> (r: String)
    ensures
        r@ == unknown_action(shown@),
{
    let mut why = "unknown action ".to_owned();
    why.append(shown);
    why.append(": expected screen_off, suspend, hibernate or poweroff");
    why
}

/// The action of a name; none for no name.
pub fn parse_optional_action(name: &str) -> (r: Result<Option<Action>, String>)
    ensures
        match r {
            Ok(None) => name@.len() == 0,
            Ok(Some(action)) => name@.len() > 0 && Action::named(name@) == Some(action),
            Err(why) => name@.len() > 0 && Action::named(name@) is None && why@ == unknown_action(
                debug_text(name@),
            ),
        },
{
    if name.is_empty() {
        return Ok(None);
    }
    match parse_action(name) {
        Ok(action) => Ok(Some(action)),
        Err(why) => Err(why),
    }
}

/// The action that a request asks for: that of a name, and to suspend for no name.
pub fn action_to_rest(name: &str) -> (r: Result<Action, String>)
    ensures
        match r {
            Ok(action) => if name@.len() == 0 {
                action == Action::Suspend
            } else {
                Action::named(name@) == Some(action)
            },
            Err(why) => name@.len() > 0 && Action::named(name@) is None && why@ == unknown_action(
                debug_text(name@),
            ),
        },
{
    if name.is_empty() {
        return Ok(Action::Suspend);
    }
    parse_action(name)
}

/// The request to rest now by an action.
pub fn rest_request(action: Action) -> (r: Request)
    ensures
        r == (Request { now: true, force: None, requested: Some(action) }),
{
    Request { now: true, force: None, requested: Some(action) }
}

/// The request to force an action.
pub fn forced_request(action: Action) -> (r: Request)
    ensures
        r == (Request { now: false, force: Some(action), requested: Some(action) }),
{
    Request { now: false, force: Some(action), requested: Some(action) }
}

/// Why a request cannot wait, if it cannot: it needs some time.
pub fn refuse_ttl(ttl_usec: u64) -> (r: Option<&'static str>)
    ensures
        match r {
            Some(why) => ttl_usec == 0 && why@
                == "a pending request needs a time to live; use Rest() to ask once"@,
            None => ttl_usec > 0,
        },
{
    if ttl_usec == 0 {
        Some("a pending request needs a time to live; use Rest() to ask once")
    } else {
        None
    }
}

/// Why an action cannot be forced, if it cannot: it needs a reason.
pub fn refuse_reason(why: &str) -> (r: Option<&'static str>)
    ensures
        match r {
            Some(text) => trimmed(why@).len() == 0 && text@
                == "a reason is required: a forced action is recorded in the journal with it"@,
            None => trimmed(why@).len() > 0,
        },
{
    let reason = trim(why);
    if reason.as_str().is_empty() {
        Some("a reason is required: a forced action is recorded in the journal with it")
    } else {
        None
    }
}

/// Whether a request to rest is satisfied by what was carried out under it: by its own action, and
/// by no other.
pub fn satisfied_by(performed: Option<Action>, action: Action) -> (r: bool)
    ensures
        r == (performed == Some(action)),
{
    match performed {
        Some(done) => done == action,
        None => false,
    }
}

/// The request that is kept: its time and its arrivals are counted from the clocks of the decision
/// that held it back. A time that cannot be counted has run out at once.
pub open spec fn held_request(
    clocks: ClockSnapshot,
    action: Action,
    ttl_usec: u64,
    uid: u32,
) -> Pending {
    Pending {
        action,
        expires_at: match later(clocks.now, Duration { nanos: (ttl_usec * 1_000) as u128 }) {
            Some(at) => at,
            None => clocks.now,
        },
        human_origin: clocks.human_input,
        uid,
    }
}

impl Engine {
    /// Keeps a request that could not be carried out: until its time runs out, or somebody comes.
    /// Both are counted from the decision that held it back.
    pub fn hold(&mut self, action: Action, ttl_usec: u64, uid: u32)
        ensures
            *final(self) == (Engine {
                pending: Some(held_request(old(self).clocks, action, ttl_usec, uid)),
                ..*old(self)
            }),
    {
        let now = self.clocks.now;
        let expires_at = match now.checked_add(Duration::from_micros(ttl_usec)) {
            Some(at) => at,
            None => now,
        };
        self.pending = Some(
            Pending { action, expires_at, human_origin: self.clocks.human_input, uid },
        );
    }

    /// Answers a request to rest, by what was carried out under it: whether that was what it asked
    /// for. One that is not satisfied is kept.
    pub fn satisfied_or_held(
        &mut self,
        performed: Option<Action>,
        action: Action,
        ttl_usec: u64,
        uid: u32,
    ) -> (r: bool)
        ensures
            r == (performed == Some(action)),
            *final(self) == (if r {
                *old(self)
            } else {
                Engine {
                    pending: Some(held_request(old(self).clocks, action, ttl_usec, uid)),
                    ..*old(self)
                }
            }),
    {
        if satisfied_by(performed, action) {
            return true;
        }
        self.hold(action, ttl_usec, uid);
        false
    }

    /// Forgets the request that waits. Gives it back, if there was one.
    pub fn cancel_pending(&mut self) -> (r: Option<Pending>)
        ensures
            r == old(self).pending,
            *final(self) == (Engine { pending: None, ..*old(self) }),
    {
        let held = self.pending;
        self.pending = None;
        held
    }
}

// ---- what is answered -----------------------------------------------------------------

/// What pairs of texts hold.
pub open spec fn fact_row_views(rows: Seq<(String, String)>) -> Seq<(Seq<char>, Seq<char>)> {
    rows.map_values(|p: (String, String)| (p.0@, p.1@))
}

/// The state of a fact by what was read. One that was not read is not available.
pub open spec fn state_in(readings: Map<FactId, Reading>, fact: FactId) -> FactState {
    if readings.contains_key(fact) {
        readings[fact].state
    } else {
        FactState::Unavailable
    }
}

/// The state of a fact by what was read.
pub fn state_of(readings: &FactMap<Reading>, fact: FactId) -> (r: FactState)
    ensures
        r == state_in(readings@, fact),
{
    match readings.get(fact) {
        Some(reading) => reading.state,
        None => FactState::Unavailable,
    }
}

/// Every fact and its state by name, in the order of the facts.
pub fn fact_rows(readings: &FactMap<Reading>) -> (r: Vec<(String, String)>)
    ensures
        fact_row_views(r@) == FactId::ALL@.map_values(
            |f: FactId| (f.text(), state_in(readings@, f).text()),
        ),
{
    let ghost wanted = FactId::ALL@.map_values(
        |f: FactId| (f.text(), state_in(readings@, f).text()),
    );
    let all = FactId::ALL;
    let mut out: Vec<(String, String)> = Vec::new();
    let mut i: usize = 0;
    assert(fact_row_views(out@) =~= wanted.take(0));
    while i < 11
        invariant
            i <= 11,
            all@ == FactId::ALL@,
            all@.len() == 11,
            wanted == FactId::ALL@.map_values(
                |f: FactId| (f.text(), state_in(readings@, f).text()),
            ),
            fact_row_views(out@) == wanted.take(i as int),
        decreases 11 - i,
    {
        let fact = all[i];
        let row = (fact.name().to_owned(), state_of(readings, fact).name().to_owned());
        let ghost before = fact_row_views(out@);
        assert(wanted[i as int] == (row.0@, row.1@));
        assert(fact_row_views(out@.push(row)) =~= before.push((row.0@, row.1@)));
        assert(wanted.take(i as int + 1) =~= wanted.take(i as int).push((row.0@, row.1@)));
        out.push(row);
        i += 1;
    }
    assert(wanted.take(i as int) =~= wanted);
    out
}

/// A deadline in microseconds since boot. The largest number stands for never.
pub open spec fn usec_of(deadline: Deadline) -> u64 {
    match deadline {
        Deadline::Never => u64::MAX,
        Deadline::At(at) => (at.nanos / 1_000) as u64,
    }
}

/// A deadline in microseconds since boot. The largest number stands for never.
pub fn deadline_usec(deadline: Deadline) -> (r: u64)
    ensures
        r == usec_of(deadline),
{
    match deadline {
        Deadline::Never => u64::MAX,
        Deadline::At(at) => at.as_micros(),
    }
}

/// Never is told apart from every instant.
pub proof fn never_is_no_instant(deadline: Deadline)
    ensures
        usec_of(deadline) == u64::MAX <==> deadline == Deadline::Never,
{
}

/// What is answered of an action: its name, its deadline, and whether that has come.
pub open spec fn deadline_row(decision: Option<Decision>, action: Action) -> (Seq<char>, u64, bool) {
    match decision {
        Some(d) => (action.text(), usec_of(d.of(action).deadline), d.of(action).due),
        None => (action.text(), u64::MAX, false),
    }
}

/// What rows hold.
pub open spec fn deadline_row_views(rows: Seq<(String, u64, bool)>) -> Seq<(Seq<char>, u64, bool)> {
    rows.map_values(|p: (String, u64, bool)| (p.0@, p.1, p.2))
}

/// What is answered of every action, from the shallowest to the deepest.
pub fn deadline_rows(decision: &Option<Decision>) -> (r: Vec<(String, u64, bool)>)
    ensures
        deadline_row_views(r@) == Action::ALL@.map_values(
            |a: Action| deadline_row(*decision, a),
        ),
{
    let ghost wanted = Action::ALL@.map_values(|a: Action| deadline_row(*decision, a));
    let all = Action::ALL;
    let mut out: Vec<(String, u64, bool)> = Vec::new();
    let mut i: usize = 0;
    assert(deadline_row_views(out@) =~= wanted.take(0));
    while i < 4
        invariant
            i <= 4,
            all@ == Action::ALL@,
            all@.len() == 4,
            wanted == Action::ALL@.map_values(|a: Action| deadline_row(*decision, a)),
            deadline_row_views(out@) == wanted.take(i as int),
        decreases 4 - i,
    {
        let action = all[i];
        let name = action.name().to_owned();
        let row = match decision {
            Some(d) => {
                let resolution = d.get(action);
                (name, deadline_usec(resolution.deadline), resolution.due)
            },
            None => (name, u64::MAX, false),
        };
        let ghost before = deadline_row_views(out@);
        assert(wanted[i as int] == (row.0@, row.1, row.2));
        assert(deadline_row_views(out@.push(row)) =~= before.push((row.0@, row.1, row.2)));
        assert(wanted.take(i as int + 1) =~= wanted.take(i as int).push((row.0@, row.1, row.2)));
        out.push(row);
        i += 1;
    }
    assert(wanted.take(i as int) =~= wanted);
    out
}

/// The earliest deadline that is still to come, in microseconds since boot.
pub fn next_deadline_usec(decision: &Option<Decision>) -> (r: u64)
    ensures
        r == (match *decision {
            Some(d) => usec_of(next_of(d)),
            None => u64::MAX,
        }),
{
    match decision {
        Some(d) => deadline_usec(d.next_deadline()),
        None => u64::MAX,
    }
}

/// The request that waits, if there is one: its action, when it is given up in microseconds since
/// boot, and who asked.
pub fn pending_row(pending: &Option<Pending>) -> (r: Option<(String, u64, u32)>)
    ensures
        match (*pending, r) {
            (Some(held), Some(row)) => row.0@ == held.action.text() && row.1
                == held.expires_at.nanos / 1_000 && row.2 == held.uid,
            (None, None) => true,
            _ => false,
        },
{
    match pending {
        Some(held) => Some(
            (held.action.name().to_owned(), held.expires_at.as_micros(), held.uid),
        ),
        None => None,
    }
}

/// What is answered of a lease.
#[derive(Debug)]
pub struct LeaseRow {
    /// Its identifier.
    pub who: String,
    /// The reason that was given.
    pub why: String,
    /// When it was taken, in microseconds since boot.
    pub acquired_usec: u64,
    /// When it ends, in microseconds since boot.
    pub expires_usec: u64,
    /// The user that asked for it.
    pub uid: u32,
    /// The process that holds it, or zero.
    pub holder_pid: u32,
    /// What has become of that process.
    pub holder_state: String,
    /// The name of that process, while it is running.
    pub holder_comm: String,
}

/// What is answered of a lease, by what has become of its holder.
pub fn lease_row(lease: &Lease, state: &HolderState) -> (r: LeaseRow)
    ensures
        r.who@ == lease.who@,
        r.why@ == lease.why@,
        r.acquired_usec == lease.acquired.nanos / 1_000,
        r.expires_usec == lease.expires.nanos / 1_000,
        r.uid == lease.uid,
        r.holder_pid == (match lease.holder.pid {
            Some(pid) => pid,
            None => 0,
        }),
        r.holder_state@ == crate::leases::wire_text(*state),
        match *state {
            HolderState::Alive(comm) => r.holder_comm@ == comm@,
            _ => r.holder_comm@.len() == 0,
        },
{
    LeaseRow {
        who: lease.who.clone(),
        why: lease.why.clone(),
        acquired_usec: lease.acquired.as_micros(),
        expires_usec: lease.expires.as_micros(),
        uid: lease.uid,
        holder_pid: match lease.holder.pid() {
            Some(pid) => pid,
            None => 0,
        },
        holder_state: state.wire().to_owned(),
        holder_comm: state.comm().to_owned(),
    }
}

// ---- what is done ---------------------------------------------------------------------

/// What the login manager is asked to do.
#[derive(Clone, Copy, Debug, PartialEq, Eq, Structural)]
pub enum Transition {
    /// To suspend to memory.
    Suspend,
    /// To suspend to disk.
    Hibernate,
    /// To power off.
    PowerOff,
}

/// What the login manager is asked to do for an action. The panel is not its business.
pub fn transition_for(action: Action) -> (r: Result<Transition, &'static str>)
    ensures
        match r {
            Ok(Transition::Suspend) => action == Action::Suspend,
            Ok(Transition::Hibernate) => action == Action::Hibernate,
            Ok(Transition::PowerOff) => action == Action::PowerOff,
            Err(why) => action == Action::ScreenOff && why@
                == "screen_off is performed by the session agent, not by logind"@,
        },
{
    match action {
        Action::Suspend => Ok(Transition::Suspend),
        Action::Hibernate => Ok(Transition::Hibernate),
        Action::PowerOff => Ok(Transition::PowerOff),
        Action::ScreenOff => Err("screen_off is performed by the session agent, not by logind"),
    }
}

// ---- who may ask ----------------------------------------------------------------------

/// What resting asks for.
pub const ACTION_REST: &'static str = "io.github.ericcanas.Idlectl1.rest";

/// What forcing an action asks for.
pub const ACTION_REST_FORCED: &'static str = "io.github.ericcanas.Idlectl1.rest-forced";

/// What taking a lease asks for.
pub const ACTION_LEASE: &'static str = "io.github.ericcanas.Idlectl1.lease";

/// What reading the configuration again asks for.
pub const ACTION_RELOAD: &'static str = "io.github.ericcanas.Idlectl1.reload";

/// What asking whether a caller may came to.
#[derive(Debug)]
pub enum Authority {
    /// Nobody could be asked: why.
    Unreachable(String),
    /// The answer: whether the caller may, and whether it would have to prove who it is.
    Answered {
        /// Whether the caller may.
        is_authorized: bool,
        /// Whether the caller would have to prove who it is.
        is_challenge: bool,
    },
}

/// Whether a caller need not be asked about: the administrator may do all this anyway.
pub fn is_root(uid: Option<u32>) -> (r: bool)
    ensures
        r == (uid == Some(0u32)),
{
    match uid {
        Some(uid) => uid == 0,
        None => false,
    }
}

/// Decides whether a caller may do something, or why it may not. The administrator may; others may
/// where they are allowed to, and not where nobody could be asked.
pub fn check(uid: Option<u32>, action_id: &str, answer: &Authority) -> (r: Result<(), String>)
    ensures
        r is Ok <==> uid == Some(0u32) || (*answer matches Authority::Answered {
            is_authorized,
            ..
        } && is_authorized),
        r matches Err(why) ==> why@ == (match *answer {
            Authority::Unreachable(err) => "polkit could not be consulted ("@ + err@
                + "), so only uid 0 may perform "@ + action_id@,
            Authority::Answered { is_authorized: _, is_challenge } => "not authorized for "@
                + action_id@ + (if is_challenge {
                " (authentication is required and no agent answered)"@
            } else {
                ""@
            }),
        }),
{
    if is_root(uid) {
        return Ok(());
    }
    match answer {
        Authority::Unreachable(err) => {
            let mut why = "polkit could not be consulted (".to_owned();
            why.append(err.as_str());
            why.append("), so only uid 0 may perform ");
            why.append(action_id);
            Err(why)
        },
        Authority::Answered { is_authorized, is_challenge } => {
            if *is_authorized {
                return Ok(());
            }
            let mut why = "not authorized for ".to_owned();
            why.append(action_id);
            if *is_challenge {
                why.append(" (authentication is required and no agent answered)");
            } else {
                why.append("");
            }
            Err(why)
        },
    }
}

/// A request that was kept waits until its time runs out, or somebody uses the machine after it was
/// asked for, and no longer. As long as it waits, a look that asks for nothing else asks for its
/// action. In the look that held it back, nobody has come yet.
pub proof fn a_kept_request_waits_for_its_time_or_a_person(
    clocks: ClockSnapshot,
    action: Action,
    ttl_usec: u64,
    uid: u32,
    since: ClockSnapshot,
)
    requires
        clocks.now.nanos + ttl_usec * 1_000 <= u64::MAX,
    ensures
        request_of(Some(held_request(clocks, action, ttl_usec, uid)), since, no_request()) == (
        if since.now.nanos < clocks.now.nanos + ttl_usec * 1_000 && !arrived(
            clocks.human_input,
            since.human_input,
        ) {
            (
                Some(held_request(clocks, action, ttl_usec, uid)),
                Request { now: true, force: None, requested: Some(action) },
            )
        } else {
            (None, no_request())
        }),
        !arrived(clocks.human_input, clocks.human_input),
{
}

} // verus!
