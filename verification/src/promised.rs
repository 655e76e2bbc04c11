//! What is promised to callers, of the answers that they are given.
use vstd::prelude::*;

use crate::action::Action;
use crate::agents::{Agent, Registry};
use crate::clock::ClockOrigin;
use crate::decision::Request;
use crate::engine::{kind_of, Engine, Event, Screen, Tick};
use crate::gpu::{nvidia_answer, NvidiaResult};
use crate::leases::{Holder, HolderState, Lease, Refusal, Table};
use crate::manager::{
    check, forced_request, lease_row, refuse_reason, refuse_ttl, rest_request, satisfied_by,
    transition_for, Authority, LeaseRow, Transition,
};
use crate::pending::{Dropped, Pending};
use crate::process::Process;
use crate::session::backend::Idle;
use crate::session::display::{x11_idle, BlankVia, Global};
use crate::session::gamepad::Gamepads;
use crate::session::lastinput::{last_used, taken_over};
use crate::spelling::blank;
use crate::text::{trimmed, views};
use crate::time::{BootInstant, Duration};

verus! {

// ---- what is done ---------------------------------------------------------------------

/// The panel is changed exactly where there is a decision, some session can darken its panel, and the
/// panel is not as decided: to what is decided, and only reported where decisions are.
pub proof fn the_panel_follows_the_decision(engine: Engine, r: Screen)
    requires
        call_ensures(Engine::screen, (&engine,), r),
    ensures
        r == Screen::Leave <==> engine.decision is None || !engine.screen_off_available || (
        engine.decision matches Some(d) && d.screen_off.due == engine.agents.blanked),
        r matches Screen::Change(dark) ==> !engine.dry_run && (engine.decision matches Some(d) && dark
            == d.screen_off.due),
        r matches Screen::Report(dark) ==> engine.dry_run && (engine.decision matches Some(d) && dark
            == d.screen_off.due),
{
}

/// Each sleep is asked for as itself, and the panel is none of the login manager's business.
pub proof fn each_sleep_is_asked_for_as_itself(action: Action, r: Result<Transition, &'static str>)
    requires
        call_ensures(transition_for, (action,), r),
    ensures
        action == Action::Suspend ==> (r matches Ok(t) && t == Transition::Suspend),
        action == Action::Hibernate ==> (r matches Ok(t) && t == Transition::Hibernate),
        action == Action::PowerOff ==> (r matches Ok(t) && t == Transition::PowerOff),
        action == Action::ScreenOff ==> r is Err,
{
}

/// An action is told as forced where it was, else as asked for where somebody asked to rest now, and
/// else as done on its own.
pub proof fn an_action_is_told_by_how_it_came_about(request: Request, action: Action, r: &'static str)
    requires
        call_ensures(kind_of, (&request, action), r),
    ensures
        request.force == Some(action) ==> r@ == "forced"@,
        request.force != Some(action) && request.now ==> r@ == "requested"@,
        request.force != Some(action) && !request.now ==> r@ == "autonomous"@,
{
}

// ---- what is asked for ----------------------------------------------------------------

/// A request to rest asks for its action now and forces nothing; one to force an action forces it and
/// does not ask to rest now.
pub proof fn requests_ask_for_their_own_action(action: Action, rest: Request, forced: Request)
    requires
        call_ensures(rest_request, (action,), rest),
        call_ensures(forced_request, (action,), forced),
    ensures
        rest.now && rest.force is None && rest.requested == Some(action),
        !forced.now && forced.force == Some(action) && forced.requested == Some(action),
{
}

/// A request waits for some time or not at all, and nothing is forced without a reason.
pub proof fn no_request_waits_for_no_time(
    ttl_usec: u64,
    why: &str,
    time: Option<&'static str>,
    reason: Option<&'static str>,
)
    requires
        call_ensures(refuse_ttl, (ttl_usec,), time),
        call_ensures(refuse_reason, (why,), reason),
    ensures
        time is Some <==> ttl_usec == 0,
        blank(why@) ==> reason is Some,
        why@.len() > 0 && !crate::text::is_space(why@[0]) ==> reason is None,
{
    crate::spelling::only_white_space_is_taken_away(why@);
    let none = Seq::<char>::empty();
    if blank(why@) {
        crate::spelling::white_space_around_a_text_is_no_part_of_it(why@, none, none);
        assert(why@ + none + none =~= why@);
    }
    if why@.len() > 0 && !crate::text::is_space(why@[0]) && crate::text::trimmed(why@).len() == 0 {
        let (j, k) = choose|j: int, k: int|
            #![trigger why@.subrange(j, k)]
            0 <= j <= k <= why@.len() && crate::text::trimmed(why@) == why@.subrange(j, k) && blank(
                why@.take(j),
            ) && blank(why@.skip(k));
        if j > 0 {
            assert(why@.take(j)[0] == why@[0]);
        } else {
            assert(why@.skip(k)[0] == why@[0]);
        }
    }
}

/// A request is satisfied by its own action, and by nothing else.
pub proof fn a_request_is_satisfied_by_its_own_action(
    performed: Option<Action>,
    action: Action,
    r: bool,
)
    requires
        call_ensures(satisfied_by, (performed, action), r),
    ensures
        r <==> performed == Some(action),
{
}

/// A request that waits is dropped where its time has run out; before that, where somebody is known to
/// have used the machine later than when it was made; and else not.
pub proof fn a_waiting_request_is_dropped_for_cause(
    held: Pending,
    now: BootInstant,
    human: ClockOrigin,
    r: Option<Dropped>,
)
    requires
        call_ensures(Pending::dropped_at, (&held, now, human), r),
    ensures
        ({
            let over = held.expires_at.nanos <= now.nanos;
            let came = held.human_origin matches ClockOrigin::At(a) && human matches ClockOrigin::At(
                b,
            ) && a.nanos < b.nanos;
            &&& over ==> r == Some(Dropped::Expired)
            &&& !over && came ==> r == Some(Dropped::HumanArrived)
            &&& !over && !came ==> r is None
        }),
{
}

/// The administrator may do everything, others what they are allowed to, and nobody else where nobody
/// could be asked.
pub proof fn who_is_not_allowed_may_not(
    uid: Option<u32>,
    action_id: &str,
    answer: Authority,
    r: Result<(), String>,
)
    requires
        call_ensures(check, (uid, action_id, &answer), r),
    ensures
        uid == Some(0u32) ==> r is Ok,
        uid != Some(0u32) && answer is Unreachable ==> r is Err,
        uid != Some(0u32) ==> (answer matches Authority::Answered { is_authorized, is_challenge }
            ==> (r is Ok <==> is_authorized)),
{
}

// ---- who holds a lease ----------------------------------------------------------------

/// A holder is alive exactly where its number is known and stands for a process that started when it
/// did, as far as that was recorded. Where no process has the number it is gone, and where another one
/// has it the number was given away.
pub proof fn a_holder_is_alive_while_its_process_is(
    holder: Holder,
    started_now: Option<u64>,
    comm: Option<String>,
    r: HolderState,
)
    requires
        call_ensures(Holder::state, (&holder, started_now, comm), r),
    ensures
        r is Unknown <==> holder.pid is None,
        r is Gone <==> holder.pid is Some && started_now is None,
        r is Recycled <==> holder.pid is Some && (holder.started matches Some(then)
            && started_now matches Some(now) && then != now),
        r is Alive <==> holder.pid is Some && started_now is Some && (holder.started is None
            || holder.started == started_now),
{
}

/// The row of a lease tells what it is: who, why, when it was taken and when it ends, in microseconds.
pub proof fn the_row_of_a_lease_tells_what_it_is(lease: Lease, state: HolderState, r: LeaseRow)
    requires
        call_ensures(lease_row, (&lease, &state), r),
    ensures
        r.who@ == lease.who@,
        r.why@ == lease.why@,
        r.uid == lease.uid,
        r.acquired_usec * 1_000 <= lease.acquired.nanos < r.acquired_usec * 1_000 + 1_000,
        r.expires_usec * 1_000 <= lease.expires.nanos < r.expires_usec * 1_000 + 1_000,
        lease.holder.pid matches Some(pid) ==> r.holder_pid == pid,
        lease.holder.pid is None ==> r.holder_pid == 0,
{
}

// ---- sessions -------------------------------------------------------------------------

/// A session that was just joined is as idle as it was before, and one that cannot tell is not spoken
/// for. When it was last used is its idle time ago.
pub proof fn a_session_that_was_joined_is_as_idle_as_before(
    says: Idle,
    before: Option<BootInstant>,
    now: BootInstant,
    r: Idle,
    used: Option<BootInstant>,
)
    requires
        call_ensures(taken_over, (says, before, now), r),
        call_ensures(last_used, (says, now), used),
    ensures
        says == Idle::Unknown ==> r == Idle::Unknown && used is None,
        before is None ==> r == says,
        says is For ==> (before matches Some(at) ==> (at.nanos <= now.nanos ==> (r matches Idle::For(d)
            && d.nanos == now.nanos - at.nanos))),
        says matches Idle::For(d) ==> (used matches Some(at) && at.nanos == (if d.nanos <= now.nanos {
            now.nanos - d.nanos
        } else {
            0
        })),
{
}

/// An X server tells milliseconds, and one that does not answer tells nothing.
pub proof fn an_x_server_tells_milliseconds(millis: Option<u32>, r: Idle)
    requires
        call_ensures(x11_idle, (millis,), r),
    ensures
        millis is None ==> r == Idle::Unknown,
        millis matches Some(ms) ==> (r matches Idle::For(d) && d.nanos == ms * 1_000_000),
{
}

/// A panel is darkened by the protocol of wlroots before that of KWin, by none without a panel, and by
/// that of KWin only where a panel supports it. A protocol is used in a version that both sides know.
pub proof fn a_panel_is_darkened_by_what_there_is(
    power: bool,
    dpms: bool,
    outputs: usize,
    supported: bool,
    offered: u32,
    global: Global,
    tried: BlankVia,
    settled: BlankVia,
    can: bool,
    version: u32,
)
    requires
        call_ensures(BlankVia::to_try, (power, dpms, outputs), tried),
        call_ensures(BlankVia::settled, (tried, supported), settled),
        call_ensures(BlankVia::can_blank, (settled,), can),
        call_ensures(Global::version, (global, offered), version),
    ensures
        can <==> outputs > 0 && (power || (dpms && supported)),
        settled == BlankVia::WlrOutputPower <==> outputs > 0 && power,
        settled == BlankVia::KdeDpms <==> outputs > 0 && !power && dpms && supported,
        version <= offered,
        version <= global.newest(),
        version == offered || version == global.newest(),
{
}

// ---- the driver and the kernel --------------------------------------------------------

/// A driver that fails is none only where it says that it has no device; any other failure, and any
/// line that cannot be read, is a driver that does not answer.
pub proof fn a_driver_that_fails_is_not_taken_for_none(
    success: bool,
    status: &str,
    stdout: &str,
    stderr: &str,
    r: NvidiaResult,
)
    requires
        call_ensures(nvidia_answer, (success, status, stdout, stderr), r),
    ensures
        success ==> !(r is Absent),
        !success ==> !(r is Holders),
        !success && !crate::text::holds(stderr@, "No devices were found"@) && !crate::text::holds(
            stdout@,
            "No devices were found"@,
        ) && !crate::text::holds(stderr@, "NVIDIA-SMI has failed"@) ==> r is Failed,
        !success && (crate::text::holds(stderr@, "No devices were found"@) || crate::text::holds(
            stdout@,
            "No devices were found"@,
        ) || crate::text::holds(stderr@, "NVIDIA-SMI has failed"@)) ==> r is Absent,
{
}

/// A process of which nothing could be read has no name, no arguments and no parent.
pub proof fn what_could_not_be_read_of_a_process_is_empty(pid: u32, r: Process)
    requires
        call_ensures(Process::read, (pid, &None, &None, &None), r),
    ensures
        r.pid == pid,
        r.ppid == 0,
        r.cmdline@.len() == 0,
        r.comm@.len() == 0,
{
}

// ---- what changes ---------------------------------------------------------------------

/// However carrying an action out ended, no transition is under way any more. One that was carried out
/// answers the request that waits for it; every other request goes on waiting.
pub proof fn carrying_out_answers_the_request(
    engine: &mut Engine,
    action: Action,
    carried_out: bool,
    r: Tick,
)
    requires
        call_ensures(Engine::finish, (engine, action, carried_out), r),
    ensures
        !final(engine).transition_in_flight,
        r == Tick::Done(Some(action)) <==> carried_out,
        r == Tick::Done(None) <==> !carried_out,
        carried_out ==> (old(engine).pending matches Some(held) ==> (held.action == action
            ==> final(engine).pending is None)),
        !carried_out ==> final(engine).pending == old(engine).pending,
        old(engine).pending matches Some(held) ==> (held.action != action ==> final(engine).pending
            == Some(held)),
        final(engine).policy == old(engine).policy,
        final(engine).leases == old(engine).leases,
        final(engine).decision == old(engine).decision,
{
}

/// A transition is under way from when an action is to be carried out on, and looking alone starts
/// none.
pub proof fn a_transition_is_under_way_once_it_is_to_be_carried_out(
    engine: &mut Engine,
    tick: Tick,
    r: Tick,
)
    requires
        call_ensures(Engine::advance, (engine, tick), r),
    ensures
        tick is Confirm && r is Perform ==> final(engine).transition_in_flight,
        tick is Look ==> final(engine).transition_in_flight == old(engine).transition_in_flight,
        final(engine).pending == old(engine).pending,
        final(engine).decision == old(engine).decision,
        old(engine).decision is None && (tick is Look || tick is Confirm) ==> r == Tick::Done(None),
{
}

/// Setting out drops a request that waits for cause and says which, and else leaves it.
pub proof fn setting_out_says_why_a_request_was_dropped(
    engine: &mut Engine,
    request: Request,
    r: (Tick, Option<Dropped>),
)
    requires
        call_ensures(Engine::begin, (engine, &request), r),
    ensures
        ({
            let clocks = old(engine).clocks;
            match old(engine).pending {
                None => r.1 is None && final(engine).pending is None,
                Some(held) => {
                    let over = held.expires_at.nanos <= clocks.now.nanos;
                    let came = held.human_origin matches ClockOrigin::At(a)
                        && clocks.human_input matches ClockOrigin::At(b) && a.nanos < b.nanos;
                    &&& over ==> r.1 == Some(Dropped::Expired) && final(engine).pending is None
                    &&& !over && came ==> r.1 == Some(Dropped::HumanArrived)
                        && final(engine).pending is None
                    &&& !over && !came ==> r.1 is None && final(engine).pending == Some(held)
                },
            }
        }),
{
}

/// A machine that is back has resumed now, and no transition is under way; every other event leaves
/// everything as it was, and only a bus that is gone ends the work.
pub proof fn a_machine_that_is_back_has_resumed(
    engine: &mut Engine,
    event: Event,
    now: BootInstant,
    suspended: u64,
    r: bool,
)
    requires
        call_ensures(Engine::on_event, (engine, event, now, suspended), r),
    ensures
        r <==> event != Event::BusClosed,
        event == Event::Resume ==> final(engine).resume.last_resume == Some(now)
            && final(engine).resume.resumed_this_boot && final(engine).resume.seen == suspended
            && !final(engine).transition_in_flight,
        event != Event::Resume ==> *final(engine) == *old(engine),
        final(engine).pending == old(engine).pending,
        final(engine).leases == old(engine).leases,
{
}

/// A forced action is remembered last, with who forced it, why and when; of more than sixty-four the
/// oldest is forgotten, and nothing else.
pub proof fn the_last_forced_actions_are_remembered(
    engine: &mut Engine,
    action: Action,
    why: &str,
    uid: u32,
    now: BootInstant,
    r: (),
    i: int,
)
    requires
        call_ensures(Engine::record_forced, (engine, action, why, uid, now), r),
        old(engine).forced@.len() <= 64,
    ensures
        ({
            let before = old(engine).forced@;
            let after = final(engine).forced@;
            let dropped: int = if before.len() == 64 {
                1
            } else {
                0
            };
            &&& after.len() == before.len() + 1 - dropped
            &&& after[after.len() - 1].action == action
            &&& after[after.len() - 1].why@ == why@
            &&& after[after.len() - 1].uid == uid
            &&& after[after.len() - 1].at == now
            &&& 0 <= i < after.len() - 1 ==> after[i] == before[i + dropped]
        }),
{
    let before = old(engine).forced@;
    let after = final(engine).forced@;
    if 0 <= i < after.len() - 1 {
        assert(after.drop_last()[i] == after[i]);
    }
}

/// A request to rest that its own action does not satisfy is kept, for that action and that user; one
/// that is satisfied changes nothing.
pub proof fn a_request_that_is_not_satisfied_is_kept(
    engine: &mut Engine,
    performed: Option<Action>,
    action: Action,
    ttl_usec: u64,
    uid: u32,
    r: bool,
)
    requires
        call_ensures(Engine::satisfied_or_held, (engine, performed, action, ttl_usec, uid), r),
    ensures
        r <==> performed == Some(action),
        r ==> *final(engine) == *old(engine),
        !r ==> (final(engine).pending matches Some(held) && held.action == action && held.uid == uid
            && held.human_origin == old(engine).clocks.human_input),
{
}

/// Cancelling forgets the request that waits and gives it back.
pub proof fn cancelling_forgets_the_request(engine: &mut Engine, r: Option<Pending>)
    requires
        call_ensures(Engine::cancel_pending, (engine,), r),
    ensures
        r == old(engine).pending,
        final(engine).pending is None,
{
}

/// The panel is remembered as it was told to be where some session was told, and else as before.
pub proof fn the_panel_is_remembered_as_told(
    engine: &mut Engine,
    blanked: bool,
    sessions: Vec<String>,
    r: (),
)
    requires
        call_ensures(Engine::screen_changed, (engine, blanked, &sessions), r),
    ensures
        sessions@.len() > 0 ==> final(engine).agents.blanked == blanked,
        sessions@.len() == 0 ==> final(engine).agents.blanked == old(engine).agents.blanked,
        final(engine).agents.agents@ == old(engine).agents.agents@,
{
}

/// A lease that is taken is held under its identifier until it ends, and no other changes; one that is
/// refused changes nothing. Giving one back takes out that one.
pub proof fn a_lease_is_held_from_when_it_is_taken(
    table: &mut Table,
    who: &str,
    why: &str,
    uid: u32,
    holder: Holder,
    ttl: Duration,
    now: BootInstant,
    r: Result<(), Refusal>,
    other: Seq<char>,
)
    requires
        call_ensures(Table::acquire, (table, who, why, uid, holder, ttl, now), r),
    ensures
        r is Err ==> final(table).leases@ == old(table).leases@,
        r is Ok ==> final(table).leases@.contains_key(trimmed(who@))
            && final(table).leases@[trimmed(who@)].uid == uid && final(table).leases@[trimmed(
            who@,
        )].why@ == why@ && !old(table).leases@.contains_key(trimmed(who@)),
        other != trimmed(who@) ==> final(table).leases@.contains_key(other)
            == old(table).leases@.contains_key(other) && (old(table).leases@.contains_key(other)
            ==> final(table).leases@[other] == old(table).leases@[other]),
{
}

/// Giving a lease back takes out that one and no other, and says whether it was held.
pub proof fn giving_back_takes_out_that_lease(table: &mut Table, who: &str, r: bool, other: Seq<char>)
    requires
        call_ensures(Table::release, (table, who), r),
    ensures
        r <==> old(table).leases@.contains_key(trimmed(who@)),
        !final(table).leases@.contains_key(trimmed(who@)),
        other != trimmed(who@) ==> final(table).leases@.contains_key(other)
            == old(table).leases@.contains_key(other) && (old(table).leases@.contains_key(other)
            ==> final(table).leases@[other] == old(table).leases@[other]),
{
}

/// An agent is there from when it registers until it is taken out, under its name and no other.
pub proof fn an_agent_is_there_from_when_it_registers(
    registry: &mut Registry,
    name: &str,
    agent: Agent,
    r: (),
    other: Seq<char>,
)
    requires
        call_ensures(Registry::register, (registry, name, agent), r),
    ensures
        final(registry).agents@.contains_key(name@),
        final(registry).agents@[name@] == agent,
        other != name@ ==> final(registry).agents@.contains_key(other)
            == old(registry).agents@.contains_key(other),
        final(registry).blanked == old(registry).blanked,
{
}

/// A report of one that is not registered changes nothing and says so; of one that is it changes that
/// one alone.
pub proof fn a_report_changes_its_sender_alone(
    registry: &mut Registry,
    name: &str,
    idle_usec: u64,
    media: &str,
    holders: Vec<crate::gpu::Holder>,
    now: BootInstant,
    r: bool,
    other: Seq<char>,
)
    requires
        call_ensures(Registry::report, (registry, name, idle_usec, media, holders, now), r),
    ensures
        r <==> old(registry).agents@.contains_key(name@),
        !r ==> final(registry).agents@ == old(registry).agents@,
        r ==> final(registry).agents@[name@].last_report == now,
        r ==> final(registry).agents@[name@].media@ == media@,
        other != name@ ==> final(registry).agents@.contains_key(other)
            == old(registry).agents@.contains_key(other) && (old(registry).agents@.contains_key(
            other,
        ) ==> final(registry).agents@[other] == old(registry).agents@[other]),
{
}

/// Devices are listed again where that is due or was never done, and next after five seconds.
pub proof fn devices_are_listed_every_five_seconds(pads: &mut Gamepads, now: BootInstant, r: bool)
    requires
        call_ensures(Gamepads::scan_due, (pads, now), r),
    ensures
        old(pads).next_scan is None ==> r,
        old(pads).next_scan matches Some(due) ==> (r <==> due.nanos <= now.nanos),
        !r ==> final(pads).next_scan == old(pads).next_scan,
        r && now.nanos + 5_000_000_000 <= u64::MAX ==> (final(pads).next_scan matches Some(next)
            && next.nanos == now.nanos + 5_000_000_000),
{
}

/// No more than eight devices are watched, and none twice.
pub proof fn no_more_than_eight_devices_are_watched(pads: &mut Gamepads, path: &str, r: bool)
    requires
        call_ensures(Gamepads::start, (pads, path), r),
    ensures
        r <==> old(pads).watching@.len() < 8 && !views(old(pads).watching@).contains(path@),
        !r ==> views(final(pads).watching@) == views(old(pads).watching@),
        r ==> views(final(pads).watching@).contains(path@) && final(pads).watching@.len()
            == old(pads).watching@.len() + 1,
{
    let before = views(old(pads).watching@);
    if r {
        assert(views(final(pads).watching@) == before.push(path@));
        assert(before.push(path@)[before.len() as int] == path@);
        assert(views(final(pads).watching@).len() == final(pads).watching@.len());
    }
}

/// A touch is remembered as the last, and a pad speaks for the session exactly where it changes what
/// is said of it.
pub proof fn a_touch_is_remembered(
    pads: &mut Gamepads,
    now: BootInstant,
    news: bool,
)
    requires
        call_ensures(Gamepads::touch, (pads, now), news),
    ensures
        final(pads).last_input == Some(now),
        final(pads).watching == old(pads).watching,
        old(pads).last_input is None ==> news,
        old(pads).last_input matches Some(last) ==> (news <==> now.nanos >= last.nanos
            + 5_000_000_000),
{
}

} // verus!
