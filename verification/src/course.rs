//! The course of things from one look at the machine to the next: what is remembered, what is asked
//! for, what is carried out and when the next look is due.
use vstd::prelude::*;
use vstd::utf8::encode_utf8;

use crate::action::Action;
use crate::agents::Registry;
use crate::block::{BlockId, BlockKind, Condition};
use crate::clock::{Clock, ClockOrigin, ClockSnapshot};
use crate::counters::Sampler;
use crate::decision::{
    blocks_at, decides, due_among, resolves, Decision, Reason, Request,
};
use crate::detect::{sees, Asked};
use crate::engine::{
    adding, adds, edges_after, first_files, found_from, polled, request_of, sweeps, tick_after, wakeup_of, Engine,
    Outside, Sources, Tick,
};
use crate::fact::{FactId, FactSet, FactState};
use crate::gpu::{holder_views, split_of};
use crate::leases::{
    denial, denied_text, ended_among, ends_first, lease_for, lease_text, wire_text, Denied, Ended,
    Holder, HolderState, Lease, Table,
};
use crate::manager::{bounded, deadline_row, held_request, state_in, usec_of};
use crate::names::{in_order, lists};
use crate::observed::graphical_users_have_a_graphical_session;
use crate::pending::Pending;
use crate::policy::{
    doubtful_facts_are_exactly_the_doubts, has_block, lemma_filter_members, takes_part, BlockEdges,
    Policy,
};
use crate::reading::{changes, sampled, Found, Reading, POLLED};
use crate::resume::{adopted, after_look, ahead, grown, reading_nanos, resume_origin, ResumeTracker};
use crate::sessions::{graphical_users, Logind};
use crate::spelling::{lacks, the_last_part_follows_the_last_separator};
use crate::text::{trimmed, views};
use crate::time::{sooner, BootInstant, Deadline, Duration};

verus! {

// ---- what is decided ------------------------------------------------------------------

/// Whether a policy has a fact read: as it is set, and where it is not, unless it is the local
/// service.
pub open spec fn is_read(policy: Policy, fact: FactId) -> bool {
    if policy.facts@.contains_key(fact) {
        policy.facts@[fact].enabled
    } else {
        fact != FactId::LocalServiceBusy
    }
}

/// What is decided of each action is decided of that action, at the present of the clocks, under the
/// request that was made. The facts in doubt are those that are read and cannot be told, and all
/// faults of the configuration are counted.
pub proof fn each_action_is_decided_on_its_own(
    d: Decision,
    policy: Policy,
    facts: FactSet,
    clocks: ClockSnapshot,
    edges: BlockEdges,
    request: Request,
    fact: FactId,
)
    requires
        decides(d, policy, facts, clocks, edges, request),
    ensures
        resolves(d.screen_off, Action::ScreenOff, policy, facts, clocks, edges, request),
        resolves(d.suspend, Action::Suspend, policy, facts, clocks, edges, request),
        resolves(d.hibernate, Action::Hibernate, policy, facts, clocks, edges, request),
        resolves(d.poweroff, Action::PowerOff, policy, facts, clocks, edges, request),
        d.screen_off.action == Action::ScreenOff,
        d.suspend.action == Action::Suspend,
        d.hibernate.action == Action::Hibernate,
        d.poweroff.action == Action::PowerOff,
        d.now == clocks.now,
        d.requested == request.requested,
        d.config_faults == policy.faults@.len(),
        d.doubtful_facts@.contains(fact) <==> is_read(policy, fact)
            && facts.readings@.contains_key(fact) && facts.readings@[fact]
            == FactState::Indeterminate,
{
    doubtful_facts_are_exactly_the_doubts(policy, facts, fact);
    assert(d.of(Action::ScreenOff) == d.screen_off);
    assert(d.of(Action::Suspend) == d.suspend);
    assert(d.of(Action::Hibernate) == d.hibernate);
    assert(d.of(Action::PowerOff) == d.poweroff);
}

/// The actions that are due are those of which it is decided so, from the shallowest to the deepest.
pub proof fn the_due_actions_are_those_decided_due(d: Decision)
    ensures
        due_among(d, 4) == (if d.screen_off.due {
            seq![Action::ScreenOff]
        } else {
            Seq::empty()
        }) + (if d.suspend.due {
            seq![Action::Suspend]
        } else {
            Seq::empty()
        }) + (if d.hibernate.due {
            seq![Action::Hibernate]
        } else {
            Seq::empty()
        }) + (if d.poweroff.due {
            seq![Action::PowerOff]
        } else {
            Seq::empty()
        }),
{
    reveal_with_fuel(due_among, 5);
    assert(Action::ALL@[0] == Action::ScreenOff);
    assert(Action::ALL@[1] == Action::Suspend);
    assert(Action::ALL@[2] == Action::Hibernate);
    assert(Action::ALL@[3] == Action::PowerOff);
    assert(due_among(d, 4) =~= (if d.screen_off.due {
        seq![Action::ScreenOff]
    } else {
        Seq::empty()
    }) + (if d.suspend.due {
        seq![Action::Suspend]
    } else {
        Seq::empty()
    }) + (if d.hibernate.due {
        seq![Action::Hibernate]
    } else {
        Seq::empty()
    }) + (if d.poweroff.due {
        seq![Action::PowerOff]
    } else {
        Seq::empty()
    }));
}

/// The blocks at a deadline are those of a kind that give it as theirs, and no others.
pub proof fn the_blocks_at_a_deadline_give_it(
    reasons: Seq<Reason>,
    kind: BlockKind,
    deadline: Deadline,
    id: BlockId,
)
    ensures
        blocks_at(reasons, kind, deadline).contains(id) <==> exists|j: int|
            #![trigger reasons[j]]
            0 <= j < reasons.len() && reasons[j].block == id && id.kind == kind
                && reasons[j].deadline == deadline,
    decreases reasons.len(),
{
    if reasons.len() > 0 {
        let fewer = reasons.drop_last();
        let last = reasons[reasons.len() - 1];
        assert(last == reasons.last());
        the_blocks_at_a_deadline_give_it(fewer, kind, deadline, id);
        let before = blocks_at(fewer, kind, deadline);
        let all = blocks_at(reasons, kind, deadline);
        assert forall|j: int| 0 <= j < fewer.len() implies #[trigger] fewer[j] == reasons[j] by {}
        if last.block.kind == kind && last.deadline == deadline {
            assert(all == before.push(last.block));
            if before.contains(id) {
                let k = choose|k: int| 0 <= k < before.len() && before[k] == id;
                assert(all[k] == id);
            }
            assert(all[before.len() as int] == last.block);
            if all.contains(id) && id != last.block {
                let k = choose|k: int| 0 <= k < all.len() && all[k] == id;
                assert(before[k] == id);
            }
        }
        if exists|j: int|
            #![trigger reasons[j]]
            0 <= j < reasons.len() && reasons[j].block == id && id.kind == kind
                && reasons[j].deadline == deadline {
            let j = choose|j: int|
                #![trigger reasons[j]]
                0 <= j < reasons.len() && reasons[j].block == id && id.kind == kind
                    && reasons[j].deadline == deadline;
            if j < fewer.len() {
                assert(fewer[j] == reasons[j]);
            }
        }
    } else {
        assert(!blocks_at(reasons, kind, deadline).contains(id));
    }
}

// ---- what things are called -----------------------------------------------------------

/// Actions, clocks, kinds of blocks and states are called what a configuration and the bus call them.
pub proof fn things_have_their_names()
    ensures
        Action::ScreenOff.text() == "screen_off"@,
        Action::Suspend.text() == "suspend"@,
        Action::Hibernate.text() == "hibernate"@,
        Action::PowerOff.text() == "poweroff"@,
        Clock::HumanInput.text() == "human_input"@,
        Clock::Resume.text() == "resume"@,
        Clock::ConditionEdge.text() == "condition"@,
        Clock::Boot.text() == "boot"@,
        BlockKind::While.text() == "while"@,
        BlockKind::When.text() == "when"@,
        FactState::True.text() == "true"@,
        FactState::False.text() == "false"@,
        FactState::Indeterminate.text() == "indeterminate"@,
        FactState::Unavailable.text() == "unavailable"@,
        Condition::Always.text() == "always"@,
        FactId::HumanActive.text() == "human_active"@,
        FactId::AfterResume.text() == "after_resume"@,
        FactId::RemoteSession.text() == "remote_session"@,
        FactId::LeaseHeld.text() == "lease_held"@,
        FactId::InhibitorBlock.text() == "inhibitor_block"@,
        FactId::MediaPlaying.text() == "media_playing"@,
        FactId::SteamGameRunning.text() == "steam_game_running"@,
        FactId::SteamDownloading.text() == "steam_downloading"@,
        FactId::GpuBusyGame.text() == "gpu_busy_game"@,
        FactId::GpuBusyOther.text() == "gpu_busy_other"@,
        FactId::LocalServiceBusy.text() == "local_service_busy"@,
        (BlockId { kind: BlockKind::While, condition: Condition::Always }).text() == "while"@ + "."@
            + "always"@,
        forall|f: FactId|
            (BlockId { kind: BlockKind::When, condition: Condition::Fact(f) }).text() == "when"@
                + "."@ + #[trigger] f.text(),
{
}

/// Actions go from the shallowest to the deepest, and facts have one order.
pub proof fn actions_and_facts_have_one_order()
    ensures
        Action::ALL@ == seq![
            Action::ScreenOff,
            Action::Suspend,
            Action::Hibernate,
            Action::PowerOff,
        ],
        FactId::ALL@ == seq![
            FactId::HumanActive,
            FactId::AfterResume,
            FactId::RemoteSession,
            FactId::LeaseHeld,
            FactId::InhibitorBlock,
            FactId::MediaPlaying,
            FactId::SteamGameRunning,
            FactId::SteamDownloading,
            FactId::GpuBusyGame,
            FactId::GpuBusyOther,
            FactId::LocalServiceBusy,
        ],
{
    assert(Action::ALL@ =~= seq![
        Action::ScreenOff,
        Action::Suspend,
        Action::Hibernate,
        Action::PowerOff,
    ]);
    assert(FactId::ALL@ =~= seq![
        FactId::HumanActive,
        FactId::AfterResume,
        FactId::RemoteSession,
        FactId::LeaseHeld,
        FactId::InhibitorBlock,
        FactId::MediaPlaying,
        FactId::SteamGameRunning,
        FactId::SteamDownloading,
        FactId::GpuBusyGame,
        FactId::GpuBusyOther,
        FactId::LocalServiceBusy,
    ]);
}

// ---- since when conditions hold -------------------------------------------------------

/// What is known of the condition of a block.
pub open spec fn known_of(condition: Condition, facts: FactSet) -> FactState {
    match condition {
        Condition::Always => FactState::True,
        Condition::Fact(f) => if facts.readings@.contains_key(f) {
            facts.readings@[f]
        } else {
            FactState::Unavailable
        },
    }
}

/// A condition that starts to hold holds since the present; one that goes on holding, or of which
/// there is doubt, since when it did; one that does not hold, or that nothing is known of, since no
/// time. What no block names is left alone.
pub proof fn a_condition_holds_since_it_started(
    before: BlockEdges,
    after: BlockEdges,
    policy: Policy,
    facts: FactSet,
    now: BootInstant,
    i: int,
    other: BlockId,
)
    requires
        edges_after(before, after, policy, facts, now),
    ensures
        0 <= i < policy.blocks@.len() ==> {
            let id = policy.blocks@[i].id;
            match known_of(id.condition, facts) {
                FactState::True => after.at(id) == (if before.at(id) is Some {
                    before.at(id)
                } else {
                    Some(now)
                }),
                FactState::Indeterminate => after.at(id) == before.at(id),
                FactState::False => after.at(id) is None,
                FactState::Unavailable => after.at(id) is None,
            }
        },
        (forall|j: int| 0 <= j < policy.blocks@.len() ==> (#[trigger] policy.blocks@[j]).id != other)
            ==> after.at(other) == before.at(other),
{
    if 0 <= i < policy.blocks@.len() {
        let id = policy.blocks@[i].id;
        assert(has_block(policy.blocks@, id));
        assert(after.at(id) == after.at(id));
    }
    assert(after.at(other) == after.at(other));
}

// ---- leases ---------------------------------------------------------------------------

/// A lease that is granted ends after the time that was asked for, and after an hour where none was;
/// where that instant cannot be counted, with the last one that can. It is kept under what was given,
/// without the white space around it.
pub proof fn a_lease_lasts_as_long_as_asked_for(
    lease: Lease,
    who: Seq<char>,
    why: Seq<char>,
    uid: u32,
    holder: Holder,
    ttl: Duration,
    now: BootInstant,
)
    requires
        lease_for(lease, who, why, uid, holder, ttl, now),
    ensures
        ({
            let span: int = if ttl.nanos == 0 {
                3_600_000_000_000
            } else {
                ttl.nanos as int
            };
            lease.expires.nanos == (if now.nanos + span <= u64::MAX {
                now.nanos + span
            } else {
                u64::MAX as int
            })
        }),
        lease.acquired == now,
        lease.who@ == trimmed(who),
        lease.why@ == why,
        lease.uid == uid,
        lease.holder == holder,
{
}

/// A lease is refused exactly where it has no identifier, where that or the reason is longer than two
/// hundred and fifty-six bytes, where it asks for more than a day, or where its identifier is taken;
/// of several reasons the first of these is given.
pub proof fn a_lease_is_refused_for_its_first_fault(
    leases: Map<Seq<char>, Lease>,
    who: Seq<char>,
    why: Seq<char>,
    ttl: Duration,
)
    ensures
        ({
            let id = trimmed(who);
            let empty = id.len() == 0;
            let long = encode_utf8(id).len() > 256;
            let wordy = encode_utf8(why).len() > 256;
            let lasting = ttl.nanos > 86_400_000_000_000;
            let taken = leases.contains_key(id);
            &&& denial(leases, who, why, ttl) is None <==> !empty && !long && !wordy && !lasting
                && !taken
            &&& empty ==> denial(leases, who, why, ttl) == Some(Denied::EmptyId)
            &&& !empty && long ==> denial(leases, who, why, ttl) == Some(Denied::TooLong("who"@))
            &&& !empty && !long && wordy ==> denial(leases, who, why, ttl) == Some(
                Denied::TooLong("why"@),
            )
            &&& !empty && !long && !wordy && lasting ==> denial(leases, who, why, ttl) == Some(
                Denied::TtlTooLong,
            )
            &&& !empty && !long && !wordy && !lasting && taken ==> denial(leases, who, why, ttl)
                == Some(Denied::AlreadyHeld)
        }),
{
}

/// A lease is reported as ended exactly where its time has run out, or where its handle is closed
/// before that, and with that reason.
pub proof fn a_lease_ends_by_time_or_by_its_handle(
    leases: Map<Seq<char>, Lease>,
    closed: Seq<Seq<char>>,
    now: BootInstant,
    names: Seq<Seq<char>>,
    name: Seq<char>,
)
    ensures
        ended_among(leases, closed, now, names).contains((name, Ended::TtlExpired))
            <==> names.contains(name) && now.nanos >= leases[name].expires.nanos,
        ended_among(leases, closed, now, names).contains((name, Ended::HandleClosed))
            <==> names.contains(name) && now.nanos < leases[name].expires.nanos && closed.contains(
            name,
        ),
    decreases names.len(),
{
    let all = ended_among(leases, closed, now, names);
    if names.len() > 0 {
        let fewer = names.drop_last();
        let last = names.last();
        a_lease_ends_by_time_or_by_its_handle(leases, closed, now, fewer, name);
        let before = ended_among(leases, closed, now, fewer);
        assert(names =~= fewer.push(last));
        crate::names::lemma_pushed(fewer, last, name);
        if all != before {
            let row = all[before.len() as int];
            assert(all == before.push(row));
            lemma_row_pushed(before, row, (name, Ended::TtlExpired));
            lemma_row_pushed(before, row, (name, Ended::HandleClosed));
        }
    }
}

proof fn lemma_row_pushed(rows: Seq<(Seq<char>, Ended)>, row: (Seq<char>, Ended), x: (Seq<char>, Ended))
    ensures
        rows.push(row).contains(x) <==> rows.contains(x) || x == row,
{
    let all = rows.push(row);
    if rows.contains(x) {
        let k = choose|k: int| 0 <= k < rows.len() && rows[k] == x;
        assert(all[k] == x);
    }
    assert(all[rows.len() as int] == row);
    if all.contains(x) && x != row {
        let k = choose|k: int| 0 <= k < all.len() && all[k] == x;
        assert(rows[k] == x);
    }
}

// ---- resumes --------------------------------------------------------------------------

/// A look at the suspended time notices a resume exactly where that time has grown by a second or
/// more. It is then remembered as of the present; else the last one stays, and only the suspended
/// time is kept where it has grown at all.
pub proof fn a_resume_is_a_second_more_of_suspended_time(
    before: ResumeTracker,
    now: BootInstant,
    suspended: u64,
)
    requires
        before.seen + 1_000_000_000 <= u64::MAX,
    ensures
        ({
            let after = after_look(before, now, suspended);
            &&& grown(before.seen, suspended) <==> suspended - before.seen >= 1_000_000_000
            &&& suspended - before.seen >= 1_000_000_000 ==> after.last_resume == Some(now)
                && after.resumed_this_boot && after.seen == suspended && resume_origin(after)
                == ClockOrigin::At(now)
            &&& suspended - before.seen < 1_000_000_000 ==> after.last_resume == before.last_resume
                && after.resumed_this_boot == before.resumed_this_boot
            &&& before.seen < suspended < before.seen + 1_000_000_000 ==> after.seen == suspended
            &&& suspended <= before.seen ==> after.seen == before.seen
        }),
{
}

/// At the start a machine has resumed exactly where it has been suspended at all, and then as of the
/// present.
pub proof fn a_machine_that_was_suspended_has_resumed(now: BootInstant, suspended: u64)
    ensures
        adopted(now, suspended).seen == suspended,
        suspended > 0 ==> adopted(now, suspended).resumed_this_boot && adopted(
            now,
            suspended,
        ).last_resume == Some(now) && resume_origin(adopted(now, suspended)) == ClockOrigin::At(now),
        suspended == 0 ==> !adopted(now, suspended).resumed_this_boot && adopted(
            now,
            suspended,
        ).last_resume is None && resume_origin(adopted(now, suspended)) == ClockOrigin::NotYet,
{
}

/// A reading of a clock is its seconds and its nanoseconds, as far as that can be counted, and what is
/// negative counts as nothing. How long a machine was suspended is what one clock is ahead of the
/// other.
pub proof fn clocks_are_read_in_nanoseconds(secs: i64, nsec: i64, boottime: u64, monotonic: u64)
    ensures
        secs >= 0 && nsec >= 0 && secs * 1_000_000_000 + nsec <= u64::MAX ==> reading_nanos(
            secs,
            nsec,
        ) == secs * 1_000_000_000 + nsec,
        secs >= 0 && nsec >= 0 && secs * 1_000_000_000 + nsec > u64::MAX ==> reading_nanos(secs, nsec)
            == u64::MAX,
        secs < 0 && nsec >= 0 ==> reading_nanos(secs, nsec) == nsec,
        nsec < 0 ==> reading_nanos(secs, nsec) == reading_nanos(secs, 0),
        boottime >= monotonic ==> monotonic + ahead(boottime, monotonic) == boottime,
        boottime < monotonic ==> ahead(boottime, monotonic) == 0,
{
}

// ---- requests and actions -------------------------------------------------------------

/// Whether somebody used the machine after an instant at which that could be told, as far as it can
/// be told now.
pub open spec fn used_since(was: ClockOrigin, is: ClockOrigin) -> bool {
    was matches ClockOrigin::At(a) && is matches ClockOrigin::At(b) && a.nanos < b.nanos
}

/// A request that waits is given up exactly where its time has run out, or somebody has used the
/// machine since it was made. As long as it waits it asks for its own action, to be rested at now and
/// not forced, unless another request names an action.
pub proof fn a_request_waits_until_its_time_or_a_person(
    held: Pending,
    clocks: ClockSnapshot,
    request: Request,
)
    ensures
        ({
            let next = request_of(Some(held), clocks, request);
            let over = held.expires_at.nanos <= clocks.now.nanos || used_since(
                held.human_origin,
                clocks.human_input,
            );
            &&& over ==> next.0 is None && next.1 == request
            &&& !over ==> next.0 == Some(held)
            &&& !over && (request.requested is Some || request.force is Some) ==> next.1 == request
            &&& !over && request.requested is None && request.force is None ==> next.1.now
                && next.1.force is None && next.1.requested == Some(held.action)
        }),
        request_of(None, clocks, request) == (None::<Pending>, request),
{
}

/// A request that is kept ends when its time has passed from the present of the clocks, in
/// microseconds; a time that cannot be counted has passed at once. Its people are those who come after
/// that present.
pub proof fn a_kept_request_ends_when_its_time_has_passed(
    clocks: ClockSnapshot,
    action: Action,
    ttl_usec: u64,
    uid: u32,
)
    ensures
        ({
            let held = held_request(clocks, action, ttl_usec, uid);
            &&& held.action == action
            &&& held.uid == uid
            &&& held.human_origin == clocks.human_input
            &&& held.expires_at.nanos == (if clocks.now.nanos + ttl_usec * 1_000 <= u64::MAX {
                clocks.now.nanos + ttl_usec * 1_000
            } else {
                clocks.now.nanos as int
            })
        }),
{
}

/// An action is carried out after two looks in a row that permit one: the first is confirmed unless a
/// transition is under way, and the second carried out unless decisions are only reported. What is
/// carried out is what the second permits, under the request of the first.
pub proof fn an_action_takes_two_looks(
    request: Request,
    first: Action,
    may: Option<Action>,
    in_flight: bool,
    dry_run: bool,
)
    ensures
        may is None ==> tick_after(Tick::Look(request), may, in_flight, dry_run) == Tick::Done(None)
            && tick_after(Tick::Confirm(request, first), may, in_flight, dry_run) == Tick::Done(
            None,
        ),
        may matches Some(action) ==> {
            &&& tick_after(Tick::Look(request), may, in_flight, dry_run) == (if in_flight {
                Tick::Done(None)
            } else {
                Tick::Confirm(request, action)
            })
            &&& tick_after(Tick::Confirm(request, first), may, in_flight, dry_run) == (if dry_run {
                Tick::Done(None)
            } else {
                Tick::Perform(request, action)
            })
        },
{
}

/// For how long an instant is waited for, in nanoseconds: until it, and no less than a quarter of a
/// second.
pub open spec fn waits(at: BootInstant, now: BootInstant) -> int {
    if at.nanos >= now.nanos + 250_000_000 {
        at.nanos - now.nanos
    } else {
        250_000_000
    }
}

/// The next look is waited for until the first of the next deadline, the end of a lease, the end of
/// the request that waits and, where what nothing announces has to be looked at, a minute. Where there
/// is none of these it is not waited for.
pub proof fn the_next_look_is_due_at_the_first(
    deadline: Deadline,
    expiry: Option<BootInstant>,
    pending: Option<BootInstant>,
    sweep: bool,
    now: BootInstant,
)
    ensures
        match wakeup_of(deadline, expiry, pending, sweep, now) {
            None => deadline == Deadline::Never && expiry is None && pending is None && !sweep,
            Some(d) => {
                &&& deadline matches Deadline::At(at) ==> d.nanos <= waits(at, now)
                &&& expiry matches Some(at) ==> d.nanos <= waits(at, now)
                &&& pending matches Some(at) ==> d.nanos <= waits(at, now)
                &&& sweep ==> d.nanos <= 60_000_000_000
                &&& {
                    ||| deadline matches Deadline::At(at) && d.nanos == waits(at, now)
                    ||| expiry matches Some(at) && d.nanos == waits(at, now)
                    ||| pending matches Some(at) && d.nanos == waits(at, now)
                    ||| sweep && d.nanos == 60_000_000_000
                }
            },
        },
{
}

/// Whether nothing announces that a fact has changed.
pub open spec fn unannounced(fact: FactId) -> bool {
    ||| fact == FactId::MediaPlaying
    ||| fact == FactId::SteamGameRunning
    ||| fact == FactId::SteamDownloading
    ||| fact == FactId::GpuBusyGame
    ||| fact == FactId::GpuBusyOther
    ||| fact == FactId::LocalServiceBusy
}

/// What nothing announces has to be looked at exactly where such a fact is read and keeps the machine
/// awake, by being true or in doubt, or where a ceiling that is switched on waits for one.
pub proof fn what_nothing_announces_is_looked_at_while_it_matters(
    policy: Policy,
    readings: Map<FactId, Reading>,
)
    ensures
        sweeps(policy, readings) <==> (exists|f: FactId| #[trigger]
            unannounced(f) && is_read(policy, f) && readings.contains_key(f) && (readings[f].state
                == FactState::True || readings[f].state == FactState::Indeterminate)) || (exists|
            i: int,
        |
            #![trigger policy.blocks@[i]]
            0 <= i < policy.blocks@.len() && policy.blocks@[i].enabled && policy.blocks@[i].id.kind
                == BlockKind::When && (policy.blocks@[i].id.condition matches Condition::Fact(f)
                && unannounced(f))),
{
    assert(POLLED@.len() == 6);
    assert(POLLED@[0] == FactId::MediaPlaying);
    assert(POLLED@[1] == FactId::SteamGameRunning);
    assert(POLLED@[2] == FactId::SteamDownloading);
    assert(POLLED@[3] == FactId::GpuBusyGame);
    assert(POLLED@[4] == FactId::GpuBusyOther);
    assert(POLLED@[5] == FactId::LocalServiceBusy);
    assert forall|f: FactId| #[trigger] polled(f) <==> unannounced(f) by {
        if polled(f) {
            let i = choose|i: int| 0 <= i < 6 && #[trigger] POLLED@[i] == f;
            assert(POLLED@[i] == f);
        }
    }
    let blocks = policy.blocks@;
    let part = takes_part(BlockKind::When);
    let ceilings = blocks.filter(part);
    if exists|f: FactId| #[trigger]
        unannounced(f) && is_read(policy, f) && readings.contains_key(f) && (readings[f].state
            == FactState::True || readings[f].state == FactState::Indeterminate) {
        let f = choose|f: FactId| #[trigger]
            unannounced(f) && is_read(policy, f) && readings.contains_key(f) && (readings[f].state
                == FactState::True || readings[f].state == FactState::Indeterminate);
        assert(polled(f));
    }
    if exists|i: int|
        #![trigger blocks[i]]
        0 <= i < blocks.len() && blocks[i].enabled && blocks[i].id.kind == BlockKind::When && (
        blocks[i].id.condition matches Condition::Fact(f) && unannounced(f)) {
        let i = choose|i: int|
            #![trigger blocks[i]]
            0 <= i < blocks.len() && blocks[i].enabled && blocks[i].id.kind == BlockKind::When && (
            blocks[i].id.condition matches Condition::Fact(f) && unannounced(f));
        lemma_filter_members(blocks, part, blocks[i]);
        assert(blocks.contains(blocks[i]));
        let k = choose|k: int| 0 <= k < ceilings.len() && ceilings[k] == blocks[i];
        assert(ceilings[k].id.condition == blocks[i].id.condition);
        assert(sweeps(policy, readings));
    }
    if sweeps(policy, readings) && !(exists|f: FactId| #[trigger]
        polled(f) && policy.reads(f) && crate::engine::holds_awake(readings, f)) {
        let k = choose|k: int|
            #![trigger policy.blocks@.filter(takes_part(BlockKind::When))[k]]
            0 <= k < ceilings.len() && (match ceilings[k].id.condition {
                Condition::Fact(f) => polled(f),
                Condition::Always => false,
            });
        lemma_filter_members(blocks, part, ceilings[k]);
        assert(ceilings.contains(ceilings[k]));
        let i = choose|i: int| 0 <= i < blocks.len() && blocks[i] == ceilings[k];
        assert(blocks[i].enabled);
    }
    if exists|f: FactId| #[trigger]
        polled(f) && policy.reads(f) && crate::engine::holds_awake(readings, f) {
        let f = choose|f: FactId| #[trigger]
            polled(f) && policy.reads(f) && crate::engine::holds_awake(readings, f);
        assert(unannounced(f));
    }
}

// ---- what is read ---------------------------------------------------------------------

/// Each fact reads as what was found of it and of no other; one that is not read is not available,
/// whatever was found.
pub proof fn each_fact_reads_as_what_was_found_of_it(
    readings: Map<FactId, Reading>,
    policy: Policy,
    found: Found,
)
    requires
        forall|f: FactId| #[trigger] sampled(readings, policy, found, f),
    ensures
        forall|f: FactId| #[trigger]
            readings.contains_key(f) && (!is_read(policy, f) ==> readings[f].state
                == FactState::Unavailable),
        is_read(policy, FactId::HumanActive) ==> readings[FactId::HumanActive].state
            == found.human_active.state,
        is_read(policy, FactId::AfterResume) ==> readings[FactId::AfterResume].state == (
        if found.after_resume {
            FactState::True
        } else {
            FactState::False
        }),
        is_read(policy, FactId::RemoteSession) ==> readings[FactId::RemoteSession].state
            == found.remote_session.state,
        is_read(policy, FactId::LeaseHeld) ==> readings[FactId::LeaseHeld].state == (
        if found.leases is Some {
            FactState::True
        } else {
            FactState::False
        }),
        is_read(policy, FactId::InhibitorBlock) ==> readings[FactId::InhibitorBlock].state
            == found.inhibitor_block.state,
        is_read(policy, FactId::MediaPlaying) ==> readings[FactId::MediaPlaying].state
            == found.media_playing.state,
        is_read(policy, FactId::SteamGameRunning) ==> readings[FactId::SteamGameRunning].state
            == found.steam_game_running.state,
        is_read(policy, FactId::SteamDownloading) ==> readings[FactId::SteamDownloading].state
            == found.steam_downloading.state,
        is_read(policy, FactId::GpuBusyGame) ==> readings[FactId::GpuBusyGame].state
            == found.gpu_busy_game.state,
        is_read(policy, FactId::GpuBusyOther) ==> readings[FactId::GpuBusyOther].state
            == found.gpu_busy_other.state,
        is_read(policy, FactId::LocalServiceBusy) ==> readings[FactId::LocalServiceBusy].state
            == found.local_service_busy.state,
{
    assert forall|f: FactId| #[trigger]
        readings.contains_key(f) && (!is_read(policy, f) ==> readings[f].state
            == FactState::Unavailable) by {
        assert(sampled(readings, policy, found, f));
    }
    assert(sampled(readings, policy, found, FactId::HumanActive));
    assert(sampled(readings, policy, found, FactId::AfterResume));
    assert(sampled(readings, policy, found, FactId::RemoteSession));
    assert(sampled(readings, policy, found, FactId::LeaseHeld));
    assert(sampled(readings, policy, found, FactId::InhibitorBlock));
    assert(sampled(readings, policy, found, FactId::MediaPlaying));
    assert(sampled(readings, policy, found, FactId::SteamGameRunning));
    assert(sampled(readings, policy, found, FactId::SteamDownloading));
    assert(sampled(readings, policy, found, FactId::GpuBusyGame));
    assert(sampled(readings, policy, found, FactId::GpuBusyOther));
    assert(sampled(readings, policy, found, FactId::LocalServiceBusy));
}

proof fn lemma_changes(
    last: Map<FactId, FactState>,
    readings: Map<FactId, Reading>,
    facts: int,
    fact: FactId,
)
    requires
        0 <= facts <= 11,
    ensures
        changes(last, readings, facts).contains(fact) <==> fact.rank() < facts
            && readings.contains_key(fact) && !(last.contains_key(fact) && last[fact]
            == readings[fact].state),
    decreases facts,
{
    crate::fact::lemma_all_facts();
    if facts > 0 {
        lemma_changes(last, readings, facts - 1, fact);
        let here = FactId::ALL@[facts - 1];
        assert(here.rank() == facts - 1);
        assert(FactId::ALL@[fact.rank()] == fact);
        let before = changes(last, readings, facts - 1);
        let all = changes(last, readings, facts);
        if all != before {
            assert(all == before.push(here));
            if before.contains(fact) {
                let k = choose|k: int| 0 <= k < before.len() && before[k] == fact;
                assert(all[k] == fact);
            }
            assert(all[before.len() as int] == here);
            if all.contains(fact) && fact != here {
                let k = choose|k: int| 0 <= k < all.len() && all[k] == fact;
                assert(before[k] == fact);
            }
        }
    }
}

/// A fact is news exactly where it was read and its state is not what it was, or it had none.
pub proof fn a_fact_is_news_where_its_state_is_another(
    last: Map<FactId, FactState>,
    readings: Map<FactId, Reading>,
    fact: FactId,
)
    ensures
        changes(last, readings, 11).contains(fact) <==> readings.contains_key(fact) && (
        !last.contains_key(fact) || last[fact] != readings[fact].state),
{
    crate::fact::lemma_all_facts();
    lemma_changes(last, readings, 11, fact);
    assert(fact.rank() < 11);
}

/// What is seen of the machine is what it answered of each thing: the memory of the GPU in a game and
/// elsewhere each as such, by the game and the service that were seen, and no more of what is switched
/// off than that it is.
pub proof fn what_is_seen_is_what_was_answered(
    seen: Outside,
    engine: Engine,
    before: Sampler,
    asked: Asked,
)
    requires
        sees(seen, engine, before, asked),
    ensures
        seen.now == asked.now,
        seen.suspended == asked.suspended,
        seen.closed == asked.closed,
        !is_read(engine.policy, FactId::SteamGameRunning) ==> seen.steam_game_running.state
            == FactState::Unavailable,
        !is_read(engine.policy, FactId::LocalServiceBusy) ==> seen.local_service_busy.state
            == FactState::Unavailable,
        !is_read(engine.policy, FactId::GpuBusyGame) && !is_read(
            engine.policy,
            FactId::GpuBusyOther,
        ) ==> seen.gpu_busy_game.state == FactState::Unavailable && seen.gpu_busy_other.state
            == FactState::Unavailable,
        is_read(engine.policy, FactId::SteamGameRunning) ==> seen.steam_game_running.state
            == crate::steam::game_of(asked.steam_installed, asked.procs@).0,
        seen.remote_session.state == crate::sessions::remote_of(
            asked.sessions,
            views(asked.excluded@),
            asked.wall,
        ).0,
        seen.inhibitor_block.state == crate::sessions::inhibitor_of(
            asked.blocked,
            asked.inhibitors,
        ).0,
        asked.wall.nanos <= i128::MAX ==> seen.steam_downloading.state
            == crate::steam::download_of(
            asked.staging,
            if engine.policy.facts@.contains_key(FactId::SteamDownloading) {
                engine.policy.facts@[FactId::SteamDownloading].window
            } else {
                None
            },
            asked.wall.nanos as i128,
        ).0,
        is_read(engine.policy, FactId::GpuBusyGame) || is_read(engine.policy, FactId::GpuBusyOther)
            ==> {
            let answer = split_of(
                asked.procs@,
                holder_views(crate::agents::holders_of(engine.agents.live(asked.now))),
                asked.nvidia,
                crate::steam::launched(asked.procs@),
                seen.steam_game_running.state == FactState::True,
                seen.local_service_busy.state,
                asked.system_pids@,
            );
            &&& seen.gpu_busy_game.state == answer.0.0
            &&& seen.gpu_busy_other.state == answer.1.0
        },
{
}

// ---- what is answered on the bus ------------------------------------------------------

/// A deadline is told in whole microseconds, and never as the largest number.
pub proof fn a_deadline_is_told_in_microseconds(deadline: Deadline)
    ensures
        match deadline {
            Deadline::Never => usec_of(deadline) == u64::MAX,
            Deadline::At(at) => usec_of(deadline) * 1_000 <= at.nanos < usec_of(deadline) * 1_000
                + 1_000,
        },
{
}

/// The row of an action tells its own name, its own deadline and whether that has come.
pub proof fn a_row_tells_of_its_own_action(d: Decision)
    ensures
        deadline_row(Some(d), Action::ScreenOff) == (
            "screen_off"@,
            usec_of(d.screen_off.deadline),
            d.screen_off.due,
        ),
        deadline_row(Some(d), Action::Suspend) == (
            "suspend"@,
            usec_of(d.suspend.deadline),
            d.suspend.due,
        ),
        deadline_row(Some(d), Action::Hibernate) == (
            "hibernate"@,
            usec_of(d.hibernate.deadline),
            d.hibernate.due,
        ),
        deadline_row(Some(d), Action::PowerOff) == (
            "poweroff"@,
            usec_of(d.poweroff.deadline),
            d.poweroff.due,
        ),
        forall|a: Action| (#[trigger] deadline_row(None, a)).1 == u64::MAX && !deadline_row(
            None,
            a,
        ).2,
{
}

/// A fact that was not read is not available, and every other one is in the state that was read.
pub proof fn a_fact_is_told_as_it_was_read(readings: Map<FactId, Reading>, fact: FactId)
    ensures
        readings.contains_key(fact) ==> state_in(readings, fact) == readings[fact].state,
        !readings.contains_key(fact) ==> state_in(readings, fact) == FactState::Unavailable,
{
}

/// Of what an agent reports the first two hundred and fifty-six holders are kept, each with its
/// number, its memory and the first sixty-four characters of its name.
pub proof fn what_an_agent_reports_is_kept_up_to_a_bound(raw: Seq<(u32, String, u64)>, i: int)
    ensures
        bounded(raw).len() == (if raw.len() < 256 {
            raw.len()
        } else {
            256
        }),
        0 <= i < bounded(raw).len() ==> {
            let h = bounded(raw)[i];
            &&& h.pid == raw[i].0
            &&& h.bytes == raw[i].2
            &&& raw[i].1@.len() <= 64 ==> h.name == raw[i].1@
            &&& raw[i].1@.len() > 64 ==> h.name.len() == 64 && forall|k: int|
                0 <= k < 64 ==> #[trigger] h.name[k] == raw[i].1@[k]
        },
{
}

// ---- where the configuration is -------------------------------------------------------

/// A file of a directory adds to the configuration exactly where its name ends in `.toml` and has
/// something before that.
pub proof fn a_file_adds_by_its_name(dir: Seq<char>, name: Seq<char>)
    requires
        lacks(name, '/'),
    ensures
        adds(dir + seq!['/'] + name) <==> name.len() > 5 && name[name.len() - 5] == '.' && name[
        name.len() - 4] == 't' && name[name.len() - 3] == 'o' && name[name.len() - 2] == 'm' && name[
        name.len() - 1] == 'l',
{
    the_last_part_follows_the_last_separator(dir, '/', name);
    reveal_strlit(".toml");
    if name.len() > 5 {
        let tail = name.skip(name.len() - 5);
        assert(tail[0] == name[name.len() - 5]);
        assert(tail[1] == name[name.len() - 4]);
        assert(tail[2] == name[name.len() - 3]);
        assert(tail[3] == name[name.len() - 2]);
        assert(tail[4] == name[name.len() - 1]);
        if name[name.len() - 5] == '.' && name[name.len() - 4] == 't' && name[name.len() - 3] == 'o'
            && name[name.len() - 2] == 'm' && name[name.len() - 1] == 'l' {
            assert(tail =~= ".toml"@);
        }
    }
}

/// The file that the package ships comes first and that of the administrator next, each where it is
/// wanted.
pub proof fn the_package_comes_before_the_administrator(sources: Sources)
    ensures
        first_files(sources, true, true) == seq![sources.vendor@, sources.admin@],
        first_files(sources, true, false) == seq![sources.vendor@],
        first_files(sources, false, true) == seq![sources.admin@],
        first_files(sources, false, false).len() == 0,
{
    assert(first_files(sources, true, true) =~= seq![sources.vendor@, sources.admin@]);
    assert(first_files(sources, true, false) =~= seq![sources.vendor@]);
    assert(first_files(sources, false, true) =~= seq![sources.admin@]);
}

// ---- from what was seen to what was found ---------------------------------------------

/// What was found of each fact is what was seen of it, and of no other; a lease is found held exactly
/// where one is.
pub proof fn what_is_found_is_what_was_seen(
    found: Found,
    agents: Registry,
    leases: Table,
    resume: ResumeTracker,
    min_idle: Duration,
    outside: Outside,
)
    requires
        found_from(found, agents, leases, resume, min_idle, outside),
        lists(in_order(leases.leases@.dom()), leases.leases@.dom()),
    ensures
        found.remote_session.state == outside.remote_session.state,
        found.inhibitor_block.state == outside.inhibitor_block.state,
        found.steam_game_running.state == outside.steam_game_running.state,
        found.steam_downloading.state == outside.steam_downloading.state,
        found.gpu_busy_game.state == outside.gpu_busy_game.state,
        found.gpu_busy_other.state == outside.gpu_busy_other.state,
        found.local_service_busy.state == outside.local_service_busy.state,
        found.after_resume == resume.resumed_this_boot,
        found.leases is Some <==> exists|n: Seq<char>| #[trigger] leases.leases@.contains_key(n),
{
    let names = in_order(leases.leases@.dom());
    if names.len() > 0 {
        assert(names.contains(names[0]));
        assert(leases.leases@.dom().contains(names[0]));
        assert(leases.leases@.contains_key(names[0]));
    }
    if exists|n: Seq<char>| #[trigger] leases.leases@.contains_key(n) {
        let n = choose|n: Seq<char>| #[trigger] leases.leases@.contains_key(n);
        assert(leases.leases@.dom().contains(n));
        assert(names.contains(n));
    }
}

/// A graphical session is seen exactly where the login manager lists one of the type `wayland` or
/// `x11`.
pub proof fn a_graphical_session_is_seen_where_one_is_listed(
    seen: Outside,
    engine: Engine,
    before: Sampler,
    asked: Asked,
)
    requires
        sees(seen, engine, before, asked),
    ensures
        seen.has_graphical_session <==> (asked.kinds matches Logind::Answered(sessions) && exists|
            i: int,
        |
            #![trigger sessions@[i]]
            0 <= i < sessions@.len() && (sessions@[i].1@ == "wayland"@ || sessions@[i].1@
                == "x11"@)),
{
    if let Logind::Answered(sessions) = asked.kinds {
        let users = graphical_users(sessions@);
        if users.len() > 0 {
            graphical_users_have_a_graphical_session(sessions@, users[0]);
            assert(users.contains(users[0]));
        }
        if exists|i: int|
            #![trigger sessions@[i]]
            0 <= i < sessions@.len() && (sessions@[i].1@ == "wayland"@ || sessions@[i].1@ == "x11"@) {
            let i = choose|i: int|
                #![trigger sessions@[i]]
                0 <= i < sessions@.len() && (sessions@[i].1@ == "wayland"@ || sessions@[i].1@
                    == "x11"@);
            graphical_users_have_a_graphical_session(sessions@, sessions@[i].0);
            assert(users.contains(sessions@[i].0));
        }
    }
}

/// The next lease to end is one that is held and ends no later than any other; where none is held,
/// none is.
pub proof fn the_next_lease_to_end_ends_first(
    at: Option<BootInstant>,
    leases: Map<Seq<char>, Lease>,
    name: Seq<char>,
)
    requires
        ends_first(at, leases),
        leases.contains_key(name),
    ensures
        at matches Some(first) && first.nanos <= leases[name].expires.nanos && exists|n: Seq<char>|
            #[trigger]
            leases.contains_key(n) && leases[n].expires.nanos == first.nanos,
{
}

/// Who keeps the machine awake is told by identifier, with the reason in parentheses where one was
/// given.
pub proof fn a_lease_is_told_by_who_and_why(lease: Lease)
    ensures
        lease.why@.len() == 0 ==> lease_text(lease) == lease.who@,
        lease.why@.len() > 0 ==> lease_text(lease) == lease.who@ + " ("@ + lease.why@ + ")"@,
{
}

/// What has become of a holder, and why a lease is refused, is told in these words.
pub proof fn holders_and_refusals_have_their_words(name: String, field: Seq<char>)
    ensures
        wire_text(HolderState::Unknown) == "unknown"@,
        wire_text(HolderState::Alive(name)) == "alive"@,
        wire_text(HolderState::Gone) == "gone"@,
        wire_text(HolderState::Recycled) == "recycled"@,
        denied_text(Denied::EmptyId) == "a lease needs a non-empty identifier"@,
        denied_text(Denied::TooLong(field)) == field + " is longer than 256 bytes"@,
        denied_text(Denied::TtlTooLong) == "ttl is longer than the 86400s maximum"@,
        denied_text(Denied::AlreadyHeld) == "a lease with this identifier is already held"@,
{
}

/// The files that add to the configuration are those of a directory that do so by their names, and no
/// others.
pub proof fn the_files_that_add_are_those_named_so(paths: Seq<Seq<char>>, path: Seq<char>)
    ensures
        adding(paths).contains(path) <==> paths.contains(path) && adds(path),
    decreases paths.len(),
{
    if paths.len() > 0 {
        let fewer = paths.drop_last();
        let last = paths.last();
        the_files_that_add_are_those_named_so(fewer, path);
        assert(paths =~= fewer.push(last));
        crate::names::lemma_pushed(fewer, last, path);
        crate::names::lemma_pushed(adding(fewer), last, path);
    }
}

/// Deadlines are ordered as instants are, with never after all of them.
pub proof fn never_comes_after_every_instant(a: BootInstant, b: BootInstant)
    ensures
        sooner(Deadline::At(a), Deadline::At(b)) <==> a.nanos < b.nanos,
        sooner(Deadline::At(a), Deadline::Never),
        !sooner(Deadline::Never, Deadline::At(a)),
        !sooner(Deadline::Never, Deadline::Never),
{
}

} // verus!
