//! What a decision comes to, said of its blocks, its clocks and the facts alone.
use vstd::prelude::*;

use crate::action::Action;
use crate::block::{Block, BlockKind, Condition};
use crate::clock::{Clock, ClockOrigin, ClockSnapshot};
use crate::decision::{
    ceilings_of, chosen, deadlines_of, floors_of, implicit_floors_of, next_of, reason_of,
    reasons_of, resolves, ActionResolution, Decision, Reason, Request,
};
use crate::fact::{FactId, FactSet, FactState};
use crate::policy::{doubtful_facts_are_exactly_the_doubts, BlockEdges, Policy};
use crate::time::{
    earliest, earliest_is_the_least, latest, latest_is_the_greatest, BootInstant, Deadline,
    Duration, Timeout,
};

verus! {

/// What the key of an action says in a block.
pub open spec fn said_of(block: Block, action: Action) -> Option<Timeout> {
    if action == Action::Suspend {
        block.timeouts.suspend
    } else if action == Action::Hibernate {
        block.timeouts.hibernate
    } else if action == Action::PowerOff {
        block.timeouts.poweroff
    } else {
        block.timeouts.screen_off
    }
}

/// Whether the condition of a block was read as true.
pub open spec fn holds_true(block: Block, facts: FactSet) -> bool {
    match block.id.condition {
        Condition::Always => true,
        Condition::Fact(f) => facts.readings@.contains_key(f) && facts.readings@[f]
            == FactState::True,
    }
}

/// Whether a request to rest now reaches a block: a floor that always applies, or that applies after
/// a resume.
pub open spec fn waived(block: Block, request: Request) -> bool {
    request.now && block.id.kind == BlockKind::While && (block.id.condition == Condition::Always
        || block.id.condition == Condition::Fact(FactId::AfterResume))
}

/// Whether the clock of a block started at an instant.
pub open spec fn started_at(
    block: Block,
    clocks: ClockSnapshot,
    edges: BlockEdges,
    t: BootInstant,
) -> bool {
    ||| block.clock == Clock::HumanInput && clocks.human_input == ClockOrigin::At(t)
    ||| block.clock == Clock::HumanInput && clocks.human_input == ClockOrigin::NotYet && t.nanos == 0
    ||| block.clock == Clock::Resume && clocks.resume == ClockOrigin::At(t)
    ||| block.clock == Clock::ConditionEdge && edges.at(block.id) == Some(t)
    ||| block.clock == Clock::ConditionEdge && edges.at(block.id) is None && t == clocks.now
    ||| block.clock == Clock::Boot && t.nanos == 0
}

/// Whether the clock of a block has not started: nobody can tell when the machine was last used, or
/// it has not come back from a sleep.
pub open spec fn never_started(block: Block, clocks: ClockSnapshot) -> bool {
    ||| block.clock == Clock::HumanInput && clocks.human_input == ClockOrigin::Unreadable
    ||| block.clock == Clock::Resume && !(clocks.resume is At)
}

/// Whether a reason is among those of a resolution.
pub open spec fn counted_in(r: ActionResolution, block: Block, deadline: Deadline) -> bool {
    exists|j: int|
        #![trigger r.reasons@[j]]
        0 <= j < r.reasons@.len() && r.reasons@[j].block == block.id && r.reasons@[j].deadline
            == deadline
}

proof fn lemma_reason_is_counted(
    action: Action,
    blocks: Seq<Block>,
    facts: FactSet,
    clocks: ClockSnapshot,
    edges: BlockEdges,
    request: Request,
    i: int,
)
    requires
        0 <= i < blocks.len(),
        reason_of(action, blocks[i], facts, clocks, edges, request) is Some,
    ensures
        reasons_of(action, blocks, facts, clocks, edges, request).contains(
            reason_of(action, blocks[i], facts, clocks, edges, request)->Some_0,
        ),
    decreases blocks.len(),
{
    let reason = reason_of(action, blocks[i], facts, clocks, edges, request)->Some_0;
    let shorter = blocks.drop_last();
    let before = reasons_of(action, shorter, facts, clocks, edges, request);
    if i < shorter.len() {
        assert(shorter[i] == blocks[i]);
        lemma_reason_is_counted(action, shorter, facts, clocks, edges, request, i);
        let j = choose|j: int| 0 <= j < before.len() && before[j] == reason;
        match reason_of(action, blocks.last(), facts, clocks, edges, request) {
            Some(last) => {
                assert(before.push(last)[j] == reason);
            },
            None => {},
        }
    } else {
        assert(before.push(reason)[before.len() as int] == reason);
    }
}

proof fn lemma_reason_has_a_block(
    action: Action,
    blocks: Seq<Block>,
    facts: FactSet,
    clocks: ClockSnapshot,
    edges: BlockEdges,
    request: Request,
    j: int,
) -> (i: int)
    requires
        0 <= j < reasons_of(action, blocks, facts, clocks, edges, request).len(),
    ensures
        0 <= i < blocks.len(),
        reason_of(action, blocks[i], facts, clocks, edges, request) == Some(
            reasons_of(action, blocks, facts, clocks, edges, request)[j],
        ),
    decreases blocks.len(),
{
    let shorter = blocks.drop_last();
    let before = reasons_of(action, shorter, facts, clocks, edges, request);
    if j < before.len() {
        let i = lemma_reason_has_a_block(action, shorter, facts, clocks, edges, request, j);
        assert(shorter[i] == blocks[i]);
        i
    } else {
        blocks.len() - 1
    }
}

proof fn lemma_deadline_is_among(reasons: Seq<Reason>, kind: BlockKind, j: int)
    requires
        0 <= j < reasons.len(),
        reasons[j].block.kind == kind,
    ensures
        deadlines_of(reasons, kind).contains(reasons[j].deadline),
    decreases reasons.len(),
{
    let shorter = reasons.drop_last();
    let before = deadlines_of(shorter, kind);
    if j < shorter.len() {
        assert(shorter[j] == reasons[j]);
        lemma_deadline_is_among(shorter, kind, j);
        let k = choose|k: int| 0 <= k < before.len() && before[k] == reasons[j].deadline;
        if reasons.last().block.kind == kind {
            assert(before.push(reasons.last().deadline)[k] == reasons[j].deadline);
        }
    } else {
        assert(before.push(reasons[j].deadline)[before.len() as int] == reasons[j].deadline);
    }
}

proof fn lemma_deadline_has_a_reason(reasons: Seq<Reason>, kind: BlockKind, k: int) -> (j: int)
    requires
        0 <= k < deadlines_of(reasons, kind).len(),
    ensures
        0 <= j < reasons.len(),
        reasons[j].block.kind == kind,
        reasons[j].deadline == deadlines_of(reasons, kind)[k],
    decreases reasons.len(),
{
    let shorter = reasons.drop_last();
    let before = deadlines_of(shorter, kind);
    if k < before.len() {
        let j = lemma_deadline_has_a_reason(shorter, kind, k);
        assert(shorter[j] == reasons[j]);
        j
    } else {
        reasons.len() - 1
    }
}

proof fn lemma_reason_binds(
    r: ActionResolution,
    action: Action,
    policy: Policy,
    facts: FactSet,
    clocks: ClockSnapshot,
    edges: BlockEdges,
    request: Request,
    i: int,
)
    requires
        resolves(r, action, policy, facts, clocks, edges, request),
        0 <= i < policy.blocks@.len(),
        reason_of(action, policy.blocks@[i], facts, clocks, edges, request) is Some,
    ensures
        ({
            let block = policy.blocks@[i];
            let reason = reason_of(action, block, facts, clocks, edges, request)->Some_0;
            &&& counted_in(r, block, reason.deadline)
            &&& block.id.kind == BlockKind::While ==> crate::time::no_later(reason.deadline, r.floor)
            &&& block.id.kind == BlockKind::When ==> crate::time::no_later(
                r.ceiling,
                reason.deadline,
            )
        }),
{
    let block = policy.blocks@[i];
    let reason = reason_of(action, block, facts, clocks, edges, request)->Some_0;
    lemma_reason_is_counted(action, policy.blocks@, facts, clocks, edges, request, i);
    let reasons = r.reasons@;
    let j = choose|j: int| 0 <= j < reasons.len() && reasons[j] == reason;
    assert(reasons[j].block == block.id);
    lemma_deadline_is_among(reasons, block.id.kind, j);
    let given = deadlines_of(reasons, block.id.kind);
    let k = choose|k: int| 0 <= k < given.len() && given[k] == reason.deadline;
    if block.id.kind == BlockKind::While {
        let floors = floors_of(reasons, implicit_floors_of(action, policy, facts).len());
        latest_is_the_greatest(floors);
        assert(floors[k] == reason.deadline);
    } else {
        let ceilings = ceilings_of(reasons, request.force == Some(action), clocks.now);
        earliest_is_the_least(ceilings);
        assert(ceilings[k] == reason.deadline);
    }
}

/// A block that is switched on, whose condition holds and that no request stands in for, counts from
/// where its clock started: what it says of an action, of whichever, is that start and the wait. A
/// floor keeps the action back until then, and a ceiling no longer than that.
pub proof fn a_block_counts_from_its_clock(
    r: ActionResolution,
    action: Action,
    policy: Policy,
    facts: FactSet,
    clocks: ClockSnapshot,
    edges: BlockEdges,
    request: Request,
    i: int,
    t: BootInstant,
    d: Duration,
)
    requires
        resolves(r, action, policy, facts, clocks, edges, request),
        0 <= i < policy.blocks@.len(),
        policy.blocks@[i].enabled,
        holds_true(policy.blocks@[i], facts),
        !waived(policy.blocks@[i], request),
        said_of(policy.blocks@[i], action) == Some(Timeout::After(d)),
        started_at(policy.blocks@[i], clocks, edges, t),
    ensures
        t.nanos + d.nanos <= u64::MAX ==> {
            let at = Deadline::At(BootInstant { nanos: (t.nanos + d.nanos) as u64 });
            &&& counted_in(r, policy.blocks@[i], at)
            &&& policy.blocks@[i].id.kind == BlockKind::While ==> (r.floor matches Deadline::At(f)
                ==> f.nanos >= t.nanos + d.nanos)
            &&& policy.blocks@[i].id.kind == BlockKind::When ==> (r.ceiling matches Deadline::At(c)
                && c.nanos <= t.nanos + d.nanos)
        },
        t.nanos + d.nanos > u64::MAX ==> counted_in(r, policy.blocks@[i], Deadline::Never) && (
        policy.blocks@[i].id.kind == BlockKind::While ==> r.floor == Deadline::Never),
{
    lemma_reason_binds(r, action, policy, facts, clocks, edges, request, i);
}

/// A block that waits forever holds an action back forever, wherever its clock started; so does one
/// whose clock has not started, of every sleep. The panel it counts from boot.
pub proof fn a_wait_that_does_not_end_holds(
    r: ActionResolution,
    action: Action,
    policy: Policy,
    facts: FactSet,
    clocks: ClockSnapshot,
    edges: BlockEdges,
    request: Request,
    i: int,
)
    requires
        resolves(r, action, policy, facts, clocks, edges, request),
        0 <= i < policy.blocks@.len(),
        policy.blocks@[i].enabled,
        policy.blocks@[i].id.kind == BlockKind::While,
        holds_true(policy.blocks@[i], facts),
        !waived(policy.blocks@[i], request),
        said_of(policy.blocks@[i], action) is Some,
    ensures
        said_of(policy.blocks@[i], action) == Some(Timeout::Never) ==> r.floor == Deadline::Never,
        never_started(policy.blocks@[i], clocks) && action != Action::ScreenOff ==> r.floor
            == Deadline::Never,
        never_started(policy.blocks@[i], clocks) && action == Action::ScreenOff ==> (said_of(
            policy.blocks@[i],
            action,
        ) matches Some(Timeout::After(d)) ==> (r.floor matches Deadline::At(f) ==> f.nanos
            >= d.nanos)),
{
    lemma_reason_binds(r, action, policy, facts, clocks, edges, request, i);
}

/// A request to rest now ends the wait of the floor that always applies and of the one after a
/// resume, whatever they say of the action, and whether or not the machine has come back from a
/// sleep.
pub proof fn a_waived_block_waits_until_now(
    r: ActionResolution,
    action: Action,
    policy: Policy,
    facts: FactSet,
    clocks: ClockSnapshot,
    edges: BlockEdges,
    request: Request,
    i: int,
)
    requires
        resolves(r, action, policy, facts, clocks, edges, request),
        0 <= i < policy.blocks@.len(),
        policy.blocks@[i].enabled,
        waived(policy.blocks@[i], request),
        said_of(policy.blocks@[i], action) is Some,
    ensures
        counted_in(r, policy.blocks@[i], Deadline::At(clocks.now)),
{
    lemma_reason_binds(r, action, policy, facts, clocks, edges, request, i);
}

/// Whether a block accounts for a deadline of an action: it is switched on and says something of the
/// action, and either a request ended its wait, or its condition holds and its clock and its wait
/// come to that deadline.
pub open spec fn accounts_for(
    block: Block,
    deadline: Deadline,
    action: Action,
    facts: FactSet,
    clocks: ClockSnapshot,
    edges: BlockEdges,
    request: Request,
) -> bool {
    &&& block.enabled
    &&& said_of(block, action) is Some
    &&& waived(block, request) ==> deadline == Deadline::At(clocks.now)
    &&& !waived(block, request) ==> {
        &&& holds_true(block, facts)
        &&& match (deadline, said_of(block, action)->Some_0) {
            (Deadline::At(at), Timeout::After(d)) => {
                ||| at.nanos >= d.nanos && started_at(
                    block,
                    clocks,
                    edges,
                    BootInstant { nanos: (at.nanos - d.nanos) as u64 },
                )
                ||| at.nanos == d.nanos && never_started(block, clocks) && action
                    == Action::ScreenOff && block.id.kind == BlockKind::While
            },
            (Deadline::At(_), Timeout::Never) => false,
            (Deadline::Never, Timeout::After(d)) => {
                ||| never_started(block, clocks) && action != Action::ScreenOff && block.id.kind
                    == BlockKind::While
                ||| exists|t: BootInstant| #[trigger]
                    started_at(block, clocks, edges, t) && t.nanos + d.nanos > u64::MAX
                ||| d.nanos > u64::MAX
            },
            (Deadline::Never, Timeout::Never) => true,
        }
    }
}

proof fn lemma_reason_accounts(
    action: Action,
    block: Block,
    facts: FactSet,
    clocks: ClockSnapshot,
    edges: BlockEdges,
    request: Request,
)
    requires
        reason_of(action, block, facts, clocks, edges, request) is Some,
    ensures
        accounts_for(
            block,
            reason_of(action, block, facts, clocks, edges, request)->Some_0.deadline,
            action,
            facts,
            clocks,
            edges,
            request,
        ),
        reason_of(action, block, facts, clocks, edges, request)->Some_0.block == block.id,
{
    let origin = crate::clock::origin_of(clocks, block.clock, edges.at(block.id));
    if origin is Some {
        assert(started_at(block, clocks, edges, origin->Some_0));
    }
}

/// Nothing but the blocks that apply, doubt and faults holds an action back, and nothing but the
/// blocks that apply and a forced request lets it go: each floor and each ceiling is accounted for.
/// Where nothing is said at all, the action never happens.
pub proof fn every_deadline_is_accounted_for(
    r: ActionResolution,
    action: Action,
    policy: Policy,
    facts: FactSet,
    clocks: ClockSnapshot,
    edges: BlockEdges,
    request: Request,
)
    requires
        resolves(r, action, policy, facts, clocks, edges, request),
    ensures
        ({
            ||| exists|i: int|
                #![trigger policy.blocks@[i]]
                0 <= i < policy.blocks@.len() && policy.blocks@[i].id.kind == BlockKind::While
                    && accounts_for(
                    policy.blocks@[i],
                    r.floor,
                    action,
                    facts,
                    clocks,
                    edges,
                    request,
                )
            ||| r.floor == Deadline::Never && r.implicit_floors@.len() > 0
            ||| r.floor == Deadline::Never && forall|j: int|
                0 <= j < r.reasons@.len() ==> (#[trigger] r.reasons@[j]).block.kind
                    == BlockKind::When
        }),
        ({
            ||| exists|i: int|
                #![trigger policy.blocks@[i]]
                0 <= i < policy.blocks@.len() && policy.blocks@[i].id.kind == BlockKind::When
                    && accounts_for(
                    policy.blocks@[i],
                    r.ceiling,
                    action,
                    facts,
                    clocks,
                    edges,
                    request,
                )
            ||| r.ceiling == Deadline::At(clocks.now) && request.force == Some(action)
            ||| r.ceiling == Deadline::Never && request.force != Some(action) && forall|j: int|
                0 <= j < r.reasons@.len() ==> (#[trigger] r.reasons@[j]).block.kind
                    == BlockKind::While
        }),
        forall|j: int|
            0 <= j < r.reasons@.len() ==> exists|i: int|
                #![trigger policy.blocks@[i]]
                0 <= i < policy.blocks@.len() && policy.blocks@[i].id == (#[trigger] r.reasons@[j]).block
                    && accounts_for(
                    policy.blocks@[i],
                    r.reasons@[j].deadline,
                    action,
                    facts,
                    clocks,
                    edges,
                    request,
                ),
{
    let reasons = r.reasons@;
    let blocks = policy.blocks@;
    assert forall|j: int| 0 <= j < reasons.len() implies exists|i: int|
        #![trigger policy.blocks@[i]]
        0 <= i < policy.blocks@.len() && policy.blocks@[i].id == (#[trigger] r.reasons@[j]).block
            && accounts_for(
            policy.blocks@[i],
            r.reasons@[j].deadline,
            action,
            facts,
            clocks,
            edges,
            request,
        ) by {
        let i = lemma_reason_has_a_block(action, blocks, facts, clocks, edges, request, j);
        lemma_reason_accounts(action, blocks[i], facts, clocks, edges, request);
        assert(policy.blocks@[i].id == r.reasons@[j].block);
    }
    let n = implicit_floors_of(action, policy, facts).len();
    let floors = floors_of(reasons, n);
    let given = deadlines_of(reasons, BlockKind::While);
    latest_is_the_greatest(floors);
    if floors.len() > 0 {
        let k = choose|k: int| 0 <= k < floors.len() && floors[k] == latest(floors);
        if k < given.len() {
            let j = lemma_deadline_has_a_reason(reasons, BlockKind::While, k);
            assert(reasons[j].deadline == r.floor);
            let i = lemma_reason_has_a_block(action, blocks, facts, clocks, edges, request, j);
            lemma_reason_accounts(action, blocks[i], facts, clocks, edges, request);
            assert(policy.blocks@[i].id.kind == BlockKind::While);
        }
    } else {
        assert forall|j: int| 0 <= j < r.reasons@.len() implies (
        #[trigger] r.reasons@[j]).block.kind == BlockKind::When by {
            if reasons[j].block.kind == BlockKind::While {
                lemma_deadline_is_among(reasons, BlockKind::While, j);
                assert(given.len() == 0);
            }
        }
    }
    let forced = request.force == Some(action);
    let ceilings = ceilings_of(reasons, forced, clocks.now);
    let let_go = deadlines_of(reasons, BlockKind::When);
    earliest_is_the_least(ceilings);
    if ceilings.len() > 0 {
        let k = choose|k: int| 0 <= k < ceilings.len() && ceilings[k] == earliest(ceilings);
        if k < let_go.len() {
            let j = lemma_deadline_has_a_reason(reasons, BlockKind::When, k);
            assert(reasons[j].deadline == r.ceiling);
            let i = lemma_reason_has_a_block(action, blocks, facts, clocks, edges, request, j);
            lemma_reason_accounts(action, blocks[i], facts, clocks, edges, request);
            assert(policy.blocks@[i].id.kind == BlockKind::When);
        }
    } else {
        assert forall|j: int| 0 <= j < r.reasons@.len() implies (
        #[trigger] r.reasons@[j]).block.kind == BlockKind::While by {
            if reasons[j].block.kind == BlockKind::When {
                lemma_deadline_is_among(reasons, BlockKind::When, j);
                assert(let_go.len() == 0);
            }
        }
    }
}

/// An action may happen at its floor, or at its ceiling where that comes first, and is due from then
/// on and not before. A forced one is due at once.
pub proof fn an_action_is_due_from_its_deadline_on(
    r: ActionResolution,
    action: Action,
    policy: Policy,
    facts: FactSet,
    clocks: ClockSnapshot,
    edges: BlockEdges,
    request: Request,
)
    requires
        resolves(r, action, policy, facts, clocks, edges, request),
    ensures
        r.action == action,
        r.deadline == r.floor || r.deadline == r.ceiling,
        r.floor matches Deadline::At(f) ==> (r.deadline matches Deadline::At(x) && x.nanos
            <= f.nanos),
        r.ceiling matches Deadline::At(c) ==> (r.deadline matches Deadline::At(x) && x.nanos
            <= c.nanos),
        r.due <==> (r.deadline matches Deadline::At(x) && x.nanos <= clocks.now.nanos),
        request.force == Some(action) ==> r.due,
{
    let ceilings = ceilings_of(r.reasons@, request.force == Some(action), clocks.now);
    earliest_is_the_least(ceilings);
    if request.force == Some(action) {
        assert(ceilings[ceilings.len() - 1] == Deadline::At(clocks.now));
    }
}

/// A fact that is read and cannot be told holds every sleep back, whether or not a block names it,
/// and so does every fault of the configuration. Nothing else does without a block, and the panel is
/// held back by neither.
pub proof fn doubt_and_faults_hold_every_sleep_back(
    r: ActionResolution,
    action: Action,
    policy: Policy,
    facts: FactSet,
    clocks: ClockSnapshot,
    edges: BlockEdges,
    request: Request,
    f: FactId,
)
    requires
        resolves(r, action, policy, facts, clocks, edges, request),
    ensures
        ({
            let read = if policy.facts@.contains_key(f) {
                policy.facts@[f].enabled
            } else {
                f != FactId::LocalServiceBusy
            };
            let doubted = read && facts.readings@.contains_key(f) && facts.readings@[f]
                == FactState::Indeterminate;
            &&& doubted && action != Action::ScreenOff ==> r.floor == Deadline::Never
            &&& policy.faults@.len() > 0 && action != Action::ScreenOff ==> r.floor
                == Deadline::Never
            &&& (exists|k: int|
                #![trigger r.implicit_floors@[k]]
                0 <= k < r.implicit_floors@.len() && r.implicit_floors@[k]
                    == crate::decision::ImplicitFloor::Doubt(f)) <==> doubted && action
                != Action::ScreenOff
        }),
        action == Action::ScreenOff ==> r.implicit_floors@.len() == 0,
{
    doubtful_facts_are_exactly_the_doubts(policy, facts, f);
    let reasons = r.reasons@;
    let n = r.implicit_floors@.len();
    let floors = floors_of(reasons, n);
    latest_is_the_greatest(floors);
    if n > 0 {
        assert(floors[floors.len() - 1] == Deadline::Never);
    }
    let doubtful = policy.doubtful(facts);
    if action != Action::ScreenOff {
        assert(n == doubtful.len() + policy.faults@.len());
        if doubtful.contains(f) {
            let k = choose|k: int| 0 <= k < doubtful.len() && doubtful[k] == f;
            assert(r.implicit_floors@[k] == crate::decision::ImplicitFloor::Doubt(f));
        }
        if exists|k: int|
            #![trigger r.implicit_floors@[k]]
            0 <= k < r.implicit_floors@.len() && r.implicit_floors@[k]
                == crate::decision::ImplicitFloor::Doubt(f) {
            let k = choose|k: int|
                #![trigger r.implicit_floors@[k]]
                0 <= k < r.implicit_floors@.len() && r.implicit_floors@[k]
                    == crate::decision::ImplicitFloor::Doubt(f);
            assert(k < doubtful.len());
            assert(doubtful[k] == f);
        }
    }
}

/// Of the sleeps that are due, the shallowest is carried out; where one was asked for, that one or
/// none. Nothing is carried out that is not due, and darkening the panel is no sleep.
pub proof fn the_shallowest_due_sleep_is_carried_out(d: Decision)
    ensures
        d.requested is None && d.suspend.due ==> chosen(d) == Some(Action::Suspend),
        d.requested is None && !d.suspend.due && d.hibernate.due ==> chosen(d) == Some(
            Action::Hibernate,
        ),
        d.requested is None && !d.suspend.due && !d.hibernate.due && d.poweroff.due ==> chosen(d)
            == Some(Action::PowerOff),
        !d.suspend.due && !d.hibernate.due && !d.poweroff.due ==> chosen(d) is None,
        d.requested == Some(Action::Suspend) ==> (chosen(d) is Some <==> d.suspend.due),
        d.requested == Some(Action::Hibernate) ==> (chosen(d) is Some <==> d.hibernate.due),
        d.requested == Some(Action::PowerOff) ==> (chosen(d) is Some <==> d.poweroff.due),
        d.requested == Some(Action::ScreenOff) ==> chosen(d) is None,
        d.requested is Some && chosen(d) is Some ==> chosen(d) == d.requested,
{
}

/// What is waited for next is a deadline of some action that is still to come, and none that is
/// still to come is earlier.
pub proof fn what_is_next_is_the_first_to_come(d: Decision)
    ensures
        ({
            let all = seq![
                d.screen_off.deadline,
                d.suspend.deadline,
                d.hibernate.deadline,
                d.poweroff.deadline,
            ];
            &&& next_of(d) matches Deadline::At(next) ==> next.nanos > d.now.nanos && all.contains(
                next_of(d),
            )
            &&& forall|i: int|
                0 <= i < 4 ==> (#[trigger] all[i] matches Deadline::At(at) ==> at.nanos
                    <= d.now.nanos || (next_of(d) matches Deadline::At(next) && next.nanos
                    <= at.nanos))
        }),
{
    let all = seq![
        d.screen_off.deadline,
        d.suspend.deadline,
        d.hibernate.deadline,
        d.poweroff.deadline,
    ];
    let to_come = seq![
        crate::decision::upcoming(d, Action::ScreenOff),
        crate::decision::upcoming(d, Action::Suspend),
        crate::decision::upcoming(d, Action::Hibernate),
        crate::decision::upcoming(d, Action::PowerOff),
    ];
    earliest_is_the_least(to_come);
    let k = choose|k: int| 0 <= k < to_come.len() && to_come[k] == earliest(to_come);
    assert(all[0] == d.screen_off.deadline && all[1] == d.suspend.deadline && all[2]
        == d.hibernate.deadline && all[3] == d.poweroff.deadline);
    assert(next_of(d) is At ==> all[k] == next_of(d));
    assert forall|i: int| 0 <= i < 4 implies (#[trigger] all[i] matches Deadline::At(at)
        ==> at.nanos <= d.now.nanos || (next_of(d) matches Deadline::At(next) && next.nanos
        <= at.nanos)) by {
        assert(crate::time::no_later(next_of(d), to_come[i]));
    }
}

} // verus!
