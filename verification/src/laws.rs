//! What holds of every policy.
use vstd::prelude::*;

use crate::action::Action;
use crate::block::{Block, BlockKind, Condition};
use crate::clock::{origin_of, ClockSnapshot};
use crate::decision::{
    ceiling_of, ceilings_of, deadline_for, deadlines_of, due_now, floor_of, floors_of,
    implicit_floors_of, no_request, reason_of, reasons_of, satisfied, Reason, Request,
};
use crate::fact::{FactId, FactSet, FactState};
use crate::policy::{doubtful_facts_are_exactly_the_doubts, BlockEdges, Policy};
use crate::time::{
    earliest, earliest_is_the_least, latest, latest_is_the_greatest, no_later, Deadline,
};

verus! {

/// A deadline stands among those of the reasons of a kind where a block of that kind gives it.
pub open spec fn given_by_a_block(
    d: Deadline,
    kind: BlockKind,
    action: Action,
    blocks: Seq<Block>,
    facts: FactSet,
    clocks: ClockSnapshot,
    edges: BlockEdges,
    request: Request,
) -> bool {
    exists|i: int|
        #![trigger blocks[i]]
        0 <= i < blocks.len() && gives(d, kind, action, blocks[i], facts, clocks, edges, request)
}

/// Whether a block of a kind gives an action this deadline.
pub open spec fn gives(
    d: Deadline,
    kind: BlockKind,
    action: Action,
    block: Block,
    facts: FactSet,
    clocks: ClockSnapshot,
    edges: BlockEdges,
    request: Request,
) -> bool {
    match reason_of(action, block, facts, clocks, edges, request) {
        Some(reason) => reason.block.kind == kind && reason.deadline == d,
        None => false,
    }
}

proof fn lemma_deadlines_push(reasons: Seq<Reason>, reason: Reason, kind: BlockKind)
    ensures
        deadlines_of(reasons.push(reason), kind) == (if reason.block.kind == kind {
            deadlines_of(reasons, kind).push(reason.deadline)
        } else {
            deadlines_of(reasons, kind)
        }),
{
    assert(reasons.push(reason).drop_last() =~= reasons);
}

proof fn lemma_push_contains<A>(s: Seq<A>, x: A, a: A)
    ensures
        s.push(x).contains(a) <==> s.contains(a) || x == a,
{
    if s.contains(a) {
        let i = choose|i: int| 0 <= i < s.len() && s[i] == a;
        assert(s.push(x)[i] == a);
    }
    assert(s.push(x)[s.len() as int] == x);
    if s.push(x).contains(a) {
        let i = choose|i: int| 0 <= i < s.push(x).len() && s.push(x)[i] == a;
        if i < s.len() {
            assert(s[i] == a);
        }
    }
}

/// The deadlines of a kind are those that the blocks of that kind give.
proof fn lemma_deadlines_come_from_blocks(
    d: Deadline,
    kind: BlockKind,
    action: Action,
    blocks: Seq<Block>,
    facts: FactSet,
    clocks: ClockSnapshot,
    edges: BlockEdges,
    request: Request,
)
    ensures
        deadlines_of(reasons_of(action, blocks, facts, clocks, edges, request), kind).contains(d)
            <==> given_by_a_block(d, kind, action, blocks, facts, clocks, edges, request),
    decreases blocks.len(),
{
    if blocks.len() > 0 {
        let shorter = blocks.drop_last();
        lemma_deadlines_come_from_blocks(d, kind, action, shorter, facts, clocks, edges, request);
        let before = reasons_of(action, shorter, facts, clocks, edges, request);
        match reason_of(action, blocks.last(), facts, clocks, edges, request) {
            Some(reason) => {
                lemma_deadlines_push(before, reason, kind);
                lemma_push_contains(deadlines_of(before, kind), reason.deadline, d);
            },
            None => {},
        }
        assert(blocks[blocks.len() - 1] == blocks.last());
        if given_by_a_block(d, kind, action, shorter, facts, clocks, edges, request) {
            let i = choose|i: int|
                #![trigger shorter[i]]
                0 <= i < shorter.len() && gives(
                    d,
                    kind,
                    action,
                    shorter[i],
                    facts,
                    clocks,
                    edges,
                    request,
                );
            assert(blocks[i] == shorter[i]);
        }
        if given_by_a_block(d, kind, action, blocks, facts, clocks, edges, request) {
            let i = choose|i: int|
                #![trigger blocks[i]]
                0 <= i < blocks.len() && gives(
                    d,
                    kind,
                    action,
                    blocks[i],
                    facts,
                    clocks,
                    edges,
                    request,
                );
            if i < shorter.len() {
                assert(shorter[i] == blocks[i]);
            }
        }
    }
}

/// The floors under an action are those that blocks give, and `Never` where something else holds
/// it back.
proof fn lemma_floor_members(
    d: Deadline,
    action: Action,
    policy: Policy,
    facts: FactSet,
    clocks: ClockSnapshot,
    edges: BlockEdges,
    request: Request,
)
    ensures
        floors_of(
            reasons_of(action, policy.blocks@, facts, clocks, edges, request),
            implicit_floors_of(action, policy, facts).len(),
        ).contains(d) <==> (given_by_a_block(
            d,
            BlockKind::While,
            action,
            policy.blocks@,
            facts,
            clocks,
            edges,
            request,
        ) || (d == Deadline::Never && implicit_floors_of(action, policy, facts).len() > 0)),
{
    lemma_deadlines_come_from_blocks(
        d,
        BlockKind::While,
        action,
        policy.blocks@,
        facts,
        clocks,
        edges,
        request,
    );
    let given = deadlines_of(
        reasons_of(action, policy.blocks@, facts, clocks, edges, request),
        BlockKind::While,
    );
    let n = implicit_floors_of(action, policy, facts).len();
    let nevers = Seq::new(n, |i: int| Deadline::Never);
    let all = given + nevers;
    if given.contains(d) {
        let i = choose|i: int| 0 <= i < given.len() && given[i] == d;
        assert(all[i] == d);
    }
    if d == Deadline::Never && n > 0 {
        assert(all[given.len() as int] == nevers[0]);
    }
    if all.contains(d) {
        let i = choose|i: int| 0 <= i < all.len() && all[i] == d;
        if i < given.len() {
            assert(given[i] == d);
        } else {
            assert(nevers[i - given.len()] == d);
        }
    }
}

/// The ceilings over an action are those that blocks give, and the present where it is forced.
proof fn lemma_ceiling_members(
    d: Deadline,
    action: Action,
    policy: Policy,
    facts: FactSet,
    clocks: ClockSnapshot,
    edges: BlockEdges,
    request: Request,
)
    ensures
        ceilings_of(
            reasons_of(action, policy.blocks@, facts, clocks, edges, request),
            request.force == Some(action),
            clocks.now,
        ).contains(d) <==> (given_by_a_block(
            d,
            BlockKind::When,
            action,
            policy.blocks@,
            facts,
            clocks,
            edges,
            request,
        ) || (request.force == Some(action) && d == Deadline::At(clocks.now))),
{
    lemma_deadlines_come_from_blocks(
        d,
        BlockKind::When,
        action,
        policy.blocks@,
        facts,
        clocks,
        edges,
        request,
    );
    lemma_push_contains(
        deadlines_of(
            reasons_of(action, policy.blocks@, facts, clocks, edges, request),
            BlockKind::When,
        ),
        Deadline::At(clocks.now),
        d,
    );
}

/// Two policies whose blocks give an action the same deadlines, and which are held back by
/// something else alike, decide alike of it.
proof fn lemma_same_contributions(
    action: Action,
    p: Policy,
    q: Policy,
    facts: FactSet,
    clocks: ClockSnapshot,
    edges: BlockEdges,
    request: Request,
)
    requires
        forall|d: Deadline, kind: BlockKind|
            #![trigger given_by_a_block(d, kind, action, p.blocks@, facts, clocks, edges, request)]
            given_by_a_block(d, kind, action, p.blocks@, facts, clocks, edges, request)
                == given_by_a_block(d, kind, action, q.blocks@, facts, clocks, edges, request),
        (implicit_floors_of(action, p, facts).len() > 0) == (implicit_floors_of(
            action,
            q,
            facts,
        ).len() > 0),
    ensures
        floor_of(action, p, facts, clocks, edges, request) == floor_of(
            action,
            q,
            facts,
            clocks,
            edges,
            request,
        ),
        ceiling_of(action, p, facts, clocks, edges, request) == ceiling_of(
            action,
            q,
            facts,
            clocks,
            edges,
            request,
        ),
{
    let pf = floors_of(
        reasons_of(action, p.blocks@, facts, clocks, edges, request),
        implicit_floors_of(action, p, facts).len(),
    );
    let qf = floors_of(
        reasons_of(action, q.blocks@, facts, clocks, edges, request),
        implicit_floors_of(action, q, facts).len(),
    );
    assert forall|d: Deadline| #[trigger] pf.contains(d) <==> qf.contains(d) by {
        lemma_floor_members(d, action, p, facts, clocks, edges, request);
        lemma_floor_members(d, action, q, facts, clocks, edges, request);
    }
    crate::time::composition_depends_on_members_alone(pf, qf);
    let pc = ceilings_of(
        reasons_of(action, p.blocks@, facts, clocks, edges, request),
        request.force == Some(action),
        clocks.now,
    );
    let qc = ceilings_of(
        reasons_of(action, q.blocks@, facts, clocks, edges, request),
        request.force == Some(action),
        clocks.now,
    );
    assert forall|d: Deadline| #[trigger] pc.contains(d) <==> qc.contains(d) by {
        lemma_ceiling_members(d, action, p, facts, clocks, edges, request);
        lemma_ceiling_members(d, action, q, facts, clocks, edges, request);
    }
    crate::time::composition_depends_on_members_alone(pc, qc);
}

/// Whether two policies differ in their blocks alone.
pub open spec fn same_but_blocks(p: Policy, q: Policy) -> bool {
    &&& p.facts@ == q.facts@
    &&& p.faults@.len() == q.faults@.len()
}

proof fn lemma_same_implicit_floors(action: Action, p: Policy, q: Policy, facts: FactSet)
    requires
        same_but_blocks(p, q),
    ensures
        implicit_floors_of(action, p, facts) == implicit_floors_of(action, q, facts),
{
    assert forall|f: FactId| p.reads(f) == q.reads(f) by {}
    assert(crate::policy::doubts(p, facts) =~= crate::policy::doubts(q, facts));
}

/// The order of the blocks never matters.
pub proof fn order_of_blocks_never_matters(
    action: Action,
    p: Policy,
    q: Policy,
    facts: FactSet,
    clocks: ClockSnapshot,
    edges: BlockEdges,
    request: Request,
)
    requires
        same_but_blocks(p, q),
        p.blocks@.to_multiset() == q.blocks@.to_multiset(),
    ensures
        floor_of(action, p, facts, clocks, edges, request) == floor_of(
            action,
            q,
            facts,
            clocks,
            edges,
            request,
        ),
        ceiling_of(action, p, facts, clocks, edges, request) == ceiling_of(
            action,
            q,
            facts,
            clocks,
            edges,
            request,
        ),
        deadline_for(action, p, facts, clocks, edges, request) == deadline_for(
            action,
            q,
            facts,
            clocks,
            edges,
            request,
        ),
        due_now(action, p, facts, clocks, edges, request) == due_now(
            action,
            q,
            facts,
            clocks,
            edges,
            request,
        ),
{
    lemma_same_implicit_floors(action, p, q, facts);
    p.blocks@.to_multiset_ensures();
    q.blocks@.to_multiset_ensures();
    assert forall|d: Deadline, kind: BlockKind|
        #![trigger given_by_a_block(d, kind, action, p.blocks@, facts, clocks, edges, request)]
        given_by_a_block(d, kind, action, p.blocks@, facts, clocks, edges, request)
            == given_by_a_block(d, kind, action, q.blocks@, facts, clocks, edges, request) by {
        lemma_given_by_the_same_blocks(
            d,
            kind,
            action,
            p.blocks@,
            q.blocks@,
            facts,
            clocks,
            edges,
            request,
        );
        lemma_given_by_the_same_blocks(
            d,
            kind,
            action,
            q.blocks@,
            p.blocks@,
            facts,
            clocks,
            edges,
            request,
        );
    }
    lemma_same_contributions(action, p, q, facts, clocks, edges, request);
}

proof fn lemma_given_by_the_same_blocks(
    d: Deadline,
    kind: BlockKind,
    action: Action,
    a: Seq<Block>,
    b: Seq<Block>,
    facts: FactSet,
    clocks: ClockSnapshot,
    edges: BlockEdges,
    request: Request,
)
    requires
        a.to_multiset() == b.to_multiset(),
    ensures
        given_by_a_block(d, kind, action, a, facts, clocks, edges, request) ==> given_by_a_block(
            d,
            kind,
            action,
            b,
            facts,
            clocks,
            edges,
            request,
        ),
{
    a.to_multiset_ensures();
    b.to_multiset_ensures();
    if given_by_a_block(d, kind, action, a, facts, clocks, edges, request) {
        let i = choose|i: int|
            #![trigger a[i]]
            0 <= i < a.len() && gives(d, kind, action, a[i], facts, clocks, edges, request);
        assert(a.contains(a[i]));
        assert(a.to_multiset().count(a[i]) > 0);
        assert(b.contains(a[i]));
        let j = choose|j: int| 0 <= j < b.len() && b[j] == a[i];
        assert(gives(d, kind, action, b[j], facts, clocks, edges, request));
    }
}

/// A block that is switched off contributes nothing, and neither does one to an action that it
/// does not mention: silence is not a veto.
pub proof fn silence_contributes_nothing(
    action: Action,
    block: Block,
    facts: FactSet,
    clocks: ClockSnapshot,
    edges: BlockEdges,
    request: Request,
)
    requires
        !block.enabled || block.timeouts.of(action) is None,
    ensures
        reason_of(action, block, facts, clocks, edges, request) is None,
{
}

/// A condition that is not known to hold selects nothing, unless a request stands in for it.
pub proof fn doubt_selects_nothing(
    action: Action,
    block: Block,
    facts: FactSet,
    clocks: ClockSnapshot,
    edges: BlockEdges,
    request: Request,
)
    requires
        block.id.condition.state(facts) != FactState::True,
        !satisfied(block, request),
    ensures
        reason_of(action, block, facts, clocks, edges, request) is None,
{
}

/// A block that contributes nothing to an action can be taken out without a change to it.
pub proof fn a_block_without_a_reason_changes_nothing(
    action: Action,
    p: Policy,
    q: Policy,
    at: int,
    block: Block,
    facts: FactSet,
    clocks: ClockSnapshot,
    edges: BlockEdges,
    request: Request,
)
    requires
        same_but_blocks(p, q),
        0 <= at <= p.blocks@.len(),
        q.blocks@ == p.blocks@.insert(at, block),
        reason_of(action, block, facts, clocks, edges, request) is None,
    ensures
        floor_of(action, p, facts, clocks, edges, request) == floor_of(
            action,
            q,
            facts,
            clocks,
            edges,
            request,
        ),
        ceiling_of(action, p, facts, clocks, edges, request) == ceiling_of(
            action,
            q,
            facts,
            clocks,
            edges,
            request,
        ),
        due_now(action, p, facts, clocks, edges, request) == due_now(
            action,
            q,
            facts,
            clocks,
            edges,
            request,
        ),
{
    lemma_same_implicit_floors(action, p, q, facts);
    assert forall|d: Deadline, kind: BlockKind|
        #![trigger given_by_a_block(d, kind, action, p.blocks@, facts, clocks, edges, request)]
        given_by_a_block(d, kind, action, p.blocks@, facts, clocks, edges, request)
            == given_by_a_block(d, kind, action, q.blocks@, facts, clocks, edges, request) by {
        lemma_given_with_one_more_block(
            d,
            kind,
            action,
            p.blocks@,
            at,
            block,
            facts,
            clocks,
            edges,
            request,
        );
    }
    lemma_same_contributions(action, p, q, facts, clocks, edges, request);
}

proof fn lemma_given_with_one_more_block(
    d: Deadline,
    kind: BlockKind,
    action: Action,
    blocks: Seq<Block>,
    at: int,
    block: Block,
    facts: FactSet,
    clocks: ClockSnapshot,
    edges: BlockEdges,
    request: Request,
)
    requires
        0 <= at <= blocks.len(),
    ensures
        given_by_a_block(
            d,
            kind,
            action,
            blocks.insert(at, block),
            facts,
            clocks,
            edges,
            request,
        ) == (given_by_a_block(d, kind, action, blocks, facts, clocks, edges, request) || gives(
            d,
            kind,
            action,
            block,
            facts,
            clocks,
            edges,
            request,
        )),
{
    let more = blocks.insert(at, block);
    assert(more[at] == block);
    if given_by_a_block(d, kind, action, blocks, facts, clocks, edges, request) {
        let i = choose|i: int|
            #![trigger blocks[i]]
            0 <= i < blocks.len() && gives(
                d,
                kind,
                action,
                blocks[i],
                facts,
                clocks,
                edges,
                request,
            );
        let j = if i < at {
            i
        } else {
            i + 1
        };
        assert(more[j] == blocks[i]);
    }
    if given_by_a_block(d, kind, action, more, facts, clocks, edges, request) {
        let i = choose|i: int|
            #![trigger more[i]]
            0 <= i < more.len() && gives(d, kind, action, more[i], facts, clocks, edges, request);
        if i < at {
            assert(blocks[i] == more[i]);
        } else if i > at {
            assert(blocks[i - 1] == more[i]);
        }
    }
}

/// An action to which no block contributes and that nobody forces never happens. So where no block
/// applies nothing does, and an empty policy never does anything.
pub proof fn what_nothing_permits_never_happens(
    action: Action,
    policy: Policy,
    facts: FactSet,
    clocks: ClockSnapshot,
    edges: BlockEdges,
    request: Request,
)
    requires
        forall|i: int|
            0 <= i < policy.blocks@.len() ==> reason_of(
                action,
                #[trigger] policy.blocks@[i],
                facts,
                clocks,
                edges,
                request,
            ) is None,
        request.force != Some(action),
    ensures
        deadline_for(action, policy, facts, clocks, edges, request) == Deadline::Never,
        !due_now(action, policy, facts, clocks, edges, request),
{
    let floors = floors_of(
        reasons_of(action, policy.blocks@, facts, clocks, edges, request),
        implicit_floors_of(action, policy, facts).len(),
    );
    latest_is_the_greatest(floors);
    if floors.len() > 0 {
        lemma_floor_members(latest(floors), action, policy, facts, clocks, edges, request);
    }
    let ceilings = ceilings_of(
        reasons_of(action, policy.blocks@, facts, clocks, edges, request),
        false,
        clocks.now,
    );
    earliest_is_the_least(ceilings);
    if ceilings.len() > 0 {
        lemma_ceiling_members(earliest(ceilings), action, policy, facts, clocks, edges, request);
    }
}

/// While something other than a block holds a sleep back, no floor lifts: only a ceiling or force
/// makes it due.
proof fn lemma_implicit_floor_never_lifts(
    action: Action,
    policy: Policy,
    facts: FactSet,
    clocks: ClockSnapshot,
    edges: BlockEdges,
    request: Request,
)
    requires
        implicit_floors_of(action, policy, facts).len() > 0,
    ensures
        floor_of(action, policy, facts, clocks, edges, request) == Deadline::Never,
        deadline_for(action, policy, facts, clocks, edges, request) == ceiling_of(
            action,
            policy,
            facts,
            clocks,
            edges,
            request,
        ),
{
    let floors = floors_of(
        reasons_of(action, policy.blocks@, facts, clocks, edges, request),
        implicit_floors_of(action, policy, facts).len(),
    );
    lemma_floor_members(Deadline::Never, action, policy, facts, clocks, edges, request);
    latest_is_the_greatest(floors);
    let i = choose|i: int| 0 <= i < floors.len() && floors[i] == Deadline::Never;
    assert(no_later(floors[i], latest(floors)));
}

/// Doubt about any fact that is read holds every sleep back, whether or not a block names the
/// fact.
pub proof fn doubt_holds_every_sleep_back(
    action: Action,
    fact: FactId,
    policy: Policy,
    facts: FactSet,
    clocks: ClockSnapshot,
    edges: BlockEdges,
    request: Request,
)
    requires
        action.sleeps(),
        policy.reads(fact),
        facts.state(fact) == FactState::Indeterminate,
    ensures
        floor_of(action, policy, facts, clocks, edges, request) == Deadline::Never,
        deadline_for(action, policy, facts, clocks, edges, request) == ceiling_of(
            action,
            policy,
            facts,
            clocks,
            edges,
            request,
        ),
{
    doubtful_facts_are_exactly_the_doubts(policy, facts, fact);
    lemma_implicit_floor_never_lifts(action, policy, facts, clocks, edges, request);
}

/// A fault of the configuration holds every sleep back.
pub proof fn a_fault_holds_every_sleep_back(
    action: Action,
    policy: Policy,
    facts: FactSet,
    clocks: ClockSnapshot,
    edges: BlockEdges,
    request: Request,
)
    requires
        action.sleeps(),
        policy.faults@.len() > 0,
    ensures
        floor_of(action, policy, facts, clocks, edges, request) == Deadline::Never,
        deadline_for(action, policy, facts, clocks, edges, request) == ceiling_of(
            action,
            policy,
            facts,
            clocks,
            edges,
            request,
        ),
{
    lemma_implicit_floor_never_lifts(action, policy, facts, clocks, edges, request);
}

/// Neither doubt nor a fault ever keeps the panel lit.
pub proof fn the_panel_is_held_by_blocks_alone(
    p: Policy,
    q: Policy,
    facts: FactSet,
    clocks: ClockSnapshot,
    edges: BlockEdges,
    request: Request,
)
    requires
        p.blocks@ == q.blocks@,
    ensures
        implicit_floors_of(Action::ScreenOff, p, facts).len() == 0,
        deadline_for(Action::ScreenOff, p, facts, clocks, edges, request) == deadline_for(
            Action::ScreenOff,
            q,
            facts,
            clocks,
            edges,
            request,
        ),
{
}

/// An action never waits past its floor, nor past its ceiling.
pub proof fn an_action_waits_for_the_first_of_floor_and_ceiling(
    action: Action,
    policy: Policy,
    facts: FactSet,
    clocks: ClockSnapshot,
    edges: BlockEdges,
    request: Request,
)
    ensures
        no_later(
            deadline_for(action, policy, facts, clocks, edges, request),
            floor_of(action, policy, facts, clocks, edges, request),
        ),
        no_later(
            deadline_for(action, policy, facts, clocks, edges, request),
            ceiling_of(action, policy, facts, clocks, edges, request),
        ),
{
}

/// One more ceiling never delays an action.
pub proof fn a_ceiling_never_delays(
    action: Action,
    p: Policy,
    q: Policy,
    at: int,
    block: Block,
    facts: FactSet,
    clocks: ClockSnapshot,
    edges: BlockEdges,
    request: Request,
)
    requires
        same_but_blocks(p, q),
        0 <= at <= p.blocks@.len(),
        q.blocks@ == p.blocks@.insert(at, block),
        block.id.kind == BlockKind::When,
    ensures
        floor_of(action, q, facts, clocks, edges, request) == floor_of(
            action,
            p,
            facts,
            clocks,
            edges,
            request,
        ),
        no_later(
            deadline_for(action, q, facts, clocks, edges, request),
            deadline_for(action, p, facts, clocks, edges, request),
        ),
{
    lemma_same_implicit_floors(action, p, q, facts);
    let n = implicit_floors_of(action, p, facts).len();
    let pf = floors_of(reasons_of(action, p.blocks@, facts, clocks, edges, request), n);
    let qf = floors_of(reasons_of(action, q.blocks@, facts, clocks, edges, request), n);
    assert forall|d: Deadline| #[trigger] pf.contains(d) <==> qf.contains(d) by {
        lemma_floor_members(d, action, p, facts, clocks, edges, request);
        lemma_floor_members(d, action, q, facts, clocks, edges, request);
        lemma_given_with_one_more_block(
            d,
            BlockKind::While,
            action,
            p.blocks@,
            at,
            block,
            facts,
            clocks,
            edges,
            request,
        );
    }
    crate::time::composition_depends_on_members_alone(pf, qf);
    assert forall|d: Deadline|
        given_by_a_block(d, BlockKind::When, action, p.blocks@, facts, clocks, edges, request)
        implies given_by_a_block(
        d,
        BlockKind::When,
        action,
        q.blocks@,
        facts,
        clocks,
        edges,
        request,
    ) by {
        lemma_given_with_one_more_block(
            d,
            BlockKind::When,
            action,
            p.blocks@,
            at,
            block,
            facts,
            clocks,
            edges,
            request,
        );
    }
    lemma_more_ceilings(action, p, facts, q, facts, clocks, clocks, edges, request);
}

/// Ceilings that are all there elsewhere too come no earlier than elsewhere.
proof fn lemma_more_ceilings(
    action: Action,
    p: Policy,
    pfacts: FactSet,
    q: Policy,
    qfacts: FactSet,
    pclocks: ClockSnapshot,
    qclocks: ClockSnapshot,
    edges: BlockEdges,
    request: Request,
)
    requires
        pclocks.now == qclocks.now,
        forall|d: Deadline|
            given_by_a_block(
                d,
                BlockKind::When,
                action,
                p.blocks@,
                pfacts,
                pclocks,
                edges,
                request,
            ) ==> given_by_a_block(
                d,
                BlockKind::When,
                action,
                q.blocks@,
                qfacts,
                qclocks,
                edges,
                request,
            ),
    ensures
        no_later(
            ceiling_of(action, q, qfacts, qclocks, edges, request),
            ceiling_of(action, p, pfacts, pclocks, edges, request),
        ),
{
    let pc = ceilings_of(
        reasons_of(action, p.blocks@, pfacts, pclocks, edges, request),
        request.force == Some(action),
        pclocks.now,
    );
    let qc = ceilings_of(
        reasons_of(action, q.blocks@, qfacts, qclocks, edges, request),
        request.force == Some(action),
        qclocks.now,
    );
    earliest_is_the_least(pc);
    earliest_is_the_least(qc);
    if pc.len() > 0 {
        let d = earliest(pc);
        lemma_ceiling_members(d, action, p, pfacts, pclocks, edges, request);
        lemma_ceiling_members(d, action, q, qfacts, qclocks, edges, request);
        assert(qc.contains(d));
        let i = choose|i: int| 0 <= i < qc.len() && qc[i] == d;
        assert(no_later(earliest(qc), qc[i]));
    }
}

/// Where something already holds an action back, one more floor never hastens it.
pub proof fn a_floor_never_hastens(
    action: Action,
    p: Policy,
    q: Policy,
    at: int,
    block: Block,
    facts: FactSet,
    clocks: ClockSnapshot,
    edges: BlockEdges,
    request: Request,
)
    requires
        same_but_blocks(p, q),
        0 <= at <= p.blocks@.len(),
        q.blocks@ == p.blocks@.insert(at, block),
        block.id.kind == BlockKind::While,
        floors_of(
            reasons_of(action, p.blocks@, facts, clocks, edges, request),
            implicit_floors_of(action, p, facts).len(),
        ).len() > 0,
    ensures
        no_later(
            deadline_for(action, p, facts, clocks, edges, request),
            deadline_for(action, q, facts, clocks, edges, request),
        ),
{
    lemma_same_implicit_floors(action, p, q, facts);
    let n = implicit_floors_of(action, p, facts).len();
    let pf = floors_of(reasons_of(action, p.blocks@, facts, clocks, edges, request), n);
    let qf = floors_of(reasons_of(action, q.blocks@, facts, clocks, edges, request), n);
    latest_is_the_greatest(pf);
    latest_is_the_greatest(qf);
    let d = latest(pf);
    lemma_floor_members(d, action, p, facts, clocks, edges, request);
    lemma_floor_members(d, action, q, facts, clocks, edges, request);
    lemma_given_with_one_more_block(
        d,
        BlockKind::While,
        action,
        p.blocks@,
        at,
        block,
        facts,
        clocks,
        edges,
        request,
    );
    assert(qf.contains(d));
    let i = choose|i: int| 0 <= i < qf.len() && qf[i] == d;
    assert(no_later(qf[i], latest(qf)));
    assert forall|d: Deadline|
        given_by_a_block(d, BlockKind::When, action, q.blocks@, facts, clocks, edges, request)
        implies given_by_a_block(
        d,
        BlockKind::When,
        action,
        p.blocks@,
        facts,
        clocks,
        edges,
        request,
    ) by {
        lemma_given_with_one_more_block(
            d,
            BlockKind::When,
            action,
            p.blocks@,
            at,
            block,
            facts,
            clocks,
            edges,
            request,
        );
    }
    lemma_more_ceilings(action, q, facts, p, facts, clocks, clocks, edges, request);
}

/// Doubt never makes a sleep happen: where a fact that is read turns doubtful and nothing else
/// changes, no sleep comes any earlier.
pub proof fn doubt_never_forces_a_sleep(
    action: Action,
    fact: FactId,
    policy: Policy,
    known: FactSet,
    doubted: FactSet,
    clocks: ClockSnapshot,
    edges: BlockEdges,
    request: Request,
)
    requires
        action.sleeps(),
        policy.reads(fact),
        doubted.state(fact) == FactState::Indeterminate,
        forall|f: FactId| f != fact ==> #[trigger] doubted.state(f) == known.state(f),
    ensures
        no_later(
            deadline_for(action, policy, known, clocks, edges, request),
            deadline_for(action, policy, doubted, clocks, edges, request),
        ),
        due_now(action, policy, doubted, clocks, edges, request) ==> due_now(
            action,
            policy,
            known,
            clocks,
            edges,
            request,
        ),
{
    doubt_holds_every_sleep_back(action, fact, policy, doubted, clocks, edges, request);
    let blocks = policy.blocks@;
    assert forall|d: Deadline|
        given_by_a_block(d, BlockKind::When, action, blocks, doubted, clocks, edges, request)
        implies given_by_a_block(
        d,
        BlockKind::When,
        action,
        blocks,
        known,
        clocks,
        edges,
        request,
    ) by {
        let i = choose|i: int|
            #![trigger blocks[i]]
            0 <= i < blocks.len() && gives(
                d,
                BlockKind::When,
                action,
                blocks[i],
                doubted,
                clocks,
                edges,
                request,
            );
        match blocks[i].id.condition {
            Condition::Always => {},
            Condition::Fact(f) => {
                assert(f != fact);
                assert(doubted.state(f) == known.state(f));
            },
        }
        assert(gives(d, BlockKind::When, action, blocks[i], known, clocks, edges, request));
    }
    lemma_more_ceilings(
        action,
        policy,
        doubted,
        policy,
        known,
        clocks,
        clocks,
        edges,
        request,
    );
}

/// A clock that loses its origin only ever delays a sleep. An unreadable clock is no reason to
/// sleep, and neither is a resume that has not happened.
pub proof fn a_lost_clock_only_delays_a_sleep(
    action: Action,
    policy: Policy,
    facts: FactSet,
    read: ClockSnapshot,
    lost: ClockSnapshot,
    edges: BlockEdges,
    request: Request,
)
    requires
        action.sleeps(),
        read.now == lost.now,
        forall|i: int|
            #![trigger policy.blocks@[i]]
            0 <= i < policy.blocks@.len() ==> {
                let since = edges.at(policy.blocks@[i].id);
                let clock = policy.blocks@[i].clock;
                origin_of(lost, clock, since) is None || origin_of(lost, clock, since)
                    == origin_of(read, clock, since)
            },
    ensures
        no_later(
            deadline_for(action, policy, facts, read, edges, request),
            deadline_for(action, policy, facts, lost, edges, request),
        ),
        due_now(action, policy, facts, lost, edges, request) ==> due_now(
            action,
            policy,
            facts,
            read,
            edges,
            request,
        ),
{
    let blocks = policy.blocks@;
    let n = implicit_floors_of(action, policy, facts).len();
    let rf = floors_of(reasons_of(action, blocks, facts, read, edges, request), n);
    let lf = floors_of(reasons_of(action, blocks, facts, lost, edges, request), n);
    latest_is_the_greatest(rf);
    latest_is_the_greatest(lf);
    if lf.len() > 0 {
        lemma_floor_members(latest(lf), action, policy, facts, lost, edges, request);
        if rf.len() > 0 {
            let d = latest(rf);
            lemma_floor_members(d, action, policy, facts, read, edges, request);
            lemma_lost_clock_floor(d, action, policy, facts, read, lost, edges, request);
        } else if n > 0 {
            lemma_floor_members(Deadline::Never, action, policy, facts, read, edges, request);
        } else {
            let d = latest(lf);
            let i = choose|i: int|
                #![trigger blocks[i]]
                0 <= i < blocks.len() && gives(
                    d,
                    BlockKind::While,
                    action,
                    blocks[i],
                    facts,
                    lost,
                    edges,
                    request,
                );
            let reason = reason_of(action, blocks[i], facts, read, edges, request)->Some_0;
            assert(gives(
                reason.deadline,
                BlockKind::While,
                action,
                blocks[i],
                facts,
                read,
                edges,
                request,
            ));
            lemma_floor_members(reason.deadline, action, policy, facts, read, edges, request);
        }
    }
    assert forall|d: Deadline|
        given_by_a_block(d, BlockKind::When, action, blocks, facts, lost, edges, request)
        implies given_by_a_block(
        d,
        BlockKind::When,
        action,
        blocks,
        facts,
        read,
        edges,
        request,
    ) by {
        let i = choose|i: int|
            #![trigger blocks[i]]
            0 <= i < blocks.len() && gives(
                d,
                BlockKind::When,
                action,
                blocks[i],
                facts,
                lost,
                edges,
                request,
            );
        assert(gives(d, BlockKind::When, action, blocks[i], facts, read, edges, request));
    }
    lemma_more_ceilings(action, policy, facts, policy, facts, lost, read, edges, request);
}

proof fn lemma_lost_clock_floor(
    d: Deadline,
    action: Action,
    policy: Policy,
    facts: FactSet,
    read: ClockSnapshot,
    lost: ClockSnapshot,
    edges: BlockEdges,
    request: Request,
)
    requires
        action.sleeps(),
        read.now == lost.now,
        forall|i: int|
            #![trigger policy.blocks@[i]]
            0 <= i < policy.blocks@.len() ==> {
                let since = edges.at(policy.blocks@[i].id);
                let clock = policy.blocks@[i].clock;
                origin_of(lost, clock, since) is None || origin_of(lost, clock, since)
                    == origin_of(read, clock, since)
            },
        floors_of(
            reasons_of(action, policy.blocks@, facts, read, edges, request),
            implicit_floors_of(action, policy, facts).len(),
        ).contains(d),
    ensures
        no_later(d, floor_of(action, policy, facts, lost, edges, request)),
{
    let blocks = policy.blocks@;
    let lf = floors_of(
        reasons_of(action, blocks, facts, lost, edges, request),
        implicit_floors_of(action, policy, facts).len(),
    );
    latest_is_the_greatest(lf);
    lemma_floor_members(d, action, policy, facts, read, edges, request);
    if given_by_a_block(d, BlockKind::While, action, blocks, facts, read, edges, request) {
        let i = choose|i: int|
            #![trigger blocks[i]]
            0 <= i < blocks.len() && gives(
                d,
                BlockKind::While,
                action,
                blocks[i],
                facts,
                read,
                edges,
                request,
            );
        let reason = reason_of(action, blocks[i], facts, lost, edges, request)->Some_0;
        let e = reason.deadline;
        assert(gives(e, BlockKind::While, action, blocks[i], facts, lost, edges, request));
        lemma_floor_members(e, action, policy, facts, lost, edges, request);
        let j = choose|j: int| 0 <= j < lf.len() && lf[j] == e;
        assert(no_later(lf[j], latest(lf)));
        assert(no_later(d, e));
    } else {
        lemma_floor_members(d, action, policy, facts, lost, edges, request);
        let j = choose|j: int| 0 <= j < lf.len() && lf[j] == d;
        assert(no_later(lf[j], latest(lf)));
    }
}

/// A forced action is due, whatever holds it back.
pub proof fn force_makes_its_action_due(
    action: Action,
    policy: Policy,
    facts: FactSet,
    clocks: ClockSnapshot,
    edges: BlockEdges,
    request: Request,
)
    requires
        request.force == Some(action),
    ensures
        due_now(action, policy, facts, clocks, edges, request),
{
    let d = Deadline::At(clocks.now);
    let ceilings = ceilings_of(
        reasons_of(action, policy.blocks@, facts, clocks, edges, request),
        true,
        clocks.now,
    );
    lemma_ceiling_members(d, action, policy, facts, clocks, edges, request);
    earliest_is_the_least(ceilings);
    let i = choose|i: int| 0 <= i < ceilings.len() && ceilings[i] == d;
    assert(no_later(earliest(ceilings), ceilings[i]));
}

/// Force is for one action: what is decided of the others is what would be decided without it.
pub proof fn force_touches_no_other_action(
    action: Action,
    policy: Policy,
    facts: FactSet,
    clocks: ClockSnapshot,
    edges: BlockEdges,
    request: Request,
)
    requires
        request.force != Some(action),
    ensures
        floor_of(action, policy, facts, clocks, edges, request) == floor_of(
            action,
            policy,
            facts,
            clocks,
            edges,
            (Request { force: None, ..request }),
        ),
        ceiling_of(action, policy, facts, clocks, edges, request) == ceiling_of(
            action,
            policy,
            facts,
            clocks,
            edges,
            (Request { force: None, ..request }),
        ),
        due_now(action, policy, facts, clocks, edges, request) == due_now(
            action,
            policy,
            facts,
            clocks,
            edges,
            (Request { force: None, ..request }),
        ),
{
    lemma_reasons_ignore_force(action, policy.blocks@, facts, clocks, edges, request);
}

proof fn lemma_reasons_ignore_force(
    action: Action,
    blocks: Seq<Block>,
    facts: FactSet,
    clocks: ClockSnapshot,
    edges: BlockEdges,
    request: Request,
)
    ensures
        reasons_of(action, blocks, facts, clocks, edges, request) == reasons_of(
            action,
            blocks,
            facts,
            clocks,
            edges,
            (Request { force: None, ..request }),
        ),
    decreases blocks.len(),
{
    if blocks.len() > 0 {
        lemma_reasons_ignore_force(action, blocks.drop_last(), facts, clocks, edges, request);
    }
}

/// A request to rest now stands in for the wait of two blocks, by name, and of no others.
pub proof fn rest_now_stands_in_for_two_blocks(
    action: Action,
    block: Block,
    facts: FactSet,
    clocks: ClockSnapshot,
    edges: BlockEdges,
    request: Request,
)
    requires
        block.id.kind == BlockKind::When || (block.id.condition != Condition::Always
            && block.id.condition != Condition::Fact(FactId::AfterResume)),
    ensures
        reason_of(action, block, facts, clocks, edges, request) == reason_of(
            action,
            block,
            facts,
            clocks,
            edges,
            no_request(),
        ),
{
}

/// A request to rest now does not lift what doubt holds back: a sleep that doubt holds back and no
/// ceiling lets go is not due.
pub proof fn rest_now_does_not_reach_doubt(
    action: Action,
    fact: FactId,
    policy: Policy,
    facts: FactSet,
    clocks: ClockSnapshot,
    edges: BlockEdges,
    request: Request,
)
    requires
        action.sleeps(),
        policy.reads(fact),
        facts.state(fact) == FactState::Indeterminate,
        ceiling_of(action, policy, facts, clocks, edges, request) == Deadline::Never,
    ensures
        !due_now(action, policy, facts, clocks, edges, request),
{
    doubt_holds_every_sleep_back(action, fact, policy, facts, clocks, edges, request);
}

} // verus!
