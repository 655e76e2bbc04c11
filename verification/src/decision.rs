//! What a policy decides: for every action, when it may happen and why.
use vstd::prelude::*;

use crate::action::Action;
use crate::block::{Block, BlockId, BlockKind, Condition};
use crate::clock::{origin_of, Clock, ClockSnapshot};
use crate::fact::{FactId, FactSet, FactState};
use crate::policy::{BlockEdges, Policy};
use crate::time::{
    compose_ceiling, compose_floor, deadline_of, due, earlier_deadline, earliest, latest, sooner,
    BootInstant, Deadline,
};

verus! {

/// What one block contributed to one action.
#[derive(Clone, Copy, PartialEq, Eq, Debug, Structural)]
pub struct Reason {
    /// The block.
    pub block: BlockId,
    /// What was known of its condition.
    pub state: FactState,
    /// What its timeout is counted from.
    pub clock: Clock,
    /// Where that clock started.
    pub origin: Option<BootInstant>,
    /// Until when it holds the action back, or from when it lets it go.
    pub deadline: Deadline,
    /// Whether a request to rest now stood in for the wait.
    pub satisfied_by_request: bool,
}

/// What holds an action back although no block says so.
#[derive(Clone, Copy, PartialEq, Eq, Debug, Structural)]
pub enum ImplicitFloor {
    /// A fact cannot be told.
    Doubt(FactId),
    /// The configuration has a fault, with its place among them.
    ConfigFault(usize),
}

/// What is decided of one action.
#[derive(Debug)]
pub struct ActionResolution {
    /// The action.
    pub action: Action,
    /// The latest of the floors.
    pub floor: Deadline,
    /// The earliest of the ceilings.
    pub ceiling: Deadline,
    /// When the action may happen.
    pub deadline: Deadline,
    /// Whether that has come.
    pub due: bool,
    /// What the blocks contributed, in the order of the blocks.
    pub reasons: Vec<Reason>,
    /// What holds the action back although no block says so.
    pub implicit_floors: Vec<ImplicitFloor>,
}

/// What somebody asked for.
#[derive(Clone, Copy, PartialEq, Eq, Debug, Structural)]
pub struct Request {
    /// Not to wait out the idle time.
    pub now: bool,
    /// To do this whatever holds it back.
    pub force: Option<Action>,
    /// To do this, and nothing in its place.
    pub requested: Option<Action>,
}

/// The request that asks for nothing.
pub open spec fn no_request() -> Request {
    Request { now: false, force: None, requested: None }
}

impl Request {
    /// The request that asks for nothing.
    pub fn none() -> (r: Self)
        ensures
            r == no_request(),
    {
        Request { now: false, force: None, requested: None }
    }
}

impl Default for Request {
    fn default() -> (r: Self)
        ensures
            r == no_request(),
    {
        Request::none()
    }
}

/// Whether a request to rest now stands in for the wait of a block: that of the two blocks whose
/// wait is only the wait for somebody to come back.
pub open spec fn satisfied(block: Block, request: Request) -> bool {
    &&& request.now
    &&& block.id.kind == BlockKind::While
    &&& (block.id.condition == Condition::Always || block.id.condition == Condition::Fact(
        FactId::AfterResume,
    ))
}

/// The deadline of a block that applies, unless it can have none.
///
/// Where the clock has no origin, a floor under a sleep never lifts, a floor under the panel
/// counts from boot, and a ceiling contributes nothing.
pub open spec fn block_deadline(
    action: Action,
    kind: BlockKind,
    origin: Option<BootInstant>,
    timeout: crate::time::Timeout,
) -> Option<Deadline> {
    match origin {
        Some(t) => Some(deadline_of(t, timeout)),
        None => match kind {
            BlockKind::While => if action.sleeps() {
                Some(Deadline::Never)
            } else {
                Some(deadline_of(crate::time::boot(), timeout))
            },
            BlockKind::When => None,
        },
    }
}

/// What a block contributes to an action, if anything.
pub open spec fn reason_of(
    action: Action,
    block: Block,
    facts: FactSet,
    clocks: ClockSnapshot,
    edges: BlockEdges,
    request: Request,
) -> Option<Reason> {
    let state = block.id.condition.state(facts);
    let origin = origin_of(clocks, block.clock, edges.at(block.id));
    if !block.enabled || block.timeouts.of(action) is None {
        None
    } else if satisfied(block, request) {
        Some(
            Reason {
                block: block.id,
                state,
                clock: block.clock,
                origin,
                deadline: Deadline::At(clocks.now),
                satisfied_by_request: true,
            },
        )
    } else if state != FactState::True {
        None
    } else {
        match block_deadline(action, block.id.kind, origin, block.timeouts.of(action)->Some_0) {
            Some(deadline) => Some(
                Reason {
                    block: block.id,
                    state,
                    clock: block.clock,
                    origin,
                    deadline,
                    satisfied_by_request: false,
                },
            ),
            None => None,
        }
    }
}

/// What the blocks contribute to an action, in the order of the blocks.
pub open spec fn reasons_of(
    action: Action,
    blocks: Seq<Block>,
    facts: FactSet,
    clocks: ClockSnapshot,
    edges: BlockEdges,
    request: Request,
) -> Seq<Reason>
    decreases blocks.len(),
{
    if blocks.len() == 0 {
        Seq::empty()
    } else {
        let before = reasons_of(action, blocks.drop_last(), facts, clocks, edges, request);
        match reason_of(action, blocks.last(), facts, clocks, edges, request) {
            Some(reason) => before.push(reason),
            None => before,
        }
    }
}

/// The deadlines of the reasons of a kind, in order.
pub open spec fn deadlines_of(reasons: Seq<Reason>, kind: BlockKind) -> Seq<Deadline>
    decreases reasons.len(),
{
    if reasons.len() == 0 {
        Seq::empty()
    } else {
        let before = deadlines_of(reasons.drop_last(), kind);
        if reasons.last().block.kind == kind {
            before.push(reasons.last().deadline)
        } else {
            before
        }
    }
}

/// What holds an action back although no block says so: every doubtful fact, then every fault.
/// The panel is held back by neither.
pub open spec fn implicit_floors_of(action: Action, policy: Policy, facts: FactSet) -> Seq<
    ImplicitFloor,
> {
    if action.sleeps() {
        policy.doubtful(facts).map_values(|f: FactId| ImplicitFloor::Doubt(f)) + Seq::new(
            policy.faults@.len(),
            |i: int| ImplicitFloor::ConfigFault(i as usize),
        )
    } else {
        Seq::empty()
    }
}

/// The floors under an action: those of the blocks, and one that never lifts for each implicit
/// floor.
pub open spec fn floors_of(reasons: Seq<Reason>, implicit: nat) -> Seq<Deadline> {
    deadlines_of(reasons, BlockKind::While) + Seq::new(implicit, |i: int| Deadline::Never)
}

/// The ceilings over an action: those of the blocks, and the present where it is forced.
pub open spec fn ceilings_of(reasons: Seq<Reason>, forced: bool, now: BootInstant) -> Seq<Deadline> {
    if forced {
        deadlines_of(reasons, BlockKind::When).push(Deadline::At(now))
    } else {
        deadlines_of(reasons, BlockKind::When)
    }
}

/// The latest floor under an action.
pub open spec fn floor_of(
    action: Action,
    policy: Policy,
    facts: FactSet,
    clocks: ClockSnapshot,
    edges: BlockEdges,
    request: Request,
) -> Deadline {
    latest(
        floors_of(
            reasons_of(action, policy.blocks@, facts, clocks, edges, request),
            implicit_floors_of(action, policy, facts).len(),
        ),
    )
}

/// The earliest ceiling over an action.
pub open spec fn ceiling_of(
    action: Action,
    policy: Policy,
    facts: FactSet,
    clocks: ClockSnapshot,
    edges: BlockEdges,
    request: Request,
) -> Deadline {
    earliest(
        ceilings_of(
            reasons_of(action, policy.blocks@, facts, clocks, edges, request),
            request.force == Some(action),
            clocks.now,
        ),
    )
}

/// When an action may happen: at its floor, or at its ceiling if that comes first.
pub open spec fn deadline_for(
    action: Action,
    policy: Policy,
    facts: FactSet,
    clocks: ClockSnapshot,
    edges: BlockEdges,
    request: Request,
) -> Deadline {
    earlier_deadline(
        floor_of(action, policy, facts, clocks, edges, request),
        ceiling_of(action, policy, facts, clocks, edges, request),
    )
}

/// Whether an action may happen now.
pub open spec fn due_now(
    action: Action,
    policy: Policy,
    facts: FactSet,
    clocks: ClockSnapshot,
    edges: BlockEdges,
    request: Request,
) -> bool {
    due(deadline_for(action, policy, facts, clocks, edges, request), clocks.now)
}

/// Whether a resolution is what is decided of an action.
pub open spec fn resolves(
    r: ActionResolution,
    action: Action,
    policy: Policy,
    facts: FactSet,
    clocks: ClockSnapshot,
    edges: BlockEdges,
    request: Request,
) -> bool {
    &&& r.action == action
    &&& r.floor == floor_of(action, policy, facts, clocks, edges, request)
    &&& r.ceiling == ceiling_of(action, policy, facts, clocks, edges, request)
    &&& r.deadline == deadline_for(action, policy, facts, clocks, edges, request)
    &&& r.due == due_now(action, policy, facts, clocks, edges, request)
    &&& r.reasons@ == reasons_of(action, policy.blocks@, facts, clocks, edges, request)
    &&& r.implicit_floors@ == implicit_floors_of(action, policy, facts)
}

/// The blocks of the reasons of a kind that have a given deadline, in order.
pub open spec fn blocks_at(reasons: Seq<Reason>, kind: BlockKind, deadline: Deadline) -> Seq<BlockId>
    decreases reasons.len(),
{
    if reasons.len() == 0 {
        Seq::empty()
    } else {
        let before = blocks_at(reasons.drop_last(), kind, deadline);
        if reasons.last().block.kind == kind && reasons.last().deadline == deadline {
            before.push(reasons.last().block)
        } else {
            before
        }
    }
}

fn pick_blocks(reasons: &Vec<Reason>, kind: BlockKind, deadline: Deadline) -> (r: Vec<BlockId>)
    ensures
        r@ == blocks_at(reasons@, kind, deadline),
{
    let mut out: Vec<BlockId> = Vec::new();
    let mut i: usize = 0;
    while i < reasons.len()
        invariant
            i <= reasons@.len(),
            out@ == blocks_at(reasons@.take(i as int), kind, deadline),
        decreases reasons@.len() - i,
    {
        let reason = reasons[i];
        assert(reasons@.take(i as int + 1).drop_last() =~= reasons@.take(i as int));
        if reason.block.kind == kind && reason.deadline == deadline {
            out.push(reason.block);
        }
        i += 1;
    }
    assert(reasons@.take(i as int) =~= reasons@);
    out
}

impl ActionResolution {
    /// The blocks that hold the action back the longest.
    pub fn holding(&self) -> (r: Vec<BlockId>)
        ensures
            r@ == blocks_at(self.reasons@, BlockKind::While, self.floor),
    {
        pick_blocks(&self.reasons, BlockKind::While, self.floor)
    }

    /// Whether a ceiling lets the action happen before its floor would.
    pub fn ceiling_defeated_floor(&self) -> (r: bool)
        ensures
            r == sooner(self.ceiling, self.floor),
    {
        self.ceiling < self.floor
    }

    /// The blocks that let the action happen the earliest.
    pub fn ceiling_blocks(&self) -> (r: Vec<BlockId>)
        ensures
            r@ == blocks_at(self.reasons@, BlockKind::When, self.ceiling),
    {
        pick_blocks(&self.reasons, BlockKind::When, self.ceiling)
    }
}

/// What is decided of every action.
#[derive(Debug)]
pub struct Decision {
    /// The instant of the decision.
    pub now: BootInstant,
    /// Of darkening the panel.
    pub screen_off: ActionResolution,
    /// Of suspending to memory.
    pub suspend: ActionResolution,
    /// Of suspending to disk.
    pub hibernate: ActionResolution,
    /// Of powering off.
    pub poweroff: ActionResolution,
    /// The facts that are read and cannot be told.
    pub doubtful_facts: Vec<FactId>,
    /// How many faults the configuration has.
    pub config_faults: usize,
    /// The action that was asked for.
    pub requested: Option<Action>,
}

/// The actions that are due, from the shallowest to the deepest, up to a place.
pub open spec fn due_among(d: Decision, actions: int) -> Seq<Action>
    decreases actions,
{
    if actions <= 0 {
        Seq::empty()
    } else {
        let action = Action::ALL@[actions - 1];
        if d.of(action).due {
            due_among(d, actions - 1).push(action)
        } else {
            due_among(d, actions - 1)
        }
    }
}

/// The shallowest sleep that is due.
pub open spec fn shallowest(d: Decision) -> Option<Action> {
    if d.suspend.due {
        Some(Action::Suspend)
    } else if d.hibernate.due {
        Some(Action::Hibernate)
    } else if d.poweroff.due {
        Some(Action::PowerOff)
    } else {
        None
    }
}

/// The sleep to perform: the one that was asked for if it is due, and nothing in its place;
/// without a request, the shallowest that is due.
pub open spec fn chosen(d: Decision) -> Option<Action> {
    match d.requested {
        Some(action) => if action.sleeps() && d.of(action).due {
            Some(action)
        } else {
            None
        },
        None => shallowest(d),
    }
}

/// The earliest deadline of a decision that is still to come.
pub open spec fn next_of(d: Decision) -> Deadline {
    earliest(
        seq![
            upcoming(d, Action::ScreenOff),
            upcoming(d, Action::Suspend),
            upcoming(d, Action::Hibernate),
            upcoming(d, Action::PowerOff),
        ],
    )
}

/// The deadline of an action, if it is still to come.
pub open spec fn upcoming(d: Decision, action: Action) -> Deadline {
    if due(d.of(action).deadline, d.now) {
        Deadline::Never
    } else {
        d.of(action).deadline
    }
}

impl Decision {
    /// What is decided of an action.
    pub open spec fn of(self, action: Action) -> ActionResolution {
        match action {
            Action::ScreenOff => self.screen_off,
            Action::Suspend => self.suspend,
            Action::Hibernate => self.hibernate,
            Action::PowerOff => self.poweroff,
        }
    }

    /// What is decided of an action.
    pub fn get(&self, action: Action) -> (r: &ActionResolution)
        ensures
            *r == self.of(action),
    {
        match action {
            Action::ScreenOff => &self.screen_off,
            Action::Suspend => &self.suspend,
            Action::Hibernate => &self.hibernate,
            Action::PowerOff => &self.poweroff,
        }
    }

    /// The actions that are due, from the shallowest to the deepest.
    pub fn due_actions(&self) -> (r: Vec<Action>)
        ensures
            r@ == due_among(*self, 4),
    {
        let mut out: Vec<Action> = Vec::new();
        let all = Action::ALL;
        let mut i: usize = 0;
        while i < 4
            invariant
                i <= 4,
                all@ == Action::ALL@,
                out@ == due_among(*self, i as int),
            decreases 4 - i,
        {
            if self.get(all[i]).due {
                out.push(all[i]);
            }
            i += 1;
        }
        out
    }

    /// The shallowest sleep that is due. Where several are, the others would end it.
    pub fn shallowest_sleep_due(&self) -> (r: Option<Action>)
        ensures
            r == shallowest(*self),
    {
        let all = Action::ALL;
        let mut i: usize = 0;
        while i < 4
            invariant
                i <= 4,
                all@ == Action::ALL@,
                forall|j: int|
                    0 <= j < i ==> !((#[trigger] Action::ALL@[j]).sleeps() && self.of(
                        Action::ALL@[j],
                    ).due),
            decreases 4 - i,
        {
            let action = all[i];
            if action.is_sleep() && self.get(action).due {
                proof {
                    assert(Action::ALL@[1] == Action::Suspend);
                    assert(Action::ALL@[2] == Action::Hibernate);
                }
                return Some(action);
            }
            i += 1;
        }
        proof {
            assert(Action::ALL@[1] == Action::Suspend);
            assert(Action::ALL@[2] == Action::Hibernate);
            assert(Action::ALL@[3] == Action::PowerOff);
        }
        None
    }

    /// The sleep to perform: the one that was asked for if it is due, and nothing in its place;
    /// without a request, the shallowest that is due.
    pub fn action_to_perform(&self) -> (r: Option<Action>)
        ensures
            r == chosen(*self),
    {
        match self.requested {
            Some(action) => if action.is_sleep() && self.get(action).due {
                Some(action)
            } else {
                None
            },
            None => self.shallowest_sleep_due(),
        }
    }

    /// The earliest deadline that is still to come.
    pub fn next_deadline(&self) -> (r: Deadline)
        ensures
            r == next_of(*self),
    {
        let mut next = Deadline::Never;
        let all = Action::ALL;
        let mut i: usize = 0;
        let ghost deadlines = seq![
            upcoming(*self, Action::ScreenOff),
            upcoming(*self, Action::Suspend),
            upcoming(*self, Action::Hibernate),
            upcoming(*self, Action::PowerOff),
        ];
        while i < 4
            invariant
                i <= 4,
                all@ == Action::ALL@,
                deadlines.len() == 4,
                forall|j: int| 0 <= j < 4 ==> #[trigger] deadlines[j] == upcoming(*self, Action::ALL@[j]),
                next == earliest(deadlines.take(i as int)),
            decreases 4 - i,
        {
            let deadline = self.get(all[i]).deadline;
            assert(deadlines.take(i as int + 1).drop_last() =~= deadlines.take(i as int));
            assert(deadlines.take(i as int + 1).last() == deadlines[i as int]);
            if !deadline.is_due_at(self.now) && deadline < next {
                next = deadline;
            }
            i += 1;
        }
        assert(deadlines.take(4) =~= deadlines);
        next
    }
}

/// Whether a decision is what a policy decides.
pub open spec fn decides(
    d: Decision,
    policy: Policy,
    facts: FactSet,
    clocks: ClockSnapshot,
    edges: BlockEdges,
    request: Request,
) -> bool {
    &&& d.now == clocks.now
    &&& d.requested == request.requested
    &&& d.doubtful_facts@ == policy.doubtful(facts)
    &&& d.config_faults == policy.faults@.len()
    &&& forall|action: Action|
        resolves(#[trigger] d.of(action), action, policy, facts, clocks, edges, request)
}

/// Decides without a request.
pub fn resolve(policy: &Policy, facts: &FactSet, clocks: &ClockSnapshot, edges: &BlockEdges) -> (r:
    Decision)
    ensures
        decides(r, *policy, *facts, *clocks, *edges, no_request()),
{
    resolve_request(policy, facts, clocks, edges, &Request::none())
}

/// Decides under a request.
pub fn resolve_request(
    policy: &Policy,
    facts: &FactSet,
    clocks: &ClockSnapshot,
    edges: &BlockEdges,
    request: &Request,
) -> (r: Decision)
    ensures
        decides(r, *policy, *facts, *clocks, *edges, *request),
{
    let doubtful_facts = policy.doubtful_facts(facts);
    let screen_off = resolve_action(
        Action::ScreenOff,
        policy,
        facts,
        clocks,
        edges,
        &doubtful_facts,
        request,
    );
    let suspend = resolve_action(
        Action::Suspend,
        policy,
        facts,
        clocks,
        edges,
        &doubtful_facts,
        request,
    );
    let hibernate = resolve_action(
        Action::Hibernate,
        policy,
        facts,
        clocks,
        edges,
        &doubtful_facts,
        request,
    );
    let poweroff = resolve_action(
        Action::PowerOff,
        policy,
        facts,
        clocks,
        edges,
        &doubtful_facts,
        request,
    );
    Decision {
        now: clocks.now,
        requested: request.requested,
        screen_off,
        suspend,
        hibernate,
        poweroff,
        doubtful_facts,
        config_faults: policy.faults.len(),
    }
}

/// What a block contributes to an action, if anything.
fn reason_for(
    action: Action,
    block: &Block,
    facts: &FactSet,
    clocks: &ClockSnapshot,
    edges: &BlockEdges,
    request: &Request,
) -> (r: Option<Reason>)
    ensures
        r == reason_of(action, *block, *facts, *clocks, *edges, *request),
{
    if !block.enabled {
        return None;
    }
    let timeout = match block.timeouts.get(action) {
        Some(timeout) => timeout,
        None => return None,
    };
    let state = block.id.condition.evaluate(facts);
    let origin = clocks.origin(block.clock, edges.since(block.id));
    let satisfied_by_request = request.now && block.id.kind == BlockKind::While && matches!(
        block.id.condition,
        Condition::Always | Condition::Fact(FactId::AfterResume)
    );
    if satisfied_by_request {
        return Some(
            Reason {
                block: block.id,
                state,
                clock: block.clock,
                origin,
                deadline: Deadline::At(clocks.now),
                satisfied_by_request: true,
            },
        );
    }
    if !state.is_true() {
        return None;
    }
    let deadline = match origin {
        Some(origin) => Deadline::from_origin(origin, timeout),
        None => match block.id.kind {
            BlockKind::While => if action.is_sleep() {
                Deadline::Never
            } else {
                Deadline::from_origin(BootInstant::boot(), timeout)
            },
            BlockKind::When => return None,
        },
    };
    Some(
        Reason {
            block: block.id,
            state,
            clock: block.clock,
            origin,
            deadline,
            satisfied_by_request: false,
        },
    )
}

fn pick_deadlines(reasons: &Vec<Reason>, kind: BlockKind) -> (r: Vec<Deadline>)
    ensures
        r@ == deadlines_of(reasons@, kind),
{
    let mut out: Vec<Deadline> = Vec::new();
    let mut i: usize = 0;
    while i < reasons.len()
        invariant
            i <= reasons@.len(),
            out@ == deadlines_of(reasons@.take(i as int), kind),
        decreases reasons@.len() - i,
    {
        let reason = reasons[i];
        assert(reasons@.take(i as int + 1).drop_last() =~= reasons@.take(i as int));
        if reason.block.kind == kind {
            out.push(reason.deadline);
        }
        i += 1;
    }
    assert(reasons@.take(i as int) =~= reasons@);
    out
}

/// What holds an action back although no block says so.
fn implicit_floors(action: Action, faults: usize, doubtful_facts: &Vec<FactId>) -> (r: Vec<
    ImplicitFloor,
>)
    ensures
        r@ == (if action.sleeps() {
            doubtful_facts@.map_values(|f: FactId| ImplicitFloor::Doubt(f)) + Seq::new(
                faults as nat,
                |i: int| ImplicitFloor::ConfigFault(i as usize),
            )
        } else {
            Seq::empty()
        }),
{
    let mut out: Vec<ImplicitFloor> = Vec::new();
    if !action.vetoed_by_doubt() {
        return out;
    }
    let mut i: usize = 0;
    while i < doubtful_facts.len()
        invariant
            i <= doubtful_facts@.len(),
            out@ == doubtful_facts@.map_values(|f: FactId| ImplicitFloor::Doubt(f)).take(i as int),
        decreases doubtful_facts@.len() - i,
    {
        out.push(ImplicitFloor::Doubt(doubtful_facts[i]));
        i += 1;
    }
    let ghost doubts = doubtful_facts@.map_values(|f: FactId| ImplicitFloor::Doubt(f));
    assert(out@ =~= doubts);
    let mut j: usize = 0;
    while j < faults
        invariant
            j <= faults,
            out@ == doubts + Seq::new(j as nat, |i: int| ImplicitFloor::ConfigFault(i as usize)),
        decreases faults - j,
    {
        out.push(ImplicitFloor::ConfigFault(j));
        j += 1;
        assert(doubts + Seq::new(j as nat, |i: int| ImplicitFloor::ConfigFault(i as usize)) =~= (
        doubts + Seq::new(
            (j - 1) as nat,
            |i: int| ImplicitFloor::ConfigFault(i as usize),
        )).push(ImplicitFloor::ConfigFault((j - 1) as usize)));
    }
    out
}

fn resolve_action(
    action: Action,
    policy: &Policy,
    facts: &FactSet,
    clocks: &ClockSnapshot,
    edges: &BlockEdges,
    doubtful_facts: &Vec<FactId>,
    request: &Request,
) -> (r: ActionResolution)
    requires
        doubtful_facts@ == policy.doubtful(*facts),
    ensures
        resolves(r, action, *policy, *facts, *clocks, *edges, *request),
{
    let mut reasons: Vec<Reason> = Vec::new();
    let mut i: usize = 0;
    while i < policy.blocks.len()
        invariant
            i <= policy.blocks@.len(),
            reasons@ == reasons_of(
                action,
                policy.blocks@.take(i as int),
                *facts,
                *clocks,
                *edges,
                *request,
            ),
        decreases policy.blocks@.len() - i,
    {
        assert(policy.blocks@.take(i as int + 1).drop_last() =~= policy.blocks@.take(i as int));
        match reason_for(action, &policy.blocks[i], facts, clocks, edges, request) {
            Some(reason) => reasons.push(reason),
            None => {},
        }
        i += 1;
    }
    assert(policy.blocks@.take(i as int) =~= policy.blocks@);

    let implicit_floors = implicit_floors(action, policy.faults.len(), doubtful_facts);

    let mut floors = pick_deadlines(&reasons, BlockKind::While);
    let ghost block_floors = floors@;
    let mut j: usize = 0;
    while j < implicit_floors.len()
        invariant
            j <= implicit_floors@.len(),
            floors@ == block_floors + Seq::new(j as nat, |i: int| Deadline::Never),
        decreases implicit_floors@.len() - j,
    {
        floors.push(Deadline::Never);
        j += 1;
        assert(block_floors + Seq::new(j as nat, |i: int| Deadline::Never) =~= (block_floors
            + Seq::new((j - 1) as nat, |i: int| Deadline::Never)).push(Deadline::Never));
    }
    assert(floors@ =~= floors_of(reasons@, implicit_floors@.len()));
    let floor = compose_floor(&floors);

    let mut ceilings = pick_deadlines(&reasons, BlockKind::When);
    let forced = match request.force {
        Some(a) => a == action,
        None => false,
    };
    if forced {
        ceilings.push(Deadline::At(clocks.now));
    }
    let ceiling = compose_ceiling(&ceilings);

    let deadline = floor.earlier_of(ceiling);
    ActionResolution {
        action,
        floor,
        ceiling,
        deadline,
        due: deadline.is_due_at(clocks.now),
        reasons,
        implicit_floors,
    }
}

} // verus!
