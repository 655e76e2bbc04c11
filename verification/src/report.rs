//! What is told of a decision: why an action is due, what holds it back, what is broken, and what
//! else claims the machine.
//!
//! Everything here is told of the decision that was made and of the clocks that it was made by.
//! Nothing is decided again for the telling.
use vstd::prelude::*;
use vstd::string::StringExecFns;

use crate::action::Action;
use crate::block::{Block, BlockId, BlockKind, Condition};
use crate::clock::ClockOrigin;
use crate::config::timeout::{format_timeout, formatted};
use crate::decision::{blocks_at, ActionResolution, Decision, ImplicitFloor, Reason};
use crate::engine::Engine;
use crate::fact::{FactId, FactMap, FactState};
use crate::manager::{state_in, state_of};
use crate::lines::{extend, none, one, only_if, push_line, unlined, unlines};
use crate::policy::Policy;
use crate::reading::{ago, ago_text, push_two_digits, two_digits, Reading};
use crate::text::{decimal, join, joined, padded, push_decimal, push_padded, views};
use crate::time::{between, deadline_text, sooner, whole_secs, BootInstant, Deadline, Duration};

verus! {

/// A span that a person can read at a glance.
pub open spec fn human_text(secs: nat) -> Seq<char> {
    if secs < 60 {
        decimal(secs) + "s"@
    } else if secs < 3_600 {
        decimal(secs / 60) + "m"@ + two_digits(secs % 60) + "s"@
    } else {
        decimal(secs / 3_600) + "h"@ + two_digits(secs % 3_600 / 60) + "m"@
    }
}

/// A span that a person can read at a glance. It is cut short and never rounded up.
pub fn human(d: Duration) -> (r: String)
    ensures
        r@ == human_text(whole_secs(d)),
{
    let secs = d.as_secs();
    let mut out = String::new();
    if secs < 60 {
        push_decimal(&mut out, secs as u128);
        assert(out@ =~= decimal(secs as nat));
        out.append("s");
    } else if secs < 3_600 {
        push_decimal(&mut out, (secs / 60) as u128);
        assert(out@ =~= decimal((secs / 60) as nat));
        out.append("m");
        push_two_digits(&mut out, secs % 60);
        out.append("s");
    } else {
        push_decimal(&mut out, (secs / 3_600) as u128);
        assert(out@ =~= decimal((secs / 3_600) as nat));
        out.append("h");
        push_two_digits(&mut out, secs % 3_600 / 60);
        out.append("m");
    }
    out
}

// ---- why an action is due -------------------------------------------------------------

/// What blocks are called, in order.
pub open spec fn block_texts(ids: Seq<BlockId>) -> Seq<Seq<char>> {
    ids.map_values(|id: BlockId| id.text())
}

fn block_names(ids: &Vec<BlockId>) -> (r: Vec<String>)
    ensures
        views(r@) == block_texts(ids@),
{
    let ghost wanted = block_texts(ids@);
    let mut out: Vec<String> = none();
    let mut i: usize = 0;
    assert(wanted.take(0) =~= Seq::empty());
    while i < ids.len()
        invariant
            i <= ids@.len(),
            wanted == block_texts(ids@),
            views(out@) == wanted.take(i as int),
        decreases ids@.len() - i,
    {
        let name = ids[i].to_string();
        assert(wanted[i as int] == name@);
        assert(wanted.take(i as int + 1) =~= wanted.take(i as int).push(name@));
        push_line(&mut out, name);
        i += 1;
    }
    assert(wanted.take(i as int) =~= wanted);
    out
}

/// What holds an action back although no block says so, in words.
pub open spec fn floor_text(floor: ImplicitFloor, policy: Policy) -> Seq<char> {
    match floor {
        ImplicitFloor::Doubt(fact) => "doubt about "@ + fact.text(),
        ImplicitFloor::ConfigFault(index) => if index < policy.faults@.len() {
            let fault = policy.faults@[index as int];
            "the configuration fault in "@ + fault.source@ + " ("@ + (if fault.location@.len()
                == 0 {
                "whole file"@
            } else {
                fault.location@
            }) + ")"@
        } else {
            "a configuration fault"@
        },
    }
}

/// What holds an action back although no block says so, in words.
pub fn floor_name(floor: ImplicitFloor, policy: &Policy) -> (r: String)
    ensures
        r@ == floor_text(floor, *policy),
{
    match floor {
        ImplicitFloor::Doubt(fact) => {
            let mut out = "doubt about ".to_owned();
            out.append(fact.name());
            out
        },
        ImplicitFloor::ConfigFault(index) => {
            if index >= policy.faults.len() {
                return "a configuration fault".to_owned();
            }
            let fault = &policy.faults[index];
            let mut out = "the configuration fault in ".to_owned();
            out.append(fault.source.as_str());
            out.append(" (");
            if fault.location.as_str().is_empty() {
                out.append("whole file");
            } else {
                out.append(fault.location.as_str());
            }
            out.append(")");
            out
        },
    }
}

/// What holds an action back although no block says so, all of it in words.
pub open spec fn floor_texts(floors: Seq<ImplicitFloor>, policy: Policy) -> Seq<Seq<char>> {
    floors.map_values(|f: ImplicitFloor| floor_text(f, policy))
}

fn floor_names(floors: &Vec<ImplicitFloor>, policy: &Policy) -> (r: Vec<String>)
    ensures
        views(r@) == floor_texts(floors@, *policy),
{
    let ghost wanted = floor_texts(floors@, *policy);
    let mut out: Vec<String> = none();
    let mut i: usize = 0;
    assert(wanted.take(0) =~= Seq::empty());
    while i < floors.len()
        invariant
            i <= floors@.len(),
            wanted == floor_texts(floors@, *policy),
            views(out@) == wanted.take(i as int),
        decreases floors@.len() - i,
    {
        let name = floor_name(floors[i], policy);
        assert(wanted[i as int] == name@);
        assert(wanted.take(i as int + 1) =~= wanted.take(i as int).push(name@));
        push_line(&mut out, name);
        i += 1;
    }
    assert(wanted.take(i as int) =~= wanted);
    out
}

/// The floors that lift last, in words and in order.
pub open spec fn winner_texts(reasons: Seq<Reason>, floor: Deadline) -> Seq<Seq<char>>
    decreases reasons.len(),
{
    if reasons.len() == 0 {
        Seq::empty()
    } else {
        let before = winner_texts(reasons.drop_last(), floor);
        let last = reasons.last();
        if last.block.kind == BlockKind::While && last.deadline == floor {
            before.push(
                last.block.text() + " ("@ + deadline_text(last.deadline) + " on the "@
                    + last.clock.text() + " clock)"@,
            )
        } else {
            before
        }
    }
}

fn winner_names(reasons: &Vec<Reason>, floor: Deadline) -> (r: Vec<String>)
    ensures
        views(r@) == winner_texts(reasons@, floor),
{
    let mut out: Vec<String> = none();
    let mut i: usize = 0;
    while i < reasons.len()
        invariant
            i <= reasons@.len(),
            views(out@) == winner_texts(reasons@.take(i as int), floor),
        decreases reasons@.len() - i,
    {
        let reason = reasons[i];
        assert(reasons@.take(i as int + 1).drop_last() =~= reasons@.take(i as int));
        if reason.block.kind == BlockKind::While && reason.deadline == floor {
            let mut line = reason.block.to_string();
            line.append(" (");
            let deadline = reason.deadline.to_string();
            line.append(deadline.as_str());
            line.append(" on the ");
            line.append(reason.clock.name());
            line.append(" clock)");
            push_line(&mut out, line);
        }
        i += 1;
    }
    assert(reasons@.take(i as int) =~= reasons@);
    out
}

/// Why an action is due: the ceiling that let it go and what that defeated, or else the floors that
/// lifted last, or else that nothing held it back.
pub open spec fn why_text(decision: Decision, action: Action, policy: Policy) -> Seq<char> {
    let resolution = decision.of(action);
    let ceilings = block_texts(
        blocks_at(resolution.reasons@, BlockKind::When, resolution.ceiling),
    );
    let defeated = block_texts(
        blocks_at(resolution.reasons@, BlockKind::While, resolution.floor),
    ) + floor_texts(resolution.implicit_floors@, policy);
    let winners = winner_texts(resolution.reasons@, resolution.floor);
    if sooner(resolution.ceiling, resolution.floor) {
        "ceiling "@ + joined(ceilings, " + "@) + " fired, defeating "@ + (if defeated.len() == 0 {
            "no floor"@
        } else {
            joined(defeated, " + "@)
        })
    } else if winners.len() == 0 {
        "no block sets a floor for this action"@
    } else {
        joined(winners, " + "@)
    }
}

/// Why an action is due, in one line.
pub fn why_due(decision: &Decision, action: Action, policy: &Policy) -> (r: String)
    ensures
        r@ == why_text(*decision, action, *policy),
{
    let resolution = decision.get(action);
    if resolution.ceiling_defeated_floor() {
        let ceilings = block_names(&resolution.ceiling_blocks());
        let mut defeated = block_names(&resolution.holding());
        extend(&mut defeated, floor_names(&resolution.implicit_floors, policy));
        assert(views(defeated@).len() == defeated@.len());
        let mut out = "ceiling ".to_owned();
        let fired = join(&ceilings, " + ");
        out.append(fired.as_str());
        out.append(" fired, defeating ");
        if defeated.len() == 0 {
            out.append("no floor");
        } else {
            let list = join(&defeated, " + ");
            out.append(list.as_str());
        }
        return out;
    }
    let winners = winner_names(&resolution.reasons, resolution.floor);
    assert(views(winners@).len() == winners@.len());
    if winners.len() == 0 {
        return "no block sets a floor for this action".to_owned();
    }
    join(&winners, " + ")
}

/// What holds an action back although no block says so, in short.
pub open spec fn short_floor_text(floor: ImplicitFloor) -> Seq<char> {
    match floor {
        ImplicitFloor::Doubt(fact) => "doubt about "@ + fact.text(),
        ImplicitFloor::ConfigFault(_) => "a configuration fault"@,
    }
}

/// What holds an action back, in short.
pub open spec fn won_by_texts(resolution: ActionResolution) -> Seq<Seq<char>> {
    block_texts(blocks_at(resolution.reasons@, BlockKind::While, resolution.floor))
        + resolution.implicit_floors@.map_values(|f: ImplicitFloor| short_floor_text(f))
}

/// What holds an action back, in short: the blocks whose floors lift last, and then what no block
/// says.
pub fn won_by(resolution: &ActionResolution) -> (r: Vec<String>)
    ensures
        views(r@) == won_by_texts(*resolution),
{
    let mut out = block_names(&resolution.holding());
    let ghost first = views(out@);
    let floors = &resolution.implicit_floors;
    let ghost wanted = floors@.map_values(|f: ImplicitFloor| short_floor_text(f));
    let mut i: usize = 0;
    assert(first + wanted.take(0) =~= first);
    while i < floors.len()
        invariant
            i <= floors@.len(),
            wanted == floors@.map_values(|f: ImplicitFloor| short_floor_text(f)),
            views(out@) == first + wanted.take(i as int),
        decreases floors@.len() - i,
    {
        let name = match floors[i] {
            ImplicitFloor::Doubt(fact) => {
                let mut name = "doubt about ".to_owned();
                name.append(fact.name());
                name
            },
            ImplicitFloor::ConfigFault(_) => "a configuration fault".to_owned(),
        };
        assert(wanted[i as int] == name@);
        assert(first + wanted.take(i as int + 1) =~= (first + wanted.take(i as int)).push(name@));
        push_line(&mut out, name);
        i += 1;
    }
    assert(wanted.take(i as int) =~= wanted);
    out
}

/// The sleeps that are due and were not performed, with the blocks that hold each the longest.
pub fn held_back(decision: &Decision) -> (r: Vec<(Action, Vec<String>)>)
    ensures
        r@.map_values(|h: (Action, Vec<String>)| (h.0, views(h.1@))) == held_rows(*decision, 4),
{
    let mut out: Vec<(Action, Vec<String>)> = Vec::new();
    let all = Action::ALL;
    let mut i: usize = 0;
    assert(out@.map_values(|h: (Action, Vec<String>)| (h.0, views(h.1@))) =~= Seq::empty());
    while i < 4
        invariant
            i <= 4,
            all@ == Action::ALL@,
            all@.len() == 4,
            out@.map_values(|h: (Action, Vec<String>)| (h.0, views(h.1@))) == held_rows(
                *decision,
                i as int,
            ),
        decreases 4 - i,
    {
        let action = all[i];
        if action.is_sleep() && decision.get(action).due {
            let names = block_names(&decision.get(action).holding());
            let ghost before = out@.map_values(|h: (Action, Vec<String>)| (h.0, views(h.1@)));
            let ghost row = (action, views(names@));
            out.push((action, names));
            assert(out@.map_values(|h: (Action, Vec<String>)| (h.0, views(h.1@))) =~= before.push(
                row,
            ));
        }
        i += 1;
    }
    out
}

/// The sleeps among the first actions that are due, with the blocks that hold each the longest.
pub open spec fn held_rows(decision: Decision, actions: int) -> Seq<(Action, Seq<Seq<char>>)>
    decreases actions,
{
    if actions <= 0 {
        Seq::empty()
    } else {
        let before = held_rows(decision, actions - 1);
        let action = Action::ALL@[actions - 1];
        let resolution = decision.of(action);
        if action.sleeps() && resolution.due {
            before.push(
                (
                    action,
                    block_texts(
                        blocks_at(resolution.reasons@, BlockKind::While, resolution.floor),
                    ),
                ),
            )
        } else {
            before
        }
    }
}

// ---- a decision, block by block -------------------------------------------------------

/// What is known of a condition.
pub open spec fn condition_in(readings: Map<FactId, Reading>, condition: Condition) -> FactState {
    match condition {
        Condition::Always => FactState::True,
        Condition::Fact(fact) => state_in(readings, fact),
    }
}

/// The evidence for a fact, or nothing.
pub open spec fn detail_in(readings: Map<FactId, Reading>, fact: FactId) -> Seq<char> {
    if readings.contains_key(fact) {
        readings[fact].detail@
    } else {
        Seq::empty()
    }
}

/// The evidence for what is known of a condition, or nothing.
pub open spec fn evidence_in(readings: Map<FactId, Reading>, condition: Condition) -> Seq<char> {
    match condition {
        Condition::Always => Seq::empty(),
        Condition::Fact(fact) => detail_in(readings, fact),
    }
}

/// What is known of a condition.
pub fn condition_state(readings: &FactMap<Reading>, condition: Condition) -> (r: FactState)
    ensures
        r == condition_in(readings@, condition),
{
    match condition {
        Condition::Always => FactState::True,
        Condition::Fact(fact) => state_of(readings, fact),
    }
}

fn detail_of(readings: &FactMap<Reading>, fact: FactId) -> (r: String)
    ensures
        r@ == detail_in(readings@, fact),
{
    match readings.get(fact) {
        Some(reading) => reading.detail.clone(),
        None => String::new(),
    }
}

/// The evidence for what is known of a condition, or nothing.
pub fn condition_detail(readings: &FactMap<Reading>, condition: Condition) -> (r: String)
    ensures
        r@ == evidence_in(readings@, condition),
{
    match condition {
        Condition::Always => String::new(),
        Condition::Fact(fact) => detail_of(readings, fact),
    }
}

/// What a block contributed, if it did.
pub open spec fn reason_for(reasons: Seq<Reason>, id: BlockId) -> Option<Reason>
    decreases reasons.len(),
{
    if reasons.len() == 0 {
        None
    } else {
        match reason_for(reasons.drop_last(), id) {
            Some(reason) => Some(reason),
            None => if reasons.last().block == id {
                Some(reasons.last())
            } else {
                None
            },
        }
    }
}

fn find_reason(reasons: &Vec<Reason>, id: BlockId) -> (r: Option<Reason>)
    ensures
        r == reason_for(reasons@, id),
{
    let mut found: Option<Reason> = None;
    let mut i: usize = 0;
    while i < reasons.len()
        invariant
            i <= reasons@.len(),
            found == reason_for(reasons@.take(i as int), id),
        decreases reasons@.len() - i,
    {
        assert(reasons@.take(i as int + 1).drop_last() =~= reasons@.take(i as int));
        if found.is_none() && reasons[i].block == id {
            found = Some(reasons[i]);
        }
        i += 1;
    }
    assert(reasons@.take(i as int) =~= reasons@);
    found
}

/// What is known of where the clock of a block started.
pub open spec fn origin_in(engine: Engine, block: Block) -> ClockOrigin {
    match block.clock {
        crate::clock::Clock::HumanInput => engine.clocks.human_input,
        crate::clock::Clock::Resume => engine.clocks.resume,
        crate::clock::Clock::ConditionEdge => ClockOrigin::At(
            match engine.edges.at(block.id) {
                Some(t) => t,
                None => engine.clocks.now,
            },
        ),
        crate::clock::Clock::Boot => ClockOrigin::At(crate::time::boot()),
    }
}

/// Where a clock started, in words.
pub open spec fn origin_text(origin: ClockOrigin, now: BootInstant) -> Seq<char> {
    match origin {
        ClockOrigin::At(at) => " origin=+"@ + decimal((at.nanos / 1_000_000_000) as nat) + "s ("@
            + ago_text(whole_secs(between(at, now))) + ")"@,
        ClockOrigin::NotYet => " origin=not yet this boot"@,
        ClockOrigin::Unreadable =>
            " origin=UNREADABLE (the detector feeding this clock is faulted)"@,
    }
}

/// What a block contributed, in words.
pub open spec fn contribution_text(reason: Option<Reason>) -> Seq<char> {
    match reason {
        Some(r) => if r.satisfied_by_request {
            " -> now (satisfied by the request)"@
        } else {
            " -> "@ + deadline_text(r.deadline)
        },
        None => " -> contributes nothing"@,
    }
}

/// How the line of a block begins: its name and what is known of its condition.
pub open spec fn block_head(block: Block, state: FactState) -> Seq<char> {
    "  "@ + padded(block.id.text(), 28) + " "@ + padded(state.text(), 14)
}

/// The lines of a block for an action.
pub open spec fn block_rows(
    engine: Engine,
    decision: Decision,
    action: Action,
    block: Block,
) -> Seq<Seq<char>> {
    let state = condition_in(engine.readings@, block.id.condition);
    let detail = evidence_in(engine.readings@, block.id.condition);
    let head = block_head(block, state);
    match block.timeouts.of(action) {
        None => seq![head + " does not participate in "@ + action.text()],
        Some(timeout) => {
            let line = head + " "@ + padded(formatted(timeout), 9) + " clock="@ + padded(
                block.clock.text(),
                10,
            );
            if !block.enabled {
                seq![line + " (disabled)"@]
            } else {
                let reason = reason_for(decision.of(action).reasons@, block.id);
                let full = line + origin_text(origin_in(engine, block), decision.now)
                    + contribution_text(reason);
                if (state == FactState::Indeterminate || state == FactState::Unavailable)
                    && detail.len() > 0 {
                    seq![full, "  "@ + padded(""@, 28) + "   "@ + detail]
                } else {
                    seq![full]
                }
            }
        },
    }
}

fn describe_origin(origin: ClockOrigin, now: BootInstant) -> (r: String)
    ensures
        r@ == origin_text(origin, now),
{
    match origin {
        ClockOrigin::At(at) => {
            let mut out = " origin=+".to_owned();
            push_decimal(&mut out, (at.as_nanos() / 1_000_000_000) as u128);
            out.append("s (");
            let age = ago(now.since(at));
            out.append(age.as_str());
            out.append(")");
            out
        },
        ClockOrigin::NotYet => " origin=not yet this boot".to_owned(),
        ClockOrigin::Unreadable =>
            " origin=UNREADABLE (the detector feeding this clock is faulted)".to_owned(),
    }
}

fn describe_contribution(reason: Option<Reason>) -> (r: String)
    ensures
        r@ == contribution_text(reason),
{
    match reason {
        Some(reason) => if reason.satisfied_by_request {
            " -> now (satisfied by the request)".to_owned()
        } else {
            let mut out = " -> ".to_owned();
            let deadline = reason.deadline.to_string();
            out.append(deadline.as_str());
            out
        },
        None => " -> contributes nothing".to_owned(),
    }
}

fn explain_block(engine: &Engine, decision: &Decision, action: Action, block: &Block) -> (r: Vec<
    String,
>)
    ensures
        views(r@) == block_rows(*engine, *decision, action, *block),
{
    let state = condition_state(&engine.readings, block.id.condition);
    let detail = condition_detail(&engine.readings, block.id.condition);
    let id = block.id.to_string();
    let mut line = "  ".to_owned();
    push_padded(&mut line, id.as_str(), 28);
    line.append(" ");
    push_padded(&mut line, state.name(), 14);
    assert(line@ == block_head(*block, state));
    let timeout = match block.timeouts.get(action) {
        Some(timeout) => timeout,
        None => {
            line.append(" does not participate in ");
            line.append(action.name());
            return one(line);
        },
    };
    line.append(" ");
    let shown = format_timeout(timeout);
    push_padded(&mut line, shown.as_str(), 9);
    line.append(" clock=");
    push_padded(&mut line, block.clock.name(), 10);
    if !block.enabled {
        line.append(" (disabled)");
        return one(line);
    }
    let origin = engine.clocks.origin_kind(block.clock, engine.edges.since(block.id));
    let from = describe_origin(origin, decision.now);
    line.append(from.as_str());
    let reason = find_reason(&decision.get(action).reasons, block.id);
    let gives = describe_contribution(reason);
    line.append(gives.as_str());
    let ghost full = line@;
    let mut out = one(line);
    let unsure = match state {
        FactState::Indeterminate => true,
        FactState::Unavailable => true,
        _ => false,
    };
    if unsure && !detail.as_str().is_empty() {
        let mut more = "  ".to_owned();
        push_padded(&mut more, "", 28);
        more.append("   ");
        more.append(detail.as_str());
        let ghost second = more@;
        push_line(&mut out, more);
        assert(views(out@) =~= seq![full, second]);
    }
    out
}

/// The lines of the first blocks for an action.
pub open spec fn all_block_rows(
    engine: Engine,
    decision: Decision,
    action: Action,
    blocks: Seq<Block>,
) -> Seq<Seq<char>>
    decreases blocks.len(),
{
    if blocks.len() == 0 {
        Seq::empty()
    } else {
        all_block_rows(engine, decision, action, blocks.drop_last()) + block_rows(
            engine,
            decision,
            action,
            blocks.last(),
        )
    }
}

fn explain_blocks(engine: &Engine, decision: &Decision, action: Action) -> (r: Vec<String>)
    ensures
        views(r@) == all_block_rows(*engine, *decision, action, engine.policy.blocks@),
{
    let blocks = &engine.policy.blocks;
    let mut out = none();
    let mut i: usize = 0;
    while i < blocks.len()
        invariant
            i <= blocks@.len(),
            *blocks == engine.policy.blocks,
            views(out@) == all_block_rows(*engine, *decision, action, blocks@.take(i as int)),
        decreases blocks@.len() - i,
    {
        assert(blocks@.take(i as int + 1).drop_last() =~= blocks@.take(i as int));
        let rows = explain_block(engine, decision, action, &blocks[i]);
        extend(&mut out, rows);
        i += 1;
    }
    assert(blocks@.take(i as int) =~= blocks@);
    out
}

/// The blocks that set a timeout for an action, by name.
pub open spec fn blocks_setting(blocks: Seq<Block>, action: Action) -> Seq<Seq<char>>
    decreases blocks.len(),
{
    if blocks.len() == 0 {
        Seq::empty()
    } else if blocks.last().timeouts.of(action) is Some {
        blocks_setting(blocks.drop_last(), action).push(blocks.last().id.text())
    } else {
        blocks_setting(blocks.drop_last(), action)
    }
}

fn find_setting(blocks: &Vec<Block>, action: Action) -> (r: Vec<String>)
    ensures
        views(r@) == blocks_setting(blocks@, action),
{
    let mut out = none();
    let mut i: usize = 0;
    while i < blocks.len()
        invariant
            i <= blocks@.len(),
            views(out@) == blocks_setting(blocks@.take(i as int), action),
        decreases blocks@.len() - i,
    {
        assert(blocks@.take(i as int + 1).drop_last() =~= blocks@.take(i as int));
        if blocks[i].timeouts.get(action).is_some() {
            push_line(&mut out, blocks[i].id.to_string());
        }
        i += 1;
    }
    assert(blocks@.take(i as int) =~= blocks@);
    out
}

/// The blocks whose condition is a fact, by name.
pub open spec fn blocks_on(blocks: Seq<Block>, fact: FactId) -> Seq<Seq<char>>
    decreases blocks.len(),
{
    if blocks.len() == 0 {
        Seq::empty()
    } else if blocks.last().id.condition == Condition::Fact(fact) {
        blocks_on(blocks.drop_last(), fact).push(blocks.last().id.text())
    } else {
        blocks_on(blocks.drop_last(), fact)
    }
}

/// The blocks whose condition is a fact, by name.
pub fn find_on(blocks: &Vec<Block>, fact: FactId) -> (r: Vec<String>)
    ensures
        views(r@) == blocks_on(blocks@, fact),
{
    let mut out = none();
    let mut i: usize = 0;
    while i < blocks.len()
        invariant
            i <= blocks@.len(),
            views(out@) == blocks_on(blocks@.take(i as int), fact),
        decreases blocks@.len() - i,
    {
        assert(blocks@.take(i as int + 1).drop_last() =~= blocks@.take(i as int));
        if blocks[i].id.condition == Condition::Fact(fact) {
            push_line(&mut out, blocks[i].id.to_string());
        }
        i += 1;
    }
    assert(blocks@.take(i as int) =~= blocks@);
    out
}

/// What is said where no session can darken its panel: that, and which blocks have no effect.
pub open spec fn unavailable_rows(blocks: Seq<Block>) -> Seq<Seq<char>> {
    let inert = blocks_setting(blocks, Action::ScreenOff);
    seq!["  UNAVAILABLE as an action: no session agent offers a blanking mechanism."@] + only_if(
        inert.len() > 0,
        seq!["  inert blocks: "@ + joined(inert, ", "@)],
    ) + seq![
        "  This raises no veto on anything: an action that is absent is knowledge, not doubt."@,
    ]
}

fn explain_unavailable(blocks: &Vec<Block>) -> (r: Vec<String>)
    ensures
        views(r@) == unavailable_rows(blocks@),
{
    let inert = find_setting(blocks, Action::ScreenOff);
    assert(views(inert@).len() == inert@.len());
    let mut out = one(
        "  UNAVAILABLE as an action: no session agent offers a blanking mechanism.".to_owned(),
    );
    if inert.len() > 0 {
        let mut line = "  inert blocks: ".to_owned();
        let list = join(&inert, ", ");
        line.append(list.as_str());
        extend(&mut out, one(line));
    } else {
        extend(&mut out, none());
    }
    extend(
        &mut out,
        one(
            "  This raises no veto on anything: an action that is absent is knowledge, not doubt.".to_owned(),
        ),
    );
    out
}

/// What holds an action back although no block says so, with the evidence.
pub open spec fn floor_reason_text(floor: ImplicitFloor, engine: Engine) -> Seq<char> {
    match floor {
        ImplicitFloor::Doubt(fact) => fact.text() + " is indeterminate: "@ + detail_in(
            engine.readings@,
            fact,
        ),
        ImplicitFloor::ConfigFault(_) => floor_text(floor, engine.policy),
    }
}

fn floor_reason(floor: ImplicitFloor, engine: &Engine) -> (r: String)
    ensures
        r@ == floor_reason_text(floor, *engine),
{
    match floor {
        ImplicitFloor::Doubt(fact) => {
            let mut out = fact.name().to_owned();
            out.append(" is indeterminate: ");
            let detail = detail_of(&engine.readings, fact);
            out.append(detail.as_str());
            out
        },
        ImplicitFloor::ConfigFault(_) => floor_name(floor, &engine.policy),
    }
}

/// The lines of what holds an action back although no block says so.
pub open spec fn floor_rows(floors: Seq<ImplicitFloor>, engine: Engine) -> Seq<Seq<char>> {
    floors.map_values(
        |f: ImplicitFloor| "  implicit floor: never   "@ + floor_reason_text(f, engine),
    )
}

fn explain_floors(floors: &Vec<ImplicitFloor>, engine: &Engine) -> (r: Vec<String>)
    ensures
        views(r@) == floor_rows(floors@, *engine),
{
    let ghost wanted = floor_rows(floors@, *engine);
    let mut out = none();
    let mut i: usize = 0;
    assert(wanted.take(0) =~= Seq::empty());
    while i < floors.len()
        invariant
            i <= floors@.len(),
            wanted == floor_rows(floors@, *engine),
            views(out@) == wanted.take(i as int),
        decreases floors@.len() - i,
    {
        let mut line = "  implicit floor: never   ".to_owned();
        let reason = floor_reason(floors[i], engine);
        line.append(reason.as_str());
        assert(wanted[i as int] == line@);
        assert(wanted.take(i as int + 1) =~= wanted.take(i as int).push(line@));
        push_line(&mut out, line);
        i += 1;
    }
    assert(wanted.take(i as int) =~= wanted);
    out
}

/// How long until an action, in words.
pub open spec fn when_text(resolution: ActionResolution, now: BootInstant) -> Seq<char> {
    if resolution.due {
        "DUE"@
    } else {
        match resolution.deadline {
            Deadline::At(at) => if at.nanos > now.nanos {
                "in "@ + human_text(whole_secs(between(now, at)))
            } else {
                "never"@
            },
            Deadline::Never => "never"@,
        }
    }
}

/// What is resolved of an action.
pub open spec fn resolved_rows(resolution: ActionResolution, now: BootInstant) -> Seq<Seq<char>> {
    let won = won_by_texts(resolution);
    seq![
        "  ---"@,
        "  floor    "@ + deadline_text(resolution.floor),
        "  ceiling  "@ + deadline_text(resolution.ceiling),
        "  resolved "@ + deadline_text(resolution.deadline) + "   "@ + when_text(resolution, now),
    ] + only_if(won.len() > 0, seq!["  held by  "@ + joined(won, ", "@)]) + only_if(
        sooner(resolution.ceiling, resolution.floor),
        seq!["  WARNING  a ceiling is pulling this action earlier than its floor allows"@],
    )
}

fn explain_resolved(resolution: &ActionResolution, now: BootInstant) -> (r: Vec<String>)
    ensures
        views(r@) == resolved_rows(*resolution, now),
{
    let mut out = one("  ---".to_owned());
    let mut floor = "  floor    ".to_owned();
    let shown = resolution.floor.to_string();
    floor.append(shown.as_str());
    let ghost second = floor@;
    push_line(&mut out, floor);
    let mut ceiling = "  ceiling  ".to_owned();
    let shown = resolution.ceiling.to_string();
    ceiling.append(shown.as_str());
    let ghost third = ceiling@;
    push_line(&mut out, ceiling);
    let mut resolved = "  resolved ".to_owned();
    let shown = resolution.deadline.to_string();
    resolved.append(shown.as_str());
    resolved.append("   ");
    let when = if resolution.due {
        "DUE".to_owned()
    } else {
        match resolution.deadline.remaining_at(now) {
            Some(left) => {
                let mut when = "in ".to_owned();
                let span = human(left);
                when.append(span.as_str());
                when
            },
            None => "never".to_owned(),
        }
    };
    assert(when@ == when_text(*resolution, now));
    resolved.append(when.as_str());
    let ghost fourth = resolved@;
    push_line(&mut out, resolved);
    assert(views(out@) =~= seq!["  ---"@, second, third, fourth]);
    let won = won_by(resolution);
    assert(views(won@).len() == won@.len());
    if won.len() > 0 {
        let mut line = "  held by  ".to_owned();
        let list = join(&won, ", ");
        line.append(list.as_str());
        extend(&mut out, one(line));
    } else {
        extend(&mut out, none());
    }
    if resolution.ceiling_defeated_floor() {
        extend(
            &mut out,
            one(
                "  WARNING  a ceiling is pulling this action earlier than its floor allows".to_owned(),
            ),
        );
    } else {
        extend(&mut out, none());
    }
    out
}

/// The lines of an action.
pub open spec fn action_rows(engine: Engine, decision: Decision, action: Action) -> Seq<Seq<char>> {
    let resolution = decision.of(action);
    seq!["\u{2500}\u{2500} "@ + action.text() + " \u{2500}\u{2500}"@] + only_if(
        action == Action::ScreenOff && !engine.screen_off_available,
        unavailable_rows(engine.policy.blocks@),
    ) + all_block_rows(engine, decision, action, engine.policy.blocks@) + floor_rows(
        resolution.implicit_floors@,
        engine,
    ) + resolved_rows(resolution, decision.now)
}

fn explain_action(engine: &Engine, decision: &Decision, action: Action) -> (r: Vec<String>)
    ensures
        views(r@) == action_rows(*engine, *decision, action),
{
    let resolution = decision.get(action);
    let mut title = "\u{2500}\u{2500} ".to_owned();
    title.append(action.name());
    title.append(" \u{2500}\u{2500}");
    let mut out = one(title);
    if action == Action::ScreenOff && !engine.screen_off_available {
        extend(&mut out, explain_unavailable(&engine.policy.blocks));
    } else {
        extend(&mut out, none());
    }
    extend(&mut out, explain_blocks(engine, decision, action));
    extend(&mut out, explain_floors(&resolution.implicit_floors, engine));
    extend(&mut out, explain_resolved(resolution, decision.now));
    out
}

/// The lines of those of the first actions that are asked about.
pub open spec fn asked_rows(
    engine: Engine,
    decision: Decision,
    only: Option<Action>,
    actions: int,
) -> Seq<Seq<char>>
    decreases actions,
{
    if actions <= 0 {
        Seq::empty()
    } else {
        let before = asked_rows(engine, decision, only, actions - 1);
        let action = Action::ALL@[actions - 1];
        if only is Some && only != Some(action) {
            before
        } else {
            before + action_rows(engine, decision, action) + seq![""@]
        }
    }
}

/// The explanation of a decision.
pub open spec fn explanation(engine: Engine, only: Option<Action>) -> Seq<char> {
    match engine.decision {
        None => "no evaluation has completed yet\n"@,
        Some(decision) => unlined(
            seq![
                "evaluated "@ + (match engine.last_eval {
                    Some(at) => ago_text(whole_secs(between(at, decision.now))),
                    None => "never"@,
                }),
                "min_idle  "@ + decimal(whole_secs(engine.policy.min_idle)) + "s"@,
                ""@,
            ] + asked_rows(engine, decision, only, 4),
        ),
    }
}

/// Explains the last decision, for one action or for all: what each block contributed, by which
/// clock, what holds the action back, and when it may happen.
pub fn explain(engine: &Engine, only: Option<Action>) -> (r: String)
    ensures
        r@ == explanation(*engine, only),
{
    let decision = match &engine.decision {
        Some(decision) => decision,
        None => return "no evaluation has completed yet\n".to_owned(),
    };
    let mut evaluated = "evaluated ".to_owned();
    let age = match engine.last_eval {
        Some(at) => ago(decision.now.since(at)),
        None => "never".to_owned(),
    };
    evaluated.append(age.as_str());
    let ghost first = evaluated@;
    let mut out = one(evaluated);
    let mut min_idle = "min_idle  ".to_owned();
    push_decimal(&mut min_idle, engine.policy.min_idle.as_secs() as u128);
    min_idle.append("s");
    let ghost second = min_idle@;
    push_line(&mut out, min_idle);
    push_line(&mut out, "".to_owned());
    let ghost head = views(out@);
    assert(head =~= seq![first, second, ""@]);
    let all = Action::ALL;
    let mut i: usize = 0;
    assert(head + asked_rows(*engine, *decision, only, 0) =~= head);
    while i < 4
        invariant
            i <= 4,
            all@ == Action::ALL@,
            all@.len() == 4,
            views(out@) == head + asked_rows(*engine, *decision, only, i as int),
        decreases 4 - i,
    {
        let action = all[i];
        let skip = match only {
            Some(wanted) => wanted != action,
            None => false,
        };
        if !skip {
            let ghost before = asked_rows(*engine, *decision, only, i as int);
            let ghost rows = action_rows(*engine, *decision, action);
            extend(&mut out, explain_action(engine, decision, action));
            extend(&mut out, one("".to_owned()));
            assert(head + before + rows + seq![""@] =~= head + (before + rows + seq![""@]));
        }
        i += 1;
    }
    assert(views(out@) == seq![
        "evaluated "@ + (match engine.last_eval {
            Some(at) => ago_text(whole_secs(between(at, decision.now))),
            None => "never"@,
        }),
        "min_idle  "@ + decimal(whole_secs(engine.policy.min_idle)) + "s"@,
        ""@,
    ] + asked_rows(*engine, *decision, only, 4));
    unlines(&out)
}

} // verus!
