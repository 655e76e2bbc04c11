//! What is shown of the machine and of a decision, and what the kernel's own words for a process
//! stand for.
use vstd::prelude::*;

use crate::action::Action;
use crate::block::{Block, BlockId, BlockKind, Condition};
use crate::clock::{Clock, ClockOrigin};
use crate::config::listing::{block_rows, timeout_rows, Style};
use crate::config::timeout::formatted;
use crate::course::is_read;
use crate::decision::{
    blocks_at, ActionResolution, Decision, ImplicitFloor, Reason,
};
use crate::doctor::{
    in_order_here, presence_text, reports_action, reports_fact, reports_lease, ActionReport,
    FactReport, LeaseReport,
};
use crate::engine::Engine;
use crate::fact::{FactId, FactState};
use crate::leases::{lease_text, lease_texts, summarises, Lease};
use crate::names::{before, in_order, lists, sorted};
use crate::policy::{lemma_filter_members, takes_part, Policy};
use crate::process::{process_name, spaced, stat_ppid, stat_starttime, Process};
use crate::report::{
    action_rows, asked_rows, blocks_on, blocks_setting, condition_in, contribution_text,
    floor_text, held_rows, human_text, origin_in, reason_for, when_text, why_text, won_by_texts,
};
use crate::spelling::{
    fields_are_what_a_separator_parts, lacks, lemma_last_index_at, numbers_read_back, one_word,
    the_last_part_follows_the_last_separator, words_are_what_white_space_parts,
};
use crate::text::{decimal, is_space, joined, padded, words};
use crate::time::{
    between, deadline_text, due, earlier, later, seconds, sooner, whole_secs, BootInstant, Deadline,
    Duration,
};

verus! {

// ---- spans and instants in words ------------------------------------------------------

/// A span is told in seconds up to a minute, in minutes and seconds up to an hour, and else in hours
/// and minutes, never rounded up.
pub proof fn a_span_is_told_at_a_glance(hours: nat, minutes: nat, secs: nat)
    requires
        minutes < 60,
        secs < 60,
    ensures
        ({
            let all = 3_600 * hours + 60 * minutes + secs;
            let low_secs = if secs < 10 {
                "0"@ + decimal(secs)
            } else {
                decimal(secs)
            };
            let low_minutes = if minutes < 10 {
                "0"@ + decimal(minutes)
            } else {
                decimal(minutes)
            };
            &&& hours == 0 && minutes == 0 ==> human_text(all) == decimal(secs) + "s"@
            &&& hours == 0 && minutes > 0 ==> human_text(all) == decimal(minutes) + "m"@ + low_secs
                + "s"@
            &&& hours > 0 ==> human_text(all) == decimal(hours) + "h"@ + low_minutes + "m"@
        }),
{
    let all = 3_600 * hours + 60 * minutes + secs;
    assert(all / 3_600 == hours);
    assert(all % 3_600 / 60 == minutes);
    assert(hours == 0 ==> all / 60 == minutes && all % 60 == secs);
}

/// What is due is shown as due; what is to come is shown with what is left, in whole seconds; anything
/// else never comes.
pub proof fn what_is_to_come_is_shown_with_what_is_left(
    resolution: ActionResolution,
    now: BootInstant,
    secs: u64,
)
    ensures
        resolution.due ==> when_text(resolution, now) == "DUE"@,
        !resolution.due && resolution.deadline == Deadline::Never ==> when_text(resolution, now)
            == "never"@,
        !resolution.due ==> (resolution.deadline matches Deadline::At(at) ==> (secs * 1_000_000_000
            <= at.nanos - now.nanos < secs * 1_000_000_000 + 1_000_000_000 && at.nanos > now.nanos
            ==> when_text(resolution, now) == "in "@ + human_text(secs as nat))),
{
    if let Deadline::At(at) = resolution.deadline {
        if secs * 1_000_000_000 <= at.nanos - now.nanos < secs * 1_000_000_000 + 1_000_000_000
            && at.nanos > now.nanos {
            let left: u128 = (at.nanos - now.nanos) as u128;
            assert(left / 1_000_000_000 == secs);
        }
    }
}

// ---- a decision -----------------------------------------------------------------------

/// What is told of a condition is what was read of its fact; one that always holds is true, and one
/// whose fact was not read is not available.
pub proof fn a_condition_is_told_as_its_fact_was_read(engine: Engine, fact: FactId)
    ensures
        condition_in(engine.readings@, Condition::Always) == FactState::True,
        engine.readings@.contains_key(fact) ==> condition_in(
            engine.readings@,
            Condition::Fact(fact),
        ) == engine.readings@[fact].state,
        !engine.readings@.contains_key(fact) ==> condition_in(
            engine.readings@,
            Condition::Fact(fact),
        ) == FactState::Unavailable,
{
}

/// The clock of a block is told as having started where it did.
pub proof fn a_clock_is_told_from_where_it_started(engine: Engine, block: Block)
    ensures
        block.clock == Clock::HumanInput ==> origin_in(engine, block) == engine.clocks.human_input,
        block.clock == Clock::Resume ==> origin_in(engine, block) == engine.clocks.resume,
        block.clock == Clock::Boot ==> (origin_in(engine, block) matches ClockOrigin::At(t) && t.nanos
            == 0),
        block.clock == Clock::ConditionEdge ==> match engine.edges.at(block.id) {
            Some(t) => origin_in(engine, block) == ClockOrigin::At(t),
            None => origin_in(engine, block) == ClockOrigin::At(engine.clocks.now),
        },
{
}

/// What is told of a block is the first of the reasons that is its own, and nothing where none is.
pub proof fn a_block_is_told_by_its_own_reason(reasons: Seq<Reason>, id: BlockId)
    ensures
        match reason_for(reasons, id) {
            Some(reason) => exists|i: int|
                #![trigger reasons[i]]
                0 <= i < reasons.len() && reasons[i] == reason && reason.block == id && (forall|
                    j: int,
                |
                    0 <= j < i ==> (#[trigger] reasons[j]).block != id),
            None => forall|i: int| 0 <= i < reasons.len() ==> (#[trigger] reasons[i]).block != id,
        },
    decreases reasons.len(),
{
    if reasons.len() > 0 {
        let fewer = reasons.drop_last();
        a_block_is_told_by_its_own_reason(fewer, id);
        assert forall|i: int| 0 <= i < fewer.len() implies #[trigger] fewer[i] == reasons[i] by {}
        assert(reasons[reasons.len() - 1] == reasons.last());
        match reason_for(fewer, id) {
            Some(reason) => {
                let i = choose|i: int|
                    #![trigger fewer[i]]
                    0 <= i < fewer.len() && fewer[i] == reason && reason.block == id && (forall|
                        j: int,
                    |
                        0 <= j < i ==> (#[trigger] fewer[j]).block != id);
                assert(reasons[i] == reason);
                assert forall|j: int| 0 <= j < i implies (#[trigger] reasons[j]).block != id by {
                    assert(fewer[j].block != id);
                }
            },
            None => {
                assert forall|i: int| 0 <= i < fewer.len() implies (#[trigger] reasons[i]).block
                    != id by {
                    assert(fewer[i].block != id);
                }
            },
        }
    }
}

/// What holds an action back is told in full: each block that holds it the longest, and then each fact
/// in doubt and each fault.
pub proof fn everything_that_holds_back_is_told(resolution: ActionResolution, i: int)
    ensures
        ({
            let holding = blocks_at(resolution.reasons@, BlockKind::While, resolution.floor);
            let told = won_by_texts(resolution);
            &&& told.len() == holding.len() + resolution.implicit_floors@.len()
            &&& 0 <= i < holding.len() ==> told[i] == holding[i].text()
            &&& 0 <= i < resolution.implicit_floors@.len() ==> told[holding.len() + i] == (
            match resolution.implicit_floors@[i] {
                ImplicitFloor::Doubt(fact) => "doubt about "@ + fact.text(),
                ImplicitFloor::ConfigFault(_) => "a configuration fault"@,
            })
        }),
{
}

/// The sleeps that are told of as held back are those that are due, from the shallowest to the deepest,
/// and never the panel.
pub proof fn the_sleeps_held_back_are_those_due(d: Decision, i: int)
    ensures
        held_rows(d, 4).len() == (if d.suspend.due {
            1int
        } else {
            0
        }) + (if d.hibernate.due {
            1int
        } else {
            0
        }) + (if d.poweroff.due {
            1int
        } else {
            0
        }),
        0 <= i < held_rows(d, 4).len() ==> {
            let action = held_rows(d, 4)[i].0;
            ||| action == Action::Suspend && d.suspend.due && i == 0
            ||| action == Action::Hibernate && d.hibernate.due && i == (if d.suspend.due {
                1int
            } else {
                0
            })
            ||| action == Action::PowerOff && d.poweroff.due && i == held_rows(d, 4).len() - 1
        },
{
    reveal_with_fuel(held_rows, 5);
    assert(Action::ALL@[0] == Action::ScreenOff);
    assert(Action::ALL@[1] == Action::Suspend);
    assert(Action::ALL@[2] == Action::Hibernate);
    assert(Action::ALL@[3] == Action::PowerOff);
}

/// A further block is told of as setting an action where it says anything of that action, and as on a
/// fact where that is its condition.
pub proof fn blocks_are_told_of_where_they_matter(
    blocks: Seq<Block>,
    more: Block,
    fact: FactId,
)
    ensures
        blocks_on(blocks.push(more), fact) == (if more.id.condition == Condition::Fact(fact) {
            blocks_on(blocks, fact).push(more.id.text())
        } else {
            blocks_on(blocks, fact)
        }),
        blocks_setting(blocks.push(more), Action::ScreenOff) == (if more.timeouts.screen_off
            is Some {
            blocks_setting(blocks, Action::ScreenOff).push(more.id.text())
        } else {
            blocks_setting(blocks, Action::ScreenOff)
        }),
        blocks_setting(blocks.push(more), Action::Suspend) == (if more.timeouts.suspend is Some {
            blocks_setting(blocks, Action::Suspend).push(more.id.text())
        } else {
            blocks_setting(blocks, Action::Suspend)
        }),
        blocks_setting(blocks.push(more), Action::Hibernate) == (if more.timeouts.hibernate
            is Some {
            blocks_setting(blocks, Action::Hibernate).push(more.id.text())
        } else {
            blocks_setting(blocks, Action::Hibernate)
        }),
        blocks_setting(blocks.push(more), Action::PowerOff) == (if more.timeouts.poweroff is Some {
            blocks_setting(blocks, Action::PowerOff).push(more.id.text())
        } else {
            blocks_setting(blocks, Action::PowerOff)
        }),
{
    assert(blocks.push(more).drop_last() =~= blocks);
}

// ---- the machine ----------------------------------------------------------------------

/// Everything is in order exactly where the configuration has no fault, the machine has been looked
/// at, no fact that is read is in doubt, no ceiling is switched on, and nothing else claims the
/// machine.
pub proof fn everything_is_in_order_where_nothing_is_amiss(engine: Engine, conflicts: nat)
    ensures
        in_order_here(engine, conflicts) <==> {
            &&& engine.faults@.len() == 0
            &&& engine.last_eval is Some
            &&& conflicts == 0
            &&& forall|f: FactId|
                is_read(engine.policy, f) && #[trigger] engine.readings@.contains_key(f)
                    ==> engine.readings@[f].state != FactState::Indeterminate
            &&& forall|i: int|
                0 <= i < engine.policy.blocks@.len() ==> !((
                #[trigger] engine.policy.blocks@[i]).enabled && engine.policy.blocks@[i].id.kind
                    == BlockKind::When)
        },
{
    let blocks = engine.policy.blocks@;
    let part = takes_part(BlockKind::When);
    let ceilings = blocks.filter(part);
    let calm = forall|i: int|
        0 <= i < blocks.len() ==> !((#[trigger] blocks[i]).enabled && blocks[i].id.kind
            == BlockKind::When);
    if ceilings.len() == 0 {
        assert forall|i: int| 0 <= i < blocks.len() implies !((#[trigger] blocks[i]).enabled
            && blocks[i].id.kind == BlockKind::When) by {
            lemma_filter_members(blocks, part, blocks[i]);
            assert(blocks.contains(blocks[i]));
        }
    } else {
        lemma_filter_members(blocks, part, ceilings[0]);
        assert(ceilings.contains(ceilings[0]));
        let i = choose|i: int| 0 <= i < blocks.len() && blocks[i] == ceilings[0];
        assert(blocks[i].enabled && blocks[i].id.kind == BlockKind::When);
    }
    assert(calm <==> ceilings.len() == 0);
    let sure = forall|f: FactId|
        is_read(engine.policy, f) && #[trigger] engine.readings@.contains_key(f)
            ==> engine.readings@[f].state != FactState::Indeterminate;
    if sure {
        assert forall|f: FactId| !#[trigger] crate::doctor::doubtful(engine, f) by {
            assert(engine.readings@.contains_key(f) || !engine.readings@.contains_key(f));
        }
    }
    if !(exists|f: FactId| #[trigger] crate::doctor::doubtful(engine, f)) {
        assert forall|f: FactId|
            is_read(engine.policy, f) && #[trigger] engine.readings@.contains_key(
                f,
            ) implies engine.readings@[f].state != FactState::Indeterminate by {
            assert(!crate::doctor::doubtful(engine, f));
        }
    }
}

/// What is reported of an action is what is decided of it: whether it is due, its deadline, floor and
/// ceiling in microseconds, and what is left until it in whole seconds. Only the panel can be out of
/// reach.
pub proof fn an_action_is_reported_as_decided(
    r: ActionReport,
    engine: Engine,
    action: Action,
    now: BootInstant,
    d: Decision,
    resolution: ActionResolution,
)
    requires
        reports_action(r, engine, action, now),
        engine.decision == Some(d),
        ({
            ||| action == Action::ScreenOff && resolution == d.screen_off
            ||| action == Action::Suspend && resolution == d.suspend
            ||| action == Action::Hibernate && resolution == d.hibernate
            ||| action == Action::PowerOff && resolution == d.poweroff
        }),
    ensures
        r.due == resolution.due,
        r.available <==> action == Action::Suspend || action == Action::Hibernate || action
            == Action::PowerOff || engine.screen_off_available,
        resolution.deadline == Deadline::Never ==> r.deadline_usec == u64::MAX && r.remaining_secs
            is None,
        resolution.deadline matches Deadline::At(at) ==> {
            &&& r.deadline_usec == at.nanos / 1_000
            &&& at.nanos <= now.nanos ==> r.remaining_secs is None
            &&& at.nanos > now.nanos ==> (r.remaining_secs matches Some(secs) && secs * 1_000_000_000
                <= at.nanos - now.nanos < secs * 1_000_000_000 + 1_000_000_000)
        },
        resolution.floor matches Deadline::At(at) ==> r.floor_usec == at.nanos / 1_000,
        resolution.floor == Deadline::Never ==> r.floor_usec == u64::MAX,
        resolution.ceiling matches Deadline::At(at) ==> r.ceiling_usec == at.nanos / 1_000,
        resolution.ceiling == Deadline::Never ==> r.ceiling_usec == u64::MAX,
{
}

/// A fact is reported as it was read, and whether it is; a lease with who holds it, why and until when.
pub proof fn facts_and_leases_are_reported_as_they_are(
    r: FactReport,
    engine: Engine,
    fact: FactId,
    l: LeaseReport,
    lease: Lease,
)
    requires
        reports_fact(r, engine, fact),
        reports_lease(l, lease),
    ensures
        r.name@ == fact.text(),
        r.enabled <==> is_read(engine.policy, fact),
        engine.readings@.contains_key(fact) ==> r.state@ == engine.readings@[fact].state.text()
            && r.detail@ == engine.readings@[fact].detail@,
        !engine.readings@.contains_key(fact) ==> r.state@ == "unavailable"@ && r.detail@.len() == 0,
        l.who@ == lease.who@,
        l.why@ == lease.why@,
        l.uid == lease.uid,
        l.expires_usec * 1_000 <= lease.expires.nanos < l.expires_usec * 1_000 + 1_000,
{
}

// ---- the kernel's words for a process -------------------------------------------------

/// A process is called by the last part of its first argument, and where it has none by what the
/// kernel calls it.
pub proof fn a_process_is_named_by_its_first_argument(
    p: Process,
    dir: Seq<char>,
    file: Seq<char>,
    rest: Seq<char>,
)
    requires
        lacks(dir, ' '),
        lacks(file, ' '),
        lacks(file, '/'),
        file.len() > 0,
    ensures
        p.cmdline@ == dir + seq!['/'] + file ==> process_name(p) == file,
        p.cmdline@ == dir + seq!['/'] + file + seq![' '] + rest ==> process_name(p) == file,
        p.cmdline@ == file ==> process_name(p) == file,
        p.cmdline@ == file + seq![' '] + rest ==> process_name(p) == file,
        p.cmdline@.len() == 0 ==> process_name(p) == p.comm@,
{
    let path = dir + seq!['/'] + file;
    assert forall|i: int| 0 <= i < path.len() implies #[trigger] path[i] != ' ' by {
        if i < dir.len() {
            assert(path[i] == dir[i]);
        } else if i > dir.len() {
            assert(path[i] == file[i - dir.len() - 1]);
        }
    }
    fields_are_what_a_separator_parts(path, ' ', rest);
    fields_are_what_a_separator_parts(file, ' ', rest);
    if p.cmdline@.len() == 0 {
        fields_are_what_a_separator_parts(p.cmdline@, ' ', rest);
    }
    the_last_part_follows_the_last_separator(dir, '/', file);
}

/// Each zero character of a text becomes a space, and every other one stays.
pub proof fn zero_characters_become_spaces(s: Seq<char>, i: int)
    requires
        0 <= i < s.len(),
    ensures
        spaced(s).len() == s.len(),
        s[i] == '\0' ==> spaced(s)[i] == ' ',
        s[i] != '\0' ==> spaced(s)[i] == s[i],
{
}

/// Words with a space between each two, and one in front of each.
pub open spec fn spelled_out(parts: Seq<Seq<char>>) -> Seq<char>
    decreases parts.len(),
{
    if parts.len() == 0 {
        Seq::empty()
    } else {
        seq![' '] + parts[0] + spelled_out(parts.skip(1))
    }
}

proof fn lemma_spelled_out(parts: Seq<Seq<char>>)
    requires
        forall|i: int| 0 <= i < parts.len() ==> one_word(#[trigger] parts[i]),
    ensures
        words(spelled_out(parts)) == parts,
    decreases parts.len(),
{
    assert(is_space(' '));
    if parts.len() == 0 {
        words_are_what_white_space_parts(seq!['a'], ' ', Seq::empty());
        assert(words(spelled_out(parts)) =~= parts);
    } else {
        let first = parts[0];
        let rest = parts.skip(1);
        let tail = spelled_out(rest);
        assert(one_word(first));
        assert forall|i: int| 0 <= i < rest.len() implies one_word(#[trigger] rest[i]) by {
            assert(rest[i] == parts[i + 1]);
        }
        lemma_spelled_out(rest);
        let s = spelled_out(parts);
        assert(s =~= seq![' '] + (first + tail));
        words_are_what_white_space_parts(first, ' ', first + tail);
        if rest.len() == 0 {
            assert(first + tail =~= first);
            assert(seq![first] =~= parts);
        } else {
            let more = rest[0] + spelled_out(rest.skip(1));
            assert(tail =~= seq![' '] + more);
            assert(first + tail =~= first + seq![' '] + more);
            words_are_what_white_space_parts(first, ' ', more);
            assert(words(tail) == words(more));
            assert(seq![first] + rest =~= parts);
        }
    }
}

/// The line that the kernel has of a process tells its parent as the second word behind the name, and
/// when it started as the twentieth. The name stands in parentheses and may hold anything, parentheses
/// too.
pub proof fn the_parent_and_the_start_stand_behind_the_name(
    head: Seq<char>,
    parts: Seq<Seq<char>>,
    ppid: u32,
    start: u64,
)
    requires
        forall|i: int| 0 <= i < parts.len() ==> one_word(#[trigger] parts[i]),
        lacks(spelled_out(parts), ')'),
    ensures
        parts.len() > 1 && parts[1] == decimal(ppid as nat) ==> stat_ppid(
            head + seq![')'] + spelled_out(parts),
        ) == Some(ppid as nat),
        parts.len() > 19 && parts[19] == decimal(start as nat) ==> stat_starttime(
            head + seq![')'] + spelled_out(parts),
        ) == Some(start as nat),
        parts.len() <= 1 ==> stat_ppid(head + seq![')'] + spelled_out(parts)) is None,
        parts.len() <= 19 ==> stat_starttime(head + seq![')'] + spelled_out(parts)) is None,
        stat_ppid(spelled_out(parts)) is None,
        stat_starttime(spelled_out(parts)) is None,
{
    let rest = spelled_out(parts);
    lemma_spelled_out(parts);
    lemma_last_index_at(head, ')', rest);
    the_last_part_follows_the_last_separator(head, ')', rest);
    numbers_read_back(ppid as nat, u32::MAX as nat, Seq::empty());
    numbers_read_back(start as nat, u64::MAX as nat, Seq::empty());
}

// ---- explanations and listings --------------------------------------------------------

/// An explanation that is asked for one action tells of that action alone, and one that is asked for
/// none in particular of all four, from the shallowest to the deepest.
pub proof fn an_explanation_tells_of_what_is_asked(engine: Engine, d: Decision, wanted: Action)
    ensures
        asked_rows(engine, d, Some(wanted), 4) == action_rows(engine, d, wanted) + seq![""@],
        asked_rows(engine, d, None, 4) == action_rows(engine, d, Action::ScreenOff) + seq![""@]
            + action_rows(engine, d, Action::Suspend) + seq![""@] + action_rows(
            engine,
            d,
            Action::Hibernate,
        ) + seq![""@] + action_rows(engine, d, Action::PowerOff) + seq![""@],
{
    reveal_with_fuel(asked_rows, 5);
    assert(Action::ALL@[0] == Action::ScreenOff);
    assert(Action::ALL@[1] == Action::Suspend);
    assert(Action::ALL@[2] == Action::Hibernate);
    assert(Action::ALL@[3] == Action::PowerOff);
    let a = action_rows(engine, d, Action::ScreenOff);
    let none = Seq::<Seq<char>>::empty();
    assert(none + a =~= a);
    assert(none + action_rows(engine, d, wanted) =~= action_rows(engine, d, wanted));
    assert(asked_rows(engine, d, None, 4) =~= action_rows(engine, d, Action::ScreenOff) + seq![""@]
        + action_rows(engine, d, Action::Suspend) + seq![""@] + action_rows(
        engine,
        d,
        Action::Hibernate,
    ) + seq![""@] + action_rows(engine, d, Action::PowerOff) + seq![""@]);
}

/// A listing tells each timeout of a block that is set under the name of its action, from the
/// shallowest to the deepest, and says where the block takes no part.
pub proof fn a_listing_tells_each_timeout_by_its_action(style: Style, block: Block)
    ensures
        ({
            let rows = block_rows(style, block);
            let a: int = if block.timeouts.screen_off is Some { 1 } else { 0 };
            let b: int = if block.timeouts.suspend is Some { 1 } else { 0 };
            let c: int = if block.timeouts.hibernate is Some { 1 } else { 0 };
            let d: int = if block.timeouts.poweroff is Some { 1 } else { 0 };
            &&& rows.len() == 1 + a + b + c + d
            &&& block.enabled ==> rows[0] == style.before + block.id.text() + style.between
                + block.clock.text() + ""@
            &&& !block.enabled ==> rows[0] == style.before + block.id.text() + style.between
                + block.clock.text() + style.disabled
            &&& block.timeouts.screen_off matches Some(t) ==> rows[1] == style.indent + padded(
                "screen_off"@,
                11,
            ) + " "@ + formatted(t)
            &&& block.timeouts.suspend matches Some(t) ==> rows[1 + a] == style.indent + padded(
                "suspend"@,
                11,
            ) + " "@ + formatted(t)
            &&& block.timeouts.hibernate matches Some(t) ==> rows[1 + a + b] == style.indent
                + padded("hibernate"@, 11) + " "@ + formatted(t)
            &&& block.timeouts.poweroff matches Some(t) ==> rows[1 + a + b + c] == style.indent
                + padded("poweroff"@, 11) + " "@ + formatted(t)
        }),
{
    reveal_with_fuel(timeout_rows, 5);
    assert(Action::ALL@[0] == Action::ScreenOff);
    assert(Action::ALL@[1] == Action::Suspend);
    assert(Action::ALL@[2] == Action::Hibernate);
    assert(Action::ALL@[3] == Action::PowerOff);
    assert(block.timeouts.of(Action::ScreenOff) == block.timeouts.screen_off);
    assert(block.timeouts.of(Action::Suspend) == block.timeouts.suspend);
    assert(block.timeouts.of(Action::Hibernate) == block.timeouts.hibernate);
    assert(block.timeouts.of(Action::PowerOff) == block.timeouts.poweroff);
}

/// Instants and spans between them are counted in nanoseconds: a span after an instant is one later by
/// it, unless that cannot be counted; before it one earlier by it, or boot; and no span is negative.
/// A deadline is told in whole seconds since boot.
pub proof fn instants_are_counted_in_nanoseconds(
    a: BootInstant,
    b: BootInstant,
    span: Duration,
    secs: u64,
)
    ensures
        a.nanos + span.nanos <= u64::MAX ==> (later(a, span) matches Some(t) && t.nanos == a.nanos
            + span.nanos),
        a.nanos + span.nanos > u64::MAX ==> later(a, span) is None,
        span.nanos <= a.nanos ==> earlier(a, span).nanos == a.nanos - span.nanos,
        span.nanos > a.nanos ==> earlier(a, span).nanos == 0,
        a.nanos <= b.nanos ==> between(a, b).nanos == b.nanos - a.nanos,
        a.nanos > b.nanos ==> between(a, b).nanos == 0,
        span.nanos <= u64::MAX ==> whole_secs(span) * 1_000_000_000 <= span.nanos < whole_secs(span)
            * 1_000_000_000 + 1_000_000_000,
        seconds(secs).nanos == secs * 1_000_000_000,
        deadline_text(Deadline::Never) == "never"@,
        secs * 1_000_000_000 <= a.nanos < secs * 1_000_000_000 + 1_000_000_000 ==> deadline_text(
            Deadline::At(a),
        ) == "boottime+"@ + decimal(secs as nat) + "s"@,
        due(Deadline::At(a), b) <==> a.nanos <= b.nanos,
        !due(Deadline::Never, b),
{
    if secs * 1_000_000_000 <= a.nanos < secs * 1_000_000_000 + 1_000_000_000 {
        assert(a.nanos / 1_000_000_000 == secs);
    }
}

/// Names are ordered by the first character in which they differ, and a name comes before every longer
/// one that starts with it.
pub proof fn names_are_ordered_by_their_first_difference(
    common: Seq<char>,
    x: char,
    y: char,
    a: Seq<char>,
    b: Seq<char>,
)
    ensures
        x < y ==> before(common + (seq![x] + a), common + (seq![y] + b)),
        y < x ==> !before(common + (seq![x] + a), common + (seq![y] + b)),
        before(common, common + (seq![x] + a)),
        !before(common + (seq![x] + a), common),
    decreases common.len(),
{
    let left = common + (seq![x] + a);
    let right = common + (seq![y] + b);
    if common.len() > 0 {
        let rest = common.skip(1);
        names_are_ordered_by_their_first_difference(rest, x, y, a, b);
        assert(left.skip(1) =~= rest + (seq![x] + a));
        assert(right.skip(1) =~= rest + (seq![y] + b));
        assert(left[0] == common[0] && right[0] == common[0]);
    } else {
        assert(left =~= seq![x] + a);
        assert(right =~= seq![y] + b);
        assert(left[0] == x && right[0] == y);
    }
}

// ---- words ----------------------------------------------------------------------------

/// Somebody being there is told apart from nobody being there, and both from not knowing. Nobody ever
/// having been there is told as such.
pub proof fn presence_is_told_in_three_cases(origin: ClockOrigin)
    ensures
        presence_text(FactState::True, origin)
            == "case 1: a human touched an input device within min_idle"@,
        presence_text(FactState::Indeterminate, origin)
            == "case 3: THE IDLE CLOCK IS UNREADABLE -- the agent is absent, stale, or its protocol is erroring"@,
        presence_text(FactState::False, ClockOrigin::NotYet)
            == "case 2: nothing has been touched this boot; the input path is healthy"@,
        origin != ClockOrigin::NotYet ==> presence_text(FactState::False, origin)
            == "case 2: no input within min_idle; the input path is healthy"@,
{
}

/// What a block contributed is told as its deadline, as now where a request stood in for it, and as
/// nothing where it contributed nothing.
pub proof fn a_contribution_is_told_as_it_was_made(reason: Reason)
    ensures
        contribution_text(None) == " -> contributes nothing"@,
        reason.satisfied_by_request ==> contribution_text(Some(reason))
            == " -> now (satisfied by the request)"@,
        !reason.satisfied_by_request ==> contribution_text(Some(reason)) == " -> "@ + deadline_text(
            reason.deadline,
        ),
{
}

/// Why an action is due is told by the ceilings where one comes before the floor, by the blocks whose
/// floor lifted last where there are any, and else by there being none.
pub proof fn why_an_action_is_due_is_told_by_what_decided_it(
    d: Decision,
    policy: Policy,
    floor: BootInstant,
    ceiling: BootInstant,
)
    ensures
        d.suspend.floor == Deadline::At(floor) && d.suspend.ceiling == Deadline::At(ceiling)
            && ceiling.nanos < floor.nanos ==> "ceiling "@.is_prefix_of(
            why_text(d, Action::Suspend, policy),
        ),
        d.suspend.floor == Deadline::Never && d.suspend.ceiling == Deadline::At(ceiling)
            ==> "ceiling "@.is_prefix_of(why_text(d, Action::Suspend, policy)),
        d.suspend.ceiling == Deadline::Never && d.suspend.reasons@.len() == 0 ==> why_text(
            d,
            Action::Suspend,
            policy,
        ) == "no block sets a floor for this action"@,
{
    let text = why_text(d, Action::Suspend, policy);
    if sooner(d.suspend.ceiling, d.suspend.floor) {
        assert(text.subrange(0, "ceiling "@.len() as int) =~= "ceiling "@);
    }
}

/// Where one lease is held the summary is that lease in words, and where none is there is none.
pub proof fn a_single_lease_is_the_whole_summary(
    summary: Option<Seq<char>>,
    leases: Map<Seq<char>, Lease>,
    name: Seq<char>,
)
    requires
        summarises(summary, leases),
        lists(in_order(leases.dom()), leases.dom()),
        leases.dom() == set![name],
    ensures
        summary == Some("held by "@ + lease_text(leases[name])),
{
    let names = in_order(leases.dom());
    assert(leases.dom().contains(name));
    assert(names.contains(name));
    assert forall|i: int| 0 <= i < names.len() implies names[i] == name by {
        assert(names.contains(names[i]));
        assert(leases.dom().contains(names[i]));
    }
    if names.len() > 1 {
        assert(before(names[0], names[1]));
        crate::names::lemma_before_is_strict(name);
    }
    assert(names.len() == 1);
    let texts = lease_texts(leases, names);
    assert(names.drop_last().len() == 0);
    assert(names.last() == name);
    assert(lease_texts(leases, names.drop_last()) =~= Seq::empty());
    assert(texts =~= seq![lease_text(leases[name])]);
    let text = summary->Some_0;
    let parts = choose|parts: Seq<Seq<char>>| #[trigger]
        sorted(parts) && parts.to_multiset() == texts.to_multiset() && text == "held by "@ + joined(
            parts,
            ", "@,
        );
    parts.to_multiset_ensures();
    texts.to_multiset_ensures();
    assert(parts.len() == 1);
    assert(texts.to_multiset().contains(texts[0]));
    assert(parts.to_multiset().contains(parts[0]));
    assert(texts.contains(parts[0]));
    assert(parts[0] == lease_text(leases[name]));
}

/// A fault and a fact in doubt are told by name, each in its line, among what holds an action back.
pub proof fn doubts_and_faults_are_told_by_name(fact: FactId, index: usize, policy: Policy)
    ensures
        floor_text(ImplicitFloor::Doubt(fact), policy) == "doubt about "@ + fact.text(),
        index < policy.faults@.len() && policy.faults@[index as int].location@.len() > 0
            ==> floor_text(ImplicitFloor::ConfigFault(index), policy)
            == "the configuration fault in "@ + policy.faults@[index as int].source@ + " ("@
            + policy.faults@[index as int].location@ + ")"@,
        index < policy.faults@.len() && policy.faults@[index as int].location@.len() == 0
            ==> floor_text(ImplicitFloor::ConfigFault(index), policy)
            == "the configuration fault in "@ + policy.faults@[index as int].source@ + " ("@
            + "whole file"@ + ")"@,
{
}

} // verus!
