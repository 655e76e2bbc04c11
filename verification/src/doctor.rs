//! What works here, what does not, and what else claims the machine.
use vstd::prelude::*;
use vstd::string::StringExecFns;

use crate::action::Action;
use crate::agents::Agent;
use crate::block::{Block, BlockKind};
use crate::clock::ClockOrigin;
use crate::config::error::{complaint_text, complaints, problem_text, ConfigError};
use crate::engine::{Engine, Forced};
use crate::fact::{FactId, FactState};
use crate::leases::Lease;
use crate::lines::{extend, label_all, labelled, none, one, only_if, push_line, unlined, unlines};
use crate::manager::{deadline_usec, state_in, state_of, usec_of};
use crate::names::in_order;
use crate::policy::takes_part;
use crate::reading::{ago, ago_text};
use crate::report::{blocks_on, detail_in, find_on, human, human_text, won_by, won_by_texts};
use crate::text::{decimal, join, joined, padded, push_decimal, push_padded, views};
use crate::time::{between, whole_secs, BootInstant, Deadline};

verus! {

// ---- the configuration ----------------------------------------------------------------

/// What is wrong with the configuration, in words.
pub open spec fn fault_texts(faults: Seq<ConfigError>) -> Seq<Seq<char>> {
    complaints(faults).map_values(|c: crate::config::error::Complaint| complaint_text(c))
}

/// What is wrong with the configuration, in words.
pub fn fault_names(faults: &Vec<ConfigError>) -> (r: Vec<String>)
    ensures
        views(r@) == fault_texts(faults@),
{
    let ghost wanted = fault_texts(faults@);
    let mut out = none();
    let mut i: usize = 0;
    assert(wanted.take(0) =~= Seq::empty());
    while i < faults.len()
        invariant
            i <= faults@.len(),
            wanted == fault_texts(faults@),
            views(out@) == wanted.take(i as int),
        decreases faults@.len() - i,
    {
        let text = faults[i].to_string();
        assert(wanted[i as int] == text@);
        assert(wanted.take(i as int + 1) =~= wanted.take(i as int).push(text@));
        push_line(&mut out, text);
        i += 1;
    }
    assert(wanted.take(i as int) =~= wanted);
    out
}

/// What is said of the configuration.
pub open spec fn configuration_rows(engine: Engine) -> Seq<Seq<char>> {
    seq!["configuration"@] + labelled("  layer     "@, views(engine.layers@)) + labelled(
        "  FAULT     "@,
        fault_texts(engine.faults@),
    ) + only_if(
        engine.faults@.len() > 0,
        seq![
            "  Suspend, hibernate and poweroff are held at `never` until this is fixed."@,
            "  screen_off is deliberately unaffected: a typo must not be able to burn a panel."@,
        ],
    ) + labelled("  warning   "@, views(engine.warnings@))
}

fn configuration(engine: &Engine) -> (r: Vec<String>)
    ensures
        views(r@) == configuration_rows(*engine),
{
    let mut out = one("configuration".to_owned());
    extend(&mut out, label_all("  layer     ", &engine.layers));
    let faults = fault_names(&engine.faults);
    extend(&mut out, label_all("  FAULT     ", &faults));
    if engine.faults.len() > 0 {
        let mut held = one(
            "  Suspend, hibernate and poweroff are held at `never` until this is fixed.".to_owned(),
        );
        push_line(
            &mut held,
            "  screen_off is deliberately unaffected: a typo must not be able to burn a panel.".to_owned(),
        );
        assert(views(held@) =~= seq![
            "  Suspend, hibernate and poweroff are held at `never` until this is fixed."@,
            "  screen_off is deliberately unaffected: a typo must not be able to burn a panel."@,
        ]);
        extend(&mut out, held);
    } else {
        extend(&mut out, none());
    }
    extend(&mut out, label_all("  warning   ", &engine.warnings));
    out
}

// ---- the last look --------------------------------------------------------------------

/// What is said of the last look.
pub open spec fn evaluation_rows(engine: Engine, now: BootInstant) -> Seq<Seq<char>> {
    seq![
        ""@,
        "last evaluation  "@ + (match engine.last_eval {
            Some(at) => ago_text(whole_secs(between(at, now))),
            None => "NEVER -- the daemon has not evaluated once"@,
        }),
        "suspended total  "@ + human_text((engine.resume.seen / 1_000_000_000) as nat)
            + " this boot"@,
    ] + only_if(
        engine.dry_run,
        seq!["MODE             dry run: decisions are logged and never applied"@],
    )
}

fn evaluation(engine: &Engine, now: BootInstant) -> (r: Vec<String>)
    ensures
        views(r@) == evaluation_rows(*engine, now),
{
    let mut out = one("".to_owned());
    let mut last = "last evaluation  ".to_owned();
    let age = match engine.last_eval {
        Some(at) => ago(now.since(at)),
        None => "NEVER -- the daemon has not evaluated once".to_owned(),
    };
    last.append(age.as_str());
    push_line(&mut out, last);
    let mut total = "suspended total  ".to_owned();
    let span = human(engine.resume.suspended_total());
    total.append(span.as_str());
    total.append(" this boot");
    push_line(&mut out, total);
    assert(views(out@) =~= seq![
        ""@,
        "last evaluation  "@ + (match engine.last_eval {
            Some(at) => ago_text(whole_secs(between(at, now))),
            None => "NEVER -- the daemon has not evaluated once"@,
        }),
        "suspended total  "@ + human_text((engine.resume.seen / 1_000_000_000) as nat)
            + " this boot"@,
    ]);
    if engine.dry_run {
        extend(
            &mut out,
            one("MODE             dry run: decisions are logged and never applied".to_owned()),
        );
    } else {
        extend(&mut out, none());
    }
    out
}

// ---- the facts ------------------------------------------------------------------------

/// What is said of a fact.
pub open spec fn fact_rows_of(engine: Engine, fact: FactId) -> Seq<Seq<char>> {
    let enabled = engine.policy.reads(fact);
    let state = state_in(engine.readings@, fact);
    let detail = if engine.readings@.contains_key(fact) {
        engine.readings@[fact].detail@
    } else {
        "not sampled"@
    };
    let inert = blocks_on(engine.policy.blocks@, fact);
    seq![
        "  "@ + padded(fact.text(), 20) + " "@ + padded(state.text(), 14) + (if enabled {
            ""@
        } else {
            " [disabled]"@
        }) + " "@ + detail,
    ] + only_if(
        enabled && inert.len() > 0 && state == FactState::Indeterminate,
        seq!["  "@ + padded(""@, 20) + "   blocks made inert: "@ + joined(inert, ", "@)],
    ) + only_if(
        enabled && inert.len() > 0 && state == FactState::Unavailable,
        seq!["  "@ + padded(""@, 20) + "   inert blocks: "@ + joined(inert, ", "@)],
    )
}

fn inert_line(label: &str, inert: &Vec<String>) -> (r: String)
    ensures
        r@ == "  "@ + padded(""@, 20) + label@ + joined(views(inert@), ", "@),
{
    let mut line = "  ".to_owned();
    push_padded(&mut line, "", 20);
    line.append(label);
    let list = join(inert, ", ");
    line.append(list.as_str());
    line
}

fn fact_of(engine: &Engine, fact: FactId) -> (r: Vec<String>)
    ensures
        views(r@) == fact_rows_of(*engine, fact),
{
    let enabled = engine.policy.fact_enabled(fact);
    let state = state_of(&engine.readings, fact);
    let detail = match engine.readings.get(fact) {
        Some(reading) => reading.detail.clone(),
        None => "not sampled".to_owned(),
    };
    let mut line = "  ".to_owned();
    push_padded(&mut line, fact.name(), 20);
    line.append(" ");
    push_padded(&mut line, state.name(), 14);
    if enabled {
        line.append("");
    } else {
        line.append(" [disabled]");
    }
    line.append(" ");
    line.append(detail.as_str());
    let mut out = one(line);
    let inert = find_on(&engine.policy.blocks, fact);
    assert(views(inert@).len() == inert@.len());
    if enabled && inert.len() > 0 && state == FactState::Indeterminate {
        extend(&mut out, one(inert_line("   blocks made inert: ", &inert)));
    } else {
        extend(&mut out, none());
    }
    if enabled && inert.len() > 0 && state == FactState::Unavailable {
        extend(&mut out, one(inert_line("   inert blocks: ", &inert)));
    } else {
        extend(&mut out, none());
    }
    out
}

/// What is said of the first facts.
pub open spec fn first_fact_rows(engine: Engine, facts: int) -> Seq<Seq<char>>
    decreases facts,
{
    if facts <= 0 {
        Seq::empty()
    } else {
        first_fact_rows(engine, facts - 1) + fact_rows_of(engine, FactId::ALL@[facts - 1])
    }
}

/// Whether a fact is read and cannot be told.
pub open spec fn doubtful(engine: Engine, fact: FactId) -> bool {
    engine.policy.reads(fact) && state_in(engine.readings@, fact) == FactState::Indeterminate
}

fn facts(engine: &Engine) -> (r: (Vec<String>, bool))
    ensures
        views(r.0@) == seq![""@, "facts"@] + first_fact_rows(*engine, 11),
        r.1 == (exists|f: FactId| #[trigger] doubtful(*engine, f)),
{
    let mut out = one("".to_owned());
    push_line(&mut out, "facts".to_owned());
    let ghost head = views(out@);
    assert(head =~= seq![""@, "facts"@]);
    assert(head + first_fact_rows(*engine, 0) =~= head);
    let all = FactId::ALL;
    let mut doubt = false;
    let mut i: usize = 0;
    while i < 11
        invariant
            i <= 11,
            all@ == FactId::ALL@,
            all@.len() == 11,
            views(out@) == head + first_fact_rows(*engine, i as int),
            doubt == (exists|j: int| 0 <= j < i && doubtful(*engine, #[trigger] FactId::ALL@[j])),
        decreases 11 - i,
    {
        let fact = all[i];
        assert(FactId::ALL@[i as int] == fact);
        let ghost before = first_fact_rows(*engine, i as int);
        let rows = fact_of(engine, fact);
        extend(&mut out, rows);
        assert(head + before + views(rows@) =~= head + (before + views(rows@)));
        let unsure = engine.policy.fact_enabled(fact) && state_of(&engine.readings, fact)
            == FactState::Indeterminate;
        if unsure {
            assert(doubtful(*engine, FactId::ALL@[i as int]));
            doubt = true;
        }
        i += 1;
    }
    proof {
        crate::fact::lemma_all_facts();
        if exists|f: FactId| #[trigger] doubtful(*engine, f) {
            let f = choose|f: FactId| #[trigger] doubtful(*engine, f);
            assert(FactId::ALL@[f.rank()] == f);
            assert(doubtful(*engine, FactId::ALL@[f.rank()]));
        }
    }
    (out, doubt)
}

// ---- somebody there -------------------------------------------------------------------

/// Which of the three cases it is: somebody is there, nobody is, or it cannot be told.
pub open spec fn presence_text(state: FactState, origin: ClockOrigin) -> Seq<char> {
    match state {
        FactState::True => "case 1: a human touched an input device within min_idle"@,
        FactState::Indeterminate =>
            "case 3: THE IDLE CLOCK IS UNREADABLE -- the agent is absent, stale, or its protocol is erroring"@,
        _ => if origin == ClockOrigin::NotYet {
            "case 2: nothing has been touched this boot; the input path is healthy"@
        } else {
            "case 2: no input within min_idle; the input path is healthy"@
        },
    }
}

/// What is said of an agent.
pub open spec fn agent_row(name: Seq<char>, agent: Agent, now: BootInstant) -> Seq<char> {
    "  agent "@ + name + " in session "@ + agent.session_id@ + " (uid "@ + decimal(
        agent.uid as nat,
    ) + "), can_blank="@ + (if agent.can_blank {
        "true"@
    } else {
        "false"@
    }) + ", "@ + decimal(agent.gpu_holders@.len()) + " GPU holder(s), last report "@ + ago_text(
        whole_secs(between(agent.last_report, now)),
    )
}

/// What is said of agents, in the order of their names.
pub open spec fn agent_rows(
    agents: Map<Seq<char>, Agent>,
    names: Seq<Seq<char>>,
    now: BootInstant,
) -> Seq<Seq<char>> {
    names.map_values(|n: Seq<char>| agent_row(n, agents[n], now))
}

/// What is said of somebody being there.
pub open spec fn presence_rows(engine: Engine, now: BootInstant) -> Seq<Seq<char>> {
    let names = in_order(engine.agents.agents@.dom());
    seq![
        ""@,
        "human presence"@,
        "  "@ + presence_text(
            state_in(engine.readings@, FactId::HumanActive),
            engine.clocks.human_input,
        ),
        "  human_input origin: "@ + engine.clocks.human_input.text(),
    ] + only_if(names.len() == 0, seq!["  no session agent is registered"@]) + agent_rows(
        engine.agents.agents@,
        names,
        now,
    )
}

fn describe_agent(name: &str, agent: &Agent, now: BootInstant) -> (r: String)
    ensures
        r@ == agent_row(name@, *agent, now),
{
    let mut line = "  agent ".to_owned();
    line.append(name);
    line.append(" in session ");
    line.append(agent.session_id.as_str());
    line.append(" (uid ");
    push_decimal(&mut line, agent.uid as u128);
    line.append("), can_blank=");
    if agent.can_blank {
        line.append("true");
    } else {
        line.append("false");
    }
    line.append(", ");
    push_decimal(&mut line, agent.gpu_holders.len() as u128);
    line.append(" GPU holder(s), last report ");
    let age = ago(now.since(agent.last_report));
    line.append(age.as_str());
    line
}

fn presence(engine: &Engine, now: BootInstant) -> (r: Vec<String>)
    ensures
        views(r@) == presence_rows(*engine, now),
{
    let state = state_of(&engine.readings, FactId::HumanActive);
    let case = match state {
        FactState::True => "case 1: a human touched an input device within min_idle",
        FactState::Indeterminate =>
            "case 3: THE IDLE CLOCK IS UNREADABLE -- the agent is absent, stale, or its protocol is erroring",
        _ => match engine.clocks.human_input {
            ClockOrigin::NotYet =>
                "case 2: nothing has been touched this boot; the input path is healthy",
            _ => "case 2: no input within min_idle; the input path is healthy",
        },
    };
    assert(case@ == presence_text(state, engine.clocks.human_input));
    let mut out = one("".to_owned());
    push_line(&mut out, "human presence".to_owned());
    let mut line = "  ".to_owned();
    line.append(case);
    push_line(&mut out, line);
    let mut origin = "  human_input origin: ".to_owned();
    let shown = engine.clocks.human_input.to_string();
    origin.append(shown.as_str());
    push_line(&mut out, origin);
    assert(views(out@) =~= seq![
        ""@,
        "human presence"@,
        "  "@ + presence_text(
            state_in(engine.readings@, FactId::HumanActive),
            engine.clocks.human_input,
        ),
        "  human_input origin: "@ + engine.clocks.human_input.text(),
    ]);
    if engine.agents.is_empty() {
        extend(&mut out, one("  no session agent is registered".to_owned()));
    } else {
        extend(&mut out, none());
    }
    let ghost head = views(out@);
    let ghost names = in_order(engine.agents.agents@.dom());
    let ghost wanted = agent_rows(engine.agents.agents@, names, now);
    let list = engine.agents.iter();
    let ghost pairs = list@.map_values(|p: (&String, &Agent)| (p.0@, *p.1));
    assert(pairs.len() == list@.len());
    let mut i: usize = 0;
    assert(head + wanted.take(0) =~= head);
    while i < list.len()
        invariant
            i <= list@.len(),
            list@.len() == names.len(),
            pairs == list@.map_values(|p: (&String, &Agent)| (p.0@, *p.1)),
            pairs == names.map_values(|n: Seq<char>| (n, engine.agents.agents@[n])),
            wanted == agent_rows(engine.agents.agents@, names, now),
            views(out@) == head + wanted.take(i as int),
        decreases list@.len() - i,
    {
        assert(pairs[i as int] == (list@[i as int].0@, *list@[i as int].1));
        assert(pairs[i as int] == (names[i as int], engine.agents.agents@[names[i as int]]));
        let line = describe_agent(list[i].0.as_str(), list[i].1, now);
        assert(wanted[i as int] == line@);
        assert(head + wanted.take(i as int + 1) =~= (head + wanted.take(i as int)).push(line@));
        push_line(&mut out, line);
        i += 1;
    }
    assert(wanted.take(i as int) =~= wanted);
    out
}

/// What is said of the panel.
pub open spec fn screen_rows(engine: Engine) -> Seq<Seq<char>> {
    seq![
        ""@,
        "screen_off       "@ + (if engine.screen_off_available {
            "available"@
        } else {
            "UNAVAILABLE: no agent offers a blanking mechanism"@
        }),
    ]
}

fn screen(engine: &Engine) -> (r: Vec<String>)
    ensures
        views(r@) == screen_rows(*engine),
{
    let mut out = one("".to_owned());
    let mut line = "screen_off       ".to_owned();
    if engine.screen_off_available {
        line.append("available");
    } else {
        line.append("UNAVAILABLE: no agent offers a blanking mechanism");
    }
    push_line(&mut out, line);
    assert(views(out@) =~= screen_rows(*engine));
    out
}

// ---- hazards --------------------------------------------------------------------------

/// What is said of a ceiling.
pub open spec fn hazard_row(block: Block) -> Seq<char> {
    "  ceiling "@ + block.id.text() + " can pull an action earlier than any floor allows"@
}

/// What is said of the ceilings.
pub open spec fn hazard_rows(ceilings: Seq<Block>) -> Seq<Seq<char>> {
    only_if(
        ceilings.len() > 0,
        seq![""@, "standing hazards"@] + ceilings.map_values(|b: Block| hazard_row(b)),
    )
}

fn hazards(ceilings: &Vec<Block>) -> (r: Vec<String>)
    ensures
        views(r@) == hazard_rows(ceilings@),
{
    if ceilings.len() == 0 {
        return none();
    }
    let mut out = one("".to_owned());
    push_line(&mut out, "standing hazards".to_owned());
    let ghost head = views(out@);
    assert(head =~= seq![""@, "standing hazards"@]);
    let ghost wanted = ceilings@.map_values(|b: Block| hazard_row(b));
    let mut i: usize = 0;
    assert(head + wanted.take(0) =~= head);
    while i < ceilings.len()
        invariant
            i <= ceilings@.len(),
            wanted == ceilings@.map_values(|b: Block| hazard_row(b)),
            views(out@) == head + wanted.take(i as int),
        decreases ceilings@.len() - i,
    {
        let mut line = "  ceiling ".to_owned();
        let id = ceilings[i].id.to_string();
        line.append(id.as_str());
        line.append(" can pull an action earlier than any floor allows");
        assert(wanted[i as int] == line@);
        assert(head + wanted.take(i as int + 1) =~= (head + wanted.take(i as int)).push(line@));
        push_line(&mut out, line);
        i += 1;
    }
    assert(wanted.take(i as int) =~= wanted);
    out
}

// ---- leases ---------------------------------------------------------------------------

/// What is said of a lease.
pub open spec fn lease_row_text(lease: Lease, now: BootInstant) -> Seq<char> {
    "  "@ + padded(lease.who@, 24) + " uid "@ + padded(decimal(lease.uid as nat), 6)
        + " expires in "@ + padded(decimal(whole_secs(between(now, lease.expires))), 10) + " "@
        + lease.why@
}

/// What is said of the leases, in the order of their names.
pub open spec fn lease_rows(leases: Map<Seq<char>, Lease>, now: BootInstant) -> Seq<Seq<char>> {
    let names = in_order(leases.dom());
    if names.len() == 0 {
        seq![""@, "leases           none held"@]
    } else {
        seq![""@, "leases"@] + names.map_values(|n: Seq<char>| lease_row_text(leases[n], now))
    }
}

fn describe_lease(lease: &Lease, now: BootInstant) -> (r: String)
    ensures
        r@ == lease_row_text(*lease, now),
{
    let mut line = "  ".to_owned();
    push_padded(&mut line, lease.who.as_str(), 24);
    line.append(" uid ");
    let mut uid = String::new();
    push_decimal(&mut uid, lease.uid as u128);
    assert(uid@ =~= decimal(lease.uid as nat));
    push_padded(&mut line, uid.as_str(), 6);
    line.append(" expires in ");
    let mut left = String::new();
    let secs = lease.expires.since(now).as_secs();
    push_decimal(&mut left, secs as u128);
    assert(left@ =~= decimal(secs as nat));
    push_padded(&mut line, left.as_str(), 10);
    line.append(" ");
    line.append(lease.why.as_str());
    line
}

fn leases(engine: &Engine, now: BootInstant) -> (r: Vec<String>)
    ensures
        views(r@) == lease_rows(engine.leases.leases@, now),
{
    let ghost held = engine.leases.leases@;
    let ghost names = in_order(held.dom());
    let list = engine.leases.iter();
    let ghost all = list@.map_values(|l: &Lease| *l);
    assert(all.len() == names.len());
    let mut out = one("".to_owned());
    if list.len() == 0 {
        push_line(&mut out, "leases           none held".to_owned());
        assert(views(out@) =~= seq![""@, "leases           none held"@]);
        return out;
    }
    push_line(&mut out, "leases".to_owned());
    let ghost head = views(out@);
    assert(head =~= seq![""@, "leases"@]);
    let ghost wanted = names.map_values(|n: Seq<char>| lease_row_text(held[n], now));
    let mut i: usize = 0;
    assert(head + wanted.take(0) =~= head);
    while i < list.len()
        invariant
            i <= list@.len(),
            list@.len() == names.len(),
            all == list@.map_values(|l: &Lease| *l),
            all == names.map_values(|n: Seq<char>| held[n]),
            wanted == names.map_values(|n: Seq<char>| lease_row_text(held[n], now)),
            views(out@) == head + wanted.take(i as int),
        decreases list@.len() - i,
    {
        assert(all[i as int] == *list@[i as int]);
        assert(all[i as int] == held[names[i as int]]);
        let line = describe_lease(list[i], now);
        assert(wanted[i as int] == line@);
        assert(head + wanted.take(i as int + 1) =~= (head + wanted.take(i as int)).push(line@));
        push_line(&mut out, line);
        i += 1;
    }
    assert(wanted.take(i as int) =~= wanted);
    out
}

// ---- forced actions -------------------------------------------------------------------

/// What is said of a forced action.
pub open spec fn forced_row(forced: Forced, now: BootInstant) -> Seq<char> {
    "  "@ + ago_text(whole_secs(between(forced.at, now))) + " "@ + forced.action.text() + " by uid "@
        + decimal(forced.uid as nat) + ": "@ + forced.why@
}

/// What is said of the forced actions.
pub open spec fn forced_rows(forced: Seq<Forced>, now: BootInstant) -> Seq<Seq<char>> {
    only_if(
        forced.len() > 0,
        seq![""@, "forced actions this boot: "@ + decimal(forced.len())] + forced.map_values(
            |f: Forced| forced_row(f, now),
        ),
    )
}

fn forced_actions(forced: &Vec<Forced>, now: BootInstant) -> (r: Vec<String>)
    ensures
        views(r@) == forced_rows(forced@, now),
{
    if forced.len() == 0 {
        return none();
    }
    let mut out = one("".to_owned());
    let mut count = "forced actions this boot: ".to_owned();
    push_decimal(&mut count, forced.len() as u128);
    push_line(&mut out, count);
    let ghost head = views(out@);
    assert(head =~= seq![""@, "forced actions this boot: "@ + decimal(forced@.len())]);
    let ghost wanted = forced@.map_values(|f: Forced| forced_row(f, now));
    let mut i: usize = 0;
    assert(head + wanted.take(0) =~= head);
    while i < forced.len()
        invariant
            i <= forced@.len(),
            wanted == forced@.map_values(|f: Forced| forced_row(f, now)),
            views(out@) == head + wanted.take(i as int),
        decreases forced@.len() - i,
    {
        let mut line = "  ".to_owned();
        let age = ago(now.since(forced[i].at));
        line.append(age.as_str());
        line.append(" ");
        line.append(forced[i].action.name());
        line.append(" by uid ");
        push_decimal(&mut line, forced[i].uid as u128);
        line.append(": ");
        line.append(forced[i].why.as_str());
        assert(wanted[i as int] == line@);
        assert(head + wanted.take(i as int + 1) =~= (head + wanted.take(i as int)).push(line@));
        push_line(&mut out, line);
        i += 1;
    }
    assert(wanted.take(i as int) =~= wanted);
    out
}

// ---- conflicts ------------------------------------------------------------------------

/// What is said of what else might put the machine to sleep.
pub open spec fn conflict_rows(conflicts: Seq<Seq<char>>) -> Seq<Seq<char>> {
    seq![""@, "conflict scan"@] + if conflicts.len() == 0 {
        seq!["  no other candidate owner of this machine's power state found"@]
    } else {
        labelled("  CONFLICT  "@, conflicts).push(
            "  Two things deciding when a machine sleeps is worse than either one deciding badly."@,
        )
    }
}

fn conflict_section(conflicts: &Vec<String>) -> (r: Vec<String>)
    ensures
        views(r@) == conflict_rows(views(conflicts@)),
{
    assert(views(conflicts@).len() == conflicts@.len());
    let mut out = one("".to_owned());
    push_line(&mut out, "conflict scan".to_owned());
    assert(views(out@) =~= seq![""@, "conflict scan"@]);
    if conflicts.len() == 0 {
        extend(
            &mut out,
            one("  no other candidate owner of this machine's power state found".to_owned()),
        );
    } else {
        let mut rows = label_all("  CONFLICT  ", conflicts);
        push_line(
            &mut rows,
            "  Two things deciding when a machine sleeps is worse than either one deciding badly.".to_owned(),
        );
        extend(&mut out, rows);
    }
    out
}

// ---- the whole ------------------------------------------------------------------------

/// The ceilings that take part.
pub open spec fn ceilings_in(engine: Engine) -> Seq<Block> {
    engine.policy.blocks@.filter(takes_part(BlockKind::When))
}

/// What is said of the machine.
pub open spec fn doctor_rows(
    engine: Engine,
    now: BootInstant,
    conflicts: Seq<Seq<char>>,
) -> Seq<Seq<char>> {
    configuration_rows(engine) + evaluation_rows(engine, now) + (seq![""@, "facts"@]
        + first_fact_rows(engine, 11)) + presence_rows(engine, now) + screen_rows(engine)
        + hazard_rows(ceilings_in(engine)) + lease_rows(engine.leases.leases@, now) + forced_rows(
        engine.forced@,
        now,
    ) + conflict_rows(conflicts)
}

/// Whether everything is in order: the configuration has no fault, the machine has been looked at,
/// no fact that is read is in doubt, there is no ceiling, and nothing else claims the machine.
pub open spec fn in_order_here(engine: Engine, conflicts: nat) -> bool {
    &&& engine.faults@.len() == 0
    &&& engine.last_eval is Some
    &&& !exists|f: FactId| #[trigger] doubtful(engine, f)
    &&& ceilings_in(engine).len() == 0
    &&& conflicts == 0
}

/// Says what works here, what does not and what else claims the machine, and whether everything is
/// in order. What else might put the machine to sleep is given.
pub fn doctor(engine: &Engine, now: BootInstant, conflicts: &Vec<String>) -> (r: (String, bool))
    ensures
        r.0@ == unlined(doctor_rows(*engine, now, views(conflicts@))),
        r.1 == in_order_here(*engine, conflicts@.len()),
{
    let mut out = configuration(engine);
    extend(&mut out, evaluation(engine, now));
    let (fact_section, doubt) = facts(engine);
    extend(&mut out, fact_section);
    extend(&mut out, presence(engine, now));
    extend(&mut out, screen(engine));
    let ceilings = engine.policy.blocks_of(BlockKind::When);
    extend(&mut out, hazards(&ceilings));
    extend(&mut out, leases(engine, now));
    extend(&mut out, forced_actions(&engine.forced, now));
    extend(&mut out, conflict_section(conflicts));
    let healthy = engine.faults.len() == 0 && engine.last_eval.is_some() && !doubt
        && ceilings.len() == 0 && conflicts.len() == 0;
    (unlines(&out), healthy)
}

// ---- the same for a program -----------------------------------------------------------

/// What is reported of a fact.
#[derive(Debug)]
pub struct FactReport {
    /// Its name.
    pub name: String,
    /// What is known of it.
    pub state: String,
    /// By what evidence.
    pub detail: String,
    /// Whether it is read.
    pub enabled: bool,
}

/// What is reported of an action.
#[derive(Debug)]
pub struct ActionReport {
    /// Its name.
    pub name: String,
    /// Whether it may happen now.
    pub due: bool,
    /// When it may happen, in microseconds since boot.
    pub deadline_usec: u64,
    /// How many seconds until then, while it is still to come.
    pub remaining_secs: Option<u64>,
    /// The latest floor, in microseconds since boot.
    pub floor_usec: u64,
    /// The earliest ceiling, in microseconds since boot.
    pub ceiling_usec: u64,
    /// What holds it back.
    pub held_by: Vec<String>,
    /// Whether it can be done here.
    pub available: bool,
}

/// What is reported of a fault.
#[derive(Debug)]
pub struct FaultReport {
    /// The file.
    pub source: String,
    /// The key.
    pub location: String,
    /// What is wrong.
    pub message: String,
}

/// What is reported of a lease.
#[derive(Debug)]
pub struct LeaseReport {
    /// Its identifier.
    pub who: String,
    /// The reason that was given.
    pub why: String,
    /// The user that asked for it.
    pub uid: u32,
    /// When it ends, in microseconds since boot.
    pub expires_usec: u64,
}

/// What is reported of the machine.
#[derive(Debug)]
pub struct Report {
    /// The version of this report.
    pub schema: u32,
    /// Whether decisions are only reported.
    pub dry_run: bool,
    /// The files that were applied.
    pub layers: Vec<String>,
    /// What is wrong with the configuration.
    pub faults: Vec<FaultReport>,
    /// The idle time of somebody who counts as there, in seconds.
    pub min_idle_secs: u64,
    /// Whether the machine has resumed since boot.
    pub after_resume: bool,
    /// For how many seconds it has been suspended since boot.
    pub suspended_total_secs: u64,
    /// How many seconds ago it was last looked at.
    pub last_evaluation_secs_ago: Option<u64>,
    /// When somebody last used the machine.
    pub human_input_origin: String,
    /// When it last resumed.
    pub resume_origin: String,
    /// The facts.
    pub facts: Vec<FactReport>,
    /// The actions, from the shallowest to the deepest.
    pub actions: Vec<ActionReport>,
    /// The leases.
    pub leases: Vec<LeaseReport>,
}

/// Whether a fact is reported as it is.
pub open spec fn reports_fact(r: FactReport, engine: Engine, fact: FactId) -> bool {
    &&& r.name@ == fact.text()
    &&& r.state@ == state_in(engine.readings@, fact).text()
    &&& r.detail@ == detail_in(engine.readings@, fact)
    &&& r.enabled == engine.policy.reads(fact)
}

/// Whether an action is reported as it is.
pub open spec fn reports_action(
    r: ActionReport,
    engine: Engine,
    action: Action,
    now: BootInstant,
) -> bool {
    &&& r.name@ == action.text()
    &&& r.available == (action != Action::ScreenOff || engine.screen_off_available)
    &&& match engine.decision {
        Some(d) => {
            let resolution = d.of(action);
            &&& r.due == resolution.due
            &&& r.deadline_usec == usec_of(resolution.deadline)
            &&& match (resolution.deadline, r.remaining_secs) {
                (Deadline::At(at), Some(secs)) => at.nanos > now.nanos && secs == whole_secs(
                    between(now, at),
                ),
                (Deadline::At(at), None) => at.nanos <= now.nanos,
                (Deadline::Never, left) => left is None,
            }
            &&& r.floor_usec == usec_of(resolution.floor)
            &&& r.ceiling_usec == usec_of(resolution.ceiling)
            &&& views(r.held_by@) == won_by_texts(resolution)
        },
        None => {
            &&& !r.due
            &&& r.deadline_usec == u64::MAX
            &&& r.remaining_secs is None
            &&& r.floor_usec == u64::MAX
            &&& r.ceiling_usec == u64::MAX
            &&& r.held_by@.len() == 0
        },
    }
}

/// Whether a fault is reported as it is.
pub open spec fn reports_fault(r: FaultReport, fault: ConfigError) -> bool {
    &&& r.source@ == fault.source@
    &&& r.location@ == fault.location@
    &&& r.message@ == problem_text(fault.kind@)
}

/// Whether a lease is reported as it is.
pub open spec fn reports_lease(r: LeaseReport, lease: Lease) -> bool {
    &&& r.who@ == lease.who@
    &&& r.why@ == lease.why@
    &&& r.uid == lease.uid
    &&& r.expires_usec == lease.expires.nanos / 1_000
}

fn report_fact(engine: &Engine, fact: FactId) -> (r: FactReport)
    ensures
        reports_fact(r, *engine, fact),
{
    FactReport {
        name: fact.name().to_owned(),
        state: state_of(&engine.readings, fact).name().to_owned(),
        detail: match engine.readings.get(fact) {
            Some(reading) => reading.detail.clone(),
            None => String::new(),
        },
        enabled: engine.policy.fact_enabled(fact),
    }
}

fn report_action(engine: &Engine, action: Action, now: BootInstant) -> (r: ActionReport)
    ensures
        reports_action(r, *engine, action, now),
{
    let available = action != Action::ScreenOff || engine.screen_off_available;
    let name = action.name().to_owned();
    match &engine.decision {
        Some(decision) => {
            let resolution = decision.get(action);
            ActionReport {
                name,
                due: resolution.due,
                deadline_usec: deadline_usec(resolution.deadline),
                remaining_secs: match resolution.deadline.remaining_at(now) {
                    Some(left) => Some(left.as_secs()),
                    None => None,
                },
                floor_usec: deadline_usec(resolution.floor),
                ceiling_usec: deadline_usec(resolution.ceiling),
                held_by: won_by(resolution),
                available,
            }
        },
        None => ActionReport {
            name,
            due: false,
            deadline_usec: u64::MAX,
            remaining_secs: None,
            floor_usec: u64::MAX,
            ceiling_usec: u64::MAX,
            held_by: Vec::new(),
            available,
        },
    }
}

fn report_facts(engine: &Engine) -> (r: Vec<FactReport>)
    ensures
        r@.len() == 11,
        forall|i: int| 0 <= i < 11 ==> reports_fact(#[trigger] r@[i], *engine, FactId::ALL@[i]),
{
    let all = FactId::ALL;
    let mut out: Vec<FactReport> = Vec::new();
    let mut i: usize = 0;
    while i < 11
        invariant
            i <= 11,
            all@ == FactId::ALL@,
            all@.len() == 11,
            out@.len() == i,
            forall|j: int| 0 <= j < i ==> reports_fact(#[trigger] out@[j], *engine, FactId::ALL@[j]),
        decreases 11 - i,
    {
        out.push(report_fact(engine, all[i]));
        i += 1;
    }
    out
}

fn report_actions(engine: &Engine, now: BootInstant) -> (r: Vec<ActionReport>)
    ensures
        r@.len() == 4,
        forall|i: int|
            0 <= i < 4 ==> reports_action(#[trigger] r@[i], *engine, Action::ALL@[i], now),
{
    let all = Action::ALL;
    let mut out: Vec<ActionReport> = Vec::new();
    let mut i: usize = 0;
    while i < 4
        invariant
            i <= 4,
            all@ == Action::ALL@,
            all@.len() == 4,
            out@.len() == i,
            forall|j: int|
                0 <= j < i ==> reports_action(#[trigger] out@[j], *engine, Action::ALL@[j], now),
        decreases 4 - i,
    {
        out.push(report_action(engine, all[i], now));
        i += 1;
    }
    out
}

/// What is reported of the faults of a configuration, in order.
pub fn report_faults(faults: &Vec<ConfigError>) -> (r: Vec<FaultReport>)
    ensures
        r@.len() == faults@.len(),
        forall|i: int| 0 <= i < r@.len() ==> reports_fault(#[trigger] r@[i], faults@[i]),
{
    let mut out: Vec<FaultReport> = Vec::new();
    let mut i: usize = 0;
    while i < faults.len()
        invariant
            i <= faults@.len(),
            out@.len() == i,
            forall|j: int| 0 <= j < i ==> reports_fault(#[trigger] out@[j], faults@[j]),
        decreases faults@.len() - i,
    {
        let fault = &faults[i];
        out.push(
            FaultReport {
                source: fault.source.clone(),
                location: fault.location.clone(),
                message: fault.detail(),
            },
        );
        i += 1;
    }
    out
}

fn report_leases(engine: &Engine) -> (r: Vec<LeaseReport>)
    ensures
        ({
            let names = in_order(engine.leases.leases@.dom());
            &&& r@.len() == names.len()
            &&& forall|i: int|
                0 <= i < r@.len() ==> reports_lease(
                    #[trigger] r@[i],
                    engine.leases.leases@[names[i]],
                )
        }),
{
    let ghost held = engine.leases.leases@;
    let ghost names = in_order(held.dom());
    let list = engine.leases.iter();
    let ghost all = list@.map_values(|l: &Lease| *l);
    assert(all.len() == names.len());
    let mut out: Vec<LeaseReport> = Vec::new();
    let mut i: usize = 0;
    while i < list.len()
        invariant
            i <= list@.len(),
            list@.len() == names.len(),
            all == list@.map_values(|l: &Lease| *l),
            all == names.map_values(|n: Seq<char>| held[n]),
            out@.len() == i,
            forall|j: int| 0 <= j < i ==> reports_lease(#[trigger] out@[j], held[names[j]]),
        decreases list@.len() - i,
    {
        assert(all[i as int] == *list@[i as int]);
        assert(all[i as int] == held[names[i as int]]);
        let lease = list[i];
        out.push(
            LeaseReport {
                who: lease.who.clone(),
                why: lease.why.clone(),
                uid: lease.uid,
                expires_usec: lease.expires.as_micros(),
            },
        );
        i += 1;
    }
    out
}

/// Reports what is known and decided, for a program to read. The numbers are those of the decision
/// that was made.
pub fn report_json(engine: &Engine, now: BootInstant) -> (r: Report)
    ensures
        r.schema == 1,
        r.dry_run == engine.dry_run,
        views(r.layers@) == views(engine.layers@),
        r.faults@.len() == engine.faults@.len(),
        forall|i: int|
            0 <= i < r.faults@.len() ==> reports_fault(#[trigger] r.faults@[i], engine.faults@[i]),
        r.min_idle_secs == whole_secs(engine.policy.min_idle),
        r.after_resume == engine.resume.resumed_this_boot,
        r.suspended_total_secs == engine.resume.seen / 1_000_000_000,
        match (engine.last_eval, r.last_evaluation_secs_ago) {
            (Some(at), Some(secs)) => secs == whole_secs(between(at, now)),
            (None, None) => true,
            _ => false,
        },
        r.human_input_origin@ == engine.clocks.human_input.text(),
        r.resume_origin@ == engine.clocks.resume.text(),
        r.facts@.len() == 11,
        forall|i: int|
            0 <= i < 11 ==> reports_fact(#[trigger] r.facts@[i], *engine, FactId::ALL@[i]),
        r.actions@.len() == 4,
        forall|i: int|
            0 <= i < 4 ==> reports_action(#[trigger] r.actions@[i], *engine, Action::ALL@[i], now),
        r.leases@.len() == in_order(engine.leases.leases@.dom()).len(),
        forall|i: int|
            0 <= i < r.leases@.len() ==> reports_lease(
                #[trigger] r.leases@[i],
                engine.leases.leases@[in_order(engine.leases.leases@.dom())[i]],
            ),
{
    let mut layers = none();
    extend(&mut layers, label_all("", &engine.layers));
    proof {
        reveal_strlit("");
        assert(labelled(""@, views(engine.layers@)) =~= views(engine.layers@)) by {
            assert forall|i: int| 0 <= i < views(engine.layers@).len() implies labelled(
                ""@,
                views(engine.layers@),
            )[i] == views(engine.layers@)[i] by {
                assert(""@ + views(engine.layers@)[i] =~= views(engine.layers@)[i]);
            }
        }
        assert(Seq::<Seq<char>>::empty() + views(engine.layers@) =~= views(engine.layers@));
    }
    Report {
        schema: 1,
        dry_run: engine.dry_run,
        layers,
        faults: report_faults(&engine.faults),
        min_idle_secs: engine.policy.min_idle.as_secs(),
        after_resume: engine.resume.after_resume(),
        suspended_total_secs: engine.resume.suspended_total().as_secs(),
        last_evaluation_secs_ago: match engine.last_eval {
            Some(at) => Some(now.since(at).as_secs()),
            None => None,
        },
        human_input_origin: engine.clocks.human_input.to_string(),
        resume_origin: engine.clocks.resume.to_string(),
        facts: report_facts(engine),
        actions: report_actions(engine, now),
        leases: report_leases(engine),
    }
}

/// Whatever is broken, a caller is told: a fault, a fact in doubt, a ceiling or another owner of the
/// machine each makes it not in order.
pub proof fn nothing_broken_goes_unsaid(engine: Engine, conflicts: nat)
    ensures
        engine.faults@.len() > 0 ==> !in_order_here(engine, conflicts),
        (exists|f: FactId| #[trigger] doubtful(engine, f)) ==> !in_order_here(engine, conflicts),
        ceilings_in(engine).len() > 0 ==> !in_order_here(engine, conflicts),
        conflicts > 0 ==> !in_order_here(engine, conflicts),
{
}

} // verus!
