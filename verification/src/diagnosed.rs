//! What a diagnosis of the machine and a listing of its policy tell, line by line.
use vstd::prelude::*;

use crate::agents::{some_can_blank, Agent};
use crate::block::{Block, BlockKind};
use crate::clock::ClockOrigin;
use crate::config::error::{complaint_text, problem_text, ConfigError};
use crate::config::listing::{
    block_rows, blocks_rows, check_style, checked_rows, daemon_style, policy_rows, wrong_rows, Style,
};
use crate::config::load::Loaded;
use crate::course::is_read;
use crate::doctor::{
    agent_row, ceilings_in, configuration_rows, conflict_rows, doctor_rows, evaluation_rows,
    fact_rows_of, fault_texts, first_fact_rows, forced_rows, hazard_rows, lease_row_text,
    lease_rows, presence_rows, report_json, reports_fault, screen_rows, FaultReport, Report,
};
use crate::engine::{Engine, Forced};
use crate::fact::{lemma_all_facts, FactId, FactState};
use crate::leases::Lease;
use crate::manager::refuse_action;
use crate::names::{in_order, lists};
use crate::policy::{lemma_filter_members, takes_part};
use crate::reading::ago_text;
use crate::report::{blocks_on, human_text};
use crate::text::{decimal, joined, padded};
use crate::time::BootInstant;

verus! {

// ---- faults and warnings --------------------------------------------------------------

/// A fault is told with its file, then with its key where it has one, and then with what is wrong.
pub proof fn a_fault_names_its_file_and_its_key(fault: ConfigError)
    ensures
        fault.location@.len() == 0 ==> complaint_text(fault@) == fault.source@ + ": "@
            + problem_text(fault.kind@),
        fault.location@.len() > 0 ==> complaint_text(fault@) == fault.source@ + ": "@
            + fault.location@ + ": "@ + problem_text(fault.kind@),
{
}

/// A fault is reported with its own file, key and message.
pub proof fn a_fault_is_reported_as_it_is(r: FaultReport, fault: ConfigError)
    requires
        reports_fault(r, fault),
    ensures
        r.source@ == fault.source@,
        r.location@ == fault.location@,
        r.message@ == problem_text(fault.kind@),
{
}

// ---- the diagnosis --------------------------------------------------------------------

/// A diagnosis names every file that was applied, then everything that is wrong, with what comes of
/// it, and then everything to look at twice, a line each and in order.
pub proof fn a_diagnosis_names_files_faults_and_warnings(engine: Engine)
    ensures
        ({
            let rows = configuration_rows(engine);
            let layers = engine.layers@.len() as int;
            let faults = engine.faults@.len() as int;
            let held: int = if faults > 0 { 2 } else { 0 };
            &&& rows.len() == 1 + layers + faults + held + engine.warnings@.len()
            &&& rows[0] == "configuration"@
            &&& forall|i: int|
                0 <= i < layers ==> #[trigger] rows[1 + i] == "  layer     "@ + engine.layers@[i]@
            &&& forall|i: int|
                0 <= i < faults ==> #[trigger] rows[1 + layers + i] == "  FAULT     "@
                    + complaint_text(engine.faults@[i]@)
            &&& faults > 0 ==> rows[1 + layers + faults]
                == "  Suspend, hibernate and poweroff are held at `never` until this is fixed."@
            &&& faults > 0 ==> rows[2 + layers + faults]
                == "  screen_off is deliberately unaffected: a typo must not be able to burn a panel."@
            &&& forall|i: int|
                0 <= i < engine.warnings@.len() ==> #[trigger] rows[1 + layers + faults + held + i]
                    == "  warning   "@ + engine.warnings@[i]@
        }),
{
    assert(fault_texts(engine.faults@).len() == engine.faults@.len());
}

/// A diagnosis tells how long ago the machine was last looked at, or that it never was, for how long
/// it has slept since boot, and whether decisions are only reported.
pub proof fn a_diagnosis_tells_of_the_last_look(engine: Engine, now: BootInstant)
    ensures
        ({
            let rows = evaluation_rows(engine, now);
            &&& rows.len() == if engine.dry_run { 4int } else { 3int }
            &&& rows[0] == ""@
            &&& engine.last_eval is None ==> rows[1] == "last evaluation  "@
                + "NEVER -- the daemon has not evaluated once"@
            &&& engine.last_eval matches Some(at) ==> {
                &&& at.nanos <= now.nanos ==> rows[1] == "last evaluation  "@ + ago_text(
                    ((now.nanos - at.nanos) / 1_000_000_000) as nat,
                )
                &&& at.nanos > now.nanos ==> rows[1] == "last evaluation  "@ + ago_text(0)
            }
            &&& rows[2] == "suspended total  "@ + human_text(
                (engine.resume.seen / 1_000_000_000) as nat,
            ) + " this boot"@
            &&& engine.dry_run ==> rows[3]
                == "MODE             dry run: decisions are logged and never applied"@
        }),
{
}

/// A diagnosis tells of a fact what is known of it and by what evidence, and whether it is read; and
/// where it is read and in doubt or not there, which blocks are inert on its account.
pub proof fn a_diagnosis_tells_of_a_fact(engine: Engine, fact: FactId)
    ensures
        ({
            let rows = fact_rows_of(engine, fact);
            let name = "  "@ + padded(fact.text(), 20) + " "@;
            let off = if is_read(engine.policy, fact) { ""@ } else { " [disabled]"@ };
            let inert = blocks_on(engine.policy.blocks@, fact);
            let told = is_read(engine.policy, fact) && inert.len() > 0;
            &&& engine.readings@.contains_key(fact) ==> {
                let reading = engine.readings@[fact];
                &&& rows[0] == name + padded(reading.state.text(), 14) + off + " "@
                    + reading.detail@
                &&& told && reading.state == FactState::Indeterminate ==> rows.len() == 2 && rows[1]
                    == "  "@ + padded(""@, 20) + "   blocks made inert: "@ + joined(inert, ", "@)
                &&& told && reading.state == FactState::Unavailable ==> rows.len() == 2 && rows[1]
                    == "  "@ + padded(""@, 20) + "   inert blocks: "@ + joined(inert, ", "@)
                &&& reading.state == FactState::True || reading.state == FactState::False
                    ==> rows.len() == 1
            }
            &&& !engine.readings@.contains_key(fact) ==> {
                &&& rows[0] == name + padded("unavailable"@, 14) + off + " "@ + "not sampled"@
                &&& told ==> rows.len() == 2 && rows[1] == "  "@ + padded(""@, 20)
                    + "   inert blocks: "@ + joined(inert, ", "@)
            }
            &&& !told ==> rows.len() == 1
        }),
{
}

proof fn lemma_rows_of_facts(engine: Engine, facts: int, at: int, row: int)
    requires
        0 <= at < facts,
        0 <= row < fact_rows_of(engine, FactId::ALL@[at]).len(),
    ensures
        first_fact_rows(engine, facts).contains(fact_rows_of(engine, FactId::ALL@[at])[row]),
    decreases facts,
{
    let fewer = first_fact_rows(engine, facts - 1);
    let last = fact_rows_of(engine, FactId::ALL@[facts - 1]);
    if at == facts - 1 {
        assert((fewer + last)[fewer.len() + row] == last[row]);
    } else {
        lemma_rows_of_facts(engine, facts - 1, at, row);
        let wanted = fact_rows_of(engine, FactId::ALL@[at])[row];
        let i = choose|i: int| 0 <= i < fewer.len() && fewer[i] == wanted;
        assert((fewer + last)[i] == wanted);
    }
}

/// A diagnosis leaves out no fact.
pub proof fn a_diagnosis_leaves_out_no_fact(engine: Engine, fact: FactId, row: int)
    requires
        0 <= row < fact_rows_of(engine, fact).len(),
    ensures
        first_fact_rows(engine, 11).contains(fact_rows_of(engine, fact)[row]),
{
    lemma_all_facts();
    lemma_rows_of_facts(engine, 11, fact.rank(), row);
}

/// A diagnosis tells of an agent its name, session and user, whether it can darken the panel, how
/// many processes use a graphics card, and how long ago it last reported.
pub proof fn a_diagnosis_tells_of_an_agent(name: Seq<char>, agent: Agent, now: BootInstant)
    requires
        agent.last_report.nanos <= now.nanos,
    ensures
        agent_row(name, agent, now) == "  agent "@ + name + " in session "@ + agent.session_id@
            + " (uid "@ + decimal(agent.uid as nat) + "), can_blank="@ + (if agent.can_blank {
            "true"@
        } else {
            "false"@
        }) + ", "@ + decimal(agent.gpu_holders@.len()) + " GPU holder(s), last report "@ + ago_text(
            ((now.nanos - agent.last_report.nanos) / 1_000_000_000) as nat,
        ),
{
}

/// A diagnosis tells since when nobody has used the machine and lists every agent once, in the order
/// of their names; where there is none, it says so.
pub proof fn a_diagnosis_lists_every_agent(engine: Engine, now: BootInstant, name: Seq<char>)
    requires
        exists|names: Seq<Seq<char>>| lists(names, engine.agents.agents@.dom()),
    ensures
        ({
            let rows = presence_rows(engine, now);
            let agents = engine.agents.agents@;
            let names = in_order(agents.dom());
            &&& rows[0] == ""@
            &&& rows[1] == "human presence"@
            &&& engine.clocks.human_input == ClockOrigin::NotYet ==> rows[3]
                == "  human_input origin: "@ + ClockOrigin::NotYet.text()
            &&& rows[3] == "  human_input origin: "@ + engine.clocks.human_input.text()
            &&& engine.readings@.contains_key(FactId::HumanActive)
                && engine.readings@[FactId::HumanActive].state == FactState::True ==> rows[2]
                == "  "@ + "case 1: a human touched an input device within min_idle"@
            &&& names.len() == 0 ==> rows.len() == 5 && rows[4]
                == "  no session agent is registered"@
            &&& names.len() > 0 ==> rows.len() == 4 + names.len()
            &&& forall|i: int|
                0 <= i < names.len() ==> #[trigger] rows[4 + i] == agent_row(
                    names[i],
                    agents[names[i]],
                    now,
                )
            &&& agents.contains_key(name) ==> rows.contains(agent_row(name, agents[name], now))
        }),
{
    let agents = engine.agents.agents@;
    let names = in_order(agents.dom());
    assert(lists(names, agents.dom()));
    let rows = presence_rows(engine, now);
    if agents.contains_key(name) {
        assert(agents.dom().contains(name));
        let i = choose|i: int| 0 <= i < names.len() && names[i] == name;
        assert(rows[4 + i] == agent_row(name, agents[name], now));
    }
}

/// A diagnosis tells whether the panel can be darkened, and warns of every ceiling that is switched
/// on and of no other block.
pub proof fn a_diagnosis_warns_of_ceilings(engine: Engine, block: Block)
    ensures
        screen_rows(engine).len() == 2,
        screen_rows(engine)[0] == ""@,
        engine.screen_off_available ==> screen_rows(engine)[1] == "screen_off       "@
            + "available"@,
        !engine.screen_off_available ==> screen_rows(engine)[1] == "screen_off       "@
            + "UNAVAILABLE: no agent offers a blanking mechanism"@,
        (exists|i: int|
            0 <= i < engine.policy.blocks@.len() && (#[trigger] engine.policy.blocks@[i]).enabled
                && engine.policy.blocks@[i].id.kind == BlockKind::When) <==> hazard_rows(
            ceilings_in(engine),
        ).len() > 0,
        hazard_rows(ceilings_in(engine)).len() > 0 ==> {
            let rows = hazard_rows(ceilings_in(engine));
            &&& rows[0] == ""@
            &&& rows[1] == "standing hazards"@
            &&& rows.len() == 2 + ceilings_in(engine).len()
            &&& forall|i: int|
                0 <= i < ceilings_in(engine).len() ==> #[trigger] rows[2 + i] == "  ceiling "@
                    + ceilings_in(engine)[i].id.text()
                    + " can pull an action earlier than any floor allows"@
        },
        ceilings_in(engine).contains(block) <==> engine.policy.blocks@.contains(block)
            && block.enabled && block.id.kind == BlockKind::When,
{
    let blocks = engine.policy.blocks@;
    let part = takes_part(BlockKind::When);
    let ceilings = blocks.filter(part);
    lemma_filter_members(blocks, part, block);
    if ceilings.len() > 0 {
        lemma_filter_members(blocks, part, ceilings[0]);
        assert(ceilings.contains(ceilings[0]));
        let i = choose|i: int| 0 <= i < blocks.len() && blocks[i] == ceilings[0];
        assert(blocks[i].enabled && blocks[i].id.kind == BlockKind::When);
    }
    if exists|i: int|
        0 <= i < blocks.len() && (#[trigger] blocks[i]).enabled && blocks[i].id.kind
            == BlockKind::When {
        let i = choose|i: int|
            0 <= i < blocks.len() && (#[trigger] blocks[i]).enabled && blocks[i].id.kind
                == BlockKind::When;
        lemma_filter_members(blocks, part, blocks[i]);
        assert(blocks.contains(blocks[i]));
    }
}

/// A diagnosis lists every lease once, in the order of their names, with who holds it, for which
/// user, for how many seconds still, and why; where there is none, it says so.
pub proof fn a_diagnosis_lists_every_lease(
    leases: Map<Seq<char>, Lease>,
    now: BootInstant,
    who: Seq<char>,
)
    requires
        exists|names: Seq<Seq<char>>| lists(names, leases.dom()),
    ensures
        ({
            let rows = lease_rows(leases, now);
            let names = in_order(leases.dom());
            &&& rows[0] == ""@
            &&& names.len() == 0 ==> rows.len() == 2 && rows[1] == "leases           none held"@
            &&& names.len() > 0 ==> rows.len() == 2 + names.len() && rows[1] == "leases"@
            &&& forall|i: int|
                0 <= i < names.len() ==> #[trigger] rows[2 + i] == lease_row_text(
                    leases[names[i]],
                    now,
                )
            &&& leases.contains_key(who) ==> rows.contains(lease_row_text(leases[who], now))
            &&& leases.contains_key(who) && now.nanos <= leases[who].expires.nanos
                ==> lease_row_text(leases[who], now) == "  "@ + padded(leases[who].who@, 24)
                + " uid "@ + padded(decimal(leases[who].uid as nat), 6) + " expires in "@ + padded(
                decimal(((leases[who].expires.nanos - now.nanos) / 1_000_000_000) as nat),
                10,
            ) + " "@ + leases[who].why@
        }),
{
    let names = in_order(leases.dom());
    assert(lists(names, leases.dom()));
    let rows = lease_rows(leases, now);
    if leases.contains_key(who) {
        assert(leases.dom().contains(who));
        let i = choose|i: int| 0 <= i < names.len() && names[i] == who;
        assert(rows[2 + i] == lease_row_text(leases[who], now));
    }
}

/// A diagnosis counts the forced actions and tells of each when it was, what it was, who asked for it
/// and why; where there is none, it says nothing of them.
pub proof fn a_diagnosis_lists_every_forced_action(forced: Seq<Forced>, now: BootInstant, i: int)
    requires
        0 <= i < forced.len() ==> forced[i].at.nanos <= now.nanos,
    ensures
        forced.len() == 0 ==> forced_rows(forced, now).len() == 0,
        forced.len() > 0 ==> {
            let rows = forced_rows(forced, now);
            &&& rows.len() == 2 + forced.len()
            &&& rows[0] == ""@
            &&& rows[1] == "forced actions this boot: "@ + decimal(forced.len())
            &&& 0 <= i < forced.len() ==> rows[2 + i] == "  "@ + ago_text(
                ((now.nanos - forced[i].at.nanos) / 1_000_000_000) as nat,
            ) + " "@ + forced[i].action.text() + " by uid "@ + decimal(forced[i].uid as nat)
                + ": "@ + forced[i].why@
        },
{
}

/// A diagnosis names everything else that claims the machine, and says so where there is nothing.
pub proof fn a_diagnosis_names_every_other_owner(conflicts: Seq<Seq<char>>, i: int)
    ensures
        ({
            let rows = conflict_rows(conflicts);
            &&& rows[0] == ""@
            &&& rows[1] == "conflict scan"@
            &&& conflicts.len() == 0 ==> rows.len() == 3 && rows[2]
                == "  no other candidate owner of this machine's power state found"@
            &&& conflicts.len() > 0 ==> rows.len() == 3 + conflicts.len() && rows.last()
                == "  Two things deciding when a machine sleeps is worse than either one deciding badly."@
            &&& 0 <= i < conflicts.len() ==> rows[2 + i] == "  CONFLICT  "@ + conflicts[i]
        }),
{
}

/// Whether lines stand in a text from some line on.
pub open spec fn stands_at(part: Seq<Seq<char>>, whole: Seq<Seq<char>>, at: int) -> bool {
    0 <= at && at + part.len() <= whole.len() && whole.subrange(at, at + part.len()) == part
}

proof fn lemma_headed(head: Seq<Seq<char>>, rest: Seq<Seq<char>>, whole: Seq<Seq<char>>, at: int)
    requires
        head.len() == 2,
        stands_at(head + rest, whole, at),
    ensures
        whole[at] == head[0],
        whole[at + 1] == head[1],
        stands_at(rest, whole, at + 2),
{
    let part = whole.subrange(at, at + (head + rest).len());
    assert(part[0] == whole[at] && part[1] == whole[at + 1]);
    assert((head + rest)[0] == head[0] && (head + rest)[1] == head[1]);
    assert(whole.subrange(at + 2, at + 2 + rest.len()) =~= part.subrange(2, part.len() as int));
    assert((head + rest).subrange(2, (head + rest).len() as int) =~= rest);
}

proof fn lemma_longer(part: Seq<Seq<char>>, whole: Seq<Seq<char>>, at: int, more: Seq<Seq<char>>)
    requires
        stands_at(part, whole, at),
    ensures
        stands_at(part, whole + more, at),
{
    assert((whole + more).subrange(at, at + part.len()) =~= whole.subrange(at, at + part.len()));
}

proof fn lemma_at_the_end(whole: Seq<Seq<char>>, part: Seq<Seq<char>>)
    ensures
        stands_at(part, whole + part, whole.len() as int),
{
    assert((whole + part).subrange(whole.len() as int, (whole.len() + part.len()) as int) =~= part);
}

proof fn lemma_parts_in_turn(
    a: Seq<Seq<char>>,
    b: Seq<Seq<char>>,
    c: Seq<Seq<char>>,
    d: Seq<Seq<char>>,
    e: Seq<Seq<char>>,
    f: Seq<Seq<char>>,
    g: Seq<Seq<char>>,
    h: Seq<Seq<char>>,
    k: Seq<Seq<char>>,
)
    ensures
        ({
            let all = a + b + c + d + e + f + g + h + k;
            let past_c = a.len() + b.len() + c.len();
            let past_f = past_c + d.len() + e.len() + f.len();
            &&& stands_at(a, all, 0)
            &&& stands_at(b, all, a.len() as int)
            &&& stands_at(c, all, (a.len() + b.len()) as int)
            &&& stands_at(d, all, past_c as int)
            &&& stands_at(e, all, (past_c + d.len()) as int)
            &&& stands_at(f, all, (past_c + d.len() + e.len()) as int)
            &&& stands_at(g, all, past_f as int)
            &&& stands_at(h, all, (past_f + g.len()) as int)
            &&& stands_at(k, all, (past_f + g.len() + h.len()) as int)
            &&& all.len() == past_f + g.len() + h.len() + k.len()
        }),
{
    let ab = a + b;
    let abc = ab + c;
    let abcd = abc + d;
    let abcde = abcd + e;
    let to_f = abcde + f;
    let to_g = to_f + g;
    let to_h = to_g + h;
    assert(a.subrange(0, a.len() as int) =~= a);
    lemma_longer(a, a, 0, b);
    lemma_longer(a, ab, 0, c);
    lemma_longer(a, abc, 0, d);
    lemma_longer(a, abcd, 0, e);
    lemma_longer(a, abcde, 0, f);
    lemma_longer(a, to_f, 0, g);
    lemma_longer(a, to_g, 0, h);
    lemma_longer(a, to_h, 0, k);
    lemma_at_the_end(a, b);
    lemma_longer(b, ab, a.len() as int, c);
    lemma_longer(b, abc, a.len() as int, d);
    lemma_longer(b, abcd, a.len() as int, e);
    lemma_longer(b, abcde, a.len() as int, f);
    lemma_longer(b, to_f, a.len() as int, g);
    lemma_longer(b, to_g, a.len() as int, h);
    lemma_longer(b, to_h, a.len() as int, k);
    lemma_at_the_end(ab, c);
    lemma_longer(c, abc, ab.len() as int, d);
    lemma_longer(c, abcd, ab.len() as int, e);
    lemma_longer(c, abcde, ab.len() as int, f);
    lemma_longer(c, to_f, ab.len() as int, g);
    lemma_longer(c, to_g, ab.len() as int, h);
    lemma_longer(c, to_h, ab.len() as int, k);
    lemma_at_the_end(abc, d);
    lemma_longer(d, abcd, abc.len() as int, e);
    lemma_longer(d, abcde, abc.len() as int, f);
    lemma_longer(d, to_f, abc.len() as int, g);
    lemma_longer(d, to_g, abc.len() as int, h);
    lemma_longer(d, to_h, abc.len() as int, k);
    lemma_at_the_end(abcd, e);
    lemma_longer(e, abcde, abcd.len() as int, f);
    lemma_longer(e, to_f, abcd.len() as int, g);
    lemma_longer(e, to_g, abcd.len() as int, h);
    lemma_longer(e, to_h, abcd.len() as int, k);
    lemma_at_the_end(abcde, f);
    lemma_longer(f, to_f, abcde.len() as int, g);
    lemma_longer(f, to_g, abcde.len() as int, h);
    lemma_longer(f, to_h, abcde.len() as int, k);
    lemma_at_the_end(to_f, g);
    lemma_longer(g, to_g, to_f.len() as int, h);
    lemma_longer(g, to_h, to_f.len() as int, k);
    lemma_at_the_end(to_g, h);
    lemma_longer(h, to_h, to_g.len() as int, k);
    lemma_at_the_end(to_h, k);
}

/// A diagnosis tells of the configuration, the last look, the facts, of who is there, the panel, the
/// ceilings, the leases, the forced actions and of other owners, in this order and of nothing else.
pub proof fn a_diagnosis_tells_of_everything_in_turn(
    engine: Engine,
    now: BootInstant,
    conflicts: Seq<Seq<char>>,
)
    ensures
        ({
            let rows = doctor_rows(engine, now, conflicts);
            let looks = configuration_rows(engine).len() as int;
            let facts = looks + evaluation_rows(engine, now).len();
            let there = facts + 2 + first_fact_rows(engine, 11).len();
            let panel = there + presence_rows(engine, now).len();
            let hazards = panel + screen_rows(engine).len();
            let leases = hazards + hazard_rows(ceilings_in(engine)).len();
            let forced = leases + lease_rows(engine.leases.leases@, now).len();
            let others = forced + forced_rows(engine.forced@, now).len();
            &&& stands_at(configuration_rows(engine), rows, 0)
            &&& stands_at(evaluation_rows(engine, now), rows, looks)
            &&& rows[facts] == ""@
            &&& rows[facts + 1] == "facts"@
            &&& stands_at(first_fact_rows(engine, 11), rows, facts + 2)
            &&& stands_at(presence_rows(engine, now), rows, there)
            &&& stands_at(screen_rows(engine), rows, panel)
            &&& stands_at(hazard_rows(ceilings_in(engine)), rows, hazards)
            &&& stands_at(lease_rows(engine.leases.leases@, now), rows, leases)
            &&& stands_at(forced_rows(engine.forced@, now), rows, forced)
            &&& stands_at(conflict_rows(conflicts), rows, others)
            &&& rows.len() == others + conflict_rows(conflicts).len()
        }),
{
    lemma_parts_in_turn(
        configuration_rows(engine),
        evaluation_rows(engine, now),
        seq![""@, "facts"@] + first_fact_rows(engine, 11),
        presence_rows(engine, now),
        screen_rows(engine),
        hazard_rows(ceilings_in(engine)),
        lease_rows(engine.leases.leases@, now),
        forced_rows(engine.forced@, now),
        conflict_rows(conflicts),
    );
    lemma_headed(
        seq![""@, "facts"@],
        first_fact_rows(engine, 11),
        doctor_rows(engine, now, conflicts),
        (configuration_rows(engine).len() + evaluation_rows(engine, now).len()) as int,
    );
}

/// The report for a program gives spans in whole seconds, cut off and never rounded up, the files and
/// the faults in order, and whether decisions are only reported.
pub proof fn a_report_gives_whole_seconds(engine: Engine, now: BootInstant, r: Report)
    requires
        call_ensures(report_json, (&engine, now), r),
    ensures
        r.schema == 1,
        r.dry_run == engine.dry_run,
        r.min_idle_secs * 1_000_000_000 <= engine.policy.min_idle.nanos,
        r.min_idle_secs < u64::MAX ==> engine.policy.min_idle.nanos < r.min_idle_secs
            * 1_000_000_000 + 1_000_000_000,
        r.suspended_total_secs * 1_000_000_000 <= engine.resume.seen < r.suspended_total_secs
            * 1_000_000_000 + 1_000_000_000,
        r.after_resume == engine.resume.resumed_this_boot,
        engine.last_eval is None <==> r.last_evaluation_secs_ago is None,
        engine.last_eval matches Some(at) ==> at.nanos <= now.nanos ==> ({
            let secs = r.last_evaluation_secs_ago->Some_0;
            secs * 1_000_000_000 <= now.nanos - at.nanos < secs * 1_000_000_000 + 1_000_000_000
        }),
        r.layers@.len() == engine.layers@.len(),
        forall|i: int|
            0 <= i < r.layers@.len() ==> (#[trigger] r.layers@[i])@ == engine.layers@[i]@,
        r.faults@.len() == engine.faults@.len(),
        forall|i: int|
            0 <= i < r.faults@.len() ==> (#[trigger] r.faults@[i]).source@
                == engine.faults@[i].source@,
{
    let seen = crate::text::views(r.layers@);
    let had = crate::text::views(engine.layers@);
    assert(seen.len() == r.layers@.len() && had.len() == engine.layers@.len());
    assert forall|i: int| 0 <= i < r.layers@.len() implies (#[trigger] r.layers@[i])@
        == engine.layers@[i]@ by {
        assert(seen[i] == r.layers@[i]@);
        assert(had[i] == engine.layers@[i]@);
    }
}

// ---- a policy in words ----------------------------------------------------------------

proof fn lemma_a_block_is_listed(style: Style, blocks: Seq<Block>, at: int, row: int)
    requires
        0 <= at < blocks.len(),
        0 <= row < block_rows(style, blocks[at]).len(),
    ensures
        blocks_rows(style, blocks).contains(block_rows(style, blocks[at])[row]),
    decreases blocks.len(),
{
    let fewer = blocks_rows(style, blocks.drop_last());
    let last = block_rows(style, blocks.last());
    if at == blocks.len() - 1 {
        assert((fewer + last)[fewer.len() + row] == last[row]);
    } else {
        lemma_a_block_is_listed(style, blocks.drop_last(), at, row);
        let wanted = block_rows(style, blocks[at])[row];
        let i = choose|i: int| 0 <= i < fewer.len() && fewer[i] == wanted;
        assert((fewer + last)[i] == wanted);
    }
}

/// A listing leaves out no block, and one more block adds its own lines after all others.
pub proof fn a_listing_leaves_out_no_block(
    style: Style,
    blocks: Seq<Block>,
    at: int,
    row: int,
    more: Block,
)
    requires
        0 <= at < blocks.len(),
        0 <= row < block_rows(style, blocks[at]).len(),
    ensures
        blocks_rows(style, Seq::empty()).len() == 0,
        blocks_rows(style, blocks).contains(block_rows(style, blocks[at])[row]),
        blocks_rows(style, blocks.push(more)).len() == blocks_rows(style, blocks).len()
            + block_rows(style, more).len(),
        blocks_rows(style, blocks.push(more)).take(blocks_rows(style, blocks).len() as int)
            == blocks_rows(style, blocks),
{
    lemma_a_block_is_listed(style, blocks, at, row);
    assert(blocks.push(more).drop_last() =~= blocks);
    assert(blocks_rows(style, blocks.push(more)).take(blocks_rows(style, blocks).len() as int)
        =~= blocks_rows(style, blocks));
}

/// The daemon indents the blocks of a policy under its files and its idle time.
pub proof fn the_daemon_lists_files_then_blocks(style: Style, loaded: Loaded, span: Seq<char>)
    ensures
        ({
            let rows = policy_rows(style, loaded, span);
            let layers = loaded.layers@.len() as int;
            &&& rows.len() == 3 + layers + blocks_rows(style, loaded.policy.blocks@).len()
            &&& rows[0] == "layers:"@
            &&& forall|i: int| 0 <= i < layers ==> #[trigger] rows[1 + i] == "  "@ + loaded.layers@[i]@
            &&& rows[1 + layers] == "min_idle: "@ + span
            &&& rows[2 + layers] == "blocks:"@
            &&& stands_at(blocks_rows(style, loaded.policy.blocks@), rows, 3 + layers)
        }),
        daemon_style().before == "  ["@,
        daemon_style().between == "] clock="@,
        daemon_style().disabled == " (disabled)"@,
        daemon_style().indent == "      "@,
{
    let rows = policy_rows(style, loaded, span);
    let listed = blocks_rows(style, loaded.policy.blocks@);
    let at = 3 + loaded.layers@.len() as int;
    assert(rows.subrange(at, at + listed.len()) =~= listed);
}

/// A check of files lists what they make, then everything to look at twice, and calls them valid
/// exactly where nothing is wrong.
pub proof fn a_check_calls_files_valid_where_nothing_is_wrong(
    style: Style,
    loaded: Loaded,
    faults: nat,
    span: Seq<char>,
)
    ensures
        ({
            let rows = checked_rows(style, loaded, faults, span);
            let layers = loaded.layers@.len() as int;
            let warnings = loaded.warnings@;
            let listed = blocks_rows(style, loaded.policy.blocks@);
            let after = layers + 2 + listed.len();
            let noted: int = if warnings.len() > 0 { 1 + warnings.len() as int } else { 0 };
            &&& forall|i: int|
                0 <= i < layers ==> #[trigger] rows[i] == "layer   "@ + loaded.layers@[i]@
            &&& rows[layers] == "min_idle "@ + span
            &&& rows[layers + 1] == ""@
            &&& stands_at(listed, rows, layers + 2)
            &&& forall|i: int|
                0 <= i < warnings.len() ==> #[trigger] rows[after + 1 + i] == "warning: "@ + (
                warnings[i].source@ + ": "@ + warnings[i].location@ + ": "@ + warnings[i].message@)
            &&& warnings.len() > 0 ==> rows[after] == ""@
            &&& faults > 0 ==> rows.len() == after + noted
            &&& faults == 0 ==> rows.len() == after + noted + 2 && rows[after + noted] == ""@
                && rows[after + noted + 1] == decimal(loaded.policy.blocks@.len())
                + " block(s), configuration is valid."@
        }),
        check_style().before == "["@,
        check_style().between == "]  clock = "@,
        check_style().disabled == "  (disabled)"@,
        check_style().indent == "    "@,
{
    let rows = checked_rows(style, loaded, faults, span);
    let listed = blocks_rows(style, loaded.policy.blocks@);
    let at = 2 + loaded.layers@.len() as int;
    assert(rows.subrange(at, at + listed.len()) =~= listed);
}

/// A check of files tells of every fault, in order, and of what the daemon would make of them; it
/// says nothing where nothing is wrong.
pub proof fn a_check_tells_of_every_fault(faults: Seq<ConfigError>, i: int)
    ensures
        faults.len() == 0 ==> wrong_rows(faults).len() == 0,
        faults.len() > 0 ==> {
            let rows = wrong_rows(faults);
            let all = faults.len() as int;
            &&& rows.len() == 4 + all
            &&& rows[0] == ""@
            &&& 0 <= i < faults.len() ==> rows[1 + i] == "fault: "@ + complaint_text(faults[i]@)
            &&& rows[1 + all] == ""@
            &&& rows[2 + all]
                == "The daemon would still run: a faulted file is dropped, not fatal. But it would"@
            &&& rows[3 + all]
                == "hold suspend, hibernate and poweroff until this is fixed. screen_off is unaffected."@
        },
{
    assert(fault_texts(faults).len() == faults.len());
}

// ---- the panel and the names of actions -----------------------------------------------

/// A panel can be darkened where one agent can do it, whatever the others can, and not otherwise.
pub proof fn one_agent_is_enough_to_darken_the_panel(
    agents: Map<Seq<char>, Agent>,
    name: Seq<char>,
    agent: Agent,
)
    ensures
        !some_can_blank(Map::empty()),
        agent.can_blank ==> some_can_blank(agents.insert(name, agent)),
        !agents.contains_key(name) && !agent.can_blank ==> (some_can_blank(
            agents.insert(name, agent),
        ) <==> some_can_blank(agents)),
{
    let more = agents.insert(name, agent);
    assert(more.contains_key(name) && more[name] == agent);
    if !agents.contains_key(name) {
        if some_can_blank(agents) {
            let n = choose|n: Seq<char>|
                #![trigger agents.contains_key(n)]
                agents.contains_key(n) && agents[n].can_blank;
            assert(more.contains_key(n) && more[n] == agents[n]);
        }
        if some_can_blank(more) && !agent.can_blank {
            let n = choose|n: Seq<char>|
                #![trigger more.contains_key(n)]
                more.contains_key(n) && more[n].can_blank;
            assert(agents.contains_key(n) && agents[n] == more[n]);
        }
    }
}

/// A name that is no action's is refused with the name and with all that there are.
pub proof fn a_refusal_names_every_action(shown: &str, r: String)
    requires
        call_ensures(refuse_action, (shown,), r),
    ensures
        r@ == "unknown action "@ + shown@
            + ": expected screen_off, suspend, hibernate or poweroff"@,
{
}

} // verus!
