//! What an explanation of a decision tells, line by line, and by what words evidence is given.
use vstd::prelude::*;

use crate::action::Action;
use crate::block::{Block, Condition};
use crate::clock::ClockOrigin;
use crate::config::document::{unknown_key, wrong_type};
use crate::config::timeout::{formatted, timeout_error_text, TimeoutError};
use crate::counters::{busy_of, Sample, Sampler};
use crate::decision::{ActionResolution, Decision, ImplicitFloor};
use crate::diagnosed::stands_at;
use crate::engine::Engine;
use crate::fact::FactState;
use crate::gpu::{evidence_of, split_of, Held, NvidiaResult};
use crate::lines::unlined;
use crate::process::{has_argument, Process};
use crate::reading::ago_text;
use crate::report::{
    action_rows, all_block_rows, asked_rows, block_rows, blocks_setting, contribution_text,
    explanation, floor_rows, floor_text, origin_in, origin_text, reason_for, resolved_rows,
    unavailable_rows, when_text, won_by_texts,
};
use crate::sessions::{
    blockers, conflicts_of, inhibitor_of, own_action, owned, power_managers, power_words,
    InhibitorEntry, Logind,
};
use crate::steam::{
    download_of, file_count, game_evidence, game_of, hits_text, newest_of, Entry, Staging,
    LAUNCH_SIGNATURE, MICROCOMPOSITOR, SHADER_PRECOMPILE,
};
use crate::text::{decimal, fields, joined, padded};
use crate::time::{between, deadline_text, whole_secs, BootInstant, Deadline, Duration};

verus! {

// ---- an explanation -------------------------------------------------------------------

/// An explanation opens with how long ago the machine was looked at and with the idle time in whole
/// seconds, and then tells of the actions; before the first look it says that there was none.
pub proof fn an_explanation_opens_with_the_last_look(
    engine: Engine,
    decision: Decision,
    only: Option<Action>,
    at: BootInstant,
)
    ensures
        engine.decision is None ==> explanation(engine, only)
            == "no evaluation has completed yet\n"@,
        engine.decision == Some(decision) && engine.last_eval == Some(at) && at.nanos
            <= decision.now.nanos && engine.policy.min_idle.nanos <= u64::MAX ==> explanation(
            engine,
            only,
        ) == unlined(
            seq![
                "evaluated "@ + ago_text(((decision.now.nanos - at.nanos) / 1_000_000_000) as nat),
                "min_idle  "@ + decimal((engine.policy.min_idle.nanos / 1_000_000_000) as nat)
                    + "s"@,
                ""@,
            ] + asked_rows(engine, decision, only, 4),
        ),
{
    if engine.decision == Some(decision) && engine.last_eval == Some(at) && at.nanos
        <= decision.now.nanos && engine.policy.min_idle.nanos <= u64::MAX {
        assert(whole_secs(between(at, decision.now)) == (decision.now.nanos - at.nanos)
            / 1_000_000_000);
        assert(whole_secs(engine.policy.min_idle) == engine.policy.min_idle.nanos / 1_000_000_000);
        let head = seq![
            "evaluated "@ + (match engine.last_eval {
                Some(at) => ago_text(whole_secs(between(at, decision.now))),
                None => "never"@,
            }),
            "min_idle  "@ + decimal(whole_secs(engine.policy.min_idle)) + "s"@,
            ""@,
        ];
        let asked = asked_rows(engine, decision, only, 4);
        assert(explanation(engine, only) == unlined(head + asked));
        assert(head =~= seq![
            "evaluated "@ + ago_text(((decision.now.nanos - at.nanos) / 1_000_000_000) as nat),
            "min_idle  "@ + decimal((engine.policy.min_idle.nanos / 1_000_000_000) as nat) + "s"@,
            ""@,
        ]);
    }
}

/// What is told of an action stands under its name: that the panel cannot be darkened where nothing
/// can, then every block, then what holds back by itself, and last how it was resolved.
pub proof fn an_action_is_explained_under_its_name(engine: Engine, d: Decision, action: Action)
    ensures
        ({
            let rows = action_rows(engine, d, action);
            let missing: int = if action == Action::ScreenOff && !engine.screen_off_available {
                unavailable_rows(engine.policy.blocks@).len() as int
            } else {
                0
            };
            let blocks = all_block_rows(engine, d, action, engine.policy.blocks@);
            let floors = floor_rows(d.of(action).implicit_floors@, engine);
            let resolved = resolved_rows(d.of(action), d.now);
            &&& rows[0] == "\u{2500}\u{2500} "@ + action.text() + " \u{2500}\u{2500}"@
            &&& missing > 0 ==> stands_at(unavailable_rows(engine.policy.blocks@), rows, 1)
            &&& stands_at(blocks, rows, 1 + missing)
            &&& stands_at(floors, rows, 1 + missing + blocks.len())
            &&& stands_at(resolved, rows, 1 + missing + blocks.len() + floors.len())
            &&& rows.len() == 1 + missing + blocks.len() + floors.len() + resolved.len()
        }),
{
    let rows = action_rows(engine, d, action);
    let gap = if action == Action::ScreenOff && !engine.screen_off_available {
        unavailable_rows(engine.policy.blocks@)
    } else {
        Seq::empty()
    };
    let blocks = all_block_rows(engine, d, action, engine.policy.blocks@);
    let floors = floor_rows(d.of(action).implicit_floors@, engine);
    let resolved = resolved_rows(d.of(action), d.now);
    let head = seq!["\u{2500}\u{2500} "@ + action.text() + " \u{2500}\u{2500}"@];
    lemma_five_in_turn(rows, head, gap, blocks, floors, resolved);
}

proof fn lemma_five_in_turn(
    rows: Seq<Seq<char>>,
    head: Seq<Seq<char>>,
    gap: Seq<Seq<char>>,
    blocks: Seq<Seq<char>>,
    floors: Seq<Seq<char>>,
    resolved: Seq<Seq<char>>,
)
    requires
        head.len() == 1,
        rows == head + gap + blocks + floors + resolved,
    ensures
        rows[0] == head[0],
        stands_at(gap, rows, 1),
        stands_at(blocks, rows, 1int + gap.len()),
        stands_at(floors, rows, 1int + gap.len() + blocks.len()),
        stands_at(resolved, rows, 1int + gap.len() + blocks.len() + floors.len()),
        rows.len() == 1 + gap.len() + blocks.len() + floors.len() + resolved.len(),
{
    let at: int = 1 + gap.len() as int;
    assert(rows.subrange(1, at) =~= gap);
    assert(rows.subrange(at, at + blocks.len()) =~= blocks);
    let on: int = at + blocks.len();
    assert(rows.subrange(on, on + floors.len()) =~= floors);
    let end: int = on + floors.len();
    assert(rows.subrange(end, end + resolved.len()) =~= resolved);
}

/// How an action was resolved is told by its floor, its ceiling and its deadline, then by what holds
/// it back, where something does, and with a warning where the ceiling comes before the floor.
pub proof fn a_resolution_is_told_by_its_bounds(r: ActionResolution, now: BootInstant)
    ensures
        ({
            let rows = resolved_rows(r, now);
            let held: int = if won_by_texts(r).len() > 0 { 1 } else { 0 };
            let pulled = match (r.ceiling, r.floor) {
                (Deadline::At(c), Deadline::At(f)) => c.nanos < f.nanos,
                (Deadline::At(_), Deadline::Never) => true,
                (Deadline::Never, _) => false,
            };
            &&& rows[0] == "  ---"@
            &&& rows[1] == "  floor    "@ + deadline_text(r.floor)
            &&& rows[2] == "  ceiling  "@ + deadline_text(r.ceiling)
            &&& rows[3] == "  resolved "@ + deadline_text(r.deadline) + "   "@ + when_text(r, now)
            &&& held == 1 ==> rows[4] == "  held by  "@ + joined(won_by_texts(r), ", "@)
            &&& pulled ==> rows.len() == 5 + held && rows[4 + held]
                == "  WARNING  a ceiling is pulling this action earlier than its floor allows"@
            &&& !pulled ==> rows.len() == 4 + held
        }),
{
}

/// A panel that cannot be darkened is told of with the blocks that are inert on its account, where
/// there are any, and that it holds nothing else back.
pub proof fn a_panel_that_cannot_be_darkened_is_told_of(blocks: Seq<Block>)
    ensures
        ({
            let rows = unavailable_rows(blocks);
            let inert = blocks_setting(blocks, Action::ScreenOff);
            &&& rows[0]
                == "  UNAVAILABLE as an action: no session agent offers a blanking mechanism."@
            &&& inert.len() > 0 ==> rows.len() == 3 && rows[1] == "  inert blocks: "@ + joined(
                inert,
                ", "@,
            )
            &&& inert.len() == 0 ==> rows.len() == 2
            &&& rows.last()
                == "  This raises no veto on anything: an action that is absent is knowledge, not doubt."@
        }),
{
}

/// What holds every sleep back is told of in order: a fact in doubt with its evidence, a fault with
/// where it is.
pub proof fn what_holds_back_by_itself_is_told(
    floors: Seq<ImplicitFloor>,
    engine: Engine,
    i: int,
)
    requires
        0 <= i < floors.len(),
    ensures
        floor_rows(floors, engine).len() == floors.len(),
        floors[i] matches ImplicitFloor::Doubt(fact) ==> {
            &&& engine.readings@.contains_key(fact) ==> floor_rows(floors, engine)[i]
                == "  implicit floor: never   "@ + (fact.text() + " is indeterminate: "@
                + engine.readings@[fact].detail@)
            &&& !engine.readings@.contains_key(fact) ==> floor_rows(floors, engine)[i]
                == "  implicit floor: never   "@ + (fact.text() + " is indeterminate: "@
                + Seq::empty())
        },
        floors[i] matches ImplicitFloor::ConfigFault(index) ==> floor_rows(floors, engine)[i]
            == "  implicit floor: never   "@ + floor_text(floors[i], engine.policy),
{
}

/// A clock that runs is told by when it started, in whole seconds since boot, and how long ago that
/// was; one that has not started and one that cannot be read are told apart.
pub proof fn a_clock_is_told_by_when_it_started(at: BootInstant, now: BootInstant)
    requires
        at.nanos <= now.nanos,
    ensures
        origin_text(ClockOrigin::At(at), now) == " origin=+"@ + decimal(
            (at.nanos / 1_000_000_000) as nat,
        ) + "s ("@ + ago_text(((now.nanos - at.nanos) / 1_000_000_000) as nat) + ")"@,
        origin_text(ClockOrigin::NotYet, now) == " origin=not yet this boot"@,
        origin_text(ClockOrigin::Unreadable, now)
            == " origin=UNREADABLE (the detector feeding this clock is faulted)"@,
{
}

/// A block is told of by its name and what is known of its condition: that it says nothing of the
/// action, or its wait and its clock, and, where it is switched on, since when the clock runs and
/// what it contributes. Evidence is added where its fact is in doubt or not there.
pub proof fn a_block_is_explained_by_its_wait_and_clock(
    engine: Engine,
    d: Decision,
    action: Action,
    block: Block,
)
    ensures
        ({
            let rows = block_rows(engine, d, action, block);
            let state = match block.id.condition {
                Condition::Always => FactState::True,
                Condition::Fact(fact) => if engine.readings@.contains_key(fact) {
                    engine.readings@[fact].state
                } else {
                    FactState::Unavailable
                },
            };
            let head = "  "@ + padded(block.id.text(), 28) + " "@ + padded(state.text(), 14);
            let said = match action {
                Action::ScreenOff => block.timeouts.screen_off,
                Action::Suspend => block.timeouts.suspend,
                Action::Hibernate => block.timeouts.hibernate,
                Action::PowerOff => block.timeouts.poweroff,
            };
            &&& said is None ==> rows.len() == 1 && rows[0] == head + " does not participate in "@
                + action.text()
            &&& said matches Some(timeout) ==> {
                let line = head + " "@ + padded(formatted(timeout), 9) + " clock="@ + padded(
                    block.clock.text(),
                    10,
                );
                &&& !block.enabled ==> rows.len() == 1 && rows[0] == line + " (disabled)"@
                &&& block.enabled ==> rows[0] == line + origin_text(
                    origin_in(engine, block),
                    d.now,
                ) + contribution_text(reason_for(d.of(action).reasons@, block.id))
                &&& block.enabled && (state == FactState::True || state == FactState::False)
                    ==> rows.len() == 1
                &&& block.enabled && state == FactState::Indeterminate
                    && block.id.condition is Fact ==> {
                    let detail = engine.readings@[block.id.condition->Fact_0].detail@;
                    detail.len() > 0 ==> rows.len() == 2 && rows[1] == "  "@ + padded(""@, 28)
                        + "   "@ + detail
                }
            }
        }),
{
    assert(block.timeouts.of(action) == match action {
        Action::ScreenOff => block.timeouts.screen_off,
        Action::Suspend => block.timeouts.suspend,
        Action::Hibernate => block.timeouts.hibernate,
        Action::PowerOff => block.timeouts.poweroff,
    });
}

/// An explanation leaves out no block: one more block adds its own lines after all others.
pub proof fn an_explanation_leaves_out_no_block(
    engine: Engine,
    d: Decision,
    action: Action,
    blocks: Seq<Block>,
    more: Block,
)
    ensures
        all_block_rows(engine, d, action, Seq::empty()).len() == 0,
        stands_at(
            all_block_rows(engine, d, action, blocks),
            all_block_rows(engine, d, action, blocks.push(more)),
            0,
        ),
        stands_at(
            block_rows(engine, d, action, more),
            all_block_rows(engine, d, action, blocks.push(more)),
            all_block_rows(engine, d, action, blocks).len() as int,
        ),
        all_block_rows(engine, d, action, blocks.push(more)).len() == all_block_rows(
            engine,
            d,
            action,
            blocks,
        ).len() + block_rows(engine, d, action, more).len(),
{
    assert(blocks.push(more).drop_last() =~= blocks);
    let had = all_block_rows(engine, d, action, blocks);
    let own = block_rows(engine, d, action, more);
    let rows = all_block_rows(engine, d, action, blocks.push(more));
    assert(rows.subrange(0, had.len() as int) =~= had);
    assert(rows.subrange(had.len() as int, had.len() as int + own.len()) =~= own);
}

// ---- graphics memory ------------------------------------------------------------------

/// One more process is told of exactly where it counts, with its name, its number and how many whole
/// MiB it holds; what is told of the others stays.
pub proof fn a_holder_is_told_in_whole_mib(
    holders: Seq<Held>,
    h: Held,
    mib: u64,
    rest: u64,
    game: bool,
    procs: Seq<Process>,
    pids: Seq<u32>,
    playing: bool,
    serving: bool,
    system: Seq<u32>,
)
    requires
        h.bytes == mib * 1_048_576 + rest,
        rest < 1_048_576,
    ensures
        ({
            let before = evidence_of(holders, game, procs, pids, playing, serving, system);
            let after = evidence_of(holders.push(h), game, procs, pids, playing, serving, system);
            ||| after == before
            ||| mib >= 512 && after == before.push(
                h.name + " (pid "@ + decimal(h.pid as nat) + ", "@ + decimal(mib as nat)
                    + " MiB)"@,
            )
        }),
{
    assert(holders.push(h).drop_last() =~= holders);
}

/// That nothing counts is told with what was looked for and with every source that answered.
pub proof fn sources_that_answered_are_named(
    procs: Seq<Process>,
    reported: Seq<Held>,
    nvidia: NvidiaResult,
    pids: Seq<u32>,
    playing: bool,
    service: FactState,
    system: Seq<u32>,
)
    requires
        procs.len() > 0,
        nvidia !is Failed,
        reported.len() > 0 || nvidia is Holders,
    ensures
        ({
            let (game, other) = split_of(
                procs,
                reported,
                nvidia,
                pids,
                playing,
                service,
                system,
            );
            let source = if reported.len() == 0 {
                "nvidia-smi"@
            } else if nvidia is Absent {
                "DRM fdinfo via the session agent"@
            } else {
                "DRM fdinfo via the session agent"@ + " + "@ + "nvidia-smi"@
            };
            &&& game.0 == FactState::False ==> game.1 == "no process over 512 MiB "@
                + "attributable to a running game"@ + " ("@ + source + ")"@
            &&& other.0 == FactState::False ==> other.1 == "no process over 512 MiB "@
                + "not attributable to a game"@ + " ("@ + source + ")"@
            &&& game.0 == FactState::True ==> exists|told: Seq<Seq<char>>|
                told.len() > 0 && game.1 == #[trigger] joined(told, "; "@) + " ["@ + source + "]"@
            &&& other.0 == FactState::True ==> exists|told: Seq<Seq<char>>|
                told.len() > 0 && other.1 == #[trigger] joined(told, "; "@) + " ["@ + source
                    + "]"@
        }),
{
}

// ---- games and other owners -----------------------------------------------------------

/// A game is told of by how many processes show it and by the number of the first of them, each of
/// the three signs by its own name.
pub proof fn a_game_is_told_of_by_its_first_process(procs: Seq<Process>, hits: Seq<Process>)
    ensures
        hits.len() == 0 ==> hits_text("a game"@, hits).len() == 0,
        hits.len() > 0 ==> hits_text("a game"@, hits) == seq![
            "a game"@ + " ("@ + decimal(hits.len()) + " process(es), pid "@ + decimal(
                hits.first().pid as nat,
            ) + ")"@,
        ],
        ({
            let games = procs.filter(has_argument(LAUNCH_SIGNATURE@));
            let boxes = procs.filter(has_argument(MICROCOMPOSITOR@));
            let shaders = procs.filter(has_argument(SHADER_PRECOMPILE@));
            let a: int = if games.len() > 0 { 1 } else { 0 };
            let b: int = if boxes.len() > 0 { 1 } else { 0 };
            let told = game_evidence(procs);
            &&& games.len() > 0 ==> told[0] == "a game"@ + " ("@ + decimal(games.len())
                + " process(es), pid "@ + decimal(games.first().pid as nat) + ")"@
            &&& boxes.len() > 0 ==> told[a] == "the microcompositor"@ + " ("@ + decimal(boxes.len())
                + " process(es), pid "@ + decimal(boxes.first().pid as nat) + ")"@
            &&& shaders.len() > 0 ==> told[a + b] == "shader precompilation"@ + " ("@ + decimal(
                shaders.len(),
            ) + " process(es), pid "@ + decimal(shaders.first().pid as nat) + ")"@
        }),
        game_of(true, procs).0 == FactState::True ==> game_of(true, procs).1 == joined(
            game_evidence(procs),
            ", "@,
        ),
        procs.len() > 0 ==> game_of(false, procs) == (
            FactState::Unavailable,
            "Steam is not installed"@,
        ),
        procs.len() == 0 ==> game_of(true, procs) == (
            FactState::Indeterminate,
            "/proc could not be read"@,
        ),
{
}

/// A download is told of by its newest file, how long ago that was written, and how many files there
/// are; one that has stopped by its newest file and the window.
pub proof fn a_download_is_told_of_by_its_newest_file(
    path: String,
    entries: Vec<Entry>,
    window: Duration,
    now: i128,
    name: Seq<char>,
    written: i128,
    more: Entry,
)
    requires
        newest_of(entries@) == Some((name, written)),
        0 <= written <= now <= u64::MAX,
        window.nanos <= u64::MAX,
    ensures
        ({
            let told = download_of(Staging::Walked(path, entries), Some(window), now);
            let ago = ago_text(((now - written) / 1_000_000_000) as nat);
            &&& told.0 == FactState::True ==> told.1 == name + " written "@ + ago + " ("@ + decimal(
                file_count(entries@),
            ) + " file(s) in the staging tree)"@
            &&& told.0 == FactState::False ==> told.1 == "newest staging file "@ + name + " is "@
                + ago + " (window "@ + decimal((window.nanos / 1_000_000_000) as nat) + "s)"@
        }),
        file_count(Seq::empty()) == 0,
        more is File ==> file_count(entries@.push(more)) == file_count(entries@) + 1,
        more is Unreadable ==> file_count(entries@.push(more)) == file_count(entries@),
{
    assert(entries@.push(more).drop_last() =~= entries@);
    assert(whole_secs(window) == window.nanos / 1_000_000_000);
    assert(whole_secs(Duration { nanos: (now - written) as u128 }) == (now - written)
        / 1_000_000_000);
}

/// Another owner of the machine is told of by name: the login manager with what it would do and after
/// how many whole seconds, and a power manager by the name that it owns.
pub proof fn another_owner_is_told_of_by_name(
    action: String,
    usec: u64,
    names: Seq<Seq<char>>,
    procs: Seq<Process>,
)
    requires
        action@ != "ignore"@,
        usec != u64::MAX,
    ensures
        conflicts_of(Some((action, usec)), names, procs)[0] == "logind IdleAction="@ + action@
            + " after "@ + decimal((usec / 1_000_000) as nat) + "s -- logind will act on its own"@,
        names.contains("org.freedesktop.ScreenSaver"@) ==> owned(power_managers(), names).last()
            == "org.freedesktop.ScreenSaver"@ + " is owned -- a desktop power manager is running"@,
{
    let own = own_action(Some((action, usec)));
    assert(own.len() == 1);
    assert(power_managers().last() == "org.freedesktop.ScreenSaver"@);
}

/// What blocks sleep is told with the words that block it and with everybody who does, each with the
/// user and the process; a block of something else is told as such.
pub proof fn who_blocks_sleep_is_told_by_name(
    list: Seq<InhibitorEntry>,
    more: InhibitorEntry,
    blocked: String,
    entries: Vec<InhibitorEntry>,
)
    ensures
        blockers(Seq::empty()).len() == 0,
        blockers(list.push(more)) == blockers(list) || blockers(list.push(more)) == blockers(
            list,
        ).push(
            more.who@ + " (uid "@ + decimal(more.uid as nat) + ", pid "@ + decimal(more.pid as nat)
                + "): "@ + more.why@ + " ["@ + more.what@ + "]"@,
        ),
        more.mode@ != "block"@ ==> blockers(list.push(more)) == blockers(list),
        ({
            let told = inhibitor_of(Logind::Answered(blocked), Some(entries));
            let words = joined(power_words(fields(blocked@, ':')), "+"@);
            let who = joined(blockers(entries@), "; "@);
            &&& told.0 == FactState::True && who.len() > 0 ==> told.1 == "block inhibitor on "@
                + words + ": "@ + who
            &&& told.0 == FactState::True && who.len() == 0 ==> told.1 == "block inhibitor on "@
                + words
            &&& told.0 == FactState::False && blocked@.len() > 0 ==> told.1
                == "block inhibitors present but not on sleep/shutdown: "@ + blocked@
            &&& told.0 == FactState::False && blocked@.len() == 0 ==> told.1
                == "no block inhibitor"@
        }),
{
    assert(list.push(more).drop_last() =~= list);
}

/// A service at work is told of by how many requests it has, and else by how long ago its counters
/// moved and by its window, in whole seconds.
pub proof fn a_service_is_told_of_by_its_requests(
    after: Sampler,
    sample: Sample,
    window: Duration,
    now: BootInstant,
    moved: BootInstant,
)
    requires
        after.last_movement == Some(moved),
        moved.nanos <= now.nanos,
        window.nanos <= u64::MAX,
    ensures
        ({
            let told = busy_of(after, sample, window, now);
            let ago = ago_text(((now.nanos - moved.nanos) / 1_000_000_000) as nat);
            let limit = " (idle window "@ + decimal((window.nanos / 1_000_000_000) as nat) + "s)"@;
            &&& sample.in_flight > 0 ==> told.1 == decimal(sample.in_flight as nat)
                + " request(s) in flight"@
            &&& sample.in_flight == 0 && told.0 == FactState::True ==> told.1
                == "counters last moved "@ + ago + limit
            &&& told.0 == FactState::False ==> told.1 == "no counter has moved for "@ + ago + limit
        }),
{
    assert(whole_secs(window) == window.nanos / 1_000_000_000);
    assert(whole_secs(between(moved, now)) == (now.nanos - moved.nanos) / 1_000_000_000);
}

// ---- what is wrong with a file --------------------------------------------------------

/// What is wrong with a timeout is told apart.
pub proof fn what_is_wrong_with_a_timeout_is_told(unit: char)
    ensures
        timeout_error_text(TimeoutError::Empty) == "empty value"@,
        timeout_error_text(TimeoutError::MissingUnit)
            == "missing unit: write \"30s\", \"10m\", \"2h\", \"1d\" or \"0s\", not a bare number"@,
        timeout_error_text(TimeoutError::MissingNumber) == "unit with no number in front of it"@,
        timeout_error_text(TimeoutError::UnknownUnit(unit)) == "unknown unit '"@.push(unit)
            + "': valid units are s, m, h, d, and the only sentinel is the exact lower-case \"never\""@,
        timeout_error_text(TimeoutError::Overflow) == "value too large"@,
        timeout_error_text(TimeoutError::NeverNotAllowed)
            == "\"never\" is not allowed here; a finite duration is required"@,
{
}

/// A key that there is none of, and a value of a wrong type, are told with the whole path of the key
/// and with what is right in its place.
pub proof fn a_wrong_key_is_told_with_its_path(
    path: Seq<char>,
    key: Seq<char>,
    at: usize,
    right: Seq<char>,
)
    ensures
        unknown_key(path, key, at, right).at == at,
        unknown_key(path, key, at, right).message == "unknown key \""@ + path + key
            + "\". Valid keys are: "@ + right,
        wrong_type(path, key, at, right).at == at,
        wrong_type(path, key, at, right).message == "the value of \""@ + path + key
            + "\" has the wrong type: expected "@ + right,
{
}

} // verus!
