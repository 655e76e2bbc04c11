//! Which files are kept and which are dropped, what is said of either, and where.
use vstd::prelude::*;

use super::document::{
    chars_before, counted, digit_of, file_of_text, line_ends, place, whole, Source,
};
use super::error::{complaints, records, Complaint, ConfigError, Problem};
use super::load::{
    all_problems, block_fine, block_notices, blocks_problems, duration_problems,
    fact_notices, fact_problems, facts_problems, file_problems, kept, kept_labels, key_problems,
    layer_problems, layers_of, lemma_block_fine, listable, loads, LayerKeys, Loaded,
};
use super::meaning::{block_makes_no_sense, is_called};
use super::section::{keys_of, keys_set, BlockKeys, FactKeys, FileKeys, Written};
use super::timeout::timeout_of;
use crate::action::Action;
use crate::block::{BlockKind, Condition};
use crate::clock::Clock;
use crate::fact::FactId;
use crate::names::in_order;
use crate::spelling::lacks;
use crate::text::{decimal, is_digit, lemma_decimal_reads_back};
use crate::time::Timeout;

verus! {

/// Whether something written is a span that ends.
pub open spec fn ends(written: Written) -> bool {
    written matches Written::Text(text) && timeout_of(text) matches Ok(Timeout::After(_))
}

/// Whether the table of a fact makes sense: there is such a fact, it has the keys that are set, and its
/// spans end.
pub open spec fn fact_makes_sense(name: Seq<char>, keys: FactKeys) -> bool {
    &&& exists|f: FactId| #[trigger] is_called(Condition::Fact(f), name)
    &&& keys.counters_url is Some ==> name == "local_service_busy"@
    &&& keys.idle_window matches Some(w) ==> name == "local_service_busy"@ && ends(w)
    &&& keys.steam_root is Some ==> name == "steam_game_running"@ || name == "steam_downloading"@
    &&& keys.window matches Some(w) ==> name == "steam_downloading"@ && ends(w)
}

proof fn lemma_block_sense(name: Seq<char>, keys: BlockKeys)
    ensures
        block_fine(name, keys) <==> !block_makes_no_sense(name, keys),
{
    assert(keys.of(Action::ScreenOff) == keys.screen_off);
    assert(keys.of(Action::Suspend) == keys.suspend);
    assert(keys.of(Action::Hibernate) == keys.hibernate);
    assert(keys.of(Action::PowerOff) == keys.poweroff);
    let called = exists|c: Condition| is_called(c, name);
    if called {
        let c = choose|c: Condition| is_called(c, name);
        assert(is_called(c, name));
        match c {
            Condition::Always => {},
            Condition::Fact(f) => {
                assert(f.text() == name);
            },
        }
        assert(c.text() == name);
        assert(Condition::named(name) is Some);
    }
    if Condition::named(name) is Some {
        let c = choose|c: Condition| #[trigger] c.text() == name;
        assert(c.text() == name);
        match c {
            Condition::Always => {},
            Condition::Fact(f) => {
                assert(f.text() == name);
            },
        }
        assert(is_called(c, name));
    }
    if let Some(raw) = keys.clock {
        if Clock::named(raw) is Some {
            let c = choose|c: Clock| #[trigger] c.text() == raw;
            assert(c.text() == raw);
        }
        if raw == "human_input"@ {
            assert(Clock::HumanInput.text() == raw);
        } else if raw == "resume"@ {
            assert(Clock::Resume.text() == raw);
        } else if raw == "condition"@ {
            assert(Clock::ConditionEdge.text() == raw);
        } else if raw == "boot"@ {
            assert(Clock::Boot.text() == raw);
        }
    }
    if !block_makes_no_sense(name, keys) {
        assert forall|action: Action| (#[trigger] keys.of(action)) is Some implies
            super::section::written_timeout(keys.of(action)->Some_0) is Ok by {
            match action {
                Action::ScreenOff => {},
                Action::Suspend => {},
                Action::Hibernate => {},
                Action::PowerOff => {},
            }
        }
    }
}

proof fn lemma_blocks_sense(
    label: Seq<char>,
    kind: BlockKind,
    tables: Map<Seq<char>, BlockKeys>,
    names: Seq<Seq<char>>,
)
    ensures
        blocks_problems(label, kind, tables, names).len() == 0 <==> forall|i: int|
            0 <= i < names.len() ==> !block_makes_no_sense(#[trigger] names[i], tables[names[i]]),
    decreases names.len(),
{
    if names.len() > 0 {
        let fewer = names.drop_last();
        let last = names[names.len() - 1];
        assert(last == names.last());
        lemma_blocks_sense(label, kind, tables, fewer);
        lemma_block_fine(label, kind, last, tables[last]);
        lemma_block_sense(last, tables[last]);
        assert forall|i: int| 0 <= i < fewer.len() implies #[trigger] fewer[i] == names[i] by {}
        let all = forall|i: int|
            0 <= i < names.len() ==> !block_makes_no_sense(#[trigger] names[i], tables[names[i]]);
        let most = forall|i: int|
            0 <= i < fewer.len() ==> !block_makes_no_sense(#[trigger] fewer[i], tables[fewer[i]]);
        if all {
            assert forall|i: int| 0 <= i < fewer.len() implies !block_makes_no_sense(
                #[trigger] fewer[i],
                tables[fewer[i]],
            ) by {
                assert(!block_makes_no_sense(names[i], tables[names[i]]));
            }
            assert(!block_makes_no_sense(names[names.len() - 1], tables[last]));
        }
        if most && !block_makes_no_sense(last, tables[last]) {
            assert forall|i: int| 0 <= i < names.len() implies !block_makes_no_sense(
                #[trigger] names[i],
                tables[names[i]],
            ) by {
                if i < fewer.len() {
                    assert(!block_makes_no_sense(fewer[i], tables[fewer[i]]));
                }
            }
        }
    }
}

proof fn lemma_key_problems(label: Seq<char>, path: Seq<char>, fact: FactId, keys: Seq<Seq<char>>)
    ensures
        key_problems(label, path, fact, keys).len() == 0 <==> forall|i: int|
            0 <= i < keys.len() ==> keys_of(fact).contains(#[trigger] keys[i]),
    decreases keys.len(),
{
    if keys.len() > 0 {
        let fewer = keys.drop_last();
        lemma_key_problems(label, path, fact, fewer);
        assert forall|i: int| 0 <= i < fewer.len() implies #[trigger] fewer[i] == keys[i] by {}
        assert(keys[keys.len() - 1] == keys.last());
        let all = forall|i: int| 0 <= i < keys.len() ==> keys_of(fact).contains(#[trigger] keys[i]);
        let most = forall|i: int| 0 <= i < fewer.len() ==> keys_of(fact).contains(#[trigger] fewer[i]);
        if all {
            assert forall|i: int| 0 <= i < fewer.len() implies keys_of(fact).contains(
                #[trigger] fewer[i],
            ) by {
                assert(keys_of(fact).contains(keys[i]));
            }
        }
        if most && keys_of(fact).contains(keys.last()) {
            assert forall|i: int| 0 <= i < keys.len() implies keys_of(fact).contains(
                #[trigger] keys[i],
            ) by {
                if i < fewer.len() {
                    assert(keys_of(fact).contains(fewer[i]));
                }
            }
        }
    }
}

proof fn lemma_key_names()
    ensures
        "counters_url"@ != "idle_window"@,
        "counters_url"@ != "steam_root"@,
        "counters_url"@ != "window"@,
        "idle_window"@ != "steam_root"@,
        "idle_window"@ != "window"@,
        "steam_root"@ != "window"@,
        "local_service_busy"@ != "steam_game_running"@,
        "local_service_busy"@ != "steam_downloading"@,
        "steam_game_running"@ != "steam_downloading"@,
{
    reveal_strlit("counters_url");
    reveal_strlit("idle_window");
    reveal_strlit("steam_root");
    reveal_strlit("window");
    reveal_strlit("local_service_busy");
    reveal_strlit("steam_game_running");
    reveal_strlit("steam_downloading");
    assert("counters_url"@[0] == 'c');
    assert("idle_window"@[0] == 'i');
    assert("steam_root"@[0] == 's');
    assert("window"@[0] == 'w');
    assert("local_service_busy"@[0] == 'l');
    assert("steam_game_running"@[0] == 's' && "steam_game_running"@[6] == 'g');
    assert("steam_downloading"@[0] == 's' && "steam_downloading"@[6] == 'd');
}

/// Which facts have a key besides whether they are read.
spec fn has_key(fact: FactId, key: Seq<char>) -> bool {
    ||| fact == FactId::LocalServiceBusy && (key == "counters_url"@ || key == "idle_window"@)
    ||| fact == FactId::SteamGameRunning && key == "steam_root"@
    ||| fact == FactId::SteamDownloading && (key == "steam_root"@ || key == "window"@)
}

proof fn lemma_has_key(fact: FactId, key: Seq<char>)
    ensures
        keys_of(fact).contains(key) <==> has_key(fact, key),
{
    let all = keys_of(fact);
    if all.contains(key) {
        let i = choose|i: int| 0 <= i < all.len() && all[i] == key;
        assert(all[i] == key);
    }
    match fact {
        FactId::LocalServiceBusy => {
            assert(all[0] == "counters_url"@ && all[1] == "idle_window"@);
        },
        FactId::SteamGameRunning => {
            assert(all[0] == "steam_root"@);
        },
        FactId::SteamDownloading => {
            assert(all[0] == "steam_root"@ && all[1] == "window"@);
        },
        _ => {},
    }
}

proof fn lemma_fact_sense(label: Seq<char>, name: Seq<char>, keys: FactKeys)
    ensures
        fact_problems(label, name, keys).len() == 0 <==> fact_makes_sense(name, keys),
{
    lemma_key_names();
    let path = "facts."@ + name;
    if exists|f: FactId| #[trigger] is_called(Condition::Fact(f), name) {
        let f = choose|f: FactId| #[trigger] is_called(Condition::Fact(f), name);
        assert(f.text() == name);
        assert(FactId::named(name) is Some);
    }
    match FactId::named(name) {
        None => {},
        Some(fact) => {
            let witness = choose|f: FactId| #[trigger] f.text() == name;
            assert(fact.text() == name);
            assert(is_called(Condition::Fact(fact), name));
            if name == "local_service_busy"@ {
                crate::fact::fact_names_are_distinct(fact, FactId::LocalServiceBusy);
            }
            if name == "steam_game_running"@ {
                crate::fact::fact_names_are_distinct(fact, FactId::SteamGameRunning);
            }
            if name == "steam_downloading"@ {
                crate::fact::fact_names_are_distinct(fact, FactId::SteamDownloading);
            }
            assert(fact == FactId::LocalServiceBusy <==> name == "local_service_busy"@);
            assert(fact == FactId::SteamGameRunning <==> name == "steam_game_running"@);
            assert(fact == FactId::SteamDownloading <==> name == "steam_downloading"@);
            let set = keys_set(keys);
            lemma_key_problems(label, path, fact, set);
            lemma_has_key(fact, "counters_url"@);
            lemma_has_key(fact, "idle_window"@);
            lemma_has_key(fact, "steam_root"@);
            lemma_has_key(fact, "window"@);
            let a: int = if keys.counters_url is Some { 1 } else { 0 };
            let b: int = if keys.idle_window is Some { 1 } else { 0 };
            let c: int = if keys.steam_root is Some { 1 } else { 0 };
            if keys.counters_url is Some {
                assert(set[0] == "counters_url"@);
            }
            if keys.idle_window is Some {
                assert(set[a] == "idle_window"@);
            }
            if keys.steam_root is Some {
                assert(set[a + b] == "steam_root"@);
            }
            if keys.window is Some {
                assert(set[a + b + c] == "window"@);
            }
            assert forall|i: int| 0 <= i < set.len() implies {
                ||| #[trigger] set[i] == "counters_url"@ && keys.counters_url is Some
                ||| set[i] == "idle_window"@ && keys.idle_window is Some
                ||| set[i] == "steam_root"@ && keys.steam_root is Some
                ||| set[i] == "window"@ && keys.window is Some
            } by {}
            let x = key_problems(label, path, fact, set);
            let y = duration_problems(label, path + ".idle_window"@, keys.idle_window);
            let z = duration_problems(label, path + ".window"@, keys.window);
            assert(fact_problems(label, name, keys).len() == x.len() + y.len() + z.len());
        },
    }
}

proof fn lemma_facts_sense(
    label: Seq<char>,
    tables: Map<Seq<char>, FactKeys>,
    names: Seq<Seq<char>>,
)
    ensures
        facts_problems(label, tables, names).len() == 0 <==> forall|i: int|
            0 <= i < names.len() ==> fact_makes_sense(#[trigger] names[i], tables[names[i]]),
    decreases names.len(),
{
    if names.len() > 0 {
        let fewer = names.drop_last();
        let last = names[names.len() - 1];
        assert(last == names.last());
        lemma_facts_sense(label, tables, fewer);
        lemma_fact_sense(label, last, tables[last]);
        assert forall|i: int| 0 <= i < fewer.len() implies #[trigger] fewer[i] == names[i] by {}
        let all = forall|i: int|
            0 <= i < names.len() ==> fact_makes_sense(#[trigger] names[i], tables[names[i]]);
        let most = forall|i: int|
            0 <= i < fewer.len() ==> fact_makes_sense(#[trigger] fewer[i], tables[fewer[i]]);
        if all {
            assert forall|i: int| 0 <= i < fewer.len() implies fact_makes_sense(
                #[trigger] fewer[i],
                tables[fewer[i]],
            ) by {
                assert(fact_makes_sense(names[i], tables[names[i]]));
            }
            assert(fact_makes_sense(names[names.len() - 1], tables[last]));
        }
        if most && fact_makes_sense(last, tables[last]) {
            assert forall|i: int| 0 <= i < names.len() implies fact_makes_sense(
                #[trigger] names[i],
                tables[names[i]],
            ) by {
                if i < fewer.len() {
                    assert(fact_makes_sense(fewer[i], tables[fewer[i]]));
                }
            }
        }
    }
}

/// A file that could be read is kept exactly where all of it makes sense: the idle time is a span that
/// ends, and each table of a block and of a fact makes sense. It is dropped for anything less, and for
/// nothing else.
pub proof fn a_file_is_kept_where_all_of_it_makes_sense(layer: LayerKeys, file: FileKeys)
    requires
        layer.parsed == Ok::<FileKeys, Complaint>(file),
        listable(file),
    ensures
        kept(layer) <==> {
            &&& file.min_idle matches Some(w) ==> ends(w)
            &&& forall|n: Seq<char>| #[trigger]
                file.while_blocks.contains_key(n) ==> !block_makes_no_sense(n, file.while_blocks[n])
            &&& forall|n: Seq<char>| #[trigger]
                file.when.contains_key(n) ==> !block_makes_no_sense(n, file.when[n])
            &&& forall|n: Seq<char>| #[trigger]
                file.facts.contains_key(n) ==> fact_makes_sense(n, file.facts[n])
        },
{
    let whiles = in_order(file.while_blocks.dom());
    let whens = in_order(file.when.dom());
    let facts = in_order(file.facts.dom());
    let label = layer.label;
    lemma_blocks_sense(label, BlockKind::While, file.while_blocks, whiles);
    lemma_blocks_sense(label, BlockKind::When, file.when, whens);
    lemma_facts_sense(label, file.facts, facts);
    let a = duration_problems(label, "general.min_idle"@, file.min_idle);
    let b = facts_problems(label, file.facts, facts);
    let c = blocks_problems(label, BlockKind::While, file.while_blocks, whiles);
    let d = blocks_problems(label, BlockKind::When, file.when, whens);
    assert(file_problems(label, file).len() == a.len() + b.len() + c.len() + d.len());
    assert forall|n: Seq<char>| #[trigger] file.while_blocks.contains_key(n) <==> whiles.contains(
        n,
    ) by {
        assert(file.while_blocks.dom().contains(n) <==> whiles.contains(n));
    }
    assert forall|n: Seq<char>| #[trigger] file.when.contains_key(n) <==> whens.contains(n) by {
        assert(file.when.dom().contains(n) <==> whens.contains(n));
    }
    assert forall|n: Seq<char>| #[trigger] file.facts.contains_key(n) <==> facts.contains(n) by {
        assert(file.facts.dom().contains(n) <==> facts.contains(n));
    }
    if c.len() == 0 {
        assert forall|n: Seq<char>| #[trigger]
            file.while_blocks.contains_key(n) implies !block_makes_no_sense(
            n,
            file.while_blocks[n],
        ) by {
            let i = choose|i: int| 0 <= i < whiles.len() && whiles[i] == n;
            assert(!block_makes_no_sense(whiles[i], file.while_blocks[whiles[i]]));
        }
    }
    if d.len() == 0 {
        assert forall|n: Seq<char>| #[trigger]
            file.when.contains_key(n) implies !block_makes_no_sense(n, file.when[n]) by {
            let i = choose|i: int| 0 <= i < whens.len() && whens[i] == n;
            assert(!block_makes_no_sense(whens[i], file.when[whens[i]]));
        }
    }
    if b.len() == 0 {
        assert forall|n: Seq<char>| #[trigger]
            file.facts.contains_key(n) implies fact_makes_sense(n, file.facts[n]) by {
            let i = choose|i: int| 0 <= i < facts.len() && facts[i] == n;
            assert(fact_makes_sense(facts[i], file.facts[facts[i]]));
        }
    }
    if forall|n: Seq<char>| #[trigger]
        file.while_blocks.contains_key(n) ==> !block_makes_no_sense(n, file.while_blocks[n]) {
        assert forall|i: int| 0 <= i < whiles.len() implies !block_makes_no_sense(
            #[trigger] whiles[i],
            file.while_blocks[whiles[i]],
        ) by {
            assert(whiles.contains(whiles[i]));
            assert(file.while_blocks.contains_key(whiles[i]));
        }
    }
    if forall|n: Seq<char>| #[trigger]
        file.when.contains_key(n) ==> !block_makes_no_sense(n, file.when[n]) {
        assert forall|i: int| 0 <= i < whens.len() implies !block_makes_no_sense(
            #[trigger] whens[i],
            file.when[whens[i]],
        ) by {
            assert(whens.contains(whens[i]));
            assert(file.when.contains_key(whens[i]));
        }
    }
    if forall|n: Seq<char>| #[trigger]
        file.facts.contains_key(n) ==> fact_makes_sense(n, file.facts[n]) {
        assert forall|i: int| 0 <= i < facts.len() implies fact_makes_sense(
            #[trigger] facts[i],
            file.facts[facts[i]],
        ) by {
            assert(facts.contains(facts[i]));
            assert(file.facts.contains_key(facts[i]));
        }
    }
}

/// A further layer is named where it is kept, and complains of what is wrong with it where it is not,
/// after all those before it.
pub proof fn a_layer_is_named_or_complains(layers: Seq<LayerKeys>, more: LayerKeys)
    ensures
        kept(more) ==> kept_labels(layers.push(more)) == kept_labels(layers).push(more.label)
            && all_problems(layers.push(more)) == all_problems(layers),
        !kept(more) ==> kept_labels(layers.push(more)) == kept_labels(layers) && all_problems(
            layers.push(more),
        ).len() > all_problems(layers).len() && all_problems(layers).is_prefix_of(
            all_problems(layers.push(more)),
        ),
        more.parsed matches Err(complaint) ==> all_problems(layers.push(more)) == all_problems(
            layers,
        ).push(complaint),
{
    assert(layers.push(more).drop_last() =~= layers);
    let before = all_problems(layers);
    let own = layer_problems(more);
    if kept(more) {
        assert(before + own =~= before);
    } else {
        assert(before =~= (before + own).subrange(0, before.len() as int));
    }
    if let Err(complaint) = more.parsed {
        assert(before + own =~= before.push(complaint));
    }
}

/// A block is warned of exactly where it takes part and does nothing, and where it takes part and is a
/// ceiling, each once and at the block. A fact is warned of where it is not read, and a local service
/// once more where it is asked for without an address.
pub proof fn what_to_look_at_twice_is_warned_of(
    label: Seq<char>,
    kind: BlockKind,
    name: Seq<char>,
    keys: BlockKeys,
    fact: FactId,
    settings: FactKeys,
    i: int,
)
    ensures
        ({
            let on = keys.enabled != Some(false);
            let silent = keys.screen_off is None && keys.suspend is None && keys.hibernate is None
                && keys.poweroff is None;
            let rows = block_notices(label, kind, name, keys);
            &&& rows.len() == (if on && silent {
                1int
            } else {
                0
            }) + (if on && kind == BlockKind::When {
                1int
            } else {
                0
            })
            &&& 0 <= i < rows.len() ==> rows[i].source == label && rows[i].location == kind.text()
                + "."@ + name
        }),
        ({
            let rows = fact_notices(label, fact.text(), settings);
            let service = fact == FactId::LocalServiceBusy;
            let read = if service {
                settings.enabled != Some(false) && settings.counters_url is Some
            } else {
                settings.enabled != Some(false)
            };
            &&& rows.len() == (if read {
                0int
            } else if service && settings.enabled == Some(true) {
                2
            } else {
                1
            })
            &&& 0 <= i < rows.len() ==> rows[i].source == label
        }),
{
    crate::fact::lemma_factid_named(fact);
    assert(FactId::named(fact.text()) == Some(fact));
}

// ---- places ---------------------------------------------------------------------------

/// How many bytes a text takes: one for a character of ASCII, and up to four for others.
pub open spec fn bytes_in(s: Seq<char>) -> int
    decreases s.len(),
{
    if s.len() == 0 {
        0
    } else {
        bytes_in(s.skip(1)) + (if s[0] as u32 >= 65_536 {
            4int
        } else if s[0] as u32 >= 2_048 {
            3
        } else if s[0] as u32 >= 128 {
            2
        } else {
            1
        })
    }
}

proof fn lemma_bytes_are_positive(s: Seq<char>)
    ensures
        bytes_in(s) >= s.len(),
    decreases s.len(),
{
    if s.len() > 0 {
        lemma_bytes_are_positive(s.skip(1));
    }
}

proof fn lemma_chars_in(s: Seq<char>, rest: Seq<char>)
    ensures
        chars_before(s + rest, bytes_in(s)) == s.len(),
    decreases s.len(),
{
    if s.len() > 0 {
        let tail = s.skip(1);
        lemma_chars_in(tail, rest);
        lemma_bytes_are_positive(s);
        assert((s + rest).skip(1) =~= tail + rest);
        assert((s + rest)[0] == s[0]);
    }
}

proof fn lemma_no_line_ends(a: Seq<char>, line: Seq<char>)
    requires
        lacks(line, '\n'),
    ensures
        line_ends(a + line) == line_ends(a),
    decreases line.len(),
{
    if line.len() > 0 {
        assert((a + line).last() == line[line.len() - 1]);
        assert((a + line).drop_last() =~= a + line.drop_last());
        assert forall|i: int| 0 <= i < line.drop_last().len() implies #[trigger] line.drop_last()[i]
            != '\n' by {
            assert(line.drop_last()[i] == line[i]);
        }
        lemma_no_line_ends(a, line.drop_last());
    } else {
        assert(a + line =~= a);
    }
}

/// A place is told by its line and its column, both from one: a line feed starts the next line, and a
/// column counts characters, however many bytes each takes.
pub proof fn a_place_is_a_line_and_a_column(
    before: Seq<char>,
    line: Seq<char>,
    rest: Seq<char>,
)
    requires
        lacks(line, '\n'),
    ensures
        place(line + rest, bytes_in(line)) == (1int, (line.len() + 1) as int),
        place(before + seq!['\n'] + line + rest, bytes_in(before + seq!['\n'] + line)) == (
            line_ends(before) + 2,
            (line.len() + 1) as int,
        ),
        line_ends(Seq::empty()) == 0,
        line_ends(before.push('\n')) == line_ends(before) + 1,
{
    let none = Seq::<char>::empty();
    lemma_chars_in(line, rest);
    assert((line + rest).take(line.len() as int) =~= line);
    lemma_no_line_ends(none, line);
    assert(none + line =~= line);
    crate::spelling::lemma_last_index_at(before, '\n', line);
    let head = before + seq!['\n'] + line;
    lemma_chars_in(head, rest);
    assert((head + rest).take(head.len() as int) =~= head);
    lemma_no_line_ends(before.push('\n'), line);
    assert(before.push('\n') + line =~= head);
    assert(before.push('\n').drop_last() =~= before);
}

// ---- layers and faults ----------------------------------------------------------------

/// Each source is a layer under its own label, in its place, and holds what its own text says; a text
/// that cannot be read is complained of under that label.
pub proof fn each_source_is_a_layer(sources: Seq<Source>, i: int)
    requires
        0 <= i < sources.len(),
    ensures
        layers_of(sources).len() == sources.len(),
        layers_of(sources)[i].label == sources[i].label@,
        match file_of_text(sources[i].text@) {
            Ok(file) => layers_of(sources)[i].parsed == Ok::<FileKeys, Complaint>(file),
            Err(message) => layers_of(sources)[i].parsed matches Err(complaint) && complaint.source
                == sources[i].label@ && complaint.problem == Problem::Syntax(message),
        },
{
}

/// Every complaint is recorded as a fault of the policy, in its place, with its file and its key.
pub proof fn every_complaint_is_a_fault(
    loaded: Loaded,
    errors: Seq<ConfigError>,
    layers: Seq<LayerKeys>,
    i: int,
)
    requires
        loads(loaded, errors, layers),
        0 <= i < errors.len(),
    ensures
        loaded.policy.faults@.len() == errors.len(),
        loaded.policy.faults@[i].source@ == errors[i].source@,
        loaded.policy.faults@[i].location@ == errors[i].location@,
{
    assert(complaints(errors)[i] == errors[i]@);
    assert(complaints(errors).len() == errors.len());
    assert(records(loaded.policy.faults@[i], all_problems(layers)[i]));
}

/// A whole number counts by its digits, in decimal or by sixteen, with a sign or without.
pub proof fn whole_numbers_are_read_with_their_sign(n: nat)
    requires
        n <= i64::MAX,
    ensures
        whole(decimal(n), 10) == Some(n as i64),
        whole(seq!['+'] + decimal(n), 10) == Some(n as i64),
        whole(seq!['-'] + decimal(n), 10) == Some((-n) as i64),
        whole(Seq::empty(), 10) is None,
        digit_of('7') == Some(7int),
        digit_of('a') == Some(10int),
        digit_of('F') == Some(15int),
        digit_of('g') is None,
{
    lemma_counted_decimal(n);
    lemma_decimal_reads_back(n);
    let d = decimal(n);
    assert(is_digit(d[0]));
    let plus = seq!['+'] + d;
    let minus = seq!['-'] + d;
    assert(plus.skip(1) =~= d);
    assert(minus.skip(1) =~= d);
    assert(plus[0] == '+' && minus[0] == '-');
}

proof fn lemma_counted_decimal(n: nat)
    ensures
        counted(decimal(n), 10) == Some(n as int),
    decreases n,
{
    let d = decimal(n);
    if n < 10 {
        assert(d.drop_last() =~= Seq::<char>::empty());
        assert(counted(d.drop_last(), 10) == Some(0int));
        assert(digit_of(d.last()) == Some(n as int));
    } else {
        lemma_counted_decimal(n / 10);
        assert(d.drop_last() =~= decimal(n / 10));
        assert(digit_of(d.last()) == Some((n % 10) as int));
    }
}

} // verus!
