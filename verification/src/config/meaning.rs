//! What a configuration means: which key says what of which action, clock and fact.
use vstd::prelude::*;

use super::error::ConfigError;
use super::load::{
    a_file_without_complaint_is_fine, block_fine, built_block, built_blocks, fact_made_by,
    fallback_block, fallback_needed, kept, kept_labels, layered_blocks, listable, loads, merged,
    LayerKeys, Loaded,
};
use super::section::{file_over, BlockKeys, FactKeys, FileKeys, Written};
use super::timeout::{timeout_of, TimeoutError};
use crate::action::Action;
use crate::block::{Block, BlockKind, Condition};
use crate::clock::Clock;
use crate::fact::FactId;
use crate::names::in_order;
use crate::time::{Duration, Timeout};

verus! {

// ---- blocks ---------------------------------------------------------------------------

/// Whether a timeout of a block is what stands under its key: nothing where there is no such key,
/// and else what the text under it stands for.
pub open spec fn says(timeout: Option<Timeout>, written: Option<Written>) -> bool {
    match written {
        None => timeout is None,
        Some(Written::Text(text)) => match timeout {
            Some(t) => timeout_of(text) == Ok::<Timeout, TimeoutError>(t),
            None => false,
        },
        Some(Written::Integer(_)) => false,
    }
}

/// Whether a block says what a table says: each action by the key of its own name, the clock by
/// `clock` and when somebody last used the machine where there is none, and that it takes part
/// unless `enabled` is false.
pub open spec fn block_says(block: Block, keys: BlockKeys) -> bool {
    &&& says(block.timeouts.screen_off, keys.screen_off)
    &&& says(block.timeouts.suspend, keys.suspend)
    &&& says(block.timeouts.hibernate, keys.hibernate)
    &&& says(block.timeouts.poweroff, keys.poweroff)
    &&& block.enabled == (keys.enabled != Some(false))
    &&& match keys.clock {
        None => block.clock == Clock::HumanInput,
        Some(raw) => {
            ||| raw == "human_input"@ && block.clock == Clock::HumanInput
            ||| raw == "resume"@ && block.clock == Clock::Resume
            ||| raw == "condition"@ && block.clock == Clock::ConditionEdge
            ||| raw == "boot"@ && block.clock == Clock::Boot
        },
    }
}

/// Whether a condition is the one of a name.
pub open spec fn is_called(condition: Condition, name: Seq<char>) -> bool {
    ||| condition == Condition::Always && name == "always"@
    ||| condition == Condition::Fact(FactId::HumanActive) && name == "human_active"@
    ||| condition == Condition::Fact(FactId::AfterResume) && name == "after_resume"@
    ||| condition == Condition::Fact(FactId::RemoteSession) && name == "remote_session"@
    ||| condition == Condition::Fact(FactId::LeaseHeld) && name == "lease_held"@
    ||| condition == Condition::Fact(FactId::InhibitorBlock) && name == "inhibitor_block"@
    ||| condition == Condition::Fact(FactId::MediaPlaying) && name == "media_playing"@
    ||| condition == Condition::Fact(FactId::SteamGameRunning) && name == "steam_game_running"@
    ||| condition == Condition::Fact(FactId::SteamDownloading) && name == "steam_downloading"@
    ||| condition == Condition::Fact(FactId::GpuBusyGame) && name == "gpu_busy_game"@
    ||| condition == Condition::Fact(FactId::GpuBusyOther) && name == "gpu_busy_other"@
    ||| condition == Condition::Fact(FactId::LocalServiceBusy) && name == "local_service_busy"@
}

proof fn lemma_built(kind: BlockKind, name: Seq<char>, keys: BlockKeys)
    requires
        block_fine(name, keys),
    ensures
        block_says(built_block(kind, name, keys), keys),
        built_block(kind, name, keys).id.kind == kind,
        is_called(built_block(kind, name, keys).id.condition, name),
{
    let x = choose|x: Condition| #[trigger] x.text() == name;
    assert(x.text() == name);
    match x {
        Condition::Always => {},
        Condition::Fact(f) => {
            assert(f.text() == name);
        },
    }
    if let Some(raw) = keys.clock {
        let c = choose|c: Clock| #[trigger] c.text() == raw;
        assert(c.text() == raw);
    }
    assert(keys.of(Action::ScreenOff) == keys.screen_off);
    assert(keys.of(Action::Suspend) == keys.suspend);
    assert(keys.of(Action::Hibernate) == keys.hibernate);
    assert(keys.of(Action::PowerOff) == keys.poweroff);
}

proof fn lemma_built_at(
    kind: BlockKind,
    tables: Map<Seq<char>, BlockKeys>,
    names: Seq<Seq<char>>,
    i: int,
)
    requires
        0 <= i < names.len(),
    ensures
        built_blocks(kind, tables, names).len() == names.len(),
        built_blocks(kind, tables, names)[i] == built_block(kind, names[i], tables[names[i]]),
    decreases names.len(),
{
    lemma_built_len(kind, tables, names);
    lemma_built_len(kind, tables, names.drop_last());
    if i < names.len() - 1 {
        lemma_built_at(kind, tables, names.drop_last(), i);
        assert(names.drop_last()[i] == names[i]);
    }
}

proof fn lemma_built_len(kind: BlockKind, tables: Map<Seq<char>, BlockKeys>, names: Seq<Seq<char>>)
    ensures
        built_blocks(kind, tables, names).len() == names.len(),
    decreases names.len(),
{
    if names.len() > 0 {
        lemma_built_len(kind, tables, names.drop_last());
    }
}

/// Every table of a block makes a block, which says of each action what stands under the key of
/// that action, and of nothing else. The condition is the one the table is named after, a `while`
/// table makes a floor, and a `when` table makes a ceiling.
pub proof fn every_table_makes_its_block(
    loaded: Loaded,
    errors: Seq<ConfigError>,
    layers: Seq<LayerKeys>,
    name: Seq<char>,
)
    requires
        loads(loaded, errors, layers),
    ensures
        merged(layers).while_blocks.contains_key(name) ==> exists|i: int|
            #![trigger loaded.policy.blocks@[i]]
            {
                &&& 0 <= i < loaded.policy.blocks@.len()
                &&& loaded.policy.blocks@[i].id.kind == BlockKind::While
                &&& is_called(loaded.policy.blocks@[i].id.condition, name)
                &&& block_says(loaded.policy.blocks@[i], merged(layers).while_blocks[name])
            },
        merged(layers).when.contains_key(name) ==> exists|i: int|
            #![trigger loaded.policy.blocks@[i]]
            {
                &&& 0 <= i < loaded.policy.blocks@.len()
                &&& loaded.policy.blocks@[i].id.kind == BlockKind::When
                &&& is_called(loaded.policy.blocks@[i].id.condition, name)
                &&& block_says(loaded.policy.blocks@[i], merged(layers).when[name])
            },
{
    let file = merged(layers);
    let whiles = in_order(file.while_blocks.dom());
    let whens = in_order(file.when.dom());
    let blocks = loaded.policy.blocks@;
    lemma_built_len(BlockKind::While, file.while_blocks, whiles);
    lemma_built_len(BlockKind::When, file.when, whens);
    if file.while_blocks.contains_key(name) {
        assert(file.while_blocks.dom().contains(name));
        assert(whiles.contains(name));
        let i = choose|i: int| 0 <= i < whiles.len() && whiles[i] == name;
        lemma_built_at(BlockKind::While, file.while_blocks, whiles, i);
        assert(blocks[i] == built_block(BlockKind::While, name, file.while_blocks[name]));
        lemma_built(BlockKind::While, name, file.while_blocks[name]);
    }
    if file.when.contains_key(name) {
        assert(file.when.dom().contains(name));
        assert(whens.contains(name));
        let i = choose|i: int| 0 <= i < whens.len() && whens[i] == name;
        lemma_built_at(BlockKind::When, file.when, whens, i);
        let at = whiles.len() + i;
        assert(blocks[at] == built_block(BlockKind::When, name, file.when[name]));
        lemma_built(BlockKind::When, name, file.when[name]);
    }
}

/// Whether a block is the one that darkens the panel a quarter of an hour after somebody last used
/// the machine, and says nothing of any sleep.
pub open spec fn only_darkens(block: Block) -> bool {
    &&& block.enabled
    &&& block.id.kind == BlockKind::While
    &&& block.id.condition == Condition::Always
    &&& block.clock == Clock::HumanInput
    &&& block.timeouts.screen_off == Some(Timeout::After(Duration { nanos: 900_000_000_000 }))
    &&& block.timeouts.suspend is None
    &&& block.timeouts.hibernate is None
    &&& block.timeouts.poweroff is None
}

/// Every block comes from a table, but for the one that darkens the panel where the first layer was
/// dropped and no other lets it darken.
pub proof fn every_block_comes_from_a_table(
    loaded: Loaded,
    errors: Seq<ConfigError>,
    layers: Seq<LayerKeys>,
    i: int,
)
    requires
        loads(loaded, errors, layers),
        0 <= i < loaded.policy.blocks@.len(),
    ensures
        ({
            let block = loaded.policy.blocks@[i];
            ||| exists|name: Seq<char>|
                #![trigger merged(layers).while_blocks.contains_key(name)]
                block.id.kind == BlockKind::While && merged(layers).while_blocks.contains_key(name)
                    && is_called(block.id.condition, name) && block_says(
                    block,
                    merged(layers).while_blocks[name],
                )
            ||| exists|name: Seq<char>|
                #![trigger merged(layers).when.contains_key(name)]
                block.id.kind == BlockKind::When && merged(layers).when.contains_key(name)
                    && is_called(block.id.condition, name) && block_says(
                    block,
                    merged(layers).when[name],
                )
            ||| {
                &&& only_darkens(block)
                &&& i == loaded.policy.blocks@.len() - 1
                &&& layers.len() > 0
                &&& !kept(layers[0])
                &&& forall|j: int|
                    0 <= j < i ==> !((#[trigger] loaded.policy.blocks@[j]).enabled
                        && loaded.policy.blocks@[j].id.kind == BlockKind::While
                        && loaded.policy.blocks@[j].timeouts.screen_off is Some)
            }
        }),
{
    let file = merged(layers);
    let whiles = in_order(file.while_blocks.dom());
    let whens = in_order(file.when.dom());
    lemma_built_len(BlockKind::While, file.while_blocks, whiles);
    lemma_built_len(BlockKind::When, file.when, whens);
    if i < whiles.len() {
        lemma_built_at(BlockKind::While, file.while_blocks, whiles, i);
        assert(whiles.contains(whiles[i]));
        assert(file.while_blocks.dom().contains(whiles[i]));
        assert(file.while_blocks.contains_key(whiles[i]));
        lemma_built(BlockKind::While, whiles[i], file.while_blocks[whiles[i]]);
    } else if i < whiles.len() + whens.len() {
        let k = i - whiles.len();
        lemma_built_at(BlockKind::When, file.when, whens, k);
        assert(whens.contains(whens[k]));
        assert(file.when.dom().contains(whens[k]));
        assert(file.when.contains_key(whens[k]));
        lemma_built(BlockKind::When, whens[k], file.when[whens[k]]);
    } else {
        assert(fallback_needed(layers));
        assert(loaded.policy.blocks@[i] == fallback_block());
        assert forall|j: int| 0 <= j < i implies !((#[trigger] loaded.policy.blocks@[j]).enabled
            && loaded.policy.blocks@[j].id.kind == BlockKind::While
            && loaded.policy.blocks@[j].timeouts.screen_off is Some) by {
            assert(layered_blocks(layers)[j] == loaded.policy.blocks@[j]);
        }
    }
}

/// Where the first layer was dropped, some floor that is switched on darkens the panel all the same.
pub proof fn a_dropped_first_layer_leaves_a_panel_that_darkens(
    loaded: Loaded,
    errors: Seq<ConfigError>,
    layers: Seq<LayerKeys>,
)
    requires
        loads(loaded, errors, layers),
        layers.len() > 0,
        !kept(layers[0]),
    ensures
        exists|i: int|
            0 <= i < loaded.policy.blocks@.len() && (#[trigger] loaded.policy.blocks@[i]).enabled
                && loaded.policy.blocks@[i].id.kind == BlockKind::While
                && loaded.policy.blocks@[i].timeouts.screen_off is Some,
{
    let made = layered_blocks(layers);
    if fallback_needed(layers) {
        assert(loaded.policy.blocks@[made.len() as int] == fallback_block());
        assert(loaded.policy.blocks@[made.len() as int].enabled);
    } else {
        let i = choose|i: int| 0 <= i < made.len() && crate::config::load::darkens(#[trigger] made[i]);
        assert(loaded.policy.blocks@[i].enabled);
    }
}

// ---- facts and the idle time ----------------------------------------------------------

/// Whether a span is what stands under its key, as [`says`] has it of a timeout.
pub open spec fn spans(span: Option<Duration>, written: Option<Written>) -> bool {
    match span {
        Some(d) => written matches Some(Written::Text(text)) && timeout_of(text) == Ok::<
            Timeout,
            TimeoutError,
        >(Timeout::After(d)),
        None => written matches Some(Written::Text(text)) ==> !(timeout_of(text) matches Ok(
            Timeout::After(_),
        )),
    }
}

/// A fact is read as its own table says, key by key, and where it has none it is read with nothing
/// set. A local service is read where its address is known, and never without one.
pub proof fn a_fact_is_read_as_its_table_says(
    loaded: Loaded,
    errors: Seq<ConfigError>,
    layers: Seq<LayerKeys>,
    fact: FactId,
    name: Seq<char>,
)
    requires
        loads(loaded, errors, layers),
        is_called(Condition::Fact(fact), name),
    ensures
        loaded.policy.facts@.contains_key(fact),
        !merged(layers).facts.contains_key(name) ==> {
            let s = loaded.policy.facts@[fact];
            &&& s.enabled == (fact != FactId::LocalServiceBusy)
            &&& s.counters_url is None && s.idle_window is None && s.steam_root is None
                && s.window is None
        },
        merged(layers).facts.contains_key(name) ==> {
            let s = loaded.policy.facts@[fact];
            let keys = merged(layers).facts[name];
            &&& fact != FactId::LocalServiceBusy ==> s.enabled == (keys.enabled != Some(false))
            &&& fact == FactId::LocalServiceBusy ==> s.enabled == (keys.enabled != Some(false)
                && keys.counters_url is Some)
            &&& match s.counters_url {
                Some(url) => keys.counters_url == Some(url@),
                None => keys.counters_url is None,
            }
            &&& match s.steam_root {
                Some(root) => keys.steam_root == Some(root@),
                None => keys.steam_root is None,
            }
            &&& spans(s.idle_window, keys.idle_window)
            &&& spans(s.window, keys.window)
        },
{
    assert(fact.text() == name);
    assert(fact_made_by(loaded.policy.facts@, merged(layers).facts, fact));
}

/// Nobody is there after the time that `min_idle` says, and after five minutes where it says none.
pub proof fn the_idle_time_is_what_the_layers_say(
    loaded: Loaded,
    errors: Seq<ConfigError>,
    layers: Seq<LayerKeys>,
)
    requires
        loads(loaded, errors, layers),
    ensures
        match merged(layers).min_idle {
            None => loaded.policy.min_idle.nanos == 300_000_000_000,
            Some(Written::Text(text)) => timeout_of(text) == Ok::<Timeout, TimeoutError>(
                Timeout::After(loaded.policy.min_idle),
            ),
            Some(Written::Integer(_)) => false,
        },
{
}

// ---- what is wrong --------------------------------------------------------------------

/// Whether something in a table of a block cannot be understood: no condition has its name, no clock
/// is called so, or some timeout is no timeout.
pub open spec fn block_makes_no_sense(name: Seq<char>, keys: BlockKeys) -> bool {
    ||| forall|c: Condition| !is_called(c, name)
    ||| keys.clock matches Some(raw) && raw != "human_input"@ && raw != "resume"@ && raw
        != "condition"@ && raw != "boot"@
    ||| no_timeout(keys.screen_off)
    ||| no_timeout(keys.suspend)
    ||| no_timeout(keys.hibernate)
    ||| no_timeout(keys.poweroff)
}

/// Whether something is written that is no timeout.
pub open spec fn no_timeout(written: Option<Written>) -> bool {
    match written {
        None => false,
        Some(Written::Integer(_)) => true,
        Some(Written::Text(text)) => timeout_of(text) is Err,
    }
}

proof fn lemma_no_sense_is_not_fine(name: Seq<char>, keys: BlockKeys)
    requires
        block_makes_no_sense(name, keys),
    ensures
        !block_fine(name, keys),
{
    assert(keys.of(Action::ScreenOff) == keys.screen_off);
    assert(keys.of(Action::Suspend) == keys.suspend);
    assert(keys.of(Action::Hibernate) == keys.hibernate);
    assert(keys.of(Action::PowerOff) == keys.poweroff);
    if block_fine(name, keys) {
        lemma_built(BlockKind::While, name, keys);
        let c = built_block(BlockKind::While, name, keys).id.condition;
        assert(is_called(c, name));
    }
}

/// A file in which a block makes no sense, or the idle time is no finite span, is dropped as a whole,
/// and so is one that is no TOML. What is dropped keeps every sleep back by a fault.
pub proof fn what_makes_no_sense_drops_its_file(
    loaded: Loaded,
    errors: Seq<ConfigError>,
    layers: Seq<LayerKeys>,
    at: int,
    name: Seq<char>,
)
    requires
        loads(loaded, errors, layers),
        0 <= at < layers.len(),
        layers[at].parsed matches Ok(file) ==> listable(file),
        ({
            ||| layers[at].parsed is Err
            ||| layers[at].parsed matches Ok(file) && file.while_blocks.contains_key(name)
                && block_makes_no_sense(name, file.while_blocks[name])
            ||| layers[at].parsed matches Ok(file) && file.when.contains_key(name)
                && block_makes_no_sense(name, file.when[name])
            ||| layers[at].parsed matches Ok(file) && file.min_idle matches Some(w) && !(
            w matches Written::Text(text) && timeout_of(text) matches Ok(Timeout::After(_)))
        }),
    ensures
        !kept(layers[at]),
        loaded.policy.faults@.len() > 0,
        errors.len() == loaded.policy.faults@.len(),
{
    if kept(layers[at]) {
        match layers[at].parsed {
            Ok(file) => {
                a_file_without_complaint_is_fine(layers[at].label, file);
                if file.while_blocks.contains_key(name) && block_makes_no_sense(
                    name,
                    file.while_blocks[name],
                ) {
                    lemma_no_sense_is_not_fine(name, file.while_blocks[name]);
                }
                if file.when.contains_key(name) && block_makes_no_sense(name, file.when[name]) {
                    lemma_no_sense_is_not_fine(name, file.when[name]);
                }
                assert(false);
            },
            Err(complaint) => {
                assert(seq![complaint].len() == 1);
            },
        }
    }
    super::laws::lemma_a_dropped_layer_complains(layers, at);
    assert(super::error::complaints(errors).len() == errors.len());
}

/// The layers that are named as applied are those that were not dropped, in their order.
pub proof fn the_layers_that_count_are_named(
    loaded: Loaded,
    errors: Seq<ConfigError>,
    layers: Seq<LayerKeys>,
)
    requires
        loads(loaded, errors, layers),
        forall|i: int| 0 <= i < layers.len() ==> kept(#[trigger] layers[i]),
    ensures
        loaded.layers@.len() == layers.len(),
        forall|i: int|
            0 <= i < layers.len() ==> (#[trigger] loaded.layers@[i])@ == layers[i].label,
{
    lemma_all_labels(layers);
    let named = crate::text::views(loaded.layers@);
    assert(named.len() == loaded.layers@.len());
    assert forall|i: int| 0 <= i < layers.len() implies (#[trigger] loaded.layers@[i])@
        == layers[i].label by {
        assert(named[i] == loaded.layers@[i]@);
        assert(named[i] == layers[i].label);
    }
}

proof fn lemma_all_labels(layers: Seq<LayerKeys>)
    requires
        forall|i: int| 0 <= i < layers.len() ==> kept(#[trigger] layers[i]),
    ensures
        kept_labels(layers).len() == layers.len(),
        forall|i: int|
            0 <= i < layers.len() ==> #[trigger] kept_labels(layers)[i] == layers[i].label,
    decreases layers.len(),
{
    if layers.len() > 0 {
        let fewer = layers.drop_last();
        assert forall|i: int| 0 <= i < fewer.len() implies kept(#[trigger] fewer[i]) by {
            assert(kept(layers[i]));
        }
        lemma_all_labels(fewer);
        assert(kept(layers[layers.len() - 1]));
        assert forall|i: int| 0 <= i < layers.len() implies #[trigger] kept_labels(layers)[i]
            == layers[i].label by {
            if i < fewer.len() {
                assert(kept_labels(fewer)[i] == fewer[i].label);
            }
        }
    }
}

// ---- layers ---------------------------------------------------------------------------

/// Where the last layer is applied, each key that it sets has its value, and each key that it does
/// not set has the value that the layers before it gave it: of every block, of every fact and of the
/// idle time, each key on its own.
pub proof fn the_last_layer_wins_key_by_key(
    before: Seq<LayerKeys>,
    last: LayerKeys,
    file: FileKeys,
    name: Seq<char>,
)
    requires
        last.parsed == Ok::<FileKeys, super::error::Complaint>(file),
        kept(last),
    ensures
        ({
            let old = merged(before);
            let new = merged(before.push(last));
            &&& new.min_idle == (if file.min_idle is Some {
                file.min_idle
            } else {
                old.min_idle
            })
            &&& new.while_blocks.contains_key(name) <==> old.while_blocks.contains_key(name)
                || file.while_blocks.contains_key(name)
            &&& new.when.contains_key(name) <==> old.when.contains_key(name)
                || file.when.contains_key(name)
            &&& new.facts.contains_key(name) <==> old.facts.contains_key(name)
                || file.facts.contains_key(name)
            &&& !file.while_blocks.contains_key(name) && old.while_blocks.contains_key(name)
                ==> new.while_blocks[name] == old.while_blocks[name]
            &&& !file.when.contains_key(name) && old.when.contains_key(name) ==> new.when[name]
                == old.when[name]
            &&& !file.facts.contains_key(name) && old.facts.contains_key(name) ==> new.facts[name]
                == old.facts[name]
            &&& !old.while_blocks.contains_key(name) && file.while_blocks.contains_key(name)
                ==> new.while_blocks[name] == file.while_blocks[name]
            &&& !old.when.contains_key(name) && file.when.contains_key(name) ==> new.when[name]
                == file.when[name]
            &&& !old.facts.contains_key(name) && file.facts.contains_key(name) ==> new.facts[name]
                == file.facts[name]
            &&& old.while_blocks.contains_key(name) && file.while_blocks.contains_key(name)
                ==> laid_over(
                old.while_blocks[name],
                file.while_blocks[name],
                new.while_blocks[name],
            )
            &&& old.when.contains_key(name) && file.when.contains_key(name) ==> laid_over(
                old.when[name],
                file.when[name],
                new.when[name],
            )
            &&& old.facts.contains_key(name) && file.facts.contains_key(name) ==> fact_laid_over(
                old.facts[name],
                file.facts[name],
                new.facts[name],
            )
        }),
{
    let layers = before.push(last);
    assert(layers.drop_last() =~= before);
    assert(layers.last() == last);
    let new = merged(layers);
    let old = merged(before);
    assert(new == file_over(old, file));
    if !old.while_blocks.contains_key(name) && file.while_blocks.contains_key(name) {
        assert(new.while_blocks[name] =~= file.while_blocks[name]);
    }
    if !old.when.contains_key(name) && file.when.contains_key(name) {
        assert(new.when[name] =~= file.when[name]);
    }
    if !old.facts.contains_key(name) && file.facts.contains_key(name) {
        assert(new.facts[name] =~= file.facts[name]);
    }
}

/// Whether one value over another is a third: the new one where there is one, and else the old one.
pub open spec fn replaces<A>(old: Option<A>, said: Option<A>, new: Option<A>) -> bool {
    if said is Some {
        new == said
    } else {
        new == old
    }
}

/// Whether one table of a block over another is a third, key by key.
pub open spec fn laid_over(old: BlockKeys, said: BlockKeys, new: BlockKeys) -> bool {
    &&& replaces(old.enabled, said.enabled, new.enabled)
    &&& replaces(old.clock, said.clock, new.clock)
    &&& replaces(old.screen_off, said.screen_off, new.screen_off)
    &&& replaces(old.suspend, said.suspend, new.suspend)
    &&& replaces(old.hibernate, said.hibernate, new.hibernate)
    &&& replaces(old.poweroff, said.poweroff, new.poweroff)
}

/// Whether one table of a fact over another is a third, key by key.
pub open spec fn fact_laid_over(old: FactKeys, said: FactKeys, new: FactKeys) -> bool {
    &&& replaces(old.enabled, said.enabled, new.enabled)
    &&& replaces(old.counters_url, said.counters_url, new.counters_url)
    &&& replaces(old.idle_window, said.idle_window, new.idle_window)
    &&& replaces(old.steam_root, said.steam_root, new.steam_root)
    &&& replaces(old.window, said.window, new.window)
}

} // verus!
