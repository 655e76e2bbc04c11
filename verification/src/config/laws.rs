//! What holds of every configuration.
use vstd::prelude::*;

use super::error::ConfigError;
use super::load::{
    all_problems, block_origin, darkens, fact_made_by, fact_origins, fallback_block,
    fallback_needed, kept, kept_labels, layer_problems, layered_blocks, loads, merged,
    some_darkens, LayerKeys, Loaded,
};
use crate::action::Action;
use crate::block::BlockKind;
use crate::clock::ClockSnapshot;
use crate::decision::{ceiling_of, deadline_for, floor_of, Request};
use crate::fact::{FactId, FactSet};
use crate::policy::BlockEdges;
use crate::time::Deadline;

verus! {

/// A layer with anything wrong in it contributes its complaints and nothing else: without it, the
/// layers before and after it make the same.
pub proof fn a_faulty_layer_contributes_only_its_complaints(
    before: Seq<LayerKeys>,
    faulty: LayerKeys,
    after: Seq<LayerKeys>,
    kind: BlockKind,
)
    requires
        !kept(faulty),
    ensures
        merged(before.push(faulty) + after) == merged(before + after),
        kept_labels(before.push(faulty) + after) == kept_labels(before + after),
        block_origin(before.push(faulty) + after, kind) == block_origin(before + after, kind),
        fact_origins(before.push(faulty) + after) == fact_origins(before + after),
        all_problems(before.push(faulty) + after) == all_problems(before) + layer_problems(faulty)
            + all_problems(after),
        all_problems(before + after) == all_problems(before) + all_problems(after),
    decreases after.len(),
{
    let with = before.push(faulty) + after;
    let without = before + after;
    if after.len() == 0 {
        assert(with =~= before.push(faulty));
        assert(without =~= before);
        assert(with.drop_last() =~= before);
        assert(all_problems(after) =~= Seq::empty());
    } else {
        let fewer = after.drop_last();
        a_faulty_layer_contributes_only_its_complaints(before, faulty, fewer, kind);
        assert(with.drop_last() =~= before.push(faulty) + fewer);
        assert(without.drop_last() =~= before + fewer);
        assert(with.last() == after.last());
        assert(without.last() == after.last());
    }
}

/// Where the first layer is dropped, some block still lets the panel darken.
pub proof fn a_broken_package_cannot_leave_the_panel_lit(
    loaded: Loaded,
    errors: Seq<ConfigError>,
    layers: Seq<LayerKeys>,
)
    requires
        loads(loaded, errors, layers),
        layers.len() > 0,
        !kept(layers[0]),
    ensures
        some_darkens(loaded.policy.blocks@),
{
    if fallback_needed(layers) {
        let blocks = loaded.policy.blocks@;
        let last = layered_blocks(layers).len() as int;
        assert(blocks[last] == fallback_block());
        assert(darkens(blocks[last]));
    }
}

pub proof fn lemma_a_dropped_layer_complains(layers: Seq<LayerKeys>, at: int)
    requires
        0 <= at < layers.len(),
        !kept(layers[at]),
    ensures
        all_problems(layers).len() > 0,
    decreases layers.len(),
{
    if at < layers.len() - 1 {
        assert(layers.drop_last()[at] == layers[at]);
        lemma_a_dropped_layer_complains(layers.drop_last(), at);
    } else {
        assert(layers.last() == layers[at]);
    }
}

/// While any layer is dropped, no sleep happens but by a ceiling or by force.
pub proof fn a_dropped_layer_keeps_the_machine_awake(
    loaded: Loaded,
    errors: Seq<ConfigError>,
    layers: Seq<LayerKeys>,
    at: int,
    action: Action,
    facts: FactSet,
    clocks: ClockSnapshot,
    edges: BlockEdges,
    request: Request,
)
    requires
        loads(loaded, errors, layers),
        0 <= at < layers.len(),
        !kept(layers[at]),
        action.sleeps(),
    ensures
        loaded.policy.faults@.len() > 0,
        floor_of(action, loaded.policy, facts, clocks, edges, request) == Deadline::Never,
        deadline_for(action, loaded.policy, facts, clocks, edges, request) == ceiling_of(
            action,
            loaded.policy,
            facts,
            clocks,
            edges,
            request,
        ),
{
    lemma_a_dropped_layer_complains(layers, at);
    crate::laws::a_fault_holds_every_sleep_back(
        action,
        loaded.policy,
        facts,
        clocks,
        edges,
        request,
    );
}

/// Layers with nothing wrong in any of them make a policy without a fault.
pub proof fn clean_layers_load_cleanly(
    loaded: Loaded,
    errors: Seq<ConfigError>,
    layers: Seq<LayerKeys>,
)
    requires
        loads(loaded, errors, layers),
        forall|i: int| 0 <= i < layers.len() ==> kept(#[trigger] layers[i]),
    ensures
        errors.len() == 0,
        loaded.policy.faults@.len() == 0,
{
    lemma_clean_layers(layers);
    assert(super::error::complaints(errors).len() == errors.len());
}

proof fn lemma_clean_layers(layers: Seq<LayerKeys>)
    requires
        forall|i: int| 0 <= i < layers.len() ==> kept(#[trigger] layers[i]),
    ensures
        all_problems(layers).len() == 0,
    decreases layers.len(),
{
    if layers.len() > 0 {
        let fewer = layers.drop_last();
        assert forall|i: int| 0 <= i < fewer.len() implies kept(#[trigger] fewer[i]) by {
            assert(kept(layers[i]));
        }
        lemma_clean_layers(fewer);
        assert(kept(layers[layers.len() - 1]));
    }
}

/// A local service is never read without an address, whatever the configuration says: it could
/// only ever be in doubt, and doubt keeps the machine awake.
pub proof fn a_local_service_is_never_read_without_an_address(
    loaded: Loaded,
    errors: Seq<ConfigError>,
    layers: Seq<LayerKeys>,
)
    requires
        loads(loaded, errors, layers),
    ensures
        loaded.policy.reads(FactId::LocalServiceBusy) ==> loaded.policy.settings(
            FactId::LocalServiceBusy,
        ).counters_url is Some,
{
    assert(fact_made_by(loaded.policy.facts@, merged(layers).facts, FactId::LocalServiceBusy));
}

/// A fact that the layers switch off is not read, and so contributes no doubt.
pub proof fn a_fact_that_is_switched_off_is_not_read(
    loaded: Loaded,
    errors: Seq<ConfigError>,
    layers: Seq<LayerKeys>,
    fact: FactId,
)
    requires
        loads(loaded, errors, layers),
        merged(layers).facts.contains_key(fact.text()),
        merged(layers).facts[fact.text()].enabled == Some(false),
    ensures
        !loaded.policy.reads(fact),
{
    assert(fact_made_by(loaded.policy.facts@, merged(layers).facts, fact));
}

} // verus!
