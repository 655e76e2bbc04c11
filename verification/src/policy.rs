//! A policy: the blocks, the facts they may name, and what was wrong with it.
use vstd::prelude::*;

use crate::block::{Block, BlockId, BlockKind, Condition};
use crate::fact::{FactId, FactMap, FactSet, FactState};
use crate::time::{BootInstant, Duration};

verus! {

/// How a fact is read.
#[derive(Debug)]
pub struct FactSettings {
    /// Whether it is read at all.
    pub enabled: bool,
    /// Where a local service publishes its counters.
    pub counters_url: Option<String>,
    /// How long the counters of a local service must stand still.
    pub idle_window: Option<Duration>,
    /// Where Steam is installed.
    pub steam_root: Option<String>,
    /// How recent a download must be.
    pub window: Option<Duration>,
}

/// What a text holds, where there is one.
pub open spec fn text_view(text: Option<String>) -> Option<Seq<char>> {
    match text {
        Some(t) => Some(t@),
        None => None,
    }
}

/// Whether a fact is read where no configuration says so. A local service is only read where its
/// address is known.
pub open spec fn on_by_default(fact: FactId) -> bool {
    fact != FactId::LocalServiceBusy
}

/// How a fact is read where no configuration says so.
pub open spec fn default_settings(fact: FactId) -> FactSettings {
    FactSettings {
        enabled: on_by_default(fact),
        counters_url: None,
        idle_window: None,
        steam_root: None,
        window: None,
    }
}

impl FactSettings {
    /// How a fact is read where no configuration says so.
    pub fn default_for(fact: FactId) -> (r: Self)
        ensures
            r == default_settings(fact),
    {
        FactSettings {
            enabled: !matches!(fact, FactId::LocalServiceBusy),
            counters_url: None,
            idle_window: None,
            steam_root: None,
            window: None,
        }
    }
}

impl Clone for FactSettings {
    fn clone(&self) -> (r: Self)
        ensures
            r == *self,
    {
        let counters_url = match &self.counters_url {
            Some(url) => Some(url.clone()),
            None => None,
        };
        let steam_root = match &self.steam_root {
            Some(root) => Some(root.clone()),
            None => None,
        };
        FactSettings {
            enabled: self.enabled,
            counters_url,
            idle_window: self.idle_window,
            steam_root,
            window: self.window,
        }
    }
}

/// Something wrong with a configuration, which keeps the machine awake until it is mended.
#[derive(Clone, Debug, PartialEq, Eq)]
pub struct ConfigFault {
    /// The file.
    pub source: String,
    /// Where in it.
    pub location: String,
    /// What is wrong.
    pub message: String,
}

/// How long nobody must touch the machine before nobody is there, unless a configuration says
/// otherwise: in seconds.
pub const DEFAULT_MIN_IDLE_SECS: u64 = 300;

/// A policy.
#[derive(Debug)]
pub struct Policy {
    /// The rules.
    pub blocks: Vec<Block>,
    /// How long nobody must touch the machine before nobody is there.
    pub min_idle: Duration,
    /// How each fact is read.
    pub facts: FactMap<FactSettings>,
    /// What was wrong with the configuration.
    pub faults: Vec<ConfigFault>,
}

/// Which blocks of a kind take part.
pub open spec fn takes_part(kind: BlockKind) -> spec_fn(Block) -> bool {
    |b: Block| b.enabled && b.id.kind == kind
}

/// Which facts are read and cannot be told.
pub open spec fn doubts(policy: Policy, facts: FactSet) -> spec_fn(FactId) -> bool {
    |f: FactId| policy.reads(f) && facts.state(f) == FactState::Indeterminate
}

impl Policy {
    /// How a fact is read.
    pub open spec fn settings(self, fact: FactId) -> FactSettings {
        if self.facts@.contains_key(fact) {
            self.facts@[fact]
        } else {
            default_settings(fact)
        }
    }

    /// Whether a fact is read.
    pub open spec fn reads(self, fact: FactId) -> bool {
        self.settings(fact).enabled
    }

    /// The facts that are read and cannot be told, in the order of the facts.
    pub open spec fn doubtful(self, facts: FactSet) -> Seq<FactId> {
        FactId::ALL@.filter(doubts(self, facts))
    }

    /// The policy without a block. It never does anything.
    pub fn empty() -> (r: Self)
        ensures
            r.blocks@.len() == 0,
            r.min_idle == crate::time::seconds(300),
            r.faults@.len() == 0,
            forall|f: FactId| #[trigger] r.settings(f) == default_settings(f),
            forall|f: FactId| #[trigger] r.facts@.contains_key(f),
    {
        let mut facts: FactMap<FactSettings> = FactMap::new();
        let all = FactId::ALL;
        let mut i: usize = 0;
        while i < 11
            invariant
                i <= 11,
                all@ == FactId::ALL@,
                forall|j: int|
                    0 <= j < i ==> facts@.contains_key(#[trigger] FactId::ALL@[j])
                        && facts@[FactId::ALL@[j]] == default_settings(FactId::ALL@[j]),
            decreases 11 - i,
        {
            proof {
                crate::fact::lemma_all_facts();
            }
            facts.insert(all[i], FactSettings::default_for(all[i]));
            i += 1;
        }
        proof {
            crate::fact::lemma_all_facts();
            assert forall|f: FactId| #[trigger] facts@.contains_key(f) && facts@[f]
                == default_settings(f) by {
                assert(FactId::ALL@[f.rank()] == f);
            }
        }
        Policy {
            blocks: Vec::new(),
            min_idle: Duration::from_secs(DEFAULT_MIN_IDLE_SECS),
            facts,
            faults: Vec::new(),
        }
    }

    /// The blocks of a kind that take part.
    pub fn blocks_of(&self, kind: BlockKind) -> (r: Vec<Block>)
        ensures
            r@ == self.blocks@.filter(takes_part(kind)),
    {
        let mut out: Vec<Block> = Vec::new();
        let mut i: usize = 0;
        assert(self.blocks@.take(0).filter(takes_part(kind)) =~= Seq::empty()) by {
            reveal(Seq::filter);
        }
        while i < self.blocks.len()
            invariant
                i <= self.blocks@.len(),
                out@ == self.blocks@.take(i as int).filter(takes_part(kind)),
            decreases self.blocks@.len() - i,
        {
            let block = self.blocks[i];
            proof {
                reveal(Seq::filter);
                assert(self.blocks@.take(i as int + 1).drop_last() =~= self.blocks@.take(i as int));
            }
            if block.enabled && block.id.kind == kind {
                out.push(block);
            }
            i += 1;
        }
        assert(self.blocks@.take(i as int) =~= self.blocks@);
        out
    }

    /// The first block with this identity.
    pub fn block(&self, id: BlockId) -> (r: Option<&Block>)
        ensures
            match r {
                Some(block) => exists|i: int|
                    #![trigger self.blocks@[i]]
                    {
                        &&& 0 <= i < self.blocks@.len()
                        &&& *block == self.blocks@[i]
                        &&& block.id == id
                        &&& forall|j: int| 0 <= j < i ==> (#[trigger] self.blocks@[j]).id != id
                    },
                None => forall|i: int|
                    0 <= i < self.blocks@.len() ==> (#[trigger] self.blocks@[i]).id != id,
            },
    {
        let mut i: usize = 0;
        while i < self.blocks.len()
            invariant
                i <= self.blocks@.len(),
                forall|j: int| 0 <= j < i ==> (#[trigger] self.blocks@[j]).id != id,
            decreases self.blocks@.len() - i,
        {
            if self.blocks[i].id == id {
                return Some(&self.blocks[i]);
            }
            i += 1;
        }
        None
    }

    /// How a fact is read.
    pub fn fact_settings(&self, fact: FactId) -> (r: FactSettings)
        ensures
            r == self.settings(fact),
    {
        match self.facts.get(fact) {
            Some(settings) => settings.clone(),
            None => FactSettings::default_for(fact),
        }
    }

    /// Whether a fact is read.
    pub fn fact_enabled(&self, fact: FactId) -> (r: bool)
        ensures
            r == self.reads(fact),
    {
        match self.facts.get(fact) {
            Some(settings) => settings.enabled,
            None => FactSettings::default_for(fact).enabled,
        }
    }

    /// The facts that are read and cannot be told.
    ///
    /// A fact that is not read contributes no doubt, whatever its state, and one that is read
    /// contributes it whether or not a block names it.
    pub fn doubtful_facts(&self, facts: &FactSet) -> (r: Vec<FactId>)
        ensures
            r@ == self.doubtful(*facts),
    {
        let mut out: Vec<FactId> = Vec::new();
        let all = FactId::ALL;
        let mut i: usize = 0;
        assert(FactId::ALL@.take(0).filter(doubts(*self, *facts)) =~= Seq::empty()) by {
            reveal(Seq::filter);
        }
        while i < 11
            invariant
                i <= 11,
                all@ == FactId::ALL@,
                FactId::ALL@.len() == 11,
                out@ == FactId::ALL@.take(i as int).filter(doubts(*self, *facts)),
            decreases 11 - i,
        {
            let fact = all[i];
            proof {
                reveal(Seq::filter);
                assert(FactId::ALL@.take(i as int + 1).drop_last() =~= FactId::ALL@.take(i as int));
            }
            if self.fact_enabled(fact) && facts.get(fact) == FactState::Indeterminate {
                out.push(fact);
            }
            i += 1;
        }
        assert(FactId::ALL@.take(11) =~= FactId::ALL@);
        out
    }
}

/// The doubtful facts are those that are read and cannot be told, and no others.
pub proof fn doubtful_facts_are_exactly_the_doubts(policy: Policy, facts: FactSet, fact: FactId)
    ensures
        policy.doubtful(facts).contains(fact) <==> policy.reads(fact) && facts.state(fact)
            == FactState::Indeterminate,
{
    crate::fact::lemma_all_facts();
    let all = FactId::ALL@;
    assert(all[fact.rank()] == fact);
    assert(all.contains(fact));
    lemma_filter_members(all, doubts(policy, facts), fact);
}

/// What a filter keeps is what was there and passes.
pub proof fn lemma_filter_members<A>(s: Seq<A>, pred: spec_fn(A) -> bool, a: A)
    ensures
        s.filter(pred).contains(a) <==> s.contains(a) && pred(a),
    decreases s.len(),
{
    reveal(Seq::filter);
    if s.len() > 0 {
        let shorter = s.drop_last();
        lemma_filter_members(shorter, pred, a);
        let kept = shorter.filter(pred);
        if s.contains(a) {
            let i = choose|i: int| 0 <= i < s.len() && s[i] == a;
            if i < shorter.len() {
                assert(shorter[i] == a);
            }
        }
        if shorter.contains(a) {
            let i = choose|i: int| 0 <= i < shorter.len() && shorter[i] == a;
            assert(s[i] == a);
        }
        assert(s[s.len() - 1] == s.last());
        if pred(s.last()) {
            assert(s.filter(pred) == kept.push(s.last()));
            assert(kept.push(s.last())[kept.len() as int] == s.last());
            if kept.contains(a) {
                let i = choose|i: int| 0 <= i < kept.len() && kept[i] == a;
                assert(kept.push(s.last())[i] == a);
            }
            if kept.push(s.last()).contains(a) {
                let i = choose|i: int|
                    0 <= i < kept.push(s.last()).len() && kept.push(s.last())[i] == a;
                if i < kept.len() {
                    assert(kept[i] == a);
                }
            }
        }
    }
}

/// Since when the condition of each block has held.
#[derive(Debug)]
pub struct BlockEdges {
    slots: Vec<Option<BootInstant>>,
}

/// The place of a block among all that there can be.
pub open spec fn block_rank(id: BlockId) -> int {
    let row: int = match id.condition {
        Condition::Always => 0,
        Condition::Fact(fact) => 1 + fact.rank(),
    };
    match id.kind {
        BlockKind::While => row,
        BlockKind::When => 12 + row,
    }
}

proof fn lemma_block_ranks()
    ensures
        forall|id: BlockId| 0 <= #[trigger] block_rank(id) < 24,
        forall|a: BlockId, b: BlockId| #[trigger] block_rank(a) == #[trigger] block_rank(b) ==> a == b,
{
    crate::fact::lemma_all_facts();
    assert forall|id: BlockId| 0 <= #[trigger] block_rank(id) < 24 by {
        match id.condition {
            Condition::Always => {},
            Condition::Fact(fact) => {
                assert(0 <= fact.rank() < 11);
            },
        }
    }
    assert forall|a: BlockId, b: BlockId| #[trigger] block_rank(a) == #[trigger] block_rank(
        b,
    ) implies a == b by {
        match (a.condition, b.condition) {
            (Condition::Fact(x), Condition::Fact(y)) => {
                assert(0 <= x.rank() < 11 && FactId::ALL@[x.rank()] == x);
                assert(0 <= y.rank() < 11 && FactId::ALL@[y.rank()] == y);
            },
            (Condition::Fact(x), Condition::Always) => {
                assert(0 <= x.rank() < 11);
            },
            (Condition::Always, Condition::Fact(y)) => {
                assert(0 <= y.rank() < 11);
            },
            (Condition::Always, Condition::Always) => {},
        }
    }
}

fn block_index(id: BlockId) -> (r: usize)
    ensures
        r == block_rank(id),
        r < 24,
{
    let row: usize = match id.condition {
        Condition::Always => 0,
        Condition::Fact(fact) => 1 + fact.index(),
    };
    match id.kind {
        BlockKind::While => row,
        BlockKind::When => 12 + row,
    }
}

/// Since when a condition has held, once it has been looked at again: a condition that holds
/// keeps its start or starts now, one that does not hold has none, and doubt changes nothing.
pub open spec fn edge_after(
    since: Option<BootInstant>,
    state: FactState,
    now: BootInstant,
) -> Option<BootInstant> {
    if state == FactState::True {
        match since {
            Some(t) => Some(t),
            None => Some(now),
        }
    } else if state.definitely_false() {
        None
    } else {
        since
    }
}

/// Whether a policy has a block of this identity.
pub open spec fn has_block(blocks: Seq<Block>, id: BlockId) -> bool {
    exists|i: int| 0 <= i < blocks.len() && (#[trigger] blocks[i]).id == id
}

impl BlockEdges {
    #[verifier::type_invariant]
    spec fn one_slot_per_block(self) -> bool {
        self.slots@.len() == 24
    }

    /// Since when the condition of a block has held.
    pub closed spec fn at(self, id: BlockId) -> Option<BootInstant> {
        self.slots@[block_rank(id)]
    }

    /// No condition has held yet.
    pub fn new() -> (r: Self)
        ensures
            forall|id: BlockId| #[trigger] r.at(id) is None,
    {
        let mut slots: Vec<Option<BootInstant>> = Vec::new();
        while slots.len() < 24
            invariant
                slots@.len() <= 24,
                forall|i: int| 0 <= i < slots@.len() ==> slots@[i] is None,
            decreases 24 - slots@.len(),
        {
            slots.push(None);
        }
        proof {
            lemma_block_ranks();
        }
        BlockEdges { slots }
    }

    /// Looks at the condition of every block again.
    pub fn observe(&mut self, policy: &Policy, facts: &FactSet, now: BootInstant)
        ensures
            forall|id: BlockId| #[trigger]
                final(self).at(id) == (if has_block(policy.blocks@, id) {
                    edge_after(old(self).at(id), id.condition.state(*facts), now)
                } else {
                    old(self).at(id)
                }),
    {
        proof {
            use_type_invariant(&*self);
            lemma_block_ranks();
        }
        let mut i: usize = 0;
        let ghost before = self.slots@;
        assert(policy.blocks@.take(0) =~= Seq::empty());
        while i < policy.blocks.len()
            invariant
                i <= policy.blocks@.len(),
                self.slots@.len() == 24,
                before == old(self).slots@,
                forall|id: BlockId| 0 <= #[trigger] block_rank(id) < 24,
                forall|a: BlockId, b: BlockId| #[trigger]
                    block_rank(a) == #[trigger] block_rank(b) ==> a == b,
                forall|id: BlockId|
                    self.slots@[#[trigger] block_rank(id)] == (if has_block(
                        policy.blocks@.take(i as int),
                        id,
                    ) {
                        edge_after(before[block_rank(id)], id.condition.state(*facts), now)
                    } else {
                        before[block_rank(id)]
                    }),
            decreases policy.blocks@.len() - i,
        {
            let id = policy.blocks[i].id;
            let state = id.condition.evaluate(facts);
            let slot = block_index(id);
            let ghost prior = self.slots@;
            if state.is_true() {
                if self.slots[slot].is_none() {
                    self.slots[slot] = Some(now);
                }
            } else if state.is_definitely_false() {
                self.slots[slot] = None;
            }
            let ghost seen = policy.blocks@.take(i as int);
            let ghost next = policy.blocks@.take(i as int + 1);
            proof {
                assert(next[i as int].id == id);
                assert forall|other: BlockId|
                    has_block(next, other) == (has_block(seen, other) || other == id) by {
                    if has_block(seen, other) {
                        let j = choose|j: int| 0 <= j < seen.len() && (#[trigger] seen[j]).id == other;
                        assert(next[j].id == other);
                    }
                    if has_block(next, other) {
                        let j = choose|j: int| 0 <= j < next.len() && (#[trigger] next[j]).id == other;
                        if j < i {
                            assert(seen[j].id == other);
                        }
                    }
                }
                assert forall|other: BlockId|
                    self.slots@[#[trigger] block_rank(other)] == (if has_block(next, other) {
                        edge_after(before[block_rank(other)], other.condition.state(*facts), now)
                    } else {
                        before[block_rank(other)]
                    }) by {
                    if other != id {
                        assert(block_rank(other) != block_rank(id));
                        assert(self.slots@[block_rank(other)] == prior[block_rank(other)]);
                    }
                }
            }
            i += 1;
        }
        assert(policy.blocks@.take(i as int) =~= policy.blocks@);
    }

    /// Since when the condition of a block has held.
    pub fn since(&self, id: BlockId) -> (r: Option<BootInstant>)
        ensures
            r == self.at(id),
    {
        proof {
            use_type_invariant(self);
        }
        self.slots[block_index(id)]
    }
}

impl Default for BlockEdges {
    fn default() -> (r: Self)
        ensures
            forall|id: BlockId| #[trigger] r.at(id) is None,
    {
        BlockEdges::new()
    }
}

impl Clone for BlockEdges {
    fn clone(&self) -> (r: Self)
        ensures
            forall|id: BlockId| #[trigger] r.at(id) == self.at(id),
    {
        proof {
            use_type_invariant(self);
            lemma_block_ranks();
        }
        let slots = self.slots.clone();
        assert(slots@ =~= self.slots@);
        BlockEdges { slots }
    }
}

/// Doubt never moves an edge: only a condition that is known not to hold clears one.
pub proof fn doubt_never_moves_an_edge(since: Option<BootInstant>, now: BootInstant)
    ensures
        edge_after(since, FactState::Indeterminate, now) == since,
        forall|state: FactState| since is Some && edge_after(since, state, now) is None
            ==> #[trigger] state.definitely_false(),
        forall|state: FactState| #[trigger]
            edge_after(since, state, now) is Some && since is Some ==> edge_after(since, state, now)
                == since,
{
}

} // verus!
