//! Facts about the machine, and what is known of them.
use vstd::prelude::*;

use crate::text::same;

verus! {

/// What is known of a fact.
#[derive(Clone, Copy, PartialEq, Eq, Hash, Debug, Structural)]
pub enum FactState {
    /// It holds.
    True,
    /// It does not hold.
    False,
    /// It cannot be told, where it normally can.
    Indeterminate,
    /// There is nothing here that it could be about.
    Unavailable,
}

impl FactState {
    /// What the state is called.
    pub open spec fn text(self) -> Seq<char> {
        match self {
            FactState::True => "true"@,
            FactState::False => "false"@,
            FactState::Indeterminate => "indeterminate"@,
            FactState::Unavailable => "unavailable"@,
        }
    }

    /// Whether the fact is known not to hold.
    pub open spec fn definitely_false(self) -> bool {
        self == FactState::False || self == FactState::Unavailable
    }

    /// Whether the fact holds.
    pub fn is_true(self) -> (r: bool)
        ensures
            r == (self == FactState::True),
    {
        matches!(self, FactState::True)
    }

    /// Whether the fact is known not to hold. Doubt is not such knowledge.
    pub fn is_definitely_false(self) -> (r: bool)
        ensures
            r == self.definitely_false(),
    {
        matches!(self, FactState::False | FactState::Unavailable)
    }

    /// What the state is called.
    pub fn name(self) -> (r: &'static str)
        ensures
            r@ == self.text(),
    {
        match self {
            FactState::True => "true",
            FactState::False => "false",
            FactState::Indeterminate => "indeterminate",
            FactState::Unavailable => "unavailable",
        }
    }
}

/// A fact that a condition can name.
#[derive(Clone, Copy, PartialEq, Eq, PartialOrd, Ord, Hash, Debug, Structural)]
pub enum FactId {
    /// Somebody is using the machine.
    HumanActive,
    /// The machine has come back from a sleep since it booted. Once true, it stays so until the next
    /// cold boot.
    AfterResume,
    /// Somebody is logged in from elsewhere.
    RemoteSession,
    /// A program has asked for the machine to stay awake.
    LeaseHeld,
    /// A login manager inhibitor blocks sleep.
    InhibitorBlock,
    /// A media player is playing.
    MediaPlaying,
    /// A Steam game is running.
    SteamGameRunning,
    /// Steam is downloading.
    SteamDownloading,
    /// A game holds GPU memory.
    GpuBusyGame,
    /// Something other than a game holds GPU memory.
    GpuBusyOther,
    /// A local service reports work in progress.
    LocalServiceBusy,
}

impl FactId {
    /// Every fact, in the order in which facts are listed.
    pub const ALL: [FactId; 11] = [
        FactId::HumanActive,
        FactId::AfterResume,
        FactId::RemoteSession,
        FactId::LeaseHeld,
        FactId::InhibitorBlock,
        FactId::MediaPlaying,
        FactId::SteamGameRunning,
        FactId::SteamDownloading,
        FactId::GpuBusyGame,
        FactId::GpuBusyOther,
        FactId::LocalServiceBusy,
    ];

    /// What the fact is called.
    pub open spec fn text(self) -> Seq<char> {
        match self {
            FactId::HumanActive => "human_active"@,
            FactId::AfterResume => "after_resume"@,
            FactId::RemoteSession => "remote_session"@,
            FactId::LeaseHeld => "lease_held"@,
            FactId::InhibitorBlock => "inhibitor_block"@,
            FactId::MediaPlaying => "media_playing"@,
            FactId::SteamGameRunning => "steam_game_running"@,
            FactId::SteamDownloading => "steam_downloading"@,
            FactId::GpuBusyGame => "gpu_busy_game"@,
            FactId::GpuBusyOther => "gpu_busy_other"@,
            FactId::LocalServiceBusy => "local_service_busy"@,
        }
    }

    /// The place of the fact among all of them.
    pub open spec fn rank(self) -> int {
        match self {
            FactId::HumanActive => 0,
            FactId::AfterResume => 1,
            FactId::RemoteSession => 2,
            FactId::LeaseHeld => 3,
            FactId::InhibitorBlock => 4,
            FactId::MediaPlaying => 5,
            FactId::SteamGameRunning => 6,
            FactId::SteamDownloading => 7,
            FactId::GpuBusyGame => 8,
            FactId::GpuBusyOther => 9,
            FactId::LocalServiceBusy => 10,
        }
    }

    /// The one of this name, if there is one.
    pub open spec fn named(name: Seq<char>) -> Option<FactId> {
        if exists|x: FactId| #[trigger] x.text() == name {
            Some(choose|x: FactId| #[trigger] x.text() == name)
        } else {
            None
        }
    }

    /// What the fact is called.
    pub fn name(self) -> (r: &'static str)
        ensures
            r@ == self.text(),
    {
        match self {
            FactId::HumanActive => "human_active",
            FactId::AfterResume => "after_resume",
            FactId::RemoteSession => "remote_session",
            FactId::LeaseHeld => "lease_held",
            FactId::InhibitorBlock => "inhibitor_block",
            FactId::MediaPlaying => "media_playing",
            FactId::SteamGameRunning => "steam_game_running",
            FactId::SteamDownloading => "steam_downloading",
            FactId::GpuBusyGame => "gpu_busy_game",
            FactId::GpuBusyOther => "gpu_busy_other",
            FactId::LocalServiceBusy => "local_service_busy",
        }
    }

    /// The fact of this name.
    pub fn from_name(name: &str) -> (r: Option<Self>)
        ensures
            r == FactId::named(name@),
    {
        if same(name, "human_active") {
            proof {
                lemma_factid_named(FactId::HumanActive);
            }
            return Some(FactId::HumanActive);
        }
        if same(name, "after_resume") {
            proof {
                lemma_factid_named(FactId::AfterResume);
            }
            return Some(FactId::AfterResume);
        }
        if same(name, "remote_session") {
            proof {
                lemma_factid_named(FactId::RemoteSession);
            }
            return Some(FactId::RemoteSession);
        }
        if same(name, "lease_held") {
            proof {
                lemma_factid_named(FactId::LeaseHeld);
            }
            return Some(FactId::LeaseHeld);
        }
        if same(name, "inhibitor_block") {
            proof {
                lemma_factid_named(FactId::InhibitorBlock);
            }
            return Some(FactId::InhibitorBlock);
        }
        if same(name, "media_playing") {
            proof {
                lemma_factid_named(FactId::MediaPlaying);
            }
            return Some(FactId::MediaPlaying);
        }
        if same(name, "steam_game_running") {
            proof {
                lemma_factid_named(FactId::SteamGameRunning);
            }
            return Some(FactId::SteamGameRunning);
        }
        if same(name, "steam_downloading") {
            proof {
                lemma_factid_named(FactId::SteamDownloading);
            }
            return Some(FactId::SteamDownloading);
        }
        if same(name, "gpu_busy_game") {
            proof {
                lemma_factid_named(FactId::GpuBusyGame);
            }
            return Some(FactId::GpuBusyGame);
        }
        if same(name, "gpu_busy_other") {
            proof {
                lemma_factid_named(FactId::GpuBusyOther);
            }
            return Some(FactId::GpuBusyOther);
        }
        if same(name, "local_service_busy") {
            proof {
                lemma_factid_named(FactId::LocalServiceBusy);
            }
            return Some(FactId::LocalServiceBusy);
        }
        None
    }

    /// The place of the fact among all of them.
    pub fn index(self) -> (r: usize)
        ensures
            r == self.rank(),
            r < 11,
            FactId::ALL@[r as int] == self,
    {
        match self {
            FactId::HumanActive => 0,
            FactId::AfterResume => 1,
            FactId::RemoteSession => 2,
            FactId::LeaseHeld => 3,
            FactId::InhibitorBlock => 4,
            FactId::MediaPlaying => 5,
            FactId::SteamGameRunning => 6,
            FactId::SteamDownloading => 7,
            FactId::GpuBusyGame => 8,
            FactId::GpuBusyOther => 9,
            FactId::LocalServiceBusy => 10,
        }
    }
}

/// The list of all facts holds each of them at its place.
pub proof fn lemma_all_facts()
    ensures
        FactId::ALL@.len() == 11,
        forall|f: FactId| 0 <= #[trigger] f.rank() < 11 && FactId::ALL@[f.rank()] == f,
        forall|i: int| 0 <= i < 11 ==> (#[trigger] FactId::ALL@[i]).rank() == i,
{
}

/// Each name is the name of the one it was taken from.
pub proof fn lemma_factid_named(x: FactId)
    ensures
        FactId::named(x.text()) == Some(x),
{
    let y = choose|y: FactId| #[trigger] y.text() == x.text();
    fact_names_are_distinct(y, x);
}

/// No two facts share a name.
pub proof fn fact_names_are_distinct(a: FactId, b: FactId)
    requires
        a.text() == b.text(),
    ensures
        a == b,
{
    reveal_strlit("human_active");
    assert("human_active"@.len() == 12 && "human_active"@[0] == 'h');
    reveal_strlit("after_resume");
    assert("after_resume"@.len() == 12 && "after_resume"@[0] == 'a');
    reveal_strlit("remote_session");
    assert("remote_session"@.len() == 14 && "remote_session"@[0] == 'r');
    reveal_strlit("lease_held");
    assert("lease_held"@.len() == 10 && "lease_held"@[0] == 'l');
    reveal_strlit("inhibitor_block");
    assert("inhibitor_block"@.len() == 15 && "inhibitor_block"@[0] == 'i');
    reveal_strlit("media_playing");
    assert("media_playing"@.len() == 13 && "media_playing"@[0] == 'm');
    reveal_strlit("steam_game_running");
    assert("steam_game_running"@.len() == 18 && "steam_game_running"@[0] == 's');
    reveal_strlit("steam_downloading");
    assert("steam_downloading"@.len() == 17 && "steam_downloading"@[0] == 's');
    reveal_strlit("gpu_busy_game");
    assert("gpu_busy_game"@.len() == 13 && "gpu_busy_game"@[0] == 'g');
    reveal_strlit("gpu_busy_other");
    assert("gpu_busy_other"@.len() == 14 && "gpu_busy_other"@[0] == 'g');
    reveal_strlit("local_service_busy");
    assert("local_service_busy"@.len() == 18 && "local_service_busy"@[0] == 'l');
}

/// A value for some of the facts.
#[derive(Debug)]
pub struct FactMap<V> {
    slots: Vec<Option<V>>,
}

impl<V> FactMap<V> {
    #[verifier::type_invariant]
    spec fn one_slot_per_fact(self) -> bool {
        self.slots@.len() == 11
    }

    /// The values, by fact.
    pub closed spec fn values(self) -> Map<FactId, V> {
        Map::new(
            |f: FactId| self.slots@[f.rank()] is Some,
            |f: FactId| self.slots@[f.rank()]->Some_0,
        )
    }

    /// A map without any value.
    pub fn new() -> (r: Self)
        ensures
            r@ == Map::<FactId, V>::empty(),
    {
        let mut slots: Vec<Option<V>> = Vec::new();
        while slots.len() < 11
            invariant
                slots@.len() <= 11,
                forall|i: int| 0 <= i < slots@.len() ==> slots@[i] is None,
            decreases 11 - slots@.len(),
        {
            slots.push(None);
        }
        let r = FactMap { slots };
        proof {
            lemma_all_facts();
            assert(r@ =~= Map::<FactId, V>::empty());
        }
        r
    }

    /// Sets the value for a fact.
    pub fn insert(&mut self, fact: FactId, value: V)
        ensures
            final(self)@ == old(self)@.insert(fact, value),
    {
        proof {
            use_type_invariant(&*self);
            lemma_all_facts();
        }
        let i = fact.index();
        self.slots[i] = Some(value);
        proof {
            assert(self@ =~= old(self)@.insert(fact, value));
        }
    }

    /// The value for a fact, if there is one.
    pub fn get(&self, fact: FactId) -> (r: Option<&V>)
        ensures
            match r {
                Some(v) => self@.contains_key(fact) && *v == self@[fact],
                None => !self@.contains_key(fact),
            },
    {
        proof {
            use_type_invariant(self);
            lemma_all_facts();
        }
        let i = fact.index();
        self.slots[i].as_ref()
    }
}

impl<V: Clone> Clone for FactMap<V> {
    fn clone(&self) -> (r: Self)
        ensures
            r@.dom() == self@.dom(),
            forall|f: FactId| #[trigger] self@.contains_key(f) ==> cloned::<V>(self@[f], r@[f]),
    {
        proof {
            use_type_invariant(self);
            lemma_all_facts();
        }
        let mut slots: Vec<Option<V>> = Vec::new();
        while slots.len() < 11
            invariant
                self.slots@.len() == 11,
                slots@.len() <= 11,
                forall|i: int|
                    0 <= i < slots@.len() ==> match (#[trigger] self.slots@[i], slots@[i]) {
                        (Some(a), Some(b)) => cloned::<V>(a, b),
                        (None, None) => true,
                        _ => false,
                    },
            decreases 11 - slots@.len(),
        {
            let i: usize = slots.len();
            let copy = match &self.slots[i] {
                Some(v) => Some(v.clone()),
                None => None,
            };
            slots.push(copy);
        }
        let r = FactMap { slots };
        proof {
            assert(r@.dom() =~= self@.dom());
        }
        r
    }
}

impl<V> View for FactMap<V> {
    type V = Map<FactId, V>;

    open spec fn view(&self) -> Map<FactId, V> {
        self.values()
    }
}

/// The values of a map for the first facts, in the order of the facts.
pub open spec fn listed<V>(values: Map<FactId, V>, facts: int) -> Seq<(FactId, V)>
    decreases facts,
{
    if facts <= 0 {
        Seq::empty()
    } else {
        let fact = FactId::ALL@[facts - 1];
        let before = listed(values, facts - 1);
        if values.contains_key(fact) {
            before.push((fact, values[fact]))
        } else {
            before
        }
    }
}

/// What is known of each fact.
#[derive(Debug)]
pub struct FactSet {
    /// The readings that were taken. Of a fact that was not read nothing is known to be here.
    pub readings: FactMap<FactState>,
}

impl FactSet {
    /// What is known of a fact. One that was not read is not available.
    pub open spec fn state(self, fact: FactId) -> FactState {
        if self.readings@.contains_key(fact) {
            self.readings@[fact]
        } else {
            FactState::Unavailable
        }
    }

    /// A set without any reading.
    pub fn new() -> (r: Self)
        ensures
            r.readings@ == Map::<FactId, FactState>::empty(),
    {
        FactSet { readings: FactMap::new() }
    }

    /// Records a reading.
    pub fn set(&mut self, fact: FactId, state: FactState)
        ensures
            final(self).readings@ == old(self).readings@.insert(fact, state),
    {
        self.readings.insert(fact, state);
    }

    /// The set with one more reading.
    pub fn with(self, fact: FactId, state: FactState) -> (r: Self)
        ensures
            r.readings@ == self.readings@.insert(fact, state),
    {
        let mut set = self;
        set.set(fact, state);
        set
    }

    /// What is known of a fact.
    pub fn get(&self, fact: FactId) -> (r: FactState)
        ensures
            r == self.state(fact),
    {
        match self.readings.get(fact) {
            Some(state) => *state,
            None => FactState::Unavailable,
        }
    }

    /// The readings that were taken, in the order of the facts.
    pub fn iter(&self) -> (r: Vec<(FactId, FactState)>)
        ensures
            r@ == listed(self.readings@, 11),
    {
        let mut out: Vec<(FactId, FactState)> = Vec::new();
        let all = FactId::ALL;
        let mut i: usize = 0;
        while i < 11
            invariant
                i <= 11,
                all@ == FactId::ALL@,
                out@ == listed(self.readings@, i as int),
            decreases 11 - i,
        {
            let fact = all[i];
            match self.readings.get(fact) {
                Some(state) => out.push((fact, *state)),
                None => {},
            }
            i += 1;
        }
        out
    }
}

impl Clone for FactSet {
    fn clone(&self) -> (r: Self)
        ensures
            r.readings@ == self.readings@,
    {
        let readings = self.readings.clone();
        assert(readings@ =~= self.readings@);
        FactSet { readings }
    }
}

impl Default for FactSet {
    fn default() -> (r: Self)
        ensures
            r.readings@ == Map::<FactId, FactState>::empty(),
    {
        FactSet::new()
    }
}

} // verus!
