//! What was read of each fact, and why.
use vstd::prelude::*;
use vstd::string::StringExecFns;

use crate::fact::{FactId, FactMap, FactSet, FactState};
use crate::policy::Policy;
use crate::text::{decimal, push_decimal};
use crate::time::{whole_secs, Duration};

verus! {

/// What is known of a fact, and by what evidence.
#[derive(Debug, PartialEq, Eq)]
pub struct Reading {
    /// What is known.
    pub state: FactState,
    /// The evidence, in words.
    pub detail: String,
}

impl Reading {
    /// Whether a reading is this state by this evidence.
    pub open spec fn says(self, state: FactState, detail: Seq<char>) -> bool {
        self.state == state && self.detail@ == detail
    }

    /// A reading.
    pub fn new(state: FactState, detail: &str) -> (r: Self)
        ensures
            r.says(state, detail@),
    {
        Reading { state, detail: detail.to_owned() }
    }

    /// The fact holds.
    pub fn yes(detail: &str) -> (r: Self)
        ensures
            r.says(FactState::True, detail@),
    {
        Reading::new(FactState::True, detail)
    }

    /// The fact does not hold.
    pub fn no(detail: &str) -> (r: Self)
        ensures
            r.says(FactState::False, detail@),
    {
        Reading::new(FactState::False, detail)
    }

    /// The fact cannot be told, where it normally can.
    pub fn doubt(detail: &str) -> (r: Self)
        ensures
            r.says(FactState::Indeterminate, detail@),
    {
        Reading::new(FactState::Indeterminate, detail)
    }

    /// There is nothing here that the fact could be about.
    pub fn absent(detail: &str) -> (r: Self)
        ensures
            r.says(FactState::Unavailable, detail@),
    {
        Reading::new(FactState::Unavailable, detail)
    }
}

impl Clone for Reading {
    fn clone(&self) -> (r: Self)
        ensures
            r == *self,
    {
        Reading { state: self.state, detail: self.detail.clone() }
    }
}

/// The facts that nothing announces, so that they have to be looked at again.
pub const POLLED: [FactId; 6] = [
    FactId::MediaPlaying,
    FactId::SteamGameRunning,
    FactId::SteamDownloading,
    FactId::GpuBusyGame,
    FactId::GpuBusyOther,
    FactId::LocalServiceBusy,
];

/// What the detectors found, before the facts that are not read are taken out.
#[derive(Debug)]
pub struct Found {
    /// Whether somebody is using the machine.
    pub human_active: Reading,
    /// Whether the machine has resumed since boot.
    pub after_resume: bool,
    /// Whether somebody is logged in from elsewhere.
    pub remote_session: Reading,
    /// Who asked for the machine to stay awake, if anybody did.
    pub leases: Option<String>,
    /// Whether the login manager was asked to block sleep.
    pub inhibitor_block: Reading,
    /// Whether a media player is playing.
    pub media_playing: Reading,
    /// Whether a Steam game is running.
    pub steam_game_running: Reading,
    /// Whether Steam is downloading.
    pub steam_downloading: Reading,
    /// Whether a game holds GPU memory.
    pub gpu_busy_game: Reading,
    /// Whether something other than a game holds GPU memory.
    pub gpu_busy_other: Reading,
    /// Whether a local service reports work in progress.
    pub local_service_busy: Reading,
}

/// What was found of a fact: its state and the evidence.
pub open spec fn found_of(found: Found, fact: FactId) -> (FactState, Seq<char>) {
    match fact {
        FactId::HumanActive => (found.human_active.state, found.human_active.detail@),
        FactId::AfterResume => if found.after_resume {
            (FactState::True, "this boot has resumed from sleep at least once"@)
        } else {
            (FactState::False, "this boot has not slept"@)
        },
        FactId::RemoteSession => (found.remote_session.state, found.remote_session.detail@),
        FactId::LeaseHeld => match found.leases {
            Some(who) => (FactState::True, who@),
            None => (FactState::False, "no lease held"@),
        },
        FactId::InhibitorBlock => (found.inhibitor_block.state, found.inhibitor_block.detail@),
        FactId::MediaPlaying => (found.media_playing.state, found.media_playing.detail@),
        FactId::SteamGameRunning => (
            found.steam_game_running.state,
            found.steam_game_running.detail@,
        ),
        FactId::SteamDownloading => (
            found.steam_downloading.state,
            found.steam_downloading.detail@,
        ),
        FactId::GpuBusyGame => (found.gpu_busy_game.state, found.gpu_busy_game.detail@),
        FactId::GpuBusyOther => (found.gpu_busy_other.state, found.gpu_busy_other.detail@),
        FactId::LocalServiceBusy => (
            found.local_service_busy.state,
            found.local_service_busy.detail@,
        ),
    }
}

fn reading_of(found: &Found, fact: FactId) -> (r: Reading)
    ensures
        r.says(found_of(*found, fact).0, found_of(*found, fact).1),
{
    match fact {
        FactId::HumanActive => found.human_active.clone(),
        FactId::AfterResume => if found.after_resume {
            Reading::yes("this boot has resumed from sleep at least once")
        } else {
            Reading::no("this boot has not slept")
        },
        FactId::RemoteSession => found.remote_session.clone(),
        FactId::LeaseHeld => match &found.leases {
            Some(who) => Reading::yes(who.as_str()),
            None => Reading::no("no lease held"),
        },
        FactId::InhibitorBlock => found.inhibitor_block.clone(),
        FactId::MediaPlaying => found.media_playing.clone(),
        FactId::SteamGameRunning => found.steam_game_running.clone(),
        FactId::SteamDownloading => found.steam_downloading.clone(),
        FactId::GpuBusyGame => found.gpu_busy_game.clone(),
        FactId::GpuBusyOther => found.gpu_busy_other.clone(),
        FactId::LocalServiceBusy => found.local_service_busy.clone(),
    }
}

/// Whether the reading of a fact is what was found of it, or nothing where the fact is not read.
pub open spec fn sampled(
    readings: Map<FactId, Reading>,
    policy: Policy,
    found: Found,
    f: FactId,
) -> bool {
    &&& readings.contains_key(f)
    &&& if policy.reads(f) {
        readings[f].says(found_of(found, f).0, found_of(found, f).1)
    } else {
        readings[f].says(FactState::Unavailable, "disabled by configuration"@)
    }
}

/// Whether the memory of the GPU has to be looked at.
pub fn gpu_enabled(policy: &Policy) -> (r: bool)
    ensures
        r == (policy.reads(FactId::GpuBusyGame) || policy.reads(FactId::GpuBusyOther)),
{
    policy.fact_enabled(FactId::GpuBusyGame) || policy.fact_enabled(FactId::GpuBusyOther)
}

/// Puts together what the detectors found. A fact that is not read reads as not available,
/// whatever its detector would have said.
pub fn assemble(policy: &Policy, found: &Found) -> (r: FactMap<Reading>)
    ensures
        forall|f: FactId| #[trigger] sampled(r@, *policy, *found, f),
{
    let mut out: FactMap<Reading> = FactMap::new();
    let all = FactId::ALL;
    let mut i: usize = 0;
    while i < 11
        invariant
            i <= 11,
            all@ == FactId::ALL@,
            forall|j: int|
                0 <= j < i ==> sampled(out@, *policy, *found, #[trigger] FactId::ALL@[j]),
        decreases 11 - i,
    {
        let fact = all[i];
        let reading = if policy.fact_enabled(fact) {
            reading_of(found, fact)
        } else {
            Reading::absent("disabled by configuration")
        };
        let ghost before = out@;
        out.insert(fact, reading);
        proof {
            crate::fact::lemma_all_facts();
            assert forall|j: int| 0 <= j < i + 1 implies sampled(
                out@,
                *policy,
                *found,
                #[trigger] FactId::ALL@[j],
            ) by {
                if j < i {
                    assert(sampled(before, *policy, *found, FactId::ALL@[j]));
                    assert(FactId::ALL@[j].rank() == j);
                    assert(FactId::ALL@[i as int].rank() == i);
                }
            }
        }
        i += 1;
    }
    proof {
        crate::fact::lemma_all_facts();
        assert forall|f: FactId| #[trigger] sampled(out@, *policy, *found, f) by {
            assert(FactId::ALL@[f.rank()] == f);
        }
    }
    out
}

/// What the detectors remember.
#[derive(Debug)]
pub struct Detectors {
    /// The state of each fact at the last look.
    pub last: FactMap<FactState>,
}

/// The facts among the first ones whose state is not what it was, in the order of the facts.
pub open spec fn changes(
    last: Map<FactId, FactState>,
    readings: Map<FactId, Reading>,
    facts: int,
) -> Seq<FactId>
    decreases facts,
{
    if facts <= 0 {
        Seq::empty()
    } else {
        let fact = FactId::ALL@[facts - 1];
        let before = changes(last, readings, facts - 1);
        if readings.contains_key(fact) && !(last.contains_key(fact) && last[fact]
            == readings[fact].state) {
            before.push(fact)
        } else {
            before
        }
    }
}

/// The states of readings, by fact.
pub open spec fn states(readings: Map<FactId, Reading>) -> Map<FactId, FactState> {
    Map::new(|f: FactId| readings.contains_key(f), |f: FactId| readings[f].state)
}

impl Default for Detectors {
    fn default() -> (r: Self)
        ensures
            r.last@ == Map::<FactId, FactState>::empty(),
    {
        Detectors::new()
    }
}

impl Detectors {
    /// Detectors that have not looked yet.
    pub fn new() -> (r: Self)
        ensures
            r.last@ == Map::<FactId, FactState>::empty(),
    {
        Detectors { last: FactMap::new() }
    }

    /// The facts whose state is not what it was at the last look. A new reason for the same state is
    /// no change.
    pub fn changed(&mut self, readings: &FactMap<Reading>) -> (r: Vec<FactId>)
        ensures
            r@ == changes(old(self).last@, readings@, 11),
            final(self).last@ == old(self).last@.union_prefer_right(states(readings@)),
    {
        let mut out: Vec<FactId> = Vec::new();
        let all = FactId::ALL;
        let ghost before = self.last@;
        let mut i: usize = 0;
        while i < 11
            invariant
                i <= 11,
                all@ == FactId::ALL@,
                out@ == changes(before, readings@, i as int),
                forall|f: FactId|
                    #![trigger self.last@.contains_key(f)]
                    self.last@.contains_key(f) == (before.contains_key(f) || (readings@.contains_key(
                        f,
                    ) && f.rank() < i)),
                forall|f: FactId|
                    #![trigger self.last@[f]]
                    self.last@.contains_key(f) ==> self.last@[f] == (if readings@.contains_key(f)
                        && f.rank() < i {
                        readings@[f].state
                    } else {
                        before[f]
                    }),
            decreases 11 - i,
        {
            proof {
                crate::fact::lemma_all_facts();
            }
            let fact = all[i];
            assert(fact.rank() == i);
            match readings.get(fact) {
                Some(reading) => {
                    let same = match self.last.get(fact) {
                        Some(state) => *state == reading.state,
                        None => false,
                    };
                    if !same {
                        out.push(fact);
                    }
                    self.last.insert(fact, reading.state);
                    assert forall|f: FactId| f.rank() == i implies f == fact by {
                        assert(FactId::ALL@[f.rank()] == f);
                    }
                },
                None => {
                    assert forall|f: FactId| f.rank() == i implies f == fact by {
                        assert(FactId::ALL@[f.rank()] == f);
                    }
                },
            }
            i += 1;
        }
        proof {
            crate::fact::lemma_all_facts();
            assert forall|f: FactId| #[trigger] f.rank() < 11 by {}
            assert(self.last@ =~= before.union_prefer_right(states(readings@)));
        }
        out
    }
}

/// The states of readings, as the policy takes them.
pub fn to_fact_set(readings: &FactMap<Reading>) -> (r: FactSet)
    ensures
        r.readings@ == states(readings@),
{
    let mut facts = FactSet::new();
    let all = FactId::ALL;
    let mut i: usize = 0;
    while i < 11
        invariant
            i <= 11,
            all@ == FactId::ALL@,
            forall|f: FactId|
                #![trigger facts.readings@.contains_key(f)]
                facts.readings@.contains_key(f) == (readings@.contains_key(f) && f.rank() < i),
            forall|f: FactId|
                #![trigger facts.readings@[f]]
                facts.readings@.contains_key(f) ==> facts.readings@[f] == readings@[f].state,
        decreases 11 - i,
    {
        proof {
            crate::fact::lemma_all_facts();
        }
        let fact = all[i];
        assert(fact.rank() == i);
        assert forall|f: FactId| f.rank() == i implies f == fact by {
            assert(FactId::ALL@[f.rank()] == f);
        }
        match readings.get(fact) {
            Some(reading) => facts.set(fact, reading.state),
            None => {},
        }
        i += 1;
    }
    proof {
        crate::fact::lemma_all_facts();
        assert forall|f: FactId| #[trigger] f.rank() < 11 by {}
        assert(facts.readings@ =~= states(readings@));
    }
    facts
}

/// Two digits of a number below a hundred.
pub open spec fn two_digits(n: nat) -> Seq<char> {
    if n < 10 {
        "0"@ + decimal(n)
    } else {
        decimal(n)
    }
}

/// Appends a number with at least two digits.
pub fn push_two_digits(out: &mut String, n: u64)
    ensures
        final(out)@ == old(out)@ + two_digits(n as nat),
{
    if n < 10 {
        out.append("0");
        push_decimal(out, n as u128);
        assert((old(out)@ + "0"@) + decimal(n as nat) =~= old(out)@ + ("0"@ + decimal(n as nat)));
    } else {
        push_decimal(out, n as u128);
    }
}

/// How long ago something was, in words: in seconds, in minutes, or in hours and minutes. Never
/// more exact than that.
pub open spec fn ago_text(secs: nat) -> Seq<char> {
    if secs < 90 {
        decimal(secs) + "s ago"@
    } else if secs / 60 < 90 {
        decimal(secs / 60) + "m ago"@
    } else {
        decimal(secs / 60 / 60) + "h"@ + two_digits(secs / 60 % 60) + "m ago"@
    }
}

/// How long ago something was, in words.
pub fn ago(d: Duration) -> (r: String)
    ensures
        r@ == ago_text(whole_secs(d)),
{
    let secs = d.as_secs();
    let mut out = String::new();
    if secs < 90 {
        push_decimal(&mut out, secs as u128);
        assert(out@ =~= decimal(secs as nat));
        out.append("s ago");
        return out;
    }
    let mins: u64 = secs / 60;
    if mins < 90 {
        push_decimal(&mut out, mins as u128);
        assert(out@ =~= decimal(mins as nat));
        out.append("m ago");
        return out;
    }
    push_decimal(&mut out, (mins / 60) as u128);
    assert(out@ =~= decimal((mins / 60) as nat));
    out.append("h");
    push_two_digits(&mut out, mins % 60);
    out.append("m ago");
    out
}

/// A state is news once: a second look at the same readings finds no change, whatever the reasons
/// for them.
pub proof fn a_state_is_news_once(
    last: Map<FactId, FactState>,
    readings: Map<FactId, Reading>,
    facts: int,
)
    requires
        facts <= 11,
    ensures
        changes(last.union_prefer_right(states(readings)), readings, facts).len() == 0,
    decreases facts,
{
    if facts > 0 {
        a_state_is_news_once(last, readings, facts - 1);
    }
}

} // verus!
