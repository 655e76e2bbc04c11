//! The session agents: what each reports of its session, and what that says of the machine.
use vstd::prelude::*;
use vstd::string::StringExecFns;

use crate::clock::ClockOrigin;
use crate::fact::FactState;
use crate::gpu::Holder;
use crate::names::{ascending, in_order, lists, NameMap};
use crate::reading::{ago, ago_text, Reading};
use crate::text::{decimal, push_decimal, same, views};
use crate::time::{between, earlier, whole_secs, BootInstant, Duration};

verus! {

/// How old a report may be: in seconds. Three reports have then been missed.
pub const HEARTBEAT_MAX_AGE_SECS: u64 = 90;

/// How often an agent reports: in seconds.
pub const HEARTBEAT_INTERVAL_SECS: u64 = 30;

/// The idle time of a session that cannot tell its own.
pub const IDLE_UNKNOWN: u64 = u64::MAX;

/// A session agent.
#[derive(Debug)]
pub struct Agent {
    /// Its session.
    pub session_id: String,
    /// The user of the session.
    pub uid: u32,
    /// Whether the session can darken its panel.
    pub can_blank: bool,
    /// How long nobody had used the session as it reported, if it could tell.
    pub idle: Option<Duration>,
    /// What it said of media players.
    pub media: String,
    /// The processes of the session that hold GPU memory.
    pub gpu_holders: Vec<Holder>,
    /// When it last reported.
    pub last_report: BootInstant,
}

/// Whether an agent has gone silent.
pub open spec fn stale(agent: Agent, now: BootInstant) -> bool {
    between(agent.last_report, now).nanos > 90 * 1_000_000_000
}

/// The agents among some that have not gone silent, in order.
pub open spec fn live_among(
    agents: Map<Seq<char>, Agent>,
    now: BootInstant,
    names: Seq<Seq<char>>,
) -> Seq<Agent>
    decreases names.len(),
{
    if names.len() == 0 {
        Seq::empty()
    } else {
        let before = live_among(agents, now, names.drop_last());
        if stale(agents[names.last()], now) {
            before
        } else {
            before.push(agents[names.last()])
        }
    }
}

/// The first place in a list of agents where one says this of media players, or the length.
pub open spec fn first_saying(live: Seq<Agent>, word: Seq<char>) -> int
    decreases live.len(),
{
    if live.len() == 0 || live[0].media@ == word {
        0
    } else {
        1 + first_saying(live.skip(1), word)
    }
}

/// The first place in a list of agents where one cannot tell its idle time, or the length.
pub open spec fn first_unknown(live: Seq<Agent>) -> int
    decreases live.len(),
{
    if live.len() == 0 || live[0].idle is None {
        0
    } else {
        1 + first_unknown(live.skip(1))
    }
}

/// How long nobody has used a session: what was reported, and what has passed since.
pub open spec fn idle_now(agent: Agent, now: BootInstant) -> Duration {
    let sum = (agent.idle->Some_0).nanos + between(agent.last_report, now).nanos;
    Duration {
        nanos: if sum <= u128::MAX {
            sum as u128
        } else {
            u128::MAX
        },
    }
}

/// The place of the session that was used last: the first of those with the least idle time.
pub open spec fn most_recent(live: Seq<Agent>, now: BootInstant) -> int
    decreases live.len(),
{
    if live.len() <= 1 {
        0
    } else {
        let before = most_recent(live.drop_last(), now);
        if idle_now(live.last(), now).nanos < idle_now(live[before], now).nanos {
            live.len() - 1
        } else {
            before
        }
    }
}

/// What the live agents say of media players.
pub open spec fn media_of(live: Seq<Agent>) -> (FactState, Seq<char>) {
    let playing = first_saying(live, "true"@);
    let doubtful = first_saying(live, "indeterminate"@);
    if live.len() == 0 {
        (FactState::Unavailable, "no session agent, so no session bus is reachable"@)
    } else if playing < live.len() {
        (FactState::True, "playing in session "@ + live[playing].session_id@)
    } else if doubtful < live.len() {
        (
            FactState::Indeterminate,
            "the agent in session "@ + live[doubtful].session_id@ + " could not read MPRIS"@,
        )
    } else if forall|i: int|
        #![trigger live[i]]
        0 <= i < live.len() ==> live[i].media@ == "unavailable"@ || live[i].media@.len() == 0 {
        (FactState::Unavailable, "no session bus reachable in any session"@)
    } else {
        (FactState::False, "no MPRIS player is playing"@)
    }
}

/// What the live agents say of somebody being there.
pub open spec fn human_of(
    live: Seq<Agent>,
    now: BootInstant,
    min_idle: Duration,
    has_graphical_session: bool,
) -> (FactState, Seq<char>, ClockOrigin) {
    let broken = first_unknown(live);
    let recent = live[most_recent(live, now)];
    let idle = idle_now(recent, now);
    if live.len() == 0 {
        if has_graphical_session {
            (
                FactState::Indeterminate,
                "no session agent is reporting, but a graphical session exists -- idlectl-agent is not running or has stopped answering"@,
                ClockOrigin::Unreadable,
            )
        } else {
            (
                FactState::False,
                "no graphical session on this machine; nothing has been touched"@,
                ClockOrigin::NotYet,
            )
        }
    } else if broken < live.len() {
        (
            FactState::Indeterminate,
            "the agent in session "@ + live[broken].session_id@
                + " is alive but its idle protocol is not answering"@,
            ClockOrigin::Unreadable,
        )
    } else if idle.nanos < min_idle.nanos {
        (
            FactState::True,
            "input in session "@ + recent.session_id@ + " "@ + ago_text(whole_secs(idle)),
            ClockOrigin::At(earlier(now, idle)),
        )
    } else {
        (
            FactState::False,
            "last input "@ + ago_text(whole_secs(idle)) + " (threshold "@ + decimal(
                whole_secs(min_idle),
            ) + "s)"@,
            ClockOrigin::At(earlier(now, idle)),
        )
    }
}

/// The holders of GPU memory that live agents report, in order.
pub open spec fn holders_of(live: Seq<Agent>) -> Seq<Holder>
    decreases live.len(),
{
    if live.len() == 0 {
        Seq::empty()
    } else {
        holders_of(live.drop_last()) + live.last().gpu_holders@
    }
}

/// The agents.
#[derive(Debug)]
pub struct Registry {
    /// The agents, by the name under which each is on the bus.
    pub agents: NameMap<Agent>,
    /// Whether the panel was last told to darken.
    pub blanked: bool,
}

/// The idle time of a report, if it tells one.
pub open spec fn reported_idle(idle_usec: u64) -> Option<Duration> {
    if idle_usec == u64::MAX {
        None
    } else {
        Some(Duration { nanos: (idle_usec * 1_000) as u128 })
    }
}

/// Whether an agent is another one after a report.
pub open spec fn reports(
    after: Agent,
    before: Agent,
    idle_usec: u64,
    media: Seq<char>,
    holders: Seq<Holder>,
    now: BootInstant,
) -> bool {
    &&& after.session_id@ == before.session_id@
    &&& after.uid == before.uid
    &&& after.can_blank == before.can_blank
    &&& after.idle == reported_idle(idle_usec)
    &&& after.media@ == media
    &&& after.gpu_holders@ == holders
    &&& after.last_report == now
}

impl Agent {
    fn stale_at(&self, now: BootInstant) -> (r: bool)
        ensures
            r == stale(*self, now),
    {
        now.since(self.last_report).nanos > Duration::from_secs(HEARTBEAT_MAX_AGE_SECS).nanos
    }
}

impl Default for Registry {
    fn default() -> (r: Self)
        ensures
            r.agents@ == Map::<Seq<char>, Agent>::empty(),
            !r.blanked,
    {
        Registry::new()
    }
}

impl Registry {
    /// No agent.
    pub fn new() -> (r: Self)
        ensures
            r.agents@ == Map::<Seq<char>, Agent>::empty(),
            !r.blanked,
    {
        Registry { agents: NameMap::new(), blanked: false }
    }

    /// The agents that have not gone silent.
    pub open spec fn live(self, now: BootInstant) -> Seq<Agent> {
        live_among(self.agents@, now, in_order(self.agents@.dom()))
    }

    /// Adds an agent, or replaces the one of the same name.
    pub fn register(&mut self, unique_name: &str, agent: Agent)
        ensures
            final(self).agents@ == old(self).agents@.insert(unique_name@, agent),
            final(self).blanked == old(self).blanked,
    {
        self.agents.put(unique_name, agent);
    }

    /// Takes an agent out. Says whether it was there.
    pub fn remove(&mut self, unique_name: &str) -> (r: bool)
        ensures
            r == old(self).agents@.contains_key(unique_name@),
            final(self).agents@ == old(self).agents@.remove(unique_name@),
            final(self).blanked == old(self).blanked,
    {
        self.agents.remove(unique_name)
    }

    /// Records a report. Says whether its sender is registered; one that is not changes nothing.
    pub fn report(
        &mut self,
        unique_name: &str,
        idle_usec: u64,
        media: &str,
        holders: Vec<Holder>,
        now: BootInstant,
    ) -> (r: bool)
        ensures
            r == old(self).agents@.contains_key(unique_name@),
            !r ==> final(self).agents@ == old(self).agents@,
            r ==> {
                &&& final(self).agents@.contains_key(unique_name@)
                &&& final(self).agents@ == old(self).agents@.insert(
                    unique_name@,
                    final(self).agents@[unique_name@],
                )
                &&& reports(
                    final(self).agents@[unique_name@],
                    old(self).agents@[unique_name@],
                    idle_usec,
                    media@,
                    holders@,
                    now,
                )
            },
            final(self).blanked == old(self).blanked,
    {
        let agent = match self.agents.get(unique_name) {
            None => return false,
            Some(agent) => Agent {
                session_id: agent.session_id.clone(),
                uid: agent.uid,
                can_blank: agent.can_blank,
                idle: if idle_usec != IDLE_UNKNOWN {
                    Some(Duration::from_micros(idle_usec))
                } else {
                    None
                },
                media: media.to_owned(),
                gpu_holders: holders,
                last_report: now,
            },
        };
        self.agents.put(unique_name, agent);
        true
    }

    fn live_agents(&self, now: BootInstant) -> (r: Vec<&Agent>)
        ensures
            r@.map_values(|a: &Agent| *a) == self.live(now),
    {
        let ghost names = in_order(self.agents@.dom());
        let len: usize = self.agents.len();
        let mut out: Vec<&Agent> = Vec::new();
        let mut i: usize = 0;
        assert(out@.map_values(|a: &Agent| *a) =~= Seq::empty());
        while i < len
            invariant
                i <= len,
                len == names.len(),
                names == in_order(self.agents@.dom()),
                out@.map_values(|a: &Agent| *a) == live_among(
                    self.agents@,
                    now,
                    names.take(i as int),
                ),
            decreases len - i,
        {
            let agent = self.agents.value_at(i);
            assert(names.take(i as int + 1).drop_last() =~= names.take(i as int));
            if !agent.stale_at(now) {
                let ghost before = out@.map_values(|a: &Agent| *a);
                out.push(agent);
                assert(out@.map_values(|a: &Agent| *a) =~= before.push(*agent));
            }
            i += 1;
        }
        assert(names.take(i as int) =~= names);
        out
    }

    /// Whether a media player is playing, by what the sessions say. One that plays is enough; one
    /// that cannot tell is doubt.
    pub fn media(&self, now: BootInstant) -> (r: Reading)
        ensures
            r.says(media_of(self.live(now)).0, media_of(self.live(now)).1),
    {
        let live = self.live_agents(now);
        let ghost agents = live@.map_values(|a: &Agent| *a);
        if live.len() == 0 {
            return Reading::absent("no session agent, so no session bus is reachable");
        }
        let playing = find_saying(&live, "true");
        if playing < live.len() {
            assert(agents[playing as int] == *live@[playing as int]);
            let mut detail = "playing in session ".to_owned();
            detail.append(live[playing].session_id.as_str());
            return Reading::yes(detail.as_str());
        }
        let doubtful = find_saying(&live, "indeterminate");
        if doubtful < live.len() {
            assert(agents[doubtful as int] == *live@[doubtful as int]);
            let mut detail = "the agent in session ".to_owned();
            detail.append(live[doubtful].session_id.as_str());
            detail.append(" could not read MPRIS");
            return Reading::doubt(detail.as_str());
        }
        let mut i: usize = 0;
        while i < live.len()
            invariant
                i <= live@.len(),
                agents == live@.map_values(|a: &Agent| *a),
                agents == self.live(now),
                agents.len() > 0,
                first_saying(agents, "true"@) >= agents.len(),
                first_saying(agents, "indeterminate"@) >= agents.len(),
                forall|j: int|
                    #![trigger agents[j]]
                    0 <= j < i ==> agents[j].media@ == "unavailable"@ || agents[j].media@.len()
                        == 0,
            decreases live@.len() - i,
        {
            let media = live[i].media.as_str();
            assert(agents[i as int] == *live@[i as int]);
            if !same(media, "unavailable") && !media.is_empty() {
                assert(!(agents[i as int].media@ == "unavailable"@ || agents[i as int].media@.len()
                    == 0));
                return Reading::no("no MPRIS player is playing");
            }
            i += 1;
        }
        Reading::absent("no session bus reachable in any session")
    }

    /// The holders of GPU memory that the sessions report.
    pub fn gpu_holders(&self, now: BootInstant) -> (r: Vec<Holder>)
        ensures
            crate::gpu::holder_views(r@) == crate::gpu::holder_views(holders_of(self.live(now))),
    {
        let live = self.live_agents(now);
        let ghost agents = live@.map_values(|a: &Agent| *a);
        let mut out: Vec<Holder> = Vec::new();
        let mut i: usize = 0;
        assert(out@ =~= holders_of(agents.take(0)));
        while i < live.len()
            invariant
                i <= live@.len(),
                agents == live@.map_values(|a: &Agent| *a),
                out@ == holders_of(agents.take(i as int)),
            decreases live@.len() - i,
        {
            assert(agents.take(i as int + 1).drop_last() =~= agents.take(i as int));
            assert(agents[i as int] == *live@[i as int]);
            let held = &live[i].gpu_holders;
            let ghost before = out@;
            let mut j: usize = 0;
            assert(before + held@.take(0) =~= before);
            while j < held.len()
                invariant
                    j <= held@.len(),
                    out@ == before + held@.take(j as int),
                decreases held@.len() - j,
            {
                out.push(held[j].clone());
                j += 1;
                assert(held@.take(j as int) =~= held@.take(j as int - 1).push(held@[j as int - 1]));
                assert(before + held@.take(j as int) =~= (before + held@.take(j as int - 1)).push(
                    held@[j as int - 1],
                ));
            }
            assert(held@.take(j as int) =~= held@);
            i += 1;
        }
        assert(agents.take(i as int) =~= agents);
        out
    }

    /// Takes out the agents that have gone silent. Gives them back, in the order of their names.
    pub fn reap(&mut self, now: BootInstant) -> (r: Vec<Agent>)
        ensures
            r@ == stale_agents(old(self).agents@, now, in_order(old(self).agents@.dom())),
            without_silent(old(self).agents@, final(self).agents@, now),
            final(self).blanked == old(self).blanked,
    {
        let ghost before = self.agents@;
        let ghost names = in_order(before.dom());
        let len: usize = self.agents.len();
        let mut silent: Vec<String> = Vec::new();
        let mut i: usize = 0;
        assert(views(silent@) =~= Seq::empty());
        assert(agents_at(before, views(silent@)) =~= Seq::empty());
        while i < len
            invariant
                i <= len,
                len == names.len(),
                self.agents@ == before,
                names == in_order(before.dom()),
                lists(names, before.dom()),
                self.blanked == old(self).blanked,
                views(silent@).no_duplicates(),
                agents_at(before, views(silent@)) == stale_agents(
                    before,
                    now,
                    names.take(i as int),
                ),
                forall|n: Seq<char>|
                    #![trigger views(silent@).contains(n)]
                    views(silent@).contains(n) == (names.take(i as int).contains(n) && stale(
                        before[n],
                        now,
                    )),
            decreases len - i,
        {
            let name = self.agents.name_at(i).clone();
            let agent = self.agents.value_at(i);
            let ghost done = names.take(i as int);
            let ghost next = names.take(i as int + 1);
            let ghost quiet = views(silent@);
            assert(next.drop_last() =~= done);
            assert(next =~= done.push(name@));
            proof {
                crate::names::lemma_ascending_take(names, i as int);
                assert(!quiet.contains(name@));
                assert forall|n: Seq<char>| next.contains(n) == (done.contains(n) || n == name@) by {
                    crate::names::lemma_pushed(done, name@, n);
                }
            }
            if agent.stale_at(now) {
                assert(views(silent@.push(name)) =~= quiet.push(name@));
                assert(agents_at(before, quiet.push(name@)) =~= agents_at(before, quiet).push(
                    before[name@],
                ));
                proof {
                    assert forall|n: Seq<char>| quiet.push(name@).contains(n) == (quiet.contains(n)
                        || n == name@) by {
                        crate::names::lemma_pushed(quiet, name@, n);
                    }
                }
                silent.push(name);
            }
            proof {
                assert forall|n: Seq<char>| views(silent@).contains(n) == (next.contains(n) && stale(
                    before[n],
                    now,
                )) by {
                    assert(quiet.contains(n) == (done.contains(n) && stale(before[n], now)));
                }
            }
            i += 1;
        }
        assert(names.take(i as int) =~= names);
        let mut out: Vec<Agent> = Vec::new();
        let mut j: usize = 0;
        let count: usize = silent.len();
        let ghost quiet = views(silent@);
        assert(quiet.take(0) =~= Seq::empty());
        assert(agents_at(before, quiet.take(0)) =~= Seq::empty());
        assert forall|k: int| 0 <= k < quiet.len() implies before.contains_key(
            #[trigger] quiet[k],
        ) by {
            assert(quiet.contains(quiet[k]));
            assert(before.dom().contains(quiet[k]));
        }
        while j < count
            invariant
                j <= count,
                count == silent@.len(),
                count == quiet.len(),
                quiet == views(silent@),
                quiet.no_duplicates(),
                forall|k: int| 0 <= k < quiet.len() ==> before.contains_key(#[trigger] quiet[k]),
                self.blanked == old(self).blanked,
                out@ == agents_at(before, quiet.take(j as int)),
                forall|n: Seq<char>| #[trigger]
                    self.agents@.contains_key(n) == (before.contains_key(n) && !quiet.take(
                        j as int,
                    ).contains(n)),
                forall|n: Seq<char>| #[trigger]
                    self.agents@.contains_key(n) ==> self.agents@[n] == before[n],
            decreases count - j,
        {
            let ghost gone = quiet.take(j as int);
            let ghost next = quiet.take(j as int + 1);
            proof {
                assert(quiet[j as int] == silent@[j as int]@);
                assert(next =~= gone.push(silent@[j as int]@));
                assert(!gone.contains(quiet[j as int]));
                assert forall|n: Seq<char>| next.contains(n) == (gone.contains(n) || n
                    == silent@[j as int]@) by {
                    crate::names::lemma_pushed(gone, silent@[j as int]@, n);
                }
                assert(agents_at(before, next) =~= agents_at(before, gone).push(
                    before[quiet[j as int]],
                ));
            }
            match self.agents.take(silent[j].as_str()) {
                Some(agent) => out.push(agent),
                None => {},
            }
            j += 1;
        }
        proof {
            assert(quiet.take(count as int) =~= quiet);
            assert forall|n: Seq<char>| #[trigger]
                self.agents@.contains_key(n) == (before.contains_key(n) && !stale(
                    before[n],
                    now,
                )) by {
                assert(before.dom().contains(n) <==> names.contains(n));
                assert(quiet.contains(n) == (names.contains(n) && stale(before[n], now)));
            }
        }
        out
    }

    /// The agents and the names under which they are on the bus, in the order of the names.
    pub fn iter(&self) -> (r: Vec<(&String, &Agent)>)
        ensures
            r@.map_values(|p: (&String, &Agent)| (p.0@, *p.1)) == in_order(
                self.agents@.dom(),
            ).map_values(|n: Seq<char>| (n, self.agents@[n])),
    {
        let ghost names = in_order(self.agents@.dom());
        let ghost all = names.map_values(|n: Seq<char>| (n, self.agents@[n]));
        let len: usize = self.agents.len();
        let mut out: Vec<(&String, &Agent)> = Vec::new();
        let mut i: usize = 0;
        assert(out@.map_values(|p: (&String, &Agent)| (p.0@, *p.1)) =~= all.take(0));
        while i < len
            invariant
                i <= len,
                len == names.len(),
                names == in_order(self.agents@.dom()),
                all == names.map_values(|n: Seq<char>| (n, self.agents@[n])),
                out@.map_values(|p: (&String, &Agent)| (p.0@, *p.1)) == all.take(i as int),
            decreases len - i,
        {
            let name = self.agents.name_at(i);
            let agent = self.agents.value_at(i);
            let ghost before = out@.map_values(|p: (&String, &Agent)| (p.0@, *p.1));
            out.push((name, agent));
            assert(all[i as int] == (name@, *agent));
            assert(out@.map_values(|p: (&String, &Agent)| (p.0@, *p.1)) =~= before.push(
                (name@, *agent),
            ));
            assert(all.take(i as int + 1) =~= all.take(i as int).push((name@, *agent)));
            i += 1;
        }
        assert(all.take(i as int) =~= all);
        out
    }

    /// Whether there is no agent.
    pub fn is_empty(&self) -> (r: bool)
        ensures
            r == (in_order(self.agents@.dom()).len() == 0),
    {
        self.agents.len() == 0
    }

    /// Whether some session can darken its panel.
    pub fn can_blank(&self) -> (r: bool)
        ensures
            r == some_can_blank(self.agents@),
    {
        let ghost names = in_order(self.agents@.dom());
        let len: usize = self.agents.len();
        let mut i: usize = 0;
        while i < len
            invariant
                i <= len,
                len == names.len(),
                names == in_order(self.agents@.dom()),
                forall|j: int| 0 <= j < i ==> !self.agents@[#[trigger] names[j]].can_blank,
            decreases len - i,
        {
            if self.agents.value_at(i).can_blank {
                assert(self.agents@.contains_key(names[i as int]));
                return true;
            }
            i += 1;
        }
        proof {
            assert forall|n: Seq<char>| #[trigger]
                self.agents@.contains_key(n) implies !self.agents@[n].can_blank by {
                assert(self.agents@.dom().contains(n));
                assert(names.contains(n));
                let j = choose|j: int| 0 <= j < names.len() && names[j] == n;
                assert(names[j] == n);
            }
        }
        false
    }

    /// The agents that can darken the panel of their session: the names under which they are on the
    /// bus and their sessions, in the order of the names.
    pub fn blankers(&self) -> (r: Vec<(String, String)>)
        ensures
            r@.map_values(|p: (String, String)| (p.0@, p.1@)) == blankers_among(
                self.agents@,
                in_order(self.agents@.dom()),
            ),
    {
        let ghost names = in_order(self.agents@.dom());
        let len: usize = self.agents.len();
        let mut out: Vec<(String, String)> = Vec::new();
        let mut i: usize = 0;
        assert(out@.map_values(|p: (String, String)| (p.0@, p.1@)) =~= Seq::empty());
        while i < len
            invariant
                i <= len,
                len == names.len(),
                names == in_order(self.agents@.dom()),
                out@.map_values(|p: (String, String)| (p.0@, p.1@)) == blankers_among(
                    self.agents@,
                    names.take(i as int),
                ),
            decreases len - i,
        {
            let name = self.agents.name_at(i).clone();
            let agent = self.agents.value_at(i);
            assert(names.take(i as int + 1).drop_last() =~= names.take(i as int));
            if agent.can_blank {
                let row = (name, agent.session_id.clone());
                let ghost before = out@.map_values(|p: (String, String)| (p.0@, p.1@));
                out.push(row);
                assert(out@.map_values(|p: (String, String)| (p.0@, p.1@)) =~= before.push(
                    (row.0@, row.1@),
                ));
            }
            i += 1;
        }
        assert(names.take(i as int) =~= names);
        out
    }

    /// Whether the panel was last told to darken.
    pub fn blanked(&self) -> (r: bool)
        ensures
            r == self.blanked,
    {
        self.blanked
    }

    /// Records whether the panel was told to darken.
    pub fn set_blanked(&mut self, blanked: bool)
        ensures
            final(self).blanked == blanked,
            final(self).agents@ == old(self).agents@,
    {
        self.blanked = blanked;
    }

    /// Whether somebody is there, and when the machine was last used, by what the sessions say.
    ///
    /// A session that has gone silent does not count. One that cannot tell makes the whole answer
    /// doubt, and so does a graphical session without any agent. Of several sessions the one that
    /// was used last speaks.
    pub fn human(&self, now: BootInstant, min_idle: Duration, has_graphical_session: bool) -> (r: (
        Reading,
        ClockOrigin,
    ))
        ensures
            ({
                let answer = human_of(self.live(now), now, min_idle, has_graphical_session);
                r.0.says(answer.0, answer.1) && r.1 == answer.2
            }),
    {
        let live = self.live_agents(now);
        let ghost agents = live@.map_values(|a: &Agent| *a);
        if live.len() == 0 {
            return if has_graphical_session {
                (
                    Reading::doubt(
                        "no session agent is reporting, but a graphical session exists -- idlectl-agent is not running or has stopped answering",
                    ),
                    ClockOrigin::Unreadable,
                )
            } else {
                (
                    Reading::no("no graphical session on this machine; nothing has been touched"),
                    ClockOrigin::NotYet,
                )
            };
        }
        let broken = find_unknown(&live);
        if broken < live.len() {
            assert(agents[broken as int] == *live@[broken as int]);
            let mut detail = "the agent in session ".to_owned();
            detail.append(live[broken].session_id.as_str());
            detail.append(" is alive but its idle protocol is not answering");
            return (Reading::doubt(detail.as_str()), ClockOrigin::Unreadable);
        }
        proof {
            lemma_first_unknown(agents);
        }
        let mut recent: usize = 0;
        let mut idle = idle_of(live[0], now);
        let mut i: usize = 1;
        assert(agents[0] == *live@[0]);
        assert(agents.take(1).len() == 1);
        while i < live.len()
            invariant
                1 <= i <= live@.len(),
                agents == live@.map_values(|a: &Agent| *a),
                recent < i,
                recent == most_recent(agents.take(i as int), now),
                idle == idle_now(agents[recent as int], now),
                forall|j: int| 0 <= j < agents.len() ==> (#[trigger] agents[j]).idle is Some,
            decreases live@.len() - i,
        {
            assert(agents[i as int] == *live@[i as int]);
            assert(agents.take(i as int + 1).drop_last() =~= agents.take(i as int));
            assert(agents.take(i as int + 1)[recent as int] == agents[recent as int]);
            let other = idle_of(live[i], now);
            if other.nanos < idle.nanos {
                recent = i;
                idle = other;
            }
            i += 1;
        }
        assert(agents.take(i as int) =~= agents);
        assert(agents[recent as int] == *live@[recent as int]);
        let origin = ClockOrigin::At(now.saturating_sub(idle));
        let age = ago(idle);
        if idle.nanos < min_idle.nanos {
            let mut detail = "input in session ".to_owned();
            detail.append(live[recent].session_id.as_str());
            detail.append(" ");
            detail.append(age.as_str());
            (Reading::yes(detail.as_str()), origin)
        } else {
            let mut detail = "last input ".to_owned();
            detail.append(age.as_str());
            detail.append(" (threshold ");
            push_decimal(&mut detail, min_idle.as_secs() as u128);
            detail.append("s)");
            (Reading::no(detail.as_str()), origin)
        }
    }
}

/// Whether some agent can darken the panel of its session.
pub open spec fn some_can_blank(agents: Map<Seq<char>, Agent>) -> bool {
    exists|n: Seq<char>|
        #![trigger agents.contains_key(n)]
        agents.contains_key(n) && agents[n].can_blank
}

/// The agents among some that can darken the panel of their session, with their sessions.
pub open spec fn blankers_among(agents: Map<Seq<char>, Agent>, names: Seq<Seq<char>>) -> Seq<
    (Seq<char>, Seq<char>),
>
    decreases names.len(),
{
    if names.len() == 0 {
        Seq::empty()
    } else {
        let before = blankers_among(agents, names.drop_last());
        let last = names.last();
        if agents[last].can_blank {
            before.push((last, agents[last].session_id@))
        } else {
            before
        }
    }
}

/// Whether agents are others without those that have gone silent.
pub open spec fn without_silent(
    before: Map<Seq<char>, Agent>,
    after: Map<Seq<char>, Agent>,
    now: BootInstant,
) -> bool {
    &&& forall|n: Seq<char>| #[trigger]
        after.contains_key(n) == (before.contains_key(n) && !stale(before[n], now))
    &&& forall|n: Seq<char>| #[trigger] after.contains_key(n) ==> after[n] == before[n]
}

/// The agents of some names, in order.
pub open spec fn agents_at(agents: Map<Seq<char>, Agent>, names: Seq<Seq<char>>) -> Seq<Agent> {
    names.map_values(|n: Seq<char>| agents[n])
}

/// The agents among those of some names that have gone silent, in order.
pub open spec fn stale_agents(
    agents: Map<Seq<char>, Agent>,
    now: BootInstant,
    names: Seq<Seq<char>>,
) -> Seq<Agent>
    decreases names.len(),
{
    if names.len() == 0 {
        Seq::empty()
    } else {
        let before = stale_agents(agents, now, names.drop_last());
        if stale(agents[names.last()], now) {
            before.push(agents[names.last()])
        } else {
            before
        }
    }
}

proof fn lemma_first_unknown(live: Seq<Agent>)
    ensures
        0 <= first_unknown(live) <= live.len(),
        first_unknown(live) == live.len() ==> forall|i: int|
            0 <= i < live.len() ==> (#[trigger] live[i]).idle is Some,
    decreases live.len(),
{
    if live.len() > 0 && live[0].idle is Some {
        lemma_first_unknown(live.skip(1));
        if first_unknown(live) == live.len() {
            assert forall|i: int| 0 <= i < live.len() implies (#[trigger] live[i]).idle is Some by {
                if i > 0 {
                    assert(live.skip(1)[i - 1].idle is Some);
                }
            }
        }
    }
}

fn idle_of(agent: &Agent, now: BootInstant) -> (r: Duration)
    requires
        agent.idle is Some,
    ensures
        r == idle_now(*agent, now),
{
    let reported = agent.idle.unwrap();
    Duration { nanos: reported.nanos.saturating_add(now.since(agent.last_report).nanos) }
}

fn find_saying(live: &Vec<&Agent>, word: &str) -> (r: usize)
    ensures
        r == first_saying(live@.map_values(|a: &Agent| *a), word@),
        r <= live@.len(),
{
    let ghost agents = live@.map_values(|a: &Agent| *a);
    let mut i: usize = 0;
    assert(agents.skip(0) =~= agents);
    while i < live.len()
        invariant
            i <= live@.len(),
            agents == live@.map_values(|a: &Agent| *a),
            first_saying(agents, word@) == i + first_saying(agents.skip(i as int), word@),
        decreases live@.len() - i,
    {
        assert(agents[i as int] == *live@[i as int]);
        if same(live[i].media.as_str(), word) {
            return i;
        }
        assert(agents.skip(i as int).skip(1) =~= agents.skip(i as int + 1));
        i += 1;
    }
    i
}

fn find_unknown(live: &Vec<&Agent>) -> (r: usize)
    ensures
        r == first_unknown(live@.map_values(|a: &Agent| *a)),
        r <= live@.len(),
{
    let ghost agents = live@.map_values(|a: &Agent| *a);
    let mut i: usize = 0;
    assert(agents.skip(0) =~= agents);
    while i < live.len()
        invariant
            i <= live@.len(),
            agents == live@.map_values(|a: &Agent| *a),
            first_unknown(agents) == i + first_unknown(agents.skip(i as int)),
        decreases live@.len() - i,
    {
        assert(agents[i as int] == *live@[i as int]);
        if live[i].idle.is_none() {
            return i;
        }
        assert(agents.skip(i as int).skip(1) =~= agents.skip(i as int + 1));
        i += 1;
    }
    i
}

/// An agent that cannot tell, or a graphical session that nobody speaks for, is never taken for an
/// empty room.
pub proof fn silence_is_never_taken_for_absence(
    live: Seq<Agent>,
    now: BootInstant,
    min_idle: Duration,
    has_graphical_session: bool,
)
    requires
        (live.len() == 0 && has_graphical_session) || (exists|i: int|
            #![trigger live[i]]
            0 <= i < live.len() && live[i].idle is None),
    ensures
        human_of(live, now, min_idle, has_graphical_session).0 == FactState::Indeterminate,
        human_of(live, now, min_idle, has_graphical_session).2 == ClockOrigin::Unreadable,
{
    lemma_first_unknown(live);
}

/// The agents among some that have not gone silent, by name and in order.
spec fn speaking(agents: Map<Seq<char>, Agent>, now: BootInstant, names: Seq<Seq<char>>) -> Seq<
    Seq<char>,
>
    decreases names.len(),
{
    if names.len() == 0 {
        Seq::empty()
    } else if stale(agents[names.last()], now) {
        speaking(agents, now, names.drop_last())
    } else {
        speaking(agents, now, names.drop_last()).push(names.last())
    }
}

proof fn lemma_speaking(
    agents: Map<Seq<char>, Agent>,
    after: Map<Seq<char>, Agent>,
    now: BootInstant,
    names: Seq<Seq<char>>,
)
    requires
        ascending(names),
        forall|n: Seq<char>| names.contains(n) ==> #[trigger] agents.contains_key(n),
        without_silent(agents, after, now),
    ensures
        ascending(speaking(agents, now, names)),
        forall|n: Seq<char>| #[trigger]
            speaking(agents, now, names).contains(n) <==> names.contains(n) && !stale(
                agents[n],
                now,
            ),
        live_among(after, now, speaking(agents, now, names)) == live_among(agents, now, names),
    decreases names.len(),
{
    let kept = speaking(agents, now, names);
    if names.len() > 0 {
        let fewer = names.drop_last();
        let last = names.last();
        let rest = speaking(agents, now, fewer);
        assert forall|n: Seq<char>| fewer.contains(n) implies #[trigger] agents.contains_key(n) by {
            let i = choose|i: int| 0 <= i < fewer.len() && fewer[i] == n;
            assert(names[i] == n);
        }
        assert forall|i: int, j: int| 0 <= i < j < fewer.len() implies crate::names::before(
            #[trigger] fewer[i],
            #[trigger] fewer[j],
        ) by {
            assert(fewer[i] == names[i] && fewer[j] == names[j]);
        }
        lemma_speaking(agents, after, now, fewer);
        assert(names =~= fewer.push(last));
        assert forall|n: Seq<char>| names.contains(n) <==> fewer.contains(n) || n == last by {
            crate::names::lemma_pushed(fewer, last, n);
        }
        if !stale(agents[last], now) {
            assert(kept == rest.push(last));
            assert forall|n: Seq<char>| kept.contains(n) <==> rest.contains(n) || n == last by {
                crate::names::lemma_pushed(rest, last, n);
            }
            assert forall|i: int, j: int| 0 <= i < j < kept.len() implies crate::names::before(
                #[trigger] kept[i],
                #[trigger] kept[j],
            ) by {
                if j < rest.len() {
                    assert(kept[i] == rest[i] && kept[j] == rest[j]);
                } else {
                    assert(rest.contains(rest[i]));
                    assert(fewer.contains(kept[i]));
                    let k = choose|k: int| 0 <= k < fewer.len() && fewer[k] == kept[i];
                    assert(names[k] == kept[i]);
                    assert(names[names.len() - 1] == last);
                }
            }
            assert(kept.drop_last() =~= rest);
            assert(names.contains(last));
            assert(agents.contains_key(last));
            assert(after.contains_key(last));
        }
    }
}

/// An agent that has gone silent has no say even before it is taken out: taking it out changes no
/// answer.
pub proof fn taking_out_the_silent_changes_no_answer(
    before: Map<Seq<char>, Agent>,
    after: Map<Seq<char>, Agent>,
    now: BootInstant,
)
    requires
        lists(in_order(before.dom()), before.dom()),
        without_silent(before, after, now),
    ensures
        live_among(after, now, in_order(after.dom())) == live_among(
            before,
            now,
            in_order(before.dom()),
        ),
{
    let names = in_order(before.dom());
    assert forall|n: Seq<char>| names.contains(n) implies #[trigger] before.contains_key(n) by {
        assert(before.dom().contains(n));
    }
    lemma_speaking(before, after, now, names);
    let kept = speaking(before, now, names);
    assert forall|n: Seq<char>| #[trigger] after.dom().contains(n) <==> kept.contains(n) by {
        assert(after.contains_key(n) == (before.contains_key(n) && !stale(before[n], now)));
        assert(before.dom().contains(n) <==> names.contains(n));
    }
    assert(lists(kept, after.dom()));
    crate::names::lemma_one_order(kept, in_order(after.dom()), after.dom());
}

/// Of several sessions the one that was used last speaks: no other one has been idle for a shorter
/// time.
pub proof fn the_session_used_last_speaks(live: Seq<Agent>, now: BootInstant)
    requires
        live.len() > 0,
    ensures
        0 <= most_recent(live, now) < live.len(),
        forall|i: int|
            0 <= i < live.len() ==> idle_now(live[most_recent(live, now)], now).nanos <= idle_now(
                #[trigger] live[i],
                now,
            ).nanos,
    decreases live.len(),
{
    if live.len() > 1 {
        let fewer = live.drop_last();
        the_session_used_last_speaks(fewer, now);
        let best = most_recent(fewer, now);
        assert(fewer[best] == live[best]);
        assert forall|i: int| 0 <= i < live.len() implies idle_now(
            live[most_recent(live, now)],
            now,
        ).nanos <= idle_now(#[trigger] live[i], now).nanos by {
            if i < fewer.len() {
                assert(fewer[i] == live[i]);
            }
        }
    }
}

proof fn lemma_first_saying(live: Seq<Agent>, word: Seq<char>)
    ensures
        0 <= first_saying(live, word) <= live.len(),
        first_saying(live, word) < live.len() ==> live[first_saying(live, word)].media@ == word,
        forall|i: int|
            0 <= i < first_saying(live, word) ==> (#[trigger] live[i]).media@ != word,
    decreases live.len(),
{
    if live.len() > 0 && live[0].media@ != word {
        lemma_first_saying(live.skip(1), word);
        assert forall|i: int| 0 <= i < first_saying(live, word) implies (#[trigger] live[i]).media@
            != word by {
            if i > 0 {
                assert(live.skip(1)[i - 1] == live[i]);
            }
        }
    }
}

/// One session in which something plays is enough, whatever the others say. One that cannot tell
/// is doubt unless something plays elsewhere.
pub proof fn one_session_that_plays_is_enough(live: Seq<Agent>, i: int)
    requires
        0 <= i < live.len(),
    ensures
        live[i].media@ == "true"@ ==> media_of(live).0 == FactState::True,
        live[i].media@ == "indeterminate"@ ==> media_of(live).0 == FactState::True || media_of(
            live,
        ).0 == FactState::Indeterminate,
{
    lemma_first_saying(live, "true"@);
    lemma_first_saying(live, "indeterminate"@);
}

} // verus!
