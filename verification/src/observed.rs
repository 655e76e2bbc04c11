//! What is observed of the machine and what that comes to: who its processes descend from, whether
//! somebody is there, and who came from elsewhere.
use vstd::prelude::*;

use crate::agents::{
    blankers_among, first_saying, first_unknown, holders_of, human_of, idle_now, live_among,
    media_of, most_recent, stale, stale_agents, without_silent, Agent, Registry,
};
use crate::clock::ClockOrigin;
use crate::fact::FactState;
use crate::names::{in_order, lists};
use crate::process::{
    ancestors, chain_from, comes_from, parent_of, process_name, Process,
};
use crate::reading::Reading;
use crate::sessions::{
    conflicts_of, graphical_users, idle_helpers, inhibitor_of, owned, own_action, power_managers,
    power_words, remote_lines, remote_of, running, runs, session_says, session_text,
    InhibitorEntry, Logind, Look, SessionEntry,
};
use crate::text::{decimal, fields};
use crate::time::{BootInstant, Duration};

verus! {

// ---- processes ------------------------------------------------------------------------

/// Whether a process is known to have a parent: the last of those with its number names it.
pub open spec fn has_parent(procs: Seq<Process>, pid: u32, parent: u32) -> bool {
    exists|i: int|
        #![trigger procs[i]]
        0 <= i < procs.len() && procs[i].pid == pid && procs[i].ppid == parent && (forall|j: int|
            i < j < procs.len() ==> (#[trigger] procs[j]).pid != pid)
}

proof fn lemma_parent(procs: Seq<Process>, pid: u32)
    ensures
        forall|parent: u32|
            #[trigger] has_parent(procs, pid, parent) <==> parent_of(procs, pid) == Some(parent),
    decreases procs.len(),
{
    if procs.len() > 0 {
        let fewer = procs.drop_last();
        lemma_parent(fewer, pid);
        assert forall|parent: u32| #[trigger]
            has_parent(procs, pid, parent) <==> parent_of(procs, pid) == Some(parent) by {
            let last = procs[procs.len() - 1];
            if last.pid == pid {
                if has_parent(procs, pid, parent) {
                    let i = choose|i: int|
                        #![trigger procs[i]]
                        0 <= i < procs.len() && procs[i].pid == pid && procs[i].ppid == parent && (
                        forall|j: int| i < j < procs.len() ==> (#[trigger] procs[j]).pid != pid);
                    assert(i == procs.len() - 1);
                }
            } else {
                if has_parent(procs, pid, parent) {
                    let i = choose|i: int|
                        #![trigger procs[i]]
                        0 <= i < procs.len() && procs[i].pid == pid && procs[i].ppid == parent && (
                        forall|j: int| i < j < procs.len() ==> (#[trigger] procs[j]).pid != pid);
                    assert(fewer[i] == procs[i]);
                    assert forall|j: int| i < j < fewer.len() implies (#[trigger] fewer[j]).pid
                        != pid by {
                        assert(procs[j].pid != pid);
                    }
                    assert(has_parent(fewer, pid, parent));
                }
                if has_parent(fewer, pid, parent) {
                    let i = choose|i: int|
                        #![trigger fewer[i]]
                        0 <= i < fewer.len() && fewer[i].pid == pid && fewer[i].ppid == parent && (
                        forall|j: int| i < j < fewer.len() ==> (#[trigger] fewer[j]).pid != pid);
                    assert(procs[i] == fewer[i]);
                    assert forall|j: int| i < j < procs.len() implies (#[trigger] procs[j]).pid
                        != pid by {
                        if j < fewer.len() {
                            assert(fewer[j].pid != pid);
                        }
                    }
                }
            }
        }
    }
}

/// The process at which a chain of ancestors has arrived: its last link, or where it starts.
pub open spec fn arrived_at(pid: u32, chain: Seq<u32>) -> u32 {
    if chain.len() == 0 {
        pid
    } else {
        chain[chain.len() - 1]
    }
}

proof fn lemma_followed(procs: Seq<Process>, pid: u32, chain: Seq<u32>, steps: nat)
    ensures
        ({
            let whole = chain_from(procs, arrived_at(pid, chain), chain, steps);
            &&& chain.len() <= whole.len() <= chain.len() + steps
            &&& whole.take(chain.len() as int) == chain
            &&& forall|i: int|
                chain.len() <= i < whole.len() ==> {
                    &&& #[trigger] whole[i] != 0
                    &&& has_parent(procs, arrived_at(pid, whole.take(i)), whole[i])
                    &&& !whole.take(i).contains(whole[i])
                }
            &&& whole.len() < chain.len() + steps ==> forall|parent: u32|
                #[trigger]
                has_parent(procs, arrived_at(pid, whole), parent) ==> parent == 0
                    || whole.contains(parent)
        }),
    decreases steps,
{
    let here = arrived_at(pid, chain);
    let whole = chain_from(procs, here, chain, steps);
    lemma_parent(procs, here);
    assert(chain.take(chain.len() as int) =~= chain);
    if steps > 0 {
        match parent_of(procs, here) {
            None => {},
            Some(parent) => {
                if parent != 0 && !chain.contains(parent) {
                    let longer = chain.push(parent);
                    assert(arrived_at(pid, longer) == parent);
                    lemma_followed(procs, pid, longer, (steps - 1) as nat);
                    assert(whole == chain_from(procs, parent, longer, (steps - 1) as nat));
                    assert(whole.take(chain.len() as int) =~= longer.take(chain.len() as int)) by {
                        assert(whole.take(longer.len() as int) == longer);
                        assert forall|k: int| 0 <= k < chain.len() implies whole[k] == longer[k] by {
                            assert(whole.take(longer.len() as int)[k] == longer[k]);
                        }
                    }
                    assert(longer.take(chain.len() as int) =~= chain);
                    assert(whole[chain.len() as int] == parent) by {
                        assert(whole.take(longer.len() as int)[chain.len() as int]
                            == longer[chain.len() as int]);
                    }
                    assert(has_parent(procs, here, parent));
                }
            },
        }
    }
}

/// A chain of ancestors goes from parent to parent, names no process twice, and is complete: it ends
/// only at a process of which no parent is known, at one whose parent is no process, at one whose
/// parent it has named, or after sixty-four links.
pub proof fn ancestors_are_followed_to_the_end(procs: Seq<Process>, pid: u32)
    ensures
        ({
            let chain = ancestors(procs, pid);
            &&& chain.len() <= 64
            &&& forall|i: int|
                0 <= i < chain.len() ==> {
                    &&& #[trigger] chain[i] != 0
                    &&& has_parent(
                        procs,
                        if i == 0 {
                            pid
                        } else {
                            chain[i - 1]
                        },
                        chain[i],
                    )
                }
            &&& forall|i: int, j: int| 0 <= i < j < chain.len() ==> chain[i] != chain[j]
            &&& chain.len() < 64 ==> forall|parent: u32|
                #[trigger]
                has_parent(procs, arrived_at(pid, chain), parent) ==> parent == 0
                    || chain.contains(parent)
        }),
{
    let none = Seq::<u32>::empty();
    let chain = ancestors(procs, pid);
    lemma_followed(procs, pid, none, 64);
    assert(chain == chain_from(procs, arrived_at(pid, none), none, 64));
    assert forall|i: int| 0 <= i < chain.len() implies {
        &&& #[trigger] chain[i] != 0
        &&& has_parent(
            procs,
            if i == 0 {
                pid
            } else {
                chain[i - 1]
            },
            chain[i],
        )
    } by {
        assert(has_parent(procs, arrived_at(pid, chain.take(i)), chain[i]));
    }
    assert forall|i: int, j: int| 0 <= i < j < chain.len() implies chain[i] != chain[j] by {
        assert(!chain.take(j).contains(chain[j]));
        assert(chain.take(j)[i] == chain[i]);
    }
}

/// A process comes from some others where it is one of them, or where one of them is somewhere in
/// the chain of its ancestors, and else it does not.
pub proof fn a_process_comes_from_what_is_above_it(
    procs: Seq<Process>,
    pid: u32,
    roots: Seq<u32>,
    root: int,
    i: int,
)
    ensures
        0 <= root < roots.len() && roots[root] == pid ==> comes_from(procs, pid, roots),
        0 <= root < roots.len() && 0 <= i < ancestors(procs, pid).len() && roots[root]
            == ancestors(procs, pid)[i] ==> comes_from(procs, pid, roots),
        (forall|r: int| 0 <= r < roots.len() ==> #[trigger] roots[r] != pid && !ancestors(
            procs,
            pid,
        ).contains(roots[r])) ==> !comes_from(procs, pid, roots),
{
    let chain = ancestors(procs, pid);
    if 0 <= root < roots.len() && 0 <= i < chain.len() && roots[root] == chain[i] {
        assert(roots.contains(chain[i]));
    }
    if comes_from(procs, pid, roots) && !roots.contains(pid) {
        let k = choose|k: int|
            #![trigger ancestors(procs, pid)[k]]
            0 <= k < chain.len() && roots.contains(ancestors(procs, pid)[k]);
        let r = choose|r: int| 0 <= r < roots.len() && roots[r] == chain[k];
        assert(chain.contains(roots[r]));
    }
}

// ---- whether somebody is there --------------------------------------------------------

/// Whether an agent is one that reports: its last report is not older than a minute and a half.
pub open spec fn is_heard(
    agents: Map<Seq<char>, Agent>,
    now: BootInstant,
    name: Seq<char>,
) -> bool {
    agents.contains_key(name) && now.nanos <= agents[name].last_report.nanos + 90_000_000_000
}

/// For how long nobody has used the session of an agent, in nanoseconds: what it reported, and what
/// has passed since.
pub open spec fn unused_for(agent: Agent, now: BootInstant) -> int {
    (match agent.idle {
        Some(idle) => idle.nanos as int,
        None => 0,
    }) + (if now.nanos >= agent.last_report.nanos {
        now.nanos - agent.last_report.nanos
    } else {
        0
    })
}

proof fn lemma_live(
    agents: Map<Seq<char>, Agent>,
    now: BootInstant,
    names: Seq<Seq<char>>,
)
    ensures
        forall|i: int|
            0 <= i < names.len() && !stale(agents[names[i]], now) ==> live_among(
                agents,
                now,
                names,
            ).contains(#[trigger] agents[names[i]]),
        forall|j: int|
            0 <= j < live_among(agents, now, names).len() ==> heard_among(
                agents,
                now,
                names,
                #[trigger] live_among(agents, now, names)[j],
            ),
    decreases names.len(),
{
    if names.len() > 0 {
        let fewer = names.drop_last();
        lemma_live(agents, now, fewer);
        let live = live_among(agents, now, names);
        let before = live_among(agents, now, fewer);
        assert forall|i: int| 0 <= i < names.len() && !stale(agents[names[i]], now) implies
            live.contains(#[trigger] agents[names[i]]) by {
            if i < fewer.len() {
                assert(fewer[i] == names[i]);
                assert(before.contains(agents[fewer[i]]));
                let k = choose|k: int| 0 <= k < before.len() && before[k] == agents[names[i]];
                assert(live[k] == before[k]);
            } else {
                assert(live[live.len() - 1] == agents[names[i]]);
            }
        }
        assert forall|j: int| 0 <= j < live.len() implies heard_among(
            agents,
            now,
            names,
            #[trigger] live[j],
        ) by {
            if j < before.len() {
                assert(heard_among(agents, now, fewer, before[j]));
                let i = choose|i: int|
                    #![trigger fewer[i]]
                    0 <= i < fewer.len() && agents[fewer[i]] == before[j] && !stale(before[j], now);
                assert(names[i] == fewer[i]);
            } else {
                assert(names[names.len() - 1] == names.last());
            }
        }
    }
}

spec fn heard_among(
    agents: Map<Seq<char>, Agent>,
    now: BootInstant,
    names: Seq<Seq<char>>,
    agent: Agent,
) -> bool {
    exists|i: int|
        #![trigger names[i]]
        0 <= i < names.len() && agents[names[i]] == agent && !stale(agent, now)
}

/// The agents that are heard are the live ones: every one of them, and no other.
proof fn lemma_heard_is_live(registry: Registry, now: BootInstant)
    requires
        lists(in_order(registry.agents@.dom()), registry.agents@.dom()),
    ensures
        forall|n: Seq<char>| #[trigger]
            is_heard(registry.agents@, now, n) ==> registry.live(now).contains(registry.agents@[n]),
        forall|j: int|
            0 <= j < registry.live(now).len() ==> is_heard_agent(
                registry.agents@,
                now,
                #[trigger] registry.live(now)[j],
            ),
{
    let agents = registry.agents@;
    let names = in_order(agents.dom());
    lemma_live(agents, now, names);
    assert forall|n: Seq<char>| #[trigger] is_heard(agents, now, n) implies registry.live(
        now,
    ).contains(agents[n]) by {
        assert(agents.dom().contains(n));
        assert(names.contains(n));
        let i = choose|i: int| 0 <= i < names.len() && names[i] == n;
        assert(!stale(agents[names[i]], now));
    }
    assert forall|j: int| 0 <= j < registry.live(now).len() implies is_heard_agent(
        agents,
        now,
        #[trigger] registry.live(now)[j],
    ) by {
        let agent = registry.live(now)[j];
        assert(heard_among(agents, now, names, agent));
        let i = choose|i: int|
            #![trigger names[i]]
            0 <= i < names.len() && agents[names[i]] == agent && !stale(agent, now);
        assert(names.contains(names[i]));
        assert(agents.dom().contains(names[i]));
        assert(is_heard(agents, now, names[i]));
    }
}

spec fn is_heard_agent(agents: Map<Seq<char>, Agent>, now: BootInstant, agent: Agent) -> bool {
    exists|n: Seq<char>| #[trigger] is_heard(agents, now, n) && agents[n] == agent
}

proof fn lemma_least_idle(live: Seq<Agent>, now: BootInstant)
    requires
        live.len() > 0,
    ensures
        0 <= most_recent(live, now) < live.len(),
        forall|i: int|
            0 <= i < live.len() ==> idle_now(live[most_recent(live, now)], now).nanos <= idle_now(
                #[trigger] live[i],
                now,
            ).nanos,
    decreases live.len(),
{
    if live.len() > 1 {
        let fewer = live.drop_last();
        lemma_least_idle(fewer, now);
        let best = most_recent(fewer, now);
        assert(fewer[best] == live[best]);
        assert forall|i: int| 0 <= i < live.len() implies idle_now(
            live[most_recent(live, now)],
            now,
        ).nanos <= idle_now(#[trigger] live[i], now).nanos by {
            if i < fewer.len() {
                assert(fewer[i] == live[i]);
            }
        }
    }
}

proof fn lemma_all_tell(live: Seq<Agent>)
    ensures
        0 <= first_unknown(live) <= live.len(),
        first_unknown(live) == live.len() <==> forall|i: int|
            0 <= i < live.len() ==> (#[trigger] live[i]).idle is Some,
    decreases live.len(),
{
    if live.len() > 0 && live[0].idle is Some {
        lemma_all_tell(live.skip(1));
        assert forall|i: int| 0 <= i < live.len() - 1 implies #[trigger] live.skip(1)[i] == live[i
            + 1] by {}
        if first_unknown(live) == live.len() {
            assert forall|i: int| 0 <= i < live.len() implies (#[trigger] live[i]).idle is Some by {
                if i > 0 {
                    assert(live.skip(1)[i - 1].idle is Some);
                }
            }
        }
        if forall|i: int| 0 <= i < live.len() ==> (#[trigger] live[i]).idle is Some {
            assert forall|i: int| 0 <= i < live.len() - 1 implies (#[trigger] live.skip(1)[i]).idle
                is Some by {
                assert(live[i + 1].idle is Some);
            }
        }
    }
}

/// Where every agent that is heard can tell for how long its session has not been used, and there is
/// one, somebody is there exactly where one of these times is below the time after which nobody is,
/// and the clock of use starts at the latest use.
pub proof fn somebody_is_there_while_a_session_is_in_use(
    registry: Registry,
    now: BootInstant,
    min_idle: Duration,
    has_graphical_session: bool,
    reading: Reading,
    origin: ClockOrigin,
)
    requires
        lists(in_order(registry.agents@.dom()), registry.agents@.dom()),
        reading.says(
            human_of(registry.live(now), now, min_idle, has_graphical_session).0,
            human_of(registry.live(now), now, min_idle, has_graphical_session).1,
        ),
        origin == human_of(registry.live(now), now, min_idle, has_graphical_session).2,
        exists|n: Seq<char>| #[trigger] is_heard(registry.agents@, now, n),
        forall|n: Seq<char>| #[trigger]
            is_heard(registry.agents@, now, n) ==> registry.agents@[n].idle is Some,
    ensures
        reading.state == FactState::True <==> exists|n: Seq<char>| #[trigger]
            is_heard(registry.agents@, now, n) && unused_for(registry.agents@[n], now)
                < min_idle.nanos,
        reading.state == FactState::True || reading.state == FactState::False,
        forall|n: Seq<char>| #[trigger]
            is_heard(registry.agents@, now, n) ==> (origin matches ClockOrigin::At(t) && t.nanos
                >= now.nanos - unused_for(registry.agents@[n], now)),
        exists|n: Seq<char>| #[trigger]
            is_heard(registry.agents@, now, n) && (origin matches ClockOrigin::At(t) && t.nanos
                == (if now.nanos >= unused_for(registry.agents@[n], now) {
                now.nanos - unused_for(registry.agents@[n], now)
            } else {
                0
            })),
{
    let agents = registry.agents@;
    let live = registry.live(now);
    lemma_heard_is_live(registry, now);
    let some = choose|n: Seq<char>| #[trigger] is_heard(agents, now, n);
    assert(live.contains(agents[some]));
    assert forall|j: int| 0 <= j < live.len() implies (#[trigger] live[j]).idle is Some by {
        assert(is_heard_agent(agents, now, live[j]));
        let n = choose|n: Seq<char>| #[trigger] is_heard(agents, now, n) && agents[n] == live[j];
    }
    lemma_all_tell(live);
    lemma_least_idle(live, now);
    let recent = live[most_recent(live, now)];
    assert(is_heard_agent(agents, now, recent));
    let who = choose|n: Seq<char>| #[trigger] is_heard(agents, now, n) && agents[n] == recent;
    let least = idle_now(recent, now).nanos;
    assert(least == unused_for(recent, now) || (least == u128::MAX && unused_for(recent, now)
        > u128::MAX));
    assert forall|n: Seq<char>| #[trigger] is_heard(agents, now, n) implies least <= unused_for(
        agents[n],
        now,
    ) by {
        assert(live.contains(agents[n]));
        let j = choose|j: int| 0 <= j < live.len() && live[j] == agents[n];
        assert(idle_now(live[j], now).nanos <= unused_for(live[j], now));
    }
    assert(is_heard(agents, now, who));
}

/// Where no agent is heard, nobody is there on a machine without a graphical session, and it has not
/// been used; on one with a graphical session there is doubt. One agent that is heard and cannot tell
/// makes the whole answer doubt.
pub proof fn who_is_not_heard_is_not_taken_for_absent(
    registry: Registry,
    now: BootInstant,
    min_idle: Duration,
    has_graphical_session: bool,
    reading: Reading,
    origin: ClockOrigin,
)
    requires
        lists(in_order(registry.agents@.dom()), registry.agents@.dom()),
        reading.says(
            human_of(registry.live(now), now, min_idle, has_graphical_session).0,
            human_of(registry.live(now), now, min_idle, has_graphical_session).1,
        ),
        origin == human_of(registry.live(now), now, min_idle, has_graphical_session).2,
    ensures
        (forall|n: Seq<char>| !#[trigger] is_heard(registry.agents@, now, n)) ==> {
            &&& has_graphical_session ==> reading.state == FactState::Indeterminate && origin
                == ClockOrigin::Unreadable
            &&& !has_graphical_session ==> reading.state == FactState::False && origin
                == ClockOrigin::NotYet
        },
        (exists|n: Seq<char>| #[trigger]
            is_heard(registry.agents@, now, n) && registry.agents@[n].idle is None)
            ==> reading.state == FactState::Indeterminate && origin == ClockOrigin::Unreadable,
{
    let agents = registry.agents@;
    let live = registry.live(now);
    lemma_heard_is_live(registry, now);
    lemma_all_tell(live);
    if live.len() > 0 {
        assert(is_heard_agent(agents, now, live[0]));
    }
    if exists|n: Seq<char>| #[trigger] is_heard(agents, now, n) && agents[n].idle is None {
        let n = choose|n: Seq<char>| #[trigger] is_heard(agents, now, n) && agents[n].idle is None;
        assert(live.contains(agents[n]));
        let j = choose|j: int| 0 <= j < live.len() && live[j] == agents[n];
        assert(live[j].idle is None);
    }
}

proof fn lemma_saying(live: Seq<Agent>, word: Seq<char>)
    ensures
        0 <= first_saying(live, word) <= live.len(),
        first_saying(live, word) < live.len() ==> live[first_saying(live, word)].media@ == word,
        forall|i: int|
            0 <= i < first_saying(live, word) ==> (#[trigger] live[i]).media@ != word,
    decreases live.len(),
{
    if live.len() > 0 && live[0].media@ != word {
        lemma_saying(live.skip(1), word);
        assert forall|i: int| 0 <= i < first_saying(live, word) implies (#[trigger] live[i]).media@
            != word by {
            if i > 0 {
                assert(live.skip(1)[i - 1] == live[i]);
            }
        }
    }
}

/// Whether some agent that is heard says a word of media players.
pub open spec fn somebody_says(
    agents: Map<Seq<char>, Agent>,
    now: BootInstant,
    word: Seq<char>,
) -> bool {
    exists|n: Seq<char>| #[trigger] is_heard(agents, now, n) && agents[n].media@ == word
}

/// A media player is playing exactly where an agent that is heard says so. Where none does, one that
/// cannot tell is doubt. Where none can tell of any player, or none is heard, there is nothing that
/// could play, and else nothing does.
pub proof fn what_plays_is_what_the_agents_say(registry: Registry, now: BootInstant, reading: Reading)
    requires
        lists(in_order(registry.agents@.dom()), registry.agents@.dom()),
        reading.says(media_of(registry.live(now)).0, media_of(registry.live(now)).1),
    ensures
        reading.state == FactState::True <==> somebody_says(registry.agents@, now, "true"@),
        reading.state == FactState::Indeterminate <==> !somebody_says(
            registry.agents@,
            now,
            "true"@,
        ) && somebody_says(registry.agents@, now, "indeterminate"@),
        reading.state == FactState::Unavailable <==> forall|n: Seq<char>| #[trigger]
            is_heard(registry.agents@, now, n) ==> registry.agents@[n].media@ == "unavailable"@
                || registry.agents@[n].media@.len() == 0,
{
    let agents = registry.agents@;
    let live = registry.live(now);
    lemma_heard_is_live(registry, now);
    lemma_saying(live, "true"@);
    lemma_saying(live, "indeterminate"@);
    reveal_strlit("true");
    reveal_strlit("indeterminate");
    reveal_strlit("unavailable");
    assert("true"@.len() == 4);
    assert("indeterminate"@.len() == 13);
    assert("unavailable"@.len() == 11);
    lemma_says_live(registry, now, "true"@);
    lemma_says_live(registry, now, "indeterminate"@);
    let mute = forall|i: int|
        #![trigger live[i]]
        0 <= i < live.len() ==> live[i].media@ == "unavailable"@ || live[i].media@.len() == 0;
    let quiet = forall|n: Seq<char>| #[trigger]
        is_heard(agents, now, n) ==> agents[n].media@ == "unavailable"@ || agents[n].media@.len()
            == 0;
    if mute {
        assert forall|n: Seq<char>| #[trigger] is_heard(agents, now, n) implies agents[n].media@
            == "unavailable"@ || agents[n].media@.len() == 0 by {
            assert(live.contains(agents[n]));
            let j = choose|j: int| 0 <= j < live.len() && live[j] == agents[n];
            assert(live[j] == agents[n]);
        }
    }
    if quiet {
        assert forall|i: int|
            #![trigger live[i]]
            0 <= i < live.len() implies live[i].media@ == "unavailable"@ || live[i].media@.len()
            == 0 by {
            assert(is_heard_agent(agents, now, live[i]));
            let n = choose|n: Seq<char>| #[trigger]
                is_heard(agents, now, n) && agents[n] == live[i];
            assert(is_heard(agents, now, n));
        }
    }
    assert(mute <==> quiet);
    let playing = first_saying(live, "true"@);
    let doubtful = first_saying(live, "indeterminate"@);
    if playing < live.len() {
        assert(live[playing].media@ == "true"@);
    }
    if doubtful < live.len() {
        assert(live[doubtful].media@ == "indeterminate"@);
    }
}

proof fn lemma_says_live(registry: Registry, now: BootInstant, word: Seq<char>)
    requires
        lists(in_order(registry.agents@.dom()), registry.agents@.dom()),
    ensures
        somebody_says(registry.agents@, now, word) <==> first_saying(registry.live(now), word)
            < registry.live(now).len(),
{
    let agents = registry.agents@;
    let live = registry.live(now);
    lemma_heard_is_live(registry, now);
    lemma_saying(live, word);
    if somebody_says(agents, now, word) {
        let n = choose|n: Seq<char>| #[trigger]
            is_heard(agents, now, n) && agents[n].media@ == word;
        assert(live.contains(agents[n]));
        let j = choose|j: int| 0 <= j < live.len() && live[j] == agents[n];
        assert(live[j].media@ == word);
    }
    let at = first_saying(live, word);
    if at < live.len() {
        assert(is_heard_agent(agents, now, live[at]));
        let n = choose|n: Seq<char>| #[trigger] is_heard(agents, now, n) && agents[n] == live[at];
        assert(is_heard(agents, now, n) && agents[n].media@ == word);
    }
}

// ---- who came from elsewhere ----------------------------------------------------------

/// Whether looking at a session failed in a way that is a fault: its path is none, it cannot be
/// reached, or its class cannot be read though the session has not ended.
pub open spec fn is_a_fault(entry: SessionEntry) -> bool {
    match entry.look {
        Look::BadPath(_) => true,
        Look::Unreachable(_) => true,
        Look::NoClass(name, _) => !(name matches Some(error) && (error@
            == "org.freedesktop.DBus.Error.UnknownObject"@ || error@
            == "org.freedesktop.DBus.Error.NoSuchUnit"@ || error@
            == "org.freedesktop.DBus.Error.UnknownInterface"@)),
        Look::Read(_) => false,
    }
}

/// Whether a session is a user's and comes from elsewhere: by the word of the login manager, by the
/// service that opened it, or by both.
pub open spec fn is_from_elsewhere(entry: SessionEntry) -> bool {
    &&& entry.look matches Look::Read(record)
    &&& record.class@ == "user"@
    &&& !record.remote ==> record.service@ == "sshd"@
}

proof fn lemma_remote(
    sessions: Seq<SessionEntry>,
    excluded: Seq<Seq<char>>,
    now: Duration,
)
    ensures
        remote_lines(sessions, excluded, now) is Err <==> exists|i: int|
            #![trigger sessions[i]]
            0 <= i < sessions.len() && !excluded.contains(sessions[i].id@) && is_a_fault(
                sessions[i],
            ),
        remote_lines(sessions, excluded, now) matches Ok(found) ==> (found.len() > 0
            <==> exists|i: int|
            #![trigger sessions[i]]
            0 <= i < sessions.len() && !excluded.contains(sessions[i].id@) && is_from_elsewhere(
                sessions[i],
            )),
    decreases sessions.len(),
{
    if sessions.len() > 0 {
        let fewer = sessions.drop_last();
        let last = sessions[sessions.len() - 1];
        lemma_remote(fewer, excluded, now);
        assert forall|i: int| 0 <= i < fewer.len() implies #[trigger] fewer[i] == sessions[i] by {}
        assert(last == sessions.last());
        let said = session_says(last, excluded, now);
        assert(said is Err <==> !excluded.contains(last.id@) && is_a_fault(last));
        assert(said matches Ok(Some(_)) <==> !excluded.contains(last.id@) && is_from_elsewhere(
            last,
        ));
        if exists|i: int|
            #![trigger sessions[i]]
            0 <= i < sessions.len() && !excluded.contains(sessions[i].id@) && is_a_fault(
                sessions[i],
            ) {
            let i = choose|i: int|
                #![trigger sessions[i]]
                0 <= i < sessions.len() && !excluded.contains(sessions[i].id@) && is_a_fault(
                    sessions[i],
                );
            if i < fewer.len() {
                assert(fewer[i] == sessions[i]);
            }
        }
        if exists|i: int|
            #![trigger sessions[i]]
            0 <= i < sessions.len() && !excluded.contains(sessions[i].id@) && is_from_elsewhere(
                sessions[i],
            ) {
            let i = choose|i: int|
                #![trigger sessions[i]]
                0 <= i < sessions.len() && !excluded.contains(sessions[i].id@)
                    && is_from_elsewhere(sessions[i]);
            if i < fewer.len() {
                assert(fewer[i] == sessions[i]);
            }
        }
    }
}

/// Somebody is logged in from elsewhere exactly where no session that counts is a fault and one of
/// them is a user's that the login manager takes to be remote or that `sshd` opened, whichever of the
/// two or both. A fault among them is doubt, and so is a login manager that does not answer; without
/// one there is nothing to ask.
pub proof fn every_session_from_elsewhere_counts(
    asked: Logind<Vec<SessionEntry>>,
    excluded: Seq<Seq<char>>,
    now: Duration,
    reading: Reading,
)
    requires
        reading.says(remote_of(asked, excluded, now).0, remote_of(asked, excluded, now).1),
    ensures
        match asked {
            Logind::Missing(_) => reading.state == FactState::Unavailable,
            Logind::Silent(_) => reading.state == FactState::Indeterminate,
            Logind::Answered(sessions) => {
                let fault = exists|i: int|
                    #![trigger sessions@[i]]
                    0 <= i < sessions@.len() && !excluded.contains(sessions@[i].id@) && is_a_fault(
                        sessions@[i],
                    );
                let somebody = exists|i: int|
                    #![trigger sessions@[i]]
                    0 <= i < sessions@.len() && !excluded.contains(sessions@[i].id@)
                        && is_from_elsewhere(sessions@[i]);
                &&& reading.state == FactState::Indeterminate <==> fault
                &&& reading.state == FactState::True <==> somebody && !fault
                &&& reading.state == FactState::False <==> !somebody && !fault
            },
        },
{
    if let Logind::Answered(sessions) = asked {
        lemma_remote(sessions@, excluded, now);
    }
}

/// A further session adds to the evidence exactly where it counts and is a user's from elsewhere: one
/// line, which names the session, its user and what opened it. What was there before stays.
pub proof fn a_session_from_elsewhere_adds_its_line(
    sessions: Seq<SessionEntry>,
    more: SessionEntry,
    excluded: Seq<Seq<char>>,
    now: Duration,
    found: Seq<Seq<char>>,
)
    requires
        remote_lines(sessions, excluded, now) == Ok::<Seq<Seq<char>>, Seq<char>>(found),
        !is_a_fault(more),
    ensures
        ({
            let after = remote_lines(sessions.push(more), excluded, now);
            if !excluded.contains(more.id@) && is_from_elsewhere(more) {
                &&& after matches Ok(lines)
                &&& lines.len() == found.len() + 1
                &&& lines.take(found.len() as int) == found
                &&& (more.id@ + " ("@ + more.user@ + ", uid "@ + decimal(more.uid as nat) + ", "@
                    + opener(more) + ", opened "@).is_prefix_of(lines[found.len() as int])
            } else {
                after == Ok::<Seq<Seq<char>>, Seq<char>>(found)
            }
        }),
{
    let all = sessions.push(more);
    assert(all.drop_last() =~= sessions);
    assert(all.last() == more);
    if !excluded.contains(more.id@) && is_from_elsewhere(more) {
        let record = more.look->Read_0;
        let line = session_text(more, record, now);
        assert(found.push(line).take(found.len() as int) =~= found);
        let head = more.id@ + " ("@ + more.user@ + ", uid "@ + decimal(more.uid as nat) + ", "@
            + opener(more) + ", opened "@;
        assert(line.take(head.len() as int) =~= head);
    }
}

/// What opened a session: its service, or its type where it has none.
pub open spec fn opener(entry: SessionEntry) -> Seq<char> {
    match entry.look {
        Look::Read(record) => if record.service@.len() > 0 {
            record.service@
        } else {
            record.kind@
        },
        _ => Seq::empty(),
    }
}

// ---- what holds sleep back ------------------------------------------------------------

proof fn lemma_power_words(words: Seq<Seq<char>>)
    ensures
        power_words(words).len() > 0 <==> exists|i: int|
            #![trigger words[i]]
            0 <= i < words.len() && (words[i] == "sleep"@ || words[i] == "shutdown"@),
    decreases words.len(),
{
    if words.len() > 0 {
        let fewer = words.drop_last();
        lemma_power_words(fewer);
        assert forall|i: int| 0 <= i < fewer.len() implies #[trigger] fewer[i] == words[i] by {}
        assert(words[words.len() - 1] == words.last());
        if exists|i: int|
            #![trigger words[i]]
            0 <= i < words.len() && (words[i] == "sleep"@ || words[i] == "shutdown"@) {
            let i = choose|i: int|
                #![trigger words[i]]
                0 <= i < words.len() && (words[i] == "sleep"@ || words[i] == "shutdown"@);
            if i < fewer.len() {
                assert(fewer[i] == words[i]);
            }
        }
    }
}

/// Sleep is held back exactly where what the login manager says is blocked has sleep or shutdown among
/// its parts. Who blocks it changes nothing. A login manager that does not answer is doubt, and
/// without one there is nothing to ask.
pub proof fn sleep_is_held_back_where_it_is_blocked(
    asked: Logind<String>,
    list: Option<Vec<InhibitorEntry>>,
    reading: Reading,
)
    requires
        reading.says(inhibitor_of(asked, list).0, inhibitor_of(asked, list).1),
    ensures
        match asked {
            Logind::Missing(_) => reading.state == FactState::Unavailable,
            Logind::Silent(_) => reading.state == FactState::Indeterminate,
            Logind::Answered(blocked) => {
                let parts = fields(blocked@, ':');
                let held = exists|i: int|
                    #![trigger parts[i]]
                    0 <= i < parts.len() && (parts[i] == "sleep"@ || parts[i] == "shutdown"@);
                &&& held ==> reading.state == FactState::True
                &&& !held ==> reading.state == FactState::False
            },
        },
{
    if let Logind::Answered(blocked) = asked {
        lemma_power_words(fields(blocked@, ':'));
    }
}

/// The users of graphical sessions are those with a session of the type `wayland` or `x11`, each of
/// them once.
pub proof fn graphical_users_have_a_graphical_session(sessions: Seq<(u32, String)>, uid: u32)
    ensures
        graphical_users(sessions).contains(uid) <==> exists|i: int|
            #![trigger sessions[i]]
            0 <= i < sessions.len() && sessions[i].0 == uid && (sessions[i].1@ == "wayland"@
                || sessions[i].1@ == "x11"@),
        graphical_users(sessions).no_duplicates(),
    decreases sessions.len(),
{
    if sessions.len() > 0 {
        let fewer = sessions.drop_last();
        let before = graphical_users(fewer);
        let last = sessions[sessions.len() - 1];
        assert(last == sessions.last());
        graphical_users_have_a_graphical_session(fewer, uid);
        assert forall|i: int| 0 <= i < fewer.len() implies #[trigger] fewer[i] == sessions[i] by {}
        let after = graphical_users(sessions);
        if after != before {
            assert(after == before.push(last.0));
            assert(after.contains(uid) <==> before.contains(uid) || uid == last.0) by {
                if before.contains(uid) {
                    let k = choose|k: int| 0 <= k < before.len() && before[k] == uid;
                    assert(after[k] == uid);
                }
                assert(after[before.len() as int] == last.0);
                if after.contains(uid) && uid != last.0 {
                    let k = choose|k: int| 0 <= k < after.len() && after[k] == uid;
                    assert(before[k] == uid);
                }
            }
            assert forall|i: int, j: int|
                0 <= i < after.len() && 0 <= j < after.len() && i != j implies after[i]
                != after[j] by {
                if i == before.len() {
                    assert(before.contains(before[j]));
                } else if j == before.len() {
                    assert(before.contains(before[i]));
                }
            }
        }
        if exists|i: int|
            #![trigger sessions[i]]
            0 <= i < sessions.len() && sessions[i].0 == uid && (sessions[i].1@ == "wayland"@
                || sessions[i].1@ == "x11"@) {
            let i = choose|i: int|
                #![trigger sessions[i]]
                0 <= i < sessions.len() && sessions[i].0 == uid && (sessions[i].1@ == "wayland"@
                    || sessions[i].1@ == "x11"@);
            if i < fewer.len() {
                assert(fewer[i] == sessions[i]);
            } else if last.0 == uid && !before.contains(uid) {
                assert(after[before.len() as int] == uid);
            }
        }
    }
}

// ---- agents that went silent, and panels ----------------------------------------------

/// An agent is taken out as silent exactly where its last report is older than a minute and a half,
/// and one that is left is as it was.
pub proof fn only_the_silent_are_taken_out(
    before: Map<Seq<char>, Agent>,
    after: Map<Seq<char>, Agent>,
    now: BootInstant,
    name: Seq<char>,
)
    requires
        without_silent(before, after, now),
    ensures
        after.contains_key(name) <==> is_heard(before, now, name),
        after.contains_key(name) ==> after[name] == before[name],
{
    assert(after.contains_key(name) == (before.contains_key(name) && !stale(before[name], now)));
}

/// The agents that are given back as silent are those that were taken out, in the order of their
/// names.
pub proof fn the_silent_are_given_back(
    agents: Map<Seq<char>, Agent>,
    now: BootInstant,
    names: Seq<Seq<char>>,
    more: Seq<char>,
)
    ensures
        stale_agents(agents, now, Seq::empty()).len() == 0,
        stale_agents(agents, now, names.push(more)) == (if now.nanos
            > agents[more].last_report.nanos + 90_000_000_000 {
            stale_agents(agents, now, names).push(agents[more])
        } else {
            stale_agents(agents, now, names)
        }),
{
    assert(names.push(more).drop_last() =~= names);
}

/// A session whose agent can darken its panel is told to, by its name on the bus and its own; no
/// other is. What live agents hold of the GPU is put together in order, all of it.
pub proof fn panels_and_memory_are_those_of_the_agents(
    agents: Map<Seq<char>, Agent>,
    names: Seq<Seq<char>>,
    more: Seq<char>,
    live: Seq<Agent>,
    agent: Agent,
)
    ensures
        blankers_among(agents, Seq::empty()).len() == 0,
        blankers_among(agents, names.push(more)) == (if agents[more].can_blank {
            blankers_among(agents, names).push((more, agents[more].session_id@))
        } else {
            blankers_among(agents, names)
        }),
        holders_of(Seq::empty()).len() == 0,
        holders_of(live.push(agent)) == holders_of(live) + agent.gpu_holders@,
{
    assert(names.push(more).drop_last() =~= names);
    assert(live.push(agent).drop_last() =~= live);
}

// ---- what else might put the machine to sleep -----------------------------------------

/// Whether a name on the bus is that of a desktop power manager.
pub open spec fn manages_power(name: Seq<char>) -> bool {
    ||| name == "org.freedesktop.PowerManagement"@
    ||| name == "org.kde.Solid.PowerManagement"@
    ||| name == "org.gnome.SettingsDaemon.Power"@
    ||| name == "org.freedesktop.ScreenSaver"@
}

/// Whether a name is that of a program that watches for an idle session.
pub open spec fn watches_idle(name: Seq<char>) -> bool {
    name == "swayidle"@ || name == "hypridle"@ || name == "xautolock"@ || name == "xidlehook"@
}

/// Whether a process goes by a name, by either way of naming it.
pub open spec fn goes_by(p: Process, name: Seq<char>) -> bool {
    p.comm@ == name || process_name(p) == name
}

proof fn lemma_owned(candidates: Seq<Seq<char>>, names: Seq<Seq<char>>)
    ensures
        owned(candidates, names).len() > 0 <==> exists|i: int|
            #![trigger candidates[i]]
            0 <= i < candidates.len() && names.contains(candidates[i]),
    decreases candidates.len(),
{
    if candidates.len() > 0 {
        let fewer = candidates.drop_last();
        lemma_owned(fewer, names);
        assert forall|i: int| 0 <= i < fewer.len() implies #[trigger] fewer[i] == candidates[i] by {}
        assert(candidates[candidates.len() - 1] == candidates.last());
        if exists|i: int|
            #![trigger candidates[i]]
            0 <= i < candidates.len() && names.contains(candidates[i]) {
            let i = choose|i: int|
                #![trigger candidates[i]]
                0 <= i < candidates.len() && names.contains(candidates[i]);
            if i < fewer.len() {
                assert(fewer[i] == candidates[i]);
            }
        }
    }
}

proof fn lemma_running(candidates: Seq<Seq<char>>, procs: Seq<Process>)
    ensures
        running(candidates, procs).len() > 0 <==> exists|i: int|
            #![trigger candidates[i]]
            0 <= i < candidates.len() && runs(procs, candidates[i]),
    decreases candidates.len(),
{
    if candidates.len() > 0 {
        let fewer = candidates.drop_last();
        lemma_running(fewer, procs);
        assert forall|i: int| 0 <= i < fewer.len() implies #[trigger] fewer[i] == candidates[i] by {}
        assert(candidates[candidates.len() - 1] == candidates.last());
        if exists|i: int|
            #![trigger candidates[i]]
            0 <= i < candidates.len() && runs(procs, candidates[i]) {
            let i = choose|i: int|
                #![trigger candidates[i]]
                0 <= i < candidates.len() && runs(procs, candidates[i]);
            if i < fewer.len() {
                assert(fewer[i] == candidates[i]);
            }
        }
    }
}

/// Something else claims the machine exactly where the login manager would act on its own, where a
/// desktop power manager is on the bus, or where a process is a program that watches for an idle
/// session.
pub proof fn what_else_claims_the_machine_is_found(
    idle_action: Option<(String, u64)>,
    names: Seq<Seq<char>>,
    procs: Seq<Process>,
)
    ensures
        conflicts_of(idle_action, names, procs).len() > 0 <==> {
            ||| idle_action matches Some((action, usec)) && action@ != "ignore"@ && usec != u64::MAX
            ||| exists|i: int| #![trigger names[i]] 0 <= i < names.len() && manages_power(names[i])
            ||| exists|i: int, name: Seq<char>|
                #![trigger procs[i], watches_idle(name)]
                0 <= i < procs.len() && watches_idle(name) && goes_by(procs[i], name)
        },
{
    let managers = power_managers();
    let helpers = idle_helpers();
    lemma_owned(managers, names);
    lemma_running(helpers, procs);
    assert(managers[0] == "org.freedesktop.PowerManagement"@ && managers[1]
        == "org.kde.Solid.PowerManagement"@ && managers[2] == "org.gnome.SettingsDaemon.Power"@
        && managers[3] == "org.freedesktop.ScreenSaver"@ && managers.len() == 4);
    assert(helpers[0] == "swayidle"@ && helpers[1] == "hypridle"@ && helpers[2] == "xautolock"@
        && helpers[3] == "xidlehook"@ && helpers.len() == 4);
    let a = own_action(idle_action);
    let b = owned(managers, names);
    let c = running(helpers, procs);
    assert(conflicts_of(idle_action, names, procs).len() == a.len() + b.len() + c.len());
    if b.len() > 0 {
        let k = choose|k: int|
            #![trigger managers[k]]
            0 <= k < managers.len() && names.contains(managers[k]);
        let i = choose|i: int| 0 <= i < names.len() && names[i] == managers[k];
        assert(manages_power(names[i]));
    }
    if exists|i: int| #![trigger names[i]] 0 <= i < names.len() && manages_power(names[i]) {
        let i = choose|i: int| #![trigger names[i]] 0 <= i < names.len() && manages_power(names[i]);
        assert(names.contains(names[i]));
        assert(names[i] == managers[0] || names[i] == managers[1] || names[i] == managers[2]
            || names[i] == managers[3]);
        assert(b.len() > 0);
    }
    if c.len() > 0 {
        let k = choose|k: int|
            #![trigger helpers[k]]
            0 <= k < helpers.len() && runs(procs, helpers[k]);
        let i = choose|i: int|
            #![trigger procs[i]]
            0 <= i < procs.len() && (procs[i].comm@ == helpers[k] || process_name(procs[i])
                == helpers[k]);
        assert(watches_idle(helpers[k]));
        assert(goes_by(procs[i], helpers[k]));
    }
    if exists|i: int, name: Seq<char>|
        #![trigger procs[i], watches_idle(name)]
        0 <= i < procs.len() && watches_idle(name) && goes_by(procs[i], name) {
        let (i, name) = choose|i: int, name: Seq<char>|
            #![trigger procs[i], watches_idle(name)]
            0 <= i < procs.len() && watches_idle(name) && goes_by(procs[i], name);
        assert(runs(procs, name));
        assert(name == helpers[0] || name == helpers[1] || name == helpers[2] || name == helpers[3]);
        assert(c.len() > 0);
    }
}

} // verus!
