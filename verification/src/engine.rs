//! What is known, what is decided of it, and what is done about it.
//!
//! Looking at the machine and acting on it is left to whoever runs the engine: it is told what was
//! seen, and says what to do next.
use vstd::prelude::*;

use crate::action::Action;
use crate::agents::{human_of, media_of, some_can_blank, stale_agents, without_silent, Agent, Registry};
use crate::block::{BlockKind, Condition};
use crate::clock::{ClockOrigin, ClockSnapshot};
use crate::config::document::Source;
use crate::config::error::{ConfigError, Notice};
use crate::config::load::{layers_of, load, loads, Loaded};
use crate::decision::{chosen, decides, next_of, resolve_request, Decision, Request};
use crate::fact::{FactId, FactMap, FactSet, FactState};
use crate::leases::{
    dropped_views, ended_among, ends_first, summarises, without_ended, Ended, Table,
};
use crate::lines::{extend, none, push_line};
use crate::names::{in_order, insert_sorted, sorted};
use crate::pending::{arrived, Dropped, Pending};
use crate::policy::{edge_after, has_block, takes_part, text_view, BlockEdges, Policy};
use crate::reading::{assemble, changes, sampled, states, to_fact_set, Detectors, Found, Reading, POLLED};
use crate::report::{held_back, held_rows, why_due, why_text};
use crate::resume::{after_look, grown, resume_origin, ResumeTracker};
use crate::sessions::is_holding;
use crate::text::{after_last, chars_of, last_part, views};
use crate::time::{between, BootInstant, Deadline, Duration};

verus! {

/// How long to wait at most while something that nothing announces holds the machine: in seconds.
pub const SWEEP_INTERVAL_SECS: u64 = 60;

/// How long to wait at least: in milliseconds.
pub const SHORTEST_WAIT_MILLIS: u64 = 250;

/// How many forced actions are remembered.
pub const MAX_FORCED: usize = 64;

// ---- where the configuration is -------------------------------------------------------

/// Where the configuration is read from.
#[derive(Debug)]
pub struct Sources {
    /// The file that the package ships.
    pub vendor: String,
    /// The file of the administrator.
    pub admin: String,
    /// The directory of files that add to it.
    pub dropin_dir: String,
}

/// Whether a file of a directory adds to the configuration: its name has the extension, and
/// something before it.
pub open spec fn adds(path: Seq<char>) -> bool {
    let name = after_last(path, '/');
    name.len() > 5 && name.skip(name.len() - 5) == ".toml"@
}

/// The files among some that add to the configuration, as they were found.
pub open spec fn adding(paths: Seq<Seq<char>>) -> Seq<Seq<char>>
    decreases paths.len(),
{
    if paths.len() == 0 {
        Seq::empty()
    } else if adds(paths.last()) {
        adding(paths.drop_last()).push(paths.last())
    } else {
        adding(paths.drop_last())
    }
}

fn does_add(path: &str) -> (r: bool)
    ensures
        r == adds(path@),
{
    let name = last_part(path, '/');
    let chars = chars_of(name.as_str());
    let n: usize = chars.len();
    proof {
        reveal_strlit(".toml");
    }
    if n <= 5 {
        return false;
    }
    let r = chars[n - 5] == '.' && chars[n - 4] == 't' && chars[n - 3] == 'o' && chars[n - 2] == 'm'
        && chars[n - 1] == 'l';
    proof {
        let tail = name@.skip(n - 5);
        assert(tail.len() == 5);
        assert(tail[0] == name@[n - 5] && tail[1] == name@[n - 4] && tail[2] == name@[n - 3]
            && tail[3] == name@[n - 2] && tail[4] == name@[n - 1]);
        if r {
            assert(tail =~= ".toml"@);
        }
    }
    r
}

/// The files of a directory that add to the configuration, in the order of their names, whatever
/// the order in which they were found.
pub fn dropins(paths: &Vec<String>) -> (r: Vec<String>)
    ensures
        sorted(views(r@)),
        views(r@).to_multiset() == adding(views(paths@)).to_multiset(),
{
    let ghost all = views(paths@);
    let mut out: Vec<String> = Vec::new();
    let mut i: usize = 0;
    assert(views(out@) =~= adding(all.take(0)));
    while i < paths.len()
        invariant
            i <= paths@.len(),
            all == views(paths@),
            sorted(views(out@)),
            views(out@).to_multiset() == adding(all.take(i as int)).to_multiset(),
        decreases paths@.len() - i,
    {
        assert(all[i as int] == paths@[i as int]@);
        assert(all.take(i as int + 1).drop_last() =~= all.take(i as int));
        proof {
            adding(all.take(i as int)).to_multiset_ensures();
        }
        if does_add(paths[i].as_str()) {
            insert_sorted(&mut out, paths[i].clone());
        }
        i += 1;
    }
    assert(all.take(i as int) =~= all);
    out
}

/// The files that come before those that add to the configuration.
pub open spec fn first_files(sources: Sources, vendor: bool, admin: bool) -> Seq<Seq<char>> {
    (if vendor {
        seq![sources.vendor@]
    } else {
        Seq::empty()
    }) + (if admin {
        seq![sources.admin@]
    } else {
        Seq::empty()
    })
}

impl Sources {
    /// The files to read, in the order in which they count: the one that the package ships and that
    /// of the administrator, where they are wanted, and those that add to them.
    pub fn order(&self, vendor: bool, admin: bool, found: &Vec<String>) -> (r: Vec<String>)
        ensures
            ({
                let first = first_files(*self, vendor, admin);
                &&& first.is_prefix_of(views(r@))
                &&& sorted(views(r@).skip(first.len() as int))
                &&& views(r@).skip(first.len() as int).to_multiset() == adding(
                    views(found@),
                ).to_multiset()
            }),
    {
        let mut out = none();
        if vendor {
            push_line(&mut out, self.vendor.clone());
        }
        if admin {
            push_line(&mut out, self.admin.clone());
        }
        let ghost first = views(out@);
        assert(first =~= first_files(*self, vendor, admin));
        let extra = dropins(found);
        let ghost more = views(extra@);
        extend(&mut out, extra);
        assert((first + more).skip(first.len() as int) =~= more);
        assert(first =~= (first + more).subrange(0, first.len() as int));
        out
    }
}

// ---- the engine -----------------------------------------------------------------------

/// An action that was forced.
#[derive(Debug)]
pub struct Forced {
    /// When.
    pub at: BootInstant,
    /// Which one.
    pub action: Action,
    /// The reason that was given.
    pub why: String,
    /// Who forced it.
    pub uid: u32,
}

/// What is known.
#[derive(Debug)]
pub struct Engine {
    /// The policy.
    pub policy: Policy,
    /// The labels of the files that were applied.
    pub layers: Vec<String>,
    /// What to look at twice in them.
    pub warnings: Vec<String>,
    /// What is wrong with them.
    pub faults: Vec<ConfigError>,
    /// The state of each fact at the last look.
    pub detectors: Detectors,
    /// What was read of each fact.
    pub readings: FactMap<Reading>,
    /// Since when the condition of each block has held.
    pub edges: BlockEdges,
    /// The session agents.
    pub agents: Registry,
    /// The leases.
    pub leases: Table,
    /// The resumes.
    pub resume: ResumeTracker,
    /// The last decision.
    pub decision: Option<Decision>,
    /// The clocks that it was made by.
    pub clocks: ClockSnapshot,
    /// When it was made.
    pub last_eval: Option<BootInstant>,
    /// Whether some session can darken its panel.
    pub screen_off_available: bool,
    /// The request that waits.
    pub pending: Option<Pending>,
    /// The actions that were forced, the oldest first.
    pub forced: Vec<Forced>,
    /// Whether a power transition is being carried out.
    pub transition_in_flight: bool,
    /// Whether decisions are only reported.
    pub dry_run: bool,
}

/// What was seen of the machine, for one look at it.
#[derive(Debug)]
pub struct Outside {
    /// When.
    pub now: BootInstant,
    /// For how long the machine has been suspended since boot, in nanoseconds.
    pub suspended: u64,
    /// The leases whose handles are closed.
    pub closed: Vec<String>,
    /// Whether there is a graphical session.
    pub has_graphical_session: bool,
    /// Whether somebody is logged in from elsewhere.
    pub remote_session: Reading,
    /// Whether the login manager was asked to block sleep.
    pub inhibitor_block: Reading,
    /// Whether a Steam game is running.
    pub steam_game_running: Reading,
    /// Whether Steam is downloading.
    pub steam_downloading: Reading,
    /// Whether a game holds GPU memory.
    pub gpu_busy_game: Reading,
    /// Whether something other than a game does.
    pub gpu_busy_other: Reading,
    /// Whether a local service reports work in progress.
    pub local_service_busy: Reading,
}

/// What one look at the machine came to.
#[derive(Debug)]
pub struct Evaluation {
    /// Whether the machine has resumed since the last look.
    pub resumed: bool,
    /// The agents that have gone silent.
    pub silent: Vec<Agent>,
    /// The leases that have ended.
    pub ended: Vec<(String, Ended)>,
    /// What was found of each fact, before those that are not read are taken out.
    pub found: Found,
    /// The states that the decision was made by.
    pub facts: FactSet,
    /// The facts whose state is not what it was.
    pub changed: Vec<FactId>,
}

/// Whether what was found is what the agents, the leases, the resumes and the outside say.
pub open spec fn found_from(
    found: Found,
    agents: Registry,
    leases: Table,
    resume: ResumeTracker,
    min_idle: Duration,
    outside: Outside,
) -> bool {
    let live = agents.live(outside.now);
    let human = human_of(live, outside.now, min_idle, outside.has_graphical_session);
    &&& found.human_active.says(human.0, human.1)
    &&& found.after_resume == resume.resumed_this_boot
    &&& found.remote_session == outside.remote_session
    &&& summarises(text_view(found.leases), leases.leases@)
    &&& found.inhibitor_block == outside.inhibitor_block
    &&& found.media_playing.says(media_of(live).0, media_of(live).1)
    &&& found.steam_game_running == outside.steam_game_running
    &&& found.steam_downloading == outside.steam_downloading
    &&& found.gpu_busy_game == outside.gpu_busy_game
    &&& found.gpu_busy_other == outside.gpu_busy_other
    &&& found.local_service_busy == outside.local_service_busy
}

/// Since when the condition of a block holds, once it has been looked at again.
pub open spec fn edges_after(
    before: BlockEdges,
    after: BlockEdges,
    policy: Policy,
    facts: FactSet,
    now: BootInstant,
) -> bool {
    forall|id: crate::block::BlockId| #[trigger]
        after.at(id) == (if has_block(policy.blocks@, id) {
            edge_after(before.at(id), id.condition.state(facts), now)
        } else {
            before.at(id)
        })
}

/// The request to decide by: the one that is made now, or else the one that waits. One that waits
/// is given up when its time has run out or somebody has come. It asks for its own action alone,
/// and for nothing to be forced.
pub open spec fn request_of(pending: Option<Pending>, clocks: ClockSnapshot, request: Request) -> (
    Option<Pending>,
    Request,
) {
    match pending {
        None => (None, request),
        Some(held) => if clocks.now.nanos >= held.expires_at.nanos || arrived(
            held.human_origin,
            clocks.human_input,
        ) {
            (None, request)
        } else if request.requested is Some || request.force is Some {
            (pending, request)
        } else {
            (pending, Request { now: true, force: None, requested: Some(held.action) })
        },
    }
}

/// How far the machine has come on the way to an action.
#[derive(Clone, Copy, Debug, PartialEq, Eq, Structural)]
pub enum Tick {
    /// It is to be looked at.
    Look(Request),
    /// This action may happen, if a second look says the same.
    Confirm(Request, Action),
    /// This action is to be carried out.
    Perform(Request, Action),
    /// There is nothing left to do.
    Done(Option<Action>),
}

/// How far the machine has come after a look, by what may happen. An action is only carried out
/// when two looks in a row permit one, no other is being carried out, and decisions are not only
/// reported.
pub open spec fn tick_after(
    tick: Tick,
    may: Option<Action>,
    in_flight: bool,
    dry_run: bool,
) -> Tick {
    match tick {
        Tick::Look(request) => match may {
            Some(action) => if in_flight {
                Tick::Done(None)
            } else {
                Tick::Confirm(request, action)
            },
            None => Tick::Done(None),
        },
        Tick::Confirm(request, _) => match may {
            Some(action) => if dry_run {
                Tick::Done(None)
            } else {
                Tick::Perform(request, action)
            },
            None => Tick::Done(None),
        },
        _ => tick,
    }
}

/// What is to be done about the panel.
#[derive(Clone, Copy, Debug, PartialEq, Eq, Structural)]
pub enum Screen {
    /// Nothing.
    Leave,
    /// Darkening it, or lighting it, is only reported.
    Report(bool),
    /// It is to be darkened, or lit.
    Change(bool),
}

/// The warnings in words.
pub open spec fn warning_texts(warnings: Seq<Notice>) -> Seq<Seq<char>> {
    warnings.map_values(|w: Notice| w.source + ": "@ + w.location + ": "@ + w.message)
}

/// The warnings in words, in order.
pub fn describe_warnings(loaded: &Loaded) -> (r: Vec<String>)
    ensures
        views(r@) == warning_texts(crate::config::error::notices(loaded.warnings@)),
{
    let ghost all = warning_texts(crate::config::error::notices(loaded.warnings@));
    let mut out: Vec<String> = Vec::new();
    let mut i: usize = 0;
    assert(views(out@) =~= all.take(0));
    while i < loaded.warnings.len()
        invariant
            i <= loaded.warnings@.len(),
            all == warning_texts(crate::config::error::notices(loaded.warnings@)),
            views(out@) == all.take(i as int),
        decreases loaded.warnings@.len() - i,
    {
        let text = loaded.warnings[i].to_string();
        let ghost before = views(out@);
        assert(all[i as int] == text@);
        assert(views(out@.push(text)) =~= before.push(text@));
        assert(all.take(i as int + 1) =~= all.take(i as int).push(text@));
        out.push(text);
        i += 1;
    }
    assert(all.take(i as int) =~= all);
    out
}

fn copy_texts(texts: &Vec<String>) -> (r: Vec<String>)
    ensures
        r@ == texts@,
{
    let mut out: Vec<String> = Vec::new();
    let mut i: usize = 0;
    while i < texts.len()
        invariant
            i <= texts@.len(),
            out@ == texts@.take(i as int),
        decreases texts@.len() - i,
    {
        out.push(texts[i].clone());
        i += 1;
        assert(texts@.take(i as int) =~= texts@.take(i as int - 1).push(texts@[i as int - 1]));
    }
    assert(texts@.take(i as int) =~= texts@);
    out
}

/// Whether the configuration of an engine is what files make.
pub open spec fn configured(engine: Engine, sources: Seq<Source>) -> bool {
    exists|loaded: Loaded|
        {
            &&& #[trigger] loads(loaded, engine.faults@, layers_of(sources))
            &&& engine.policy == loaded.policy
            &&& engine.layers@ == loaded.layers@
            &&& views(engine.warnings@) == warning_texts(
                crate::config::error::notices(loaded.warnings@),
            )
        }
}

impl Engine {
    /// Starts with a configuration. Nothing has been looked at yet.
    pub fn new(sources: &[Source], dry_run: bool, now: BootInstant, suspended: u64) -> (r: Self)
        ensures
            configured(r, sources@),
            r.detectors.last@ == Map::<FactId, FactState>::empty(),
            r.readings@ == Map::<FactId, Reading>::empty(),
            forall|id: crate::block::BlockId| #[trigger] r.edges.at(id) is None,
            r.agents.agents@ == Map::<Seq<char>, crate::agents::Agent>::empty(),
            !r.agents.blanked,
            r.leases.leases@ == Map::<Seq<char>, crate::leases::Lease>::empty(),
            r.resume.seen == suspended,
            r.resume.resumed_this_boot == (suspended > 0),
            r.resume.consistent(),
            resume_origin(r.resume) == (if suspended > 0 {
                ClockOrigin::At(now)
            } else {
                ClockOrigin::NotYet
            }),
            r.decision is None,
            r.clocks == (ClockSnapshot {
                now,
                human_input: ClockOrigin::NotYet,
                resume: ClockOrigin::NotYet,
            }),
            r.last_eval is None,
            !r.screen_off_available,
            r.pending is None,
            r.forced@.len() == 0,
            !r.transition_in_flight,
            r.dry_run == dry_run,
    {
        let (loaded, faults) = load(sources);
        let warnings = describe_warnings(&loaded);
        let ghost all = loaded;
        let engine = Engine {
            policy: loaded.policy,
            layers: loaded.layers,
            warnings,
            faults,
            detectors: Detectors::new(),
            readings: FactMap::new(),
            edges: BlockEdges::new(),
            agents: Registry::new(),
            leases: Table::new(),
            resume: ResumeTracker::adopt(now, suspended),
            decision: None,
            clocks: ClockSnapshot::at(now),
            last_eval: None,
            screen_off_available: false,
            pending: None,
            forced: Vec::new(),
            transition_in_flight: false,
            dry_run,
        };
        assert(loads(all, engine.faults@, layers_of(sources@)));
        engine
    }

    /// Takes another configuration. Gives back the labels of the files that were applied. Whatever
    /// is in the files, there is a policy afterwards.
    pub fn reload(&mut self, sources: &[Source]) -> (r: Vec<String>)
        ensures
            configured(*final(self), sources@),
            r@ == final(self).layers@,
            *final(self) == (Engine {
                policy: final(self).policy,
                layers: final(self).layers,
                warnings: final(self).warnings,
                faults: final(self).faults,
                ..*old(self)
            }),
    {
        let (loaded, faults) = load(sources);
        let ghost all = loaded;
        self.warnings = describe_warnings(&loaded);
        self.policy = loaded.policy;
        self.layers = loaded.layers;
        self.faults = faults;
        assert(loads(all, self.faults@, layers_of(sources@)));
        copy_texts(&self.layers)
    }

    /// Takes in what was seen of the machine, and decides.
    ///
    /// Agents that have gone silent and leases that have ended are dropped first, so that neither
    /// has a say. The decision is made by the clocks of this look and by no earlier ones.
    pub fn evaluate(&mut self, outside: &Outside, request: &Request) -> (r: Evaluation)
        ensures
            r.resumed == grown(old(self).resume.seen, outside.suspended),
            final(self).resume == after_look(old(self).resume, outside.now, outside.suspended),
            r.silent@ == stale_agents(
                old(self).agents.agents@,
                outside.now,
                in_order(old(self).agents.agents@.dom()),
            ),
            without_silent(old(self).agents.agents@, final(self).agents.agents@, outside.now),
            final(self).agents.blanked == old(self).agents.blanked,
            dropped_views(r.ended@) == ended_among(
                old(self).leases.leases@,
                views(outside.closed@),
                outside.now,
                in_order(old(self).leases.leases@.dom()),
            ),
            without_ended(
                old(self).leases.leases@,
                final(self).leases.leases@,
                views(outside.closed@),
                outside.now,
            ),
            found_from(
                r.found,
                final(self).agents,
                final(self).leases,
                final(self).resume,
                old(self).policy.min_idle,
                *outside,
            ),
            forall|f: FactId| #[trigger]
                sampled(final(self).readings@, old(self).policy, r.found, f),
            r.changed@ == changes(old(self).detectors.last@, final(self).readings@, 11),
            final(self).detectors.last@ == old(self).detectors.last@.union_prefer_right(
                states(final(self).readings@),
            ),
            r.facts.readings@ == states(final(self).readings@),
            final(self).clocks == (ClockSnapshot {
                now: outside.now,
                human_input: human_of(
                    final(self).agents.live(outside.now),
                    outside.now,
                    old(self).policy.min_idle,
                    outside.has_graphical_session,
                ).2,
                resume: resume_origin(final(self).resume),
            }),
            edges_after(
                old(self).edges,
                final(self).edges,
                old(self).policy,
                r.facts,
                outside.now,
            ),
            final(self).decision matches Some(d) && decides(
                d,
                old(self).policy,
                r.facts,
                final(self).clocks,
                final(self).edges,
                *request,
            ),
            final(self).last_eval == Some(outside.now),
            final(self).screen_off_available == some_can_blank(final(self).agents.agents@),
            *final(self) == (Engine {
                policy: old(self).policy,
                layers: old(self).layers,
                warnings: old(self).warnings,
                faults: old(self).faults,
                pending: old(self).pending,
                forced: old(self).forced,
                transition_in_flight: old(self).transition_in_flight,
                dry_run: old(self).dry_run,
                ..*final(self)
            }),
    {
        let now = outside.now;
        let resumed = self.resume.sample(now, outside.suspended);
        let silent = self.agents.reap(now);
        let ended = self.leases.reap(now, &outside.closed);
        let (human_active, human_input) = self.agents.human(
            now,
            self.policy.min_idle,
            outside.has_graphical_session,
        );
        let found = Found {
            human_active,
            after_resume: self.resume.after_resume(),
            remote_session: outside.remote_session.clone(),
            leases: self.leases.summary(),
            inhibitor_block: outside.inhibitor_block.clone(),
            media_playing: self.agents.media(now),
            steam_game_running: outside.steam_game_running.clone(),
            steam_downloading: outside.steam_downloading.clone(),
            gpu_busy_game: outside.gpu_busy_game.clone(),
            gpu_busy_other: outside.gpu_busy_other.clone(),
            local_service_busy: outside.local_service_busy.clone(),
        };
        let readings = assemble(&self.policy, &found);
        let changed = self.detectors.changed(&readings);
        self.clocks = ClockSnapshot { now, human_input, resume: self.resume.origin() };
        let facts = to_fact_set(&readings);
        self.edges.observe(&self.policy, &facts, now);
        let decision = resolve_request(&self.policy, &facts, &self.clocks, &self.edges, request);
        self.screen_off_available = self.agents.can_blank();
        self.readings = readings;
        self.last_eval = Some(now);
        self.decision = Some(decision);
        Evaluation { resumed, silent, ended, found, facts, changed }
    }

    /// Sets out to act under a request, or under the one that waits. Gives back why that one was
    /// dropped, if it was.
    pub fn begin(&mut self, request: &Request) -> (r: (Tick, Option<Dropped>))
        ensures
            ({
                let next = request_of(old(self).pending, old(self).clocks, *request);
                &&& r.0 == Tick::Look(next.1)
                &&& final(self).pending == next.0
                &&& r.1 is Some <==> old(self).pending is Some && next.0 is None
                &&& r.1 matches Some(why) ==> (why == Dropped::Expired <==> old(self).clocks.now.nanos
                    >= (old(self).pending->Some_0).expires_at.nanos)
            }),
            *final(self) == (Engine { pending: final(self).pending, ..*old(self) }),
    {
        let held = match self.pending {
            None => return (Tick::Look(*request), None),
            Some(held) => held,
        };
        match held.dropped_at(self.clocks.now, self.clocks.human_input) {
            Some(why) => {
                self.pending = None;
                return (Tick::Look(*request), Some(why));
            },
            None => {},
        }
        if request.requested.is_some() || request.force.is_some() {
            return (Tick::Look(*request), None);
        }
        (
            Tick::Look(Request { now: true, force: None, requested: Some(held.action) }),
            None,
        )
    }

    /// What the last decision permits.
    pub open spec fn may(self) -> Option<Action> {
        match self.decision {
            Some(d) => chosen(d),
            None => None,
        }
    }

    /// Goes on after a look at the machine.
    pub fn advance(&mut self, tick: Tick) -> (r: Tick)
        ensures
            r == tick_after(tick, old(self).may(), old(self).transition_in_flight, old(self).dry_run),
            final(self).transition_in_flight == (old(self).transition_in_flight || (tick is Confirm
                && r is Perform)),
            *final(self) == (Engine {
                transition_in_flight: final(self).transition_in_flight,
                ..*old(self)
            }),
    {
        let may = match &self.decision {
            Some(decision) => decision.action_to_perform(),
            None => None,
        };
        match tick {
            Tick::Look(request) => match may {
                Some(action) => if self.transition_in_flight {
                    Tick::Done(None)
                } else {
                    Tick::Confirm(request, action)
                },
                None => Tick::Done(None),
            },
            Tick::Confirm(request, _) => match may {
                Some(action) => if self.dry_run {
                    Tick::Done(None)
                } else {
                    self.transition_in_flight = true;
                    Tick::Perform(request, action)
                },
                None => Tick::Done(None),
            },
            _ => tick,
        }
    }

    /// Records how carrying out an action ended. A request for it that waits is then answered; one
    /// that was refused goes on waiting.
    pub fn finish(&mut self, action: Action, carried_out: bool) -> (r: Tick)
        ensures
            r == Tick::Done(
                if carried_out {
                    Some(action)
                } else {
                    None
                },
            ),
            !final(self).transition_in_flight,
            final(self).pending == (match old(self).pending {
                Some(held) => if carried_out && held.action == action {
                    None
                } else {
                    Some(held)
                },
                None => None,
            }),
            *final(self) == (Engine {
                transition_in_flight: false,
                pending: final(self).pending,
                ..*old(self)
            }),
    {
        self.transition_in_flight = false;
        if !carried_out {
            return Tick::Done(None);
        }
        match self.pending {
            Some(held) => {
                if held.action == action {
                    self.pending = None;
                }
            },
            None => {},
        }
        Tick::Done(Some(action))
    }

    /// Records that the machine is back, so that no transition is being carried out any more.
    pub fn note_transition_finished(&mut self)
        ensures
            *final(self) == (Engine { transition_in_flight: false, ..*old(self) }),
    {
        self.transition_in_flight = false;
    }

    /// What is to be done about the panel. One that is as it should be is left alone, and where no
    /// session can darken its panel there is nothing to do.
    pub fn screen(&self) -> (r: Screen)
        ensures
            r == (match self.decision {
                Some(d) => if !self.screen_off_available || d.screen_off.due == self.agents.blanked {
                    Screen::Leave
                } else if self.dry_run {
                    Screen::Report(d.screen_off.due)
                } else {
                    Screen::Change(d.screen_off.due)
                },
                None => Screen::Leave,
            }),
    {
        let due = match &self.decision {
            Some(decision) => decision.screen_off.due,
            None => return Screen::Leave,
        };
        if !self.screen_off_available || due == self.agents.blanked() {
            return Screen::Leave;
        }
        if self.dry_run {
            return Screen::Report(due);
        }
        Screen::Change(due)
    }

    /// Records that panels were darkened or lit: in which sessions. In none is not at all.
    pub fn screen_changed(&mut self, blanked: bool, sessions: &Vec<String>)
        ensures
            final(self).agents.blanked == (if sessions@.len() > 0 {
                blanked
            } else {
                old(self).agents.blanked
            }),
            final(self).agents.agents@ == old(self).agents.agents@,
            *final(self) == (Engine { agents: final(self).agents, ..*old(self) }),
    {
        if sessions.len() > 0 {
            self.agents.set_blanked(blanked);
        }
    }

    /// Records an action that was forced. Only the last ones are remembered.
    pub fn record_forced(&mut self, action: Action, why: &str, uid: u32, now: BootInstant)
        ensures
            ({
                let all = final(self).forced@;
                let kept = if old(self).forced@.len() >= 64 {
                    old(self).forced@.skip(1)
                } else {
                    old(self).forced@
                };
                &&& all.len() == kept.len() + 1
                &&& all.drop_last() == kept
                &&& all.last().at == now
                &&& all.last().action == action
                &&& all.last().why@ == why@
                &&& all.last().uid == uid
                &&& old(self).forced@.len() <= 64 ==> all.len() <= 64
            }),
            *final(self) == (Engine { forced: final(self).forced, ..*old(self) }),
    {
        let ghost before = self.forced@;
        self.forced.push(Forced { at: now, action, why: why.to_owned(), uid });
        if self.forced.len() > MAX_FORCED {
            self.forced.remove(0);
            assert(self.forced@.drop_last() =~= before.skip(1));
        } else {
            assert(self.forced@.drop_last() =~= before);
        }
    }

    /// Whether what nothing announces has to be looked at again before long.
    pub fn sweep_needed(&self) -> (r: bool)
        ensures
            r == sweeps(self.policy, self.readings@),
    {
        sweep_needed_for(&self.policy, &self.readings)
    }

    /// How long to wait before the next look, unless something happens before.
    ///
    /// Until the earliest of the next deadline, the end of a lease and the end of the request that
    /// waits, and never for no time at all. What nothing announces can only make it shorter.
    pub fn next_wakeup(&self, now: BootInstant) -> (r: Option<Duration>)
        ensures
            exists|expiry: Option<BootInstant>| #[trigger]
                ends_first(expiry, self.leases.leases@) && r == wakeup_of(
                    match self.decision {
                        Some(d) => next_of(d),
                        None => Deadline::Never,
                    },
                    expiry,
                    match self.pending {
                        Some(held) => Some(held.expires_at),
                        None => None,
                    },
                    sweeps(self.policy, self.readings@),
                    now,
                ),
    {
        let deadline = match &self.decision {
            Some(decision) => match decision.next_deadline() {
                Deadline::Never => None,
                Deadline::At(at) => Some(wait_for(at, now)),
            },
            None => None,
        };
        let expiry = self.leases.next_expiry();
        let lease = match expiry {
            Some(at) => Some(wait_for(at, now)),
            None => None,
        };
        let held = match self.pending {
            Some(held) => Some(wait_for(held.expires_at, now)),
            None => None,
        };
        let sweep = if self.sweep_needed() {
            Some(Duration::from_secs(SWEEP_INTERVAL_SECS))
        } else {
            None
        };
        assert(ends_first(expiry, self.leases.leases@));
        shorter_of(shorter_of(shorter_of(deadline, lease), held), sweep)
    }
}

/// What ends a wait.
#[derive(Clone, Copy, Debug, PartialEq, Eq, Structural)]
pub enum Event {
    /// The time is up.
    Timer,
    /// Something asks for another look.
    Wake,
    /// The machine is about to sleep.
    SleepStart,
    /// The machine is back.
    Resume,
    /// The bus is gone.
    BusClosed,
}

/// What is announced after a look.
#[derive(Debug)]
pub enum Announcement {
    /// Nothing.
    Nothing,
    /// An action was carried out, and why.
    Taken(Action, String),
    /// These sleeps are due and were not carried out, with the blocks that hold each the longest.
    Held(Vec<(Action, Vec<String>)>),
}

impl Engine {
    /// Takes in what ended a wait. Says whether to go on.
    ///
    /// A machine that is back has resumed, and no transition is being carried out any more.
    pub fn on_event(&mut self, event: Event, now: BootInstant, suspended: u64) -> (r: bool)
        ensures
            r == (event != Event::BusClosed),
            *final(self) == (if event == Event::Resume {
                Engine {
                    resume: ResumeTracker {
                        seen: suspended,
                        last_resume: Some(now),
                        resumed_this_boot: true,
                    },
                    transition_in_flight: false,
                    ..*old(self)
                }
            } else {
                *old(self)
            }),
    {
        match event {
            Event::Resume => {
                self.resume.note_announced_resume(now, suspended);
                self.note_transition_finished();
                true
            },
            Event::BusClosed => false,
            _ => true,
        }
    }

    /// What is announced after a look, by what was carried out.
    pub fn announce(&self, performed: Option<Action>) -> (r: Announcement)
        ensures
            match (self.decision, performed, r) {
                (None, _, Announcement::Nothing) => true,
                (Some(d), Some(action), Announcement::Taken(taken, why)) => taken == action && why@
                    == why_text(d, action, self.policy),
                (Some(d), None, Announcement::Held(rows)) => rows@.map_values(
                    |h: (Action, Vec<String>)| (h.0, views(h.1@)),
                ) == held_rows(d, 4),
                _ => false,
            },
    {
        match &self.decision {
            None => Announcement::Nothing,
            Some(decision) => match performed {
                Some(action) => Announcement::Taken(
                    action,
                    why_due(decision, action, &self.policy),
                ),
                None => Announcement::Held(held_back(decision)),
            },
        }
    }
}

/// The shorter of two spans, as far as there are any.
pub open spec fn shorter(a: Option<Duration>, b: Option<Duration>) -> Option<Duration> {
    match (a, b) {
        (Some(x), Some(y)) => if y.nanos < x.nanos {
            b
        } else {
            a
        },
        (None, _) => b,
        (_, None) => a,
    }
}

fn shorter_of(a: Option<Duration>, b: Option<Duration>) -> (r: Option<Duration>)
    ensures
        r == shorter(a, b),
{
    match (a, b) {
        (Some(x), Some(y)) => if y.nanos < x.nanos {
            b
        } else {
            a
        },
        (None, _) => b,
        (_, None) => a,
    }
}

/// How long to wait for an instant: never for less than a quarter of a second, so that one that has
/// passed and cannot be acted on keeps nobody busy.
pub open spec fn wait_until(at: BootInstant, now: BootInstant) -> Duration {
    let left = between(now, at);
    if left.nanos < 250_000_000 {
        Duration { nanos: 250_000_000 }
    } else {
        left
    }
}

fn wait_for(at: BootInstant, now: BootInstant) -> (r: Duration)
    ensures
        r == wait_until(at, now),
{
    let left = at.since(now);
    let least = Duration::from_millis(SHORTEST_WAIT_MILLIS);
    if left.nanos < least.nanos {
        least
    } else {
        left
    }
}

/// How long to wait for an instant, if there is one.
pub open spec fn wait_if(at: Option<BootInstant>, now: BootInstant) -> Option<Duration> {
    match at {
        Some(at) => Some(wait_until(at, now)),
        None => None,
    }
}

/// How long to wait before the next look: by the next deadline, the end of a lease, the end of the
/// request that waits, and whether what nothing announces has to be looked at.
pub open spec fn wakeup_of(
    deadline: Deadline,
    expiry: Option<BootInstant>,
    pending: Option<BootInstant>,
    sweep: bool,
    now: BootInstant,
) -> Option<Duration> {
    shorter(
        shorter(
            shorter(
                match deadline {
                    Deadline::Never => None,
                    Deadline::At(at) => Some(wait_until(at, now)),
                },
                wait_if(expiry, now),
            ),
            wait_if(pending, now),
        ),
        if sweep {
            Some(crate::time::seconds(60))
        } else {
            None
        },
    )
}

/// Whether nothing announces a change of a fact.
pub open spec fn polled(fact: FactId) -> bool {
    exists|i: int| 0 <= i < 6 && #[trigger] POLLED@[i] == fact
}

/// Whether a reading holds the machine awake.
pub open spec fn holds_awake(readings: Map<FactId, Reading>, fact: FactId) -> bool {
    readings.contains_key(fact) && (readings[fact].state == FactState::True || readings[fact].state
        == FactState::Indeterminate)
}

/// Whether what nothing announces has to be looked at again before long: some of it is read and
/// holds the machine awake, or a ceiling waits for it.
pub open spec fn sweeps(policy: Policy, readings: Map<FactId, Reading>) -> bool {
    ||| exists|f: FactId| #[trigger] polled(f) && policy.reads(f) && holds_awake(readings, f)
    ||| exists|i: int|
        #![trigger policy.blocks@.filter(takes_part(BlockKind::When))[i]]
        0 <= i < policy.blocks@.filter(takes_part(BlockKind::When)).len() && (
        match policy.blocks@.filter(takes_part(BlockKind::When))[i].id.condition {
            Condition::Fact(f) => polled(f),
            Condition::Always => false,
        })
}

fn is_polled(fact: FactId) -> (r: bool)
    ensures
        r == polled(fact),
{
    let all = POLLED;
    let mut i: usize = 0;
    while i < 6
        invariant
            i <= 6,
            all@ == POLLED@,
            forall|j: int| 0 <= j < i ==> #[trigger] POLLED@[j] != fact,
        decreases 6 - i,
    {
        if all[i] == fact {
            assert(POLLED@[i as int] == fact);
            return true;
        }
        i += 1;
    }
    false
}

/// Whether what nothing announces has to be looked at again before long.
pub fn sweep_needed_for(policy: &Policy, readings: &FactMap<Reading>) -> (r: bool)
    ensures
        r == sweeps(*policy, readings@),
{
    let all = POLLED;
    let mut i: usize = 0;
    while i < 6
        invariant
            i <= 6,
            all@ == POLLED@,
            forall|j: int|
                0 <= j < i ==> !(policy.reads(#[trigger] POLLED@[j]) && holds_awake(
                    readings@,
                    POLLED@[j],
                )),
        decreases 6 - i,
    {
        let fact = all[i];
        let state = match readings.get(fact) {
            Some(reading) => reading.state,
            None => FactState::Unavailable,
        };
        if policy.fact_enabled(fact) && is_holding(state) {
            assert(POLLED@[i as int] == fact);
            assert(polled(fact));
            return true;
        }
        i += 1;
    }
    assert forall|f: FactId| #[trigger] polled(f) implies !(policy.reads(f) && holds_awake(
        readings@,
        f,
    )) by {
        let j = choose|j: int| 0 <= j < 6 && #[trigger] POLLED@[j] == f;
        assert(POLLED@[j] == f);
    }
    let ceilings = policy.blocks_of(BlockKind::When);
    let ghost wanted = policy.blocks@.filter(takes_part(BlockKind::When));
    let mut k: usize = 0;
    while k < ceilings.len()
        invariant
            k <= ceilings@.len(),
            ceilings@ == wanted,
            wanted == policy.blocks@.filter(takes_part(BlockKind::When)),
            forall|j: int|
                0 <= j < k ==> !(match (#[trigger] wanted[j]).id.condition {
                    Condition::Fact(f) => polled(f),
                    Condition::Always => false,
                }),
        decreases ceilings@.len() - k,
    {
        match ceilings[k].id.condition {
            Condition::Fact(fact) => {
                if is_polled(fact) {
                    assert(wanted[k as int].id.condition == Condition::Fact(fact));
                    return true;
                }
            },
            Condition::Always => {},
        }
        k += 1;
    }
    false
}

/// Whether an action was forced, asked for, or neither.
pub fn kind_of(request: &Request, action: Action) -> (r: &'static str)
    ensures
        r@ == (if request.force == Some(action) {
            "forced"@
        } else if request.now {
            "requested"@
        } else {
            "autonomous"@
        }),
{
    let forced = match request.force {
        Some(other) => other == action,
        None => false,
    };
    if forced {
        "forced"
    } else if request.now {
        "requested"
    } else {
        "autonomous"
    }
}

// ---- what holds of the whole ----------------------------------------------------------

/// No action is carried out after a single look: a second one has to permit it, and what is carried
/// out is what the second one permits.
pub proof fn an_action_is_confirmed_before_it_is_carried_out(
    tick: Tick,
    may: Option<Action>,
    in_flight: bool,
    dry_run: bool,
)
    requires
        !(tick is Perform),
        tick_after(tick, may, in_flight, dry_run) is Perform,
    ensures
        tick is Confirm,
        may == Some(tick_after(tick, may, in_flight, dry_run)->Perform_1),
        !dry_run,
{
}

/// While decisions are only reported, nothing is carried out.
pub proof fn a_dry_run_carries_nothing_out(tick: Tick, may: Option<Action>, in_flight: bool)
    requires
        !(tick is Perform),
    ensures
        !(tick_after(tick, may, in_flight, true) is Perform),
{
}

/// While one power transition is being carried out, no other one is set out on.
pub proof fn one_transition_at_a_time(request: Request, may: Option<Action>, dry_run: bool)
    ensures
        tick_after(Tick::Look(request), may, true, dry_run) == Tick::Done(None),
{
}

/// A request that waits asks again for exactly what it asked for: its own action, nothing forced.
/// It never stands in the way of one that is made now.
pub proof fn a_waiting_request_asks_for_its_own_action(
    held: Pending,
    clocks: ClockSnapshot,
    request: Request,
)
    ensures
        request.requested is None && request.force is None && request_of(
            Some(held),
            clocks,
            request,
        ).0 is Some ==> request_of(Some(held), clocks, request).1 == (Request {
            now: true,
            force: None,
            requested: Some(held.action),
        }),
        request.requested is Some || request.force is Some ==> request_of(
            Some(held),
            clocks,
            request,
        ).1 == request,
{
}

/// A wakeup is never later than any of what it waits for, whatever else it waits for.
pub proof fn a_wakeup_waits_for_the_first(
    deadline: Deadline,
    expiry: Option<BootInstant>,
    pending: Option<BootInstant>,
    sweep: bool,
    now: BootInstant,
)
    ensures
        ({
            let wait = wakeup_of(deadline, expiry, pending, sweep, now);
            &&& deadline matches Deadline::At(at) ==> wait is Some && (wait->Some_0).nanos
                <= wait_until(at, now).nanos
            &&& expiry matches Some(at) ==> wait is Some && (wait->Some_0).nanos <= wait_until(
                at,
                now,
            ).nanos
            &&& pending matches Some(at) ==> wait is Some && (wait->Some_0).nanos <= wait_until(
                at,
                now,
            ).nanos
            &&& sweep ==> wait is Some && (wait->Some_0).nanos <= 60 * 1_000_000_000
            &&& wait matches Some(d) ==> d.nanos >= 250_000_000
        }),
{
}

/// Looking at what nothing announces makes a wakeup sooner or leaves it: never later.
pub proof fn a_sweep_never_delays_a_wakeup(
    deadline: Deadline,
    expiry: Option<BootInstant>,
    pending: Option<BootInstant>,
    now: BootInstant,
)
    ensures
        wakeup_of(deadline, expiry, pending, false, now) matches Some(d) ==> (wakeup_of(
            deadline,
            expiry,
            pending,
            true,
            now,
        )->Some_0).nanos <= d.nanos,
{
}

/// While a fact that is read is in doubt and no ceiling lets a sleep go, none is set out on or
/// carried out.
pub proof fn doubt_lets_no_sleep_be_carried_out(
    tick: Tick,
    d: Decision,
    fact: FactId,
    policy: Policy,
    facts: FactSet,
    clocks: ClockSnapshot,
    edges: BlockEdges,
    request: Request,
    in_flight: bool,
    dry_run: bool,
)
    requires
        decides(d, policy, facts, clocks, edges, request),
        policy.reads(fact),
        facts.state(fact) == FactState::Indeterminate,
        forall|a: Action| #[trigger]
            a.sleeps() ==> crate::decision::ceiling_of(a, policy, facts, clocks, edges, request)
                == Deadline::Never,
        !(tick is Perform),
    ensures
        chosen(d) is None,
        !(tick_after(tick, chosen(d), in_flight, dry_run) is Perform),
{
    assert forall|a: Action| a.sleeps() implies !(#[trigger] d.of(a)).due by {
        crate::laws::rest_now_does_not_reach_doubt(a, fact, policy, facts, clocks, edges, request);
        assert(crate::decision::resolves(d.of(a), a, policy, facts, clocks, edges, request));
    }
    assert(!d.of(Action::Suspend).due && !d.of(Action::Hibernate).due && !d.of(
        Action::PowerOff,
    ).due);
}

/// A sleep that is forced by name is the one that is chosen, whatever holds it back.
pub proof fn a_forced_sleep_is_chosen(
    d: Decision,
    action: Action,
    policy: Policy,
    facts: FactSet,
    clocks: ClockSnapshot,
    edges: BlockEdges,
)
    requires
        action.sleeps(),
        decides(
            d,
            policy,
            facts,
            clocks,
            edges,
            (Request { now: false, force: Some(action), requested: Some(action) }),
        ),
    ensures
        chosen(d) == Some(action),
{
    let request = Request { now: false, force: Some(action), requested: Some(action) };
    crate::laws::force_makes_its_action_due(action, policy, facts, clocks, edges, request);
    assert(crate::decision::resolves(d.of(action), action, policy, facts, clocks, edges, request));
}

/// A sleep that is asked for by name is never traded for another one. Without a name, no sleep is
/// chosen while a shallower one is due.
pub proof fn a_named_sleep_is_never_traded(d: Decision)
    ensures
        d.requested matches Some(action) ==> chosen(d) is None || chosen(d) == Some(action),
        d.requested is None && chosen(d) == Some(Action::Hibernate) ==> !d.suspend.due,
        d.requested is None && chosen(d) == Some(Action::PowerOff) ==> !d.suspend.due
            && !d.hibernate.due,
        chosen(d) matches Some(action) ==> action.sleeps() && d.of(action).due,
{
}

} // verus!
