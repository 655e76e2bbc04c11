//! From what the machine answered to what is seen of it.
use vstd::prelude::*;

use crate::agents::holders_of;
use crate::counters::{service_of, Sampler};
use crate::engine::{Engine, Outside};
use crate::fact::{FactId, FactState};
use crate::gpu::{
    holder_views, read, split_of, with_holders, without_a_game_there_is_no_evidence_of_one,
    NvidiaResult, Split,
};
use crate::policy::Policy;
use crate::process::Process;
use crate::reading::{gpu_enabled, Reading};
use crate::sessions::{
    graphical_uids, graphical_users, inhibitor, inhibitor_of, remote, remote_of, InhibitorEntry,
    Logind, SessionEntry,
};
use crate::steam::{download_of, downloading, game_of, game_pids, game_running, launched, Staging};
use crate::text::views;
use crate::time::{BootInstant, Duration};

verus! {

/// What the machine answered, for one look at it. Of a fact that is not read, nothing needs to be
/// asked.
#[derive(Debug)]
pub struct Asked {
    /// When.
    pub now: BootInstant,
    /// The wall clock, since the epoch.
    pub wall: Duration,
    /// For how long the machine has been suspended since boot, in nanoseconds.
    pub suspended: u64,
    /// The leases whose handles are closed.
    pub closed: Vec<String>,
    /// The user and the type of each session.
    pub kinds: Logind<Vec<(u32, String)>>,
    /// The sessions.
    pub sessions: Logind<Vec<SessionEntry>>,
    /// The sessions that are not to count.
    pub excluded: Vec<String>,
    /// What is inhibited.
    pub blocked: Logind<String>,
    /// Who inhibits, if that could be listed.
    pub inhibitors: Option<Vec<InhibitorEntry>>,
    /// The processes. None where they could not be read.
    pub procs: Vec<Process>,
    /// Whether Steam is installed.
    pub steam_installed: bool,
    /// What looking for a download came to.
    pub staging: Staging,
    /// What asking the NVIDIA driver came to.
    pub nvidia: NvidiaResult,
    /// The processes that belong to the system and not to a session.
    pub system_pids: Vec<u32>,
    /// What a local service answered.
    pub fetched: Result<String, String>,
    /// What each value that it publishes comes to.
    pub wholes: Vec<Option<u64>>,
}

/// What is said of a fact that is switched off.
pub open spec fn switched_off() -> (FactState, Seq<char>) {
    (FactState::Unavailable, "disabled by configuration"@)
}

/// Whether some session is graphical. Where the sessions cannot be listed, none is known to be.
pub open spec fn some_graphical(kinds: Logind<Vec<(u32, String)>>) -> bool {
    kinds matches Logind::Answered(sessions) && graphical_users(sessions@).len() > 0
}

/// What is seen of games. One that is not looked for does not run.
pub open spec fn game_seen(policy: Policy, asked: Asked) -> (FactState, Seq<char>) {
    if policy.reads(FactId::SteamGameRunning) {
        game_of(asked.steam_installed, asked.procs@)
    } else {
        switched_off()
    }
}

/// What is seen of a local service, and what is remembered of it. One that is not looked at is left
/// alone.
pub open spec fn service_seen(policy: Policy, before: Sampler, asked: Asked) -> (
    Sampler,
    FactState,
    Seq<char>,
) {
    if policy.reads(FactId::LocalServiceBusy) {
        service_of(
            before,
            policy.settings(FactId::LocalServiceBusy),
            asked.now,
            asked.fetched,
            asked.wholes@,
        )
    } else {
        (before, FactState::Unavailable, "no counters_url is configured"@)
    }
}

/// What is seen of the memory of the GPU: by the games and the service that were seen, and by what
/// the agents report.
pub open spec fn gpu_seen(engine: Engine, before: Sampler, asked: Asked) -> (
    (FactState, Seq<char>),
    (FactState, Seq<char>),
) {
    if engine.policy.reads(FactId::GpuBusyGame) || engine.policy.reads(FactId::GpuBusyOther) {
        split_of(
            asked.procs@,
            holder_views(holders_of(engine.agents.live(asked.now))),
            asked.nvidia,
            launched(asked.procs@),
            game_seen(engine.policy, asked).0 == FactState::True,
            service_seen(engine.policy, before, asked).1,
            asked.system_pids@,
        )
    } else {
        (switched_off(), switched_off())
    }
}

/// The wall clock as files are dated by it.
pub open spec fn file_clock(wall: Duration) -> i128 {
    if wall.nanos <= i128::MAX {
        wall.nanos as i128
    } else {
        i128::MAX
    }
}

/// Whether what is seen of the machine is what it answered.
pub open spec fn sees(seen: Outside, engine: Engine, before: Sampler, asked: Asked) -> bool {
    let policy = engine.policy;
    let remote = remote_of(asked.sessions, views(asked.excluded@), asked.wall);
    let inhibited = inhibitor_of(asked.blocked, asked.inhibitors);
    let window = policy.settings(FactId::SteamDownloading).window;
    let download = download_of(asked.staging, window, file_clock(asked.wall));
    let game = game_seen(policy, asked);
    let service = service_seen(policy, before, asked);
    let gpu = gpu_seen(engine, before, asked);
    &&& seen.now == asked.now
    &&& seen.suspended == asked.suspended
    &&& seen.closed == asked.closed
    &&& seen.has_graphical_session == some_graphical(asked.kinds)
    &&& seen.remote_session.says(remote.0, remote.1)
    &&& seen.inhibitor_block.says(inhibited.0, inhibited.1)
    &&& seen.steam_game_running.says(game.0, game.1)
    &&& seen.steam_downloading.says(download.0, download.1)
    &&& seen.gpu_busy_game.says(gpu.0.0, gpu.0.1)
    &&& seen.gpu_busy_other.says(gpu.1.0, gpu.1.1)
    &&& seen.local_service_busy.says(service.1, service.2)
}

fn disabled() -> (r: Reading)
    ensures
        r.says(switched_off().0, switched_off().1),
{
    Reading::absent("disabled by configuration")
}

impl Engine {
    /// What is seen of the machine, by what it answered.
    ///
    /// The memory of the GPU is told apart last: what is a game, and what is a service at work, has
    /// to be known before.
    pub fn detect(&self, sampler: &mut Sampler, asked: Asked) -> (r: Outside)
        ensures
            sees(r, *self, *old(sampler), asked),
            *final(sampler) == service_seen(self.policy, *old(sampler), asked).0,
    {
        let has_graphical_session = match graphical_uids(&asked.kinds) {
            Ok(uids) => uids.len() > 0,
            Err(_) => false,
        };
        let steam_game_running = if self.policy.fact_enabled(FactId::SteamGameRunning) {
            game_running(asked.steam_installed, asked.procs.as_slice())
        } else {
            disabled()
        };
        let local_service_busy = if self.policy.fact_enabled(FactId::LocalServiceBusy) {
            let settings = self.policy.fact_settings(FactId::LocalServiceBusy);
            sampler.sample(&settings, asked.now, &asked.fetched, &asked.wholes)
        } else {
            Reading::absent("no counters_url is configured")
        };
        let remote_session = remote(&asked.sessions, &asked.excluded, asked.wall);
        let inhibitor_block = inhibitor(&asked.blocked, &asked.inhibitors);
        let wall: i128 = if asked.wall.nanos <= i128::MAX as u128 {
            asked.wall.nanos as i128
        } else {
            i128::MAX
        };
        let window = self.policy.fact_settings(FactId::SteamDownloading).window;
        let steam_downloading = downloading(&asked.staging, window, wall);
        let split = if gpu_enabled(&self.policy) {
            let reported = self.agents.gpu_holders(asked.now);
            let games = game_pids(asked.procs.as_slice());
            read(
                asked.procs.as_slice(),
                &reported,
                asked.nvidia,
                games.as_slice(),
                steam_game_running.state == FactState::True,
                local_service_busy.state,
                asked.system_pids.as_slice(),
            )
        } else {
            Split { game: disabled(), other: disabled() }
        };
        Outside {
            now: asked.now,
            suspended: asked.suspended,
            closed: asked.closed,
            has_graphical_session,
            remote_session,
            inhibitor_block,
            steam_game_running,
            steam_downloading,
            gpu_busy_game: split.game,
            gpu_busy_other: split.other,
            local_service_busy,
        }
    }
}

/// A service that is switched off is left alone, and what was remembered of it stays.
pub proof fn a_service_that_is_switched_off_is_left_alone(
    policy: Policy,
    before: Sampler,
    asked: Asked,
)
    requires
        !policy.reads(FactId::LocalServiceBusy),
    ensures
        service_seen(policy, before, asked).0 == before,
        service_seen(policy, before, asked).1 == FactState::Unavailable,
{
}

/// Without a game that is looked for and runs, no memory is taken for that of a game.
pub proof fn without_a_game_no_memory_is_a_games(engine: Engine, before: Sampler, asked: Asked)
    requires
        game_seen(engine.policy, asked).0 != FactState::True,
    ensures
        gpu_seen(engine, before, asked).0.0 != FactState::True,
{
    let reported = holder_views(holders_of(engine.agents.live(asked.now)));
    let holders = match asked.nvidia {
        NvidiaResult::Holders(found) => with_holders(reported, holder_views(found@)),
        _ => reported,
    };
    let service = service_seen(engine.policy, before, asked).1;
    without_a_game_there_is_no_evidence_of_one(
        holders,
        asked.procs@,
        launched(asked.procs@),
        service == FactState::True || service == FactState::Indeterminate,
        asked.system_pids@,
    );
}

} // verus!
