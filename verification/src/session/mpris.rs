//! Whether a media player is playing in a session.
use vstd::prelude::*;
use vstd::string::StringExecFns;

use crate::lines::{none, push_line};
use crate::text::{decimal, join, joined, push_decimal, same, starts_with, strip_prefix, views};

verus! {

/// Nothing here could play.
pub const UNAVAILABLE: &'static str = "unavailable";

/// It cannot be told.
pub const INDETERMINATE: &'static str = "indeterminate";

/// Something plays.
pub const TRUE: &'static str = "true";

/// Nothing plays.
pub const FALSE: &'static str = "false";

/// How the name of every media player begins.
pub const PLAYER_PREFIX: &'static str = "org.mpris.MediaPlayer2.";

/// A name on the bus, and what asking it what it does came to. Of a name that is no player, nothing
/// is asked.
#[derive(Debug)]
pub struct Player {
    /// The name.
    pub name: String,
    /// What it says it does, if it says anything, or why it could not be asked.
    pub status: Result<Option<String>, String>,
}

/// What asking the bus of a session came to.
#[derive(Debug)]
pub enum SessionBus {
    /// There is none: why.
    Missing(String),
    /// It cannot be asked: why.
    Closed(String),
    /// It does not list its names: why.
    Unlisted(String),
    /// These are on it.
    Listed(Vec<Player>),
}

/// Whether a name is that of a media player.
pub fn is_player(name: &str) -> (r: bool)
    ensures
        r == PLAYER_PREFIX@.is_prefix_of(name@),
{
    starts_with(name, PLAYER_PREFIX)
}

/// A name without how the name of a player begins, however often it does.
pub open spec fn bare_name(name: Seq<char>) -> Seq<char>
    decreases name.len(),
{
    if PLAYER_PREFIX@.len() > 0 && PLAYER_PREFIX@.is_prefix_of(name) {
        bare_name(name.skip(PLAYER_PREFIX@.len() as int))
    } else {
        name
    }
}

fn short_name(name: &str) -> (r: String)
    ensures
        r@ == bare_name(name@),
{
    let mut rest = name.to_owned();
    proof {
        reveal_strlit("org.mpris.MediaPlayer2.");
        assert(PLAYER_PREFIX@.len() == 23);
    }
    loop
        invariant
            PLAYER_PREFIX@.len() == 23,
            bare_name(rest@) == bare_name(name@),
        decreases rest@.len(),
    {
        match strip_prefix(rest.as_str(), PLAYER_PREFIX) {
            Some(shorter) => {
                rest = shorter;
            },
            None => return rest,
        }
    }
}

/// How many names are players.
pub open spec fn player_count(players: Seq<Player>) -> nat
    decreases players.len(),
{
    if players.len() == 0 {
        0
    } else {
        player_count(players.drop_last()) + if PLAYER_PREFIX@.is_prefix_of(players.last().name@) {
            1nat
        } else {
            0nat
        }
    }
}

/// The players that play, by name and in order, or the first one that would not say.
pub open spec fn playing_among(players: Seq<Player>) -> Result<Seq<Seq<char>>, Seq<char>>
    decreases players.len(),
{
    if players.len() == 0 {
        Ok(Seq::empty())
    } else {
        let last = players.last();
        match playing_among(players.drop_last()) {
            Err(why) => Err(why),
            Ok(before) => if !PLAYER_PREFIX@.is_prefix_of(last.name@) {
                Ok(before)
            } else {
                match last.status {
                    Err(err) => Err(last.name@ + " did not report PlaybackStatus: "@ + err@),
                    Ok(Some(state)) => if state@ == "Playing"@ {
                        Ok(before.push(bare_name(last.name@)))
                    } else {
                        Ok(before)
                    },
                    Ok(None) => Ok(before),
                }
            },
        }
    }
}

/// Whether a media player is playing, and by what evidence.
pub open spec fn playback(bus: SessionBus) -> (Seq<char>, Seq<char>) {
    match bus {
        SessionBus::Missing(err) => ("unavailable"@, "no session bus: "@ + err@),
        SessionBus::Closed(err) => ("indeterminate"@, "cannot query the session bus: "@ + err@),
        SessionBus::Unlisted(err) => ("indeterminate"@, "ListNames failed: "@ + err@),
        SessionBus::Listed(players) => match playing_among(players@) {
            Err(why) => ("indeterminate"@, why),
            Ok(playing) => if playing.len() == 0 {
                (
                    "false"@,
                    decimal(player_count(players@)) + " MPRIS player(s), none playing"@,
                )
            } else {
                ("true"@, "playing: "@ + joined(playing, ", "@))
            },
        },
    }
}

proof fn lemma_refusal_stays(players: Seq<Player>, i: int)
    requires
        0 <= i < players.len(),
        playing_among(players.take(i + 1)) is Err,
    ensures
        playing_among(players) == playing_among(players.take(i + 1)),
    decreases players.len() - i,
{
    if i + 1 < players.len() {
        assert(players.take(i + 2).drop_last() =~= players.take(i + 1));
        lemma_refusal_stays(players, i + 1);
    } else {
        assert(players.take(i + 1) =~= players);
    }
}

/// Decides whether a media player is playing in a session. No bus is nothing that could play; a
/// player that would not say what it does is doubt.
pub fn read(bus: &SessionBus) -> (r: (&'static str, String))
    ensures
        r.0@ == playback(*bus).0,
        r.1@ == playback(*bus).1,
{
    let players = match bus {
        SessionBus::Missing(err) => {
            let mut why = "no session bus: ".to_owned();
            why.append(err.as_str());
            return (UNAVAILABLE, why);
        },
        SessionBus::Closed(err) => {
            let mut why = "cannot query the session bus: ".to_owned();
            why.append(err.as_str());
            return (INDETERMINATE, why);
        },
        SessionBus::Unlisted(err) => {
            let mut why = "ListNames failed: ".to_owned();
            why.append(err.as_str());
            return (INDETERMINATE, why);
        },
        SessionBus::Listed(players) => players,
    };
    let mut playing = none();
    let mut seen: usize = 0;
    let mut i: usize = 0;
    while i < players.len()
        invariant
            i <= players@.len(),
            seen <= i,
            *bus == SessionBus::Listed(*players),
            seen == player_count(players@.take(i as int)),
            playing_among(players@.take(i as int)) == Ok::<Seq<Seq<char>>, Seq<char>>(
                views(playing@),
            ),
        decreases players@.len() - i,
    {
        assert(players@.take(i as int + 1).drop_last() =~= players@.take(i as int));
        let player = &players[i];
        if is_player(player.name.as_str()) {
            seen += 1;
            match &player.status {
                Ok(Some(state)) => {
                    if same(state.as_str(), "Playing") {
                        push_line(&mut playing, short_name(player.name.as_str()));
                    }
                },
                Ok(None) => {},
                Err(err) => {
                    proof {
                        lemma_refusal_stays(players@, i as int);
                    }
                    let mut why = player.name.clone();
                    why.append(" did not report PlaybackStatus: ");
                    why.append(err.as_str());
                    return (INDETERMINATE, why);
                },
            }
        }
        i += 1;
    }
    assert(players@.take(i as int) =~= players@);
    assert(views(playing@).len() == playing@.len());
    if playing.len() == 0 {
        let mut detail = String::new();
        push_decimal(&mut detail, seen as u128);
        assert(detail@ =~= decimal(seen as nat));
        detail.append(" MPRIS player(s), none playing");
        (FALSE, detail)
    } else {
        let mut detail = "playing: ".to_owned();
        let list = join(&playing, ", ");
        detail.append(list.as_str());
        (TRUE, detail)
    }
}

} // verus!
