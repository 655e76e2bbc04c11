//! What a session tells of itself: how much memory its processes hold, who touches its pads, what
//! plays in it, and for how long nobody has used it.
use vstd::prelude::*;

use super::backend::{idle_usec, Idle};
use super::display::{notified, BlankVia, Global};
use super::fdinfo::{
    account_of, accounts, any_accounts, called, client_at, clients_of, holders_in,
    size_of, total, Account, ProcessFiles,
};
use super::gamepad::{
    counted_from, event_of, is_news, is_person, merged_idle, names_pad, pads_among, signed, without,
    Event,
};
use super::mpris::{bare_name, playback, playing_among, Player, SessionBus, PLAYER_PREFIX};
use crate::agents::{reported_idle, reports, Agent};
use crate::gpu::Holder;
use crate::spelling::{
    blank, fields_are_what_a_separator_parts, lacks, numbers_read_back, one_word,
    the_last_part_follows_the_last_separator, white_space_around_a_text_is_no_part_of_it,
    words_are_what_white_space_parts,
};
use crate::text::{
    decimal, holds, is_digit, is_space, lemma_decimal_reads_back, lines, views,
    words,
};
use crate::time::{BootInstant, Duration};

verus! {

// ---- memory of the GPU ----------------------------------------------------------------

proof fn lemma_decimal_is_a_word(n: nat)
    ensures
        one_word(decimal(n)),
{
    lemma_decimal_reads_back(n);
    let s = decimal(n);
    assert forall|i: int| 0 <= i < s.len() implies !is_space(#[trigger] s[i]) by {
        assert(is_digit(s[i]));
    }
}

/// A product that stays at the largest number where it would exceed it.
pub open spec fn product_at_most(a: nat, b: nat) -> int {
    if a * b > u64::MAX {
        u64::MAX as int
    } else {
        (a * b) as int
    }
}

/// A size is told in kibibytes, mebibytes or gibibytes, and without a unit in kibibytes.
pub proof fn a_size_is_so_many_of_its_unit(n: nat)
    requires
        n <= u64::MAX,
    ensures
        size_of(decimal(n)) == product_at_most(n, 1_024),
        size_of(decimal(n) + seq![' '] + "KiB"@) == product_at_most(n, 1_024),
        size_of(decimal(n) + seq![' '] + "MiB"@) == product_at_most(n, 1_048_576),
        size_of(decimal(n) + seq![' '] + "GiB"@) == product_at_most(n, 1_073_741_824),
        size_of(Seq::empty()) == 0,
{
    reveal_strlit("KiB");
    reveal_strlit("MiB");
    reveal_strlit("GiB");
    let d = decimal(n);
    assert("KiB"@[0] == 'K' && "MiB"@[0] == 'M' && "GiB"@[0] == 'G');
    assert(one_word("KiB"@) && one_word("MiB"@) && one_word("GiB"@));
    lemma_decimal_is_a_word(n);
    numbers_read_back(n, u64::MAX as nat, d);
    assert(is_space(' '));
    words_are_what_white_space_parts(d, ' ', "KiB"@);
    words_are_what_white_space_parts(d, ' ', "MiB"@);
    words_are_what_white_space_parts(d, ' ', "GiB"@);
    words_are_what_white_space_parts("KiB"@, ' ', Seq::empty());
    words_are_what_white_space_parts("MiB"@, ' ', Seq::empty());
    words_are_what_white_space_parts("GiB"@, ' ', Seq::empty());
    assert(words(d + seq![' '] + "KiB"@) =~= seq![d, "KiB"@]);
    assert(words(d + seq![' '] + "MiB"@) =~= seq![d, "MiB"@]);
    assert(words(d + seq![' '] + "GiB"@) =~= seq![d, "GiB"@]);
}

/// Whether a text is a key or a value as such: no white space is around it.
pub open spec fn bare(s: Seq<char>) -> bool {
    s.len() > 0 ==> !is_space(s[0]) && !is_space(s[s.len() - 1])
}

/// A further line of a file sets what it is about: the client, the memory of the device or the memory
/// that is shared with it, of which the largest that is told counts. Any other key changes nothing.
pub proof fn a_line_sets_what_it_is_about(
    rows: Seq<Seq<char>>,
    key: Seq<char>,
    gap: Seq<char>,
    value: Seq<char>,
)
    requires
        lacks(key, ':'),
        bare(key),
        bare(value),
        blank(gap),
    ensures
        ({
            let before = account_of(rows);
            let after = account_of(rows.push(key + seq![':'] + (gap + value)));
            let vram = key == "drm-resident-vram"@ || key == "drm-memory-vram"@;
            let gtt = key == "drm-resident-gtt"@ || key == "drm-memory-gtt"@;
            &&& after.vram == (if vram && size_of(value) > before.vram {
                size_of(value)
            } else {
                before.vram
            })
            &&& after.gtt == (if gtt && size_of(value) > before.gtt {
                size_of(value)
            } else {
                before.gtt
            })
            &&& after.accounted == (before.accounted || vram || gtt)
            &&& key != "drm-client-id"@ ==> after.client == before.client
            &&& forall|id: u64|
                key == "drm-client-id"@ && value == #[trigger] decimal(id as nat) ==> after.client
                    == Some(id)
        }),
        account_of(Seq::empty()) == (Account { client: None, vram: 0, gtt: 0, accounted: false }),
{
    let row = key + seq![':'] + (gap + value);
    let none = Seq::<char>::empty();
    assert(rows.push(row).drop_last() =~= rows);
    fields_are_what_a_separator_parts(key, ':', gap + value);
    white_space_around_a_text_is_no_part_of_it(none, key, none);
    assert(none + key + none =~= key);
    white_space_around_a_text_is_no_part_of_it(gap, value, none);
    assert(gap + value + none =~= gap + value);
    reveal_strlit("drm-client-id");
    reveal_strlit("drm-resident-vram");
    reveal_strlit("drm-memory-vram");
    reveal_strlit("drm-resident-gtt");
    reveal_strlit("drm-memory-gtt");
    assert("drm-client-id"@[4] == 'c');
    assert("drm-resident-vram"@[4] == 'r' && "drm-resident-vram"@.len() == 17);
    assert("drm-memory-vram"@[4] == 'm' && "drm-memory-vram"@.len() == 15);
    assert("drm-resident-gtt"@[4] == 'r' && "drm-resident-gtt"@.len() == 16);
    assert("drm-memory-gtt"@[4] == 'm' && "drm-memory-gtt"@.len() == 14);
    assert forall|id: u64|
        key == "drm-client-id"@ && value == #[trigger] decimal(id as nat) implies account_of(
        rows.push(row),
    ).client == Some(id) by {
        numbers_read_back(id as nat, u64::MAX as nat, value);
    }
}

proof fn lemma_at(clients: Seq<(u64, u64)>, id: u64)
    ensures
        0 <= client_at(clients, id) <= clients.len(),
        client_at(clients, id) < clients.len() ==> clients[client_at(clients, id)].0 == id,
        forall|i: int| 0 <= i < client_at(clients, id) ==> (#[trigger] clients[i]).0 != id,
    decreases clients.len(),
{
    if clients.len() > 0 && clients[0].0 != id {
        lemma_at(clients.skip(1), id);
        assert forall|i: int| 0 <= i < client_at(clients, id) implies (#[trigger] clients[i]).0
            != id by {
            if i > 0 {
                assert(clients.skip(1)[i - 1] == clients[i]);
            }
        }
    }
}

/// A further file counts for its client alone, and only where it is one of a graphics driver: the
/// client then has the larger of what it had and what the file tells, which is the memory of the
/// device or, where that is none, the memory that is shared with it. Every other client has what it
/// had.
pub proof fn a_file_counts_for_its_client(files: Seq<Seq<char>>, file: Seq<char>, i: int)
    ensures
        clients_of(Seq::empty()).len() == 0,
        ({
            let before = clients_of(files);
            let after = clients_of(files.push(file));
            let account = account_of(lines(file));
            let bytes = if account.vram > 0 {
                account.vram
            } else {
                account.gtt
            };
            if holds(file, "drm-driver"@) && account.client is Some {
                let id = account.client->Some_0;
                let known = exists|k: int|
                    #![trigger before[k]]
                    0 <= k < before.len() && before[k].0 == id;
                &&& after.len() == before.len() + (if known {
                    0int
                } else {
                    1
                })
                &&& !known ==> after[before.len() as int] == (id, bytes)
                &&& 0 <= i < before.len() ==> after[i].0 == before[i].0
                &&& 0 <= i < before.len() && before[i].0 != id ==> after[i].1 == before[i].1
                &&& 0 <= i < before.len() && before[i].0 == id && (forall|k: int|
                    0 <= k < i ==> (#[trigger] before[k]).0 != id) ==> after[i].1 == (
                if bytes > before[i].1 {
                    bytes
                } else {
                    before[i].1
                })
            } else {
                after == before
            }
        }),
{
    assert(files.push(file).drop_last() =~= files);
    let before = clients_of(files);
    let account = account_of(lines(file));
    if holds(file, "drm-driver"@) && account.client is Some {
        let id = account.client->Some_0;
        lemma_at(before, id);
        let at = client_at(before, id);
        if at < before.len() {
            assert(before[at].0 == id);
        }
        if exists|k: int| #![trigger before[k]] 0 <= k < before.len() && before[k].0 == id {
            let k = choose|k: int| #![trigger before[k]] 0 <= k < before.len() && before[k].0 == id;
            assert(at <= k);
        }
    }
}

/// What all clients have is the sum of what each has, and memory is accounted for where some file of a
/// graphics driver tells of any.
pub proof fn clients_add_up(clients: Seq<(u64, u64)>, more: (u64, u64), files: Seq<Seq<char>>)
    ensures
        total(Seq::empty()) == 0,
        total(clients.push(more)) == total(clients) + more.1,
        accounts(files) <==> exists|i: int|
            #![trigger files[i]]
            0 <= i < files.len() && holds(files[i], "drm-driver"@) && account_of(
                lines(files[i]),
            ).accounted,
    decreases files.len(),
{
    assert(clients.push(more).drop_last() =~= clients);
    if files.len() > 0 {
        let fewer = files.drop_last();
        clients_add_up(clients, more, fewer);
        assert forall|i: int| 0 <= i < fewer.len() implies #[trigger] fewer[i] == files[i] by {}
        assert(files[files.len() - 1] == files.last());
        if exists|i: int|
            #![trigger files[i]]
            0 <= i < files.len() && holds(files[i], "drm-driver"@) && account_of(
                lines(files[i]),
            ).accounted {
            let i = choose|i: int|
                #![trigger files[i]]
                0 <= i < files.len() && holds(files[i], "drm-driver"@) && account_of(
                    lines(files[i]),
                ).accounted;
            if i < fewer.len() {
                assert(fewer[i] == files[i]);
            }
        }
    }
}

/// A further process is told of exactly where it holds anything, by its number, its name and what all
/// of its clients have, as far as that can be counted. What was told before stays.
pub proof fn a_process_that_holds_anything_is_told_of(procs: Seq<ProcessFiles>, more: ProcessFiles)
    ensures
        holders_in(Seq::empty()).len() == 0,
        ({
            let before = holders_in(procs);
            let after = holders_in(procs.push(more));
            let held = total(clients_of(views(more.files@)));
            if held > 0 {
                &&& after.len() == before.len() + 1
                &&& after.take(before.len() as int) == before
                &&& after[before.len() as int].0 == more.pid
                &&& after[before.len() as int].1 == called(
                    more.cmdline@,
                    crate::policy::text_view(more.comm),
                )
                &&& after[before.len() as int].2 == (if held > u64::MAX {
                    u64::MAX as int
                } else {
                    held as int
                })
            } else {
                after == before
            }
        }),
        any_accounts(procs.push(more)) <==> any_accounts(procs) || accounts(views(more.files@)),
        !any_accounts(Seq::empty()),
{
    assert(procs.push(more).drop_last() =~= procs);
    let before = holders_in(procs);
    let after = holders_in(procs.push(more));
    if total(clients_of(views(more.files@))) > 0 {
        assert(after.take(before.len() as int) =~= before);
    }
}

/// A process is called by the last part of what it was started as, and where that is nothing by what
/// the kernel calls it.
pub proof fn a_process_is_called_by_what_it_was_started_as(
    dir: Seq<char>,
    file: Seq<char>,
    rest: Seq<char>,
    comm: Seq<char>,
)
    requires
        lacks(dir, '\0'),
        lacks(file, '\0'),
        lacks(file, '/'),
        file.len() > 0,
        comm.len() > 0 ==> !is_space(comm[comm.len() - 1]),
    ensures
        called(dir + seq!['/'] + file + seq!['\0'] + rest, Some(comm)) == file,
        called(file + seq!['\0'] + rest, Some(comm)) == file,
        called(seq!['\0'] + rest, Some(comm)) == comm,
        called(Seq::empty(), Some(comm)) == comm,
        called(Seq::empty(), None).len() == 0,
{
    let none = Seq::<char>::empty();
    let path = dir + seq!['/'] + file;
    assert forall|i: int| 0 <= i < path.len() implies #[trigger] path[i] != '\0' by {
        if i < dir.len() {
            assert(path[i] == dir[i]);
        } else if i > dir.len() {
            assert(path[i] == file[i - dir.len() - 1]);
        }
    }
    fields_are_what_a_separator_parts(path, '\0', rest);
    fields_are_what_a_separator_parts(file, '\0', rest);
    fields_are_what_a_separator_parts(none, '\0', rest);
    assert(none + seq!['\0'] + rest =~= seq!['\0'] + rest);
    the_last_part_follows_the_last_separator(dir, '/', file);
}

// ---- pads -----------------------------------------------------------------------------

/// An event is a person exactly where a button goes down, or where an axis has moved by more than an
/// eighth of its range from where it is counted. What the kernel only repeats is none.
pub proof fn a_person_presses_or_moves(axes: Map<u8, i16>, event: Event)
    ensures
        is_person(axes, event) <==> {
            ||| event.kind == 1 && !event.initial && event.value == 1
            ||| event.kind == 2 && !event.initial && axes.contains_key(event.number) && (
            event.value > axes[event.number] + 4_095 || event.value < axes[event.number] - 4_095)
        },
{
}

/// An axis is counted from where it was first heard of or last repeated, and from where it came to
/// whenever it has moved far enough; every other event leaves all axes as they are counted.
pub proof fn an_axis_is_counted_from_where_it_came_to(axes: Map<u8, i16>, event: Event, other: u8)
    ensures
        ({
            let after = counted_from(axes, event);
            let far = axes.contains_key(event.number) && (event.value > axes[event.number] + 4_095
                || event.value < axes[event.number] - 4_095);
            &&& event.kind != 2 ==> after == axes
            &&& event.kind == 2 && (event.initial || far || !axes.contains_key(event.number))
                ==> after.contains_key(event.number) && after[event.number] == event.value
            &&& event.kind == 2 && !event.initial && axes.contains_key(event.number) && !far
                ==> after == axes
            &&& other != event.number ==> (after.contains_key(other) == axes.contains_key(other) && (
            axes.contains_key(other) ==> after[other] == axes[other]))
        }),
{
}

/// The seventh byte of an event is its kind, of which the highest bit marks a repetition, and the
/// eighth is what it is of. Two bytes are a number with its sign.
pub proof fn the_bytes_of_an_event_have_their_places(raw: Seq<u8>, value: i16, low: u8, high: u8)
    requires
        raw.len() == 8,
    ensures
        event_of(raw, value).value == value,
        event_of(raw, value).number == raw[7],
        event_of(raw, value).initial <==> raw[6] >= 128,
        raw[6] < 128 ==> event_of(raw, value).kind == raw[6],
        raw[6] >= 128 ==> event_of(raw, value).kind == raw[6] - 128,
        high < 128 ==> signed(low, high) == low + 256 * high,
        high >= 128 ==> signed(low, high) == low + 256 * (high - 256),
{
}

/// A touch is news where it is the first, or where the one before it was five seconds ago or more.
pub proof fn a_touch_is_news_after_five_seconds(last: BootInstant, now: BootInstant)
    ensures
        is_news(None, now),
        is_news(Some(last), now) <==> now.nanos >= last.nanos + 5_000_000_000,
{
}

/// With its pads a session has been idle for the shorter of what the compositor says and what has
/// passed since the last touch; what cannot be told stays so.
pub proof fn a_touch_ends_the_idle_time(known: Duration, last: BootInstant, now: BootInstant)
    requires
        last.nanos <= now.nanos,
    ensures
        merged_idle(Idle::For(known), Some(last), now) matches Idle::For(d) && d.nanos == (
        if now.nanos - last.nanos < known.nanos {
            now.nanos - last.nanos
        } else {
            known.nanos as int
        }),
        merged_idle(Idle::For(known), None, now) == Idle::For(known),
        merged_idle(Idle::Unknown, Some(last), now) == Idle::Unknown,
        merged_idle(Idle::Unknown, None, now) == Idle::Unknown,
{
}

/// A device is a pad exactly where its name is `js` and a number.
pub proof fn a_pad_is_js_and_a_number(n: nat, name: Seq<char>)
    ensures
        names_pad(seq!['j', 's'] + decimal(n)),
        names_pad(name) ==> name.len() > 2 && name[0] == 'j' && name[1] == 's' && forall|i: int|
            2 <= i < name.len() ==> '0' <= #[trigger] name[i] <= '9',
{
    lemma_decimal_reads_back(n);
    let s = seq!['j', 's'] + decimal(n);
    assert(s.skip(2) =~= decimal(n));
    if names_pad(name) {
        assert forall|i: int| 2 <= i < name.len() implies '0' <= #[trigger] name[i] <= '9' by {
            assert(is_digit(name.skip(2)[i - 2]));
        }
    }
}

/// The pads among devices are those that are pads, and forgetting a device takes out that one and no
/// other.
pub proof fn pads_are_kept_and_forgotten_by_name(names: Seq<Seq<char>>, path: Seq<char>, name: Seq<char>)
    ensures
        pads_among(names).contains(name) <==> names.contains(name) && names_pad(name),
        without(names, path).contains(name) <==> names.contains(name) && name != path,
    decreases names.len(),
{
    if names.len() > 0 {
        let fewer = names.drop_last();
        let last = names.last();
        pads_are_kept_and_forgotten_by_name(fewer, path, name);
        assert(names =~= fewer.push(last));
        crate::names::lemma_pushed(fewer, last, name);
        crate::names::lemma_pushed(pads_among(fewer), last, name);
        crate::names::lemma_pushed(without(fewer, path), last, name);
    }
}

// ---- what plays -----------------------------------------------------------------------

/// Whether a name on the bus is that of a player.
pub open spec fn plays_media(p: Player) -> bool {
    "org.mpris.MediaPlayer2."@.is_prefix_of(p.name@)
}

proof fn lemma_playing(players: Seq<Player>)
    ensures
        playing_among(players) is Err <==> exists|i: int|
            #![trigger players[i]]
            0 <= i < players.len() && plays_media(players[i]) && players[i].status is Err,
        playing_among(players) matches Ok(found) ==> (found.len() > 0 <==> exists|i: int|
            #![trigger players[i]]
            0 <= i < players.len() && plays_media(players[i]) && (players[i].status matches Ok(
                Some(state),
            ) && state@ == "Playing"@)),
    decreases players.len(),
{
    if players.len() > 0 {
        let fewer = players.drop_last();
        lemma_playing(fewer);
        assert forall|i: int| 0 <= i < fewer.len() implies #[trigger] fewer[i] == players[i] by {}
        assert(players[players.len() - 1] == players.last());
        if exists|i: int|
            #![trigger players[i]]
            0 <= i < players.len() && plays_media(players[i]) && players[i].status is Err {
            let i = choose|i: int|
                #![trigger players[i]]
                0 <= i < players.len() && plays_media(players[i]) && players[i].status is Err;
            if i < fewer.len() {
                assert(fewer[i] == players[i]);
            }
        }
        if exists|i: int|
            #![trigger players[i]]
            0 <= i < players.len() && plays_media(players[i]) && (players[i].status matches Ok(
                Some(state),
            ) && state@ == "Playing"@) {
            let i = choose|i: int|
                #![trigger players[i]]
                0 <= i < players.len() && plays_media(players[i]) && (players[i].status matches Ok(
                    Some(state),
                ) && state@ == "Playing"@);
            if i < fewer.len() {
                assert(fewer[i] == players[i]);
            }
        }
    }
}

/// Something plays in a session exactly where a player says that it is playing and every player says
/// what it does. One that would not say is doubt, and so is a bus that cannot be asked; without a bus
/// there is nothing that could play.
pub proof fn something_plays_where_a_player_says_so(bus: SessionBus)
    ensures
        match bus {
            SessionBus::Missing(_) => playback(bus).0 == "unavailable"@,
            SessionBus::Closed(_) => playback(bus).0 == "indeterminate"@,
            SessionBus::Unlisted(_) => playback(bus).0 == "indeterminate"@,
            SessionBus::Listed(players) => {
                let mute = exists|i: int|
                    #![trigger players@[i]]
                    0 <= i < players@.len() && plays_media(players@[i]) && players@[i].status is Err;
                let loud = exists|i: int|
                    #![trigger players@[i]]
                    0 <= i < players@.len() && plays_media(players@[i]) && (players@[i].status
                        matches Ok(Some(state)) && state@ == "Playing"@);
                playback(bus).0 == (if mute {
                    "indeterminate"@
                } else if loud {
                    "true"@
                } else {
                    "false"@
                })
            },
        },
{
    if let SessionBus::Listed(players) = bus {
        lemma_playing(players@);
    }
}

/// A player is told of by its name without how the name of every player begins.
pub proof fn a_player_is_told_of_by_its_own_name(own: Seq<char>)
    requires
        !"org.mpris.MediaPlayer2."@.is_prefix_of(own),
    ensures
        bare_name("org.mpris.MediaPlayer2."@ + own) == own,
        bare_name(own) == own,
{
    reveal_strlit("org.mpris.MediaPlayer2.");
    let whole = PLAYER_PREFIX@ + own;
    assert(PLAYER_PREFIX@.len() == 23);
    assert(whole.subrange(0, 23) =~= PLAYER_PREFIX@);
    assert(whole.skip(23) =~= own);
    assert(PLAYER_PREFIX@.is_prefix_of(whole));
    assert(bare_name(own) == own);
    assert(bare_name(whole) == bare_name(own));
}

// ---- for how long nobody has used a session -------------------------------------------

/// A compositor says that nobody uses a session ten seconds after the last use: what has passed since
/// it said so, and these. Where it has not said so the session is in use, and where it is gone nothing
/// is known.
pub proof fn a_compositor_speaks_after_ten_seconds(since: Duration, said: Option<Duration>)
    ensures
        notified(true, said) == Idle::Unknown,
        notified(false, None) matches Idle::For(d) && d.nanos == 0,
        since.nanos + 10_000_000_000 <= u128::MAX ==> (notified(false, Some(since)) matches Idle::For(
            d,
        ) && d.nanos == since.nanos + 10_000_000_000),
{
}

/// An idle time is told in whole microseconds and kept as these; one that cannot be told is kept as
/// such.
pub proof fn an_idle_time_is_told_in_microseconds(d: Duration, usec: u64)
    ensures
        d.nanos < u64::MAX * 1_000 ==> idle_usec(Idle::For(d)) * 1_000 <= d.nanos < idle_usec(
            Idle::For(d),
        ) * 1_000 + 1_000,
        idle_usec(Idle::Unknown) == u64::MAX,
        usec < u64::MAX ==> (reported_idle(usec) matches Some(kept) && kept.nanos == usec * 1_000),
        reported_idle(u64::MAX) is None,
{
}

/// A report replaces what its agent said last, as of its own time, and leaves who the agent is.
pub proof fn a_report_replaces_what_was_said(
    after: Agent,
    before: Agent,
    idle_usec: u64,
    media: Seq<char>,
    holders: Seq<Holder>,
    now: BootInstant,
)
    requires
        reports(after, before, idle_usec, media, holders, now),
    ensures
        after.last_report == now,
        after.media@ == media,
        after.gpu_holders@ == holders,
        idle_usec == u64::MAX ==> after.idle is None,
        idle_usec < u64::MAX ==> (after.idle matches Some(d) && d.nanos == idle_usec * 1_000),
        after.session_id@ == before.session_id@,
        after.uid == before.uid,
        after.can_blank == before.can_blank,
{
}

/// What a compositor offers and how a panel is darkened have the names of their protocols, and each is
/// used up to the newest version that is understood.
pub proof fn protocols_have_their_names()
    ensures
        Global::IdleNotifier.text() == "ext_idle_notifier_v1"@ && Global::IdleNotifier.newest() == 1,
        Global::Seat.text() == "wl_seat"@ && Global::Seat.newest() == 7,
        Global::OutputPower.text() == "zwlr_output_power_manager_v1"@
            && Global::OutputPower.newest() == 1,
        Global::Dpms.text() == "org_kde_kwin_dpms_manager"@ && Global::Dpms.newest() == 1,
        Global::Output.text() == "wl_output"@ && Global::Output.newest() == 4,
        BlankVia::Nothing.text() == "no blanking protocol"@,
        BlankVia::WlrOutputPower.text() == "wlr-output-power-management-v1"@,
        BlankVia::KdeDpms.text() == "org_kde_kwin_dpms"@,
{
}

} // verus!
