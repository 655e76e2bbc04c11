//! How much GPU memory the processes of a session hold, by what the kernel says of their files.
use vstd::prelude::*;

use crate::text::{
    contains, holds, last_part, lines, parse_u64, parsed_unsigned, same, split_at_first,
    split_fields, split_lines, split_once, split_words, trim, trim_end, trimmed, trimmed_end, views,
    words,
};

verus! {

/// A number of units, as far as it can be counted.
pub open spec fn capped_product(number: nat, unit: nat) -> u64 {
    if number * unit <= u64::MAX {
        (number * unit) as u64
    } else {
        u64::MAX
    }
}

/// How many bytes a unit has. A number without one is in kibibytes.
pub open spec fn unit_bytes(parts: Seq<Seq<char>>) -> nat {
    if parts.len() > 1 && parts[1] == "MiB"@ {
        1_048_576
    } else if parts.len() > 1 && parts[1] == "GiB"@ {
        1_073_741_824
    } else {
        1_024
    }
}

/// The size that a text stands for, in bytes. What is no size is none.
pub open spec fn size_of(value: Seq<char>) -> u64 {
    let parts = words(value);
    if parts.len() == 0 {
        0
    } else {
        match parsed_unsigned(parts[0], u64::MAX as nat) {
            Some(number) => capped_product(number, unit_bytes(parts)),
            None => 0,
        }
    }
}

/// The size that a text stands for, in bytes.
pub fn parse_size(value: &str) -> (r: u64)
    ensures
        r == size_of(value@),
{
    let parts = split_words(value);
    let ghost all = words(value@);
    assert(all.len() == parts@.len());
    if parts.len() == 0 {
        return 0;
    }
    assert(all[0] == parts@[0]@);
    let number = match parse_u64(parts[0].as_str()) {
        Some(number) => number,
        None => return 0,
    };
    let unit: u64 = if parts.len() > 1 {
        assert(all[1] == parts@[1]@);
        if same(parts[1].as_str(), "MiB") {
            1_048_576
        } else if same(parts[1].as_str(), "GiB") {
            1_073_741_824
        } else {
            1_024
        }
    } else {
        1_024
    };
    assert(unit == unit_bytes(all));
    match number.checked_mul(unit) {
        Some(bytes) => bytes,
        None => u64::MAX,
    }
}

/// What the kernel says of one open file.
pub struct Account {
    /// The client, if it is told and can be read.
    pub client: Option<u64>,
    /// The memory of the device itself.
    pub vram: u64,
    /// The memory that is shared with it.
    pub gtt: u64,
    /// Whether any memory is accounted for at all.
    pub accounted: bool,
}

/// The larger of two numbers.
pub open spec fn larger(a: u64, b: u64) -> u64 {
    if b > a {
        b
    } else {
        a
    }
}

/// What is known of a file with one more line.
pub open spec fn with_line(before: Account, line: Seq<char>) -> Account {
    match split_at_first(line, ':') {
        None => before,
        Some((raw_key, raw_value)) => {
            let key = trimmed(raw_key);
            let value = trimmed(raw_value);
            if key == "drm-client-id"@ {
                Account {
                    client: match parsed_unsigned(value, u64::MAX as nat) {
                        Some(id) => Some(id as u64),
                        None => None,
                    },
                    ..before
                }
            } else if key == "drm-resident-vram"@ || key == "drm-memory-vram"@ {
                Account { vram: larger(before.vram, size_of(value)), accounted: true, ..before }
            } else if key == "drm-resident-gtt"@ || key == "drm-memory-gtt"@ {
                Account { gtt: larger(before.gtt, size_of(value)), accounted: true, ..before }
            } else {
                before
            }
        },
    }
}

/// What lines say of a file.
pub open spec fn account_of(rows: Seq<Seq<char>>) -> Account
    decreases rows.len(),
{
    if rows.len() == 0 {
        Account { client: None, vram: 0, gtt: 0, accounted: false }
    } else {
        with_line(account_of(rows.drop_last()), rows.last())
    }
}

/// How much memory a file stands for: that of the device itself, or else what is shared with it.
pub open spec fn account_bytes(account: Account) -> u64 {
    if account.vram > 0 {
        account.vram
    } else {
        account.gtt
    }
}

/// The first place where a client stands, or the length.
pub open spec fn client_at(clients: Seq<(u64, u64)>, id: u64) -> int
    decreases clients.len(),
{
    if clients.len() == 0 || clients[0].0 == id {
        0
    } else {
        1 + client_at(clients.skip(1), id)
    }
}

/// Clients and their memory with one more file: a client that is there already keeps the larger
/// amount, not the sum.
pub open spec fn with_client(clients: Seq<(u64, u64)>, id: u64, bytes: u64) -> Seq<(u64, u64)> {
    let at = client_at(clients, id);
    if at < clients.len() {
        clients.update(at, (clients[at].0, larger(clients[at].1, bytes)))
    } else {
        clients.push((id, bytes))
    }
}

/// The clients of files and their memory. A file that is not of a graphics driver counts for
/// nothing.
pub open spec fn clients_of(files: Seq<Seq<char>>) -> Seq<(u64, u64)>
    decreases files.len(),
{
    if files.len() == 0 {
        Seq::empty()
    } else {
        let before = clients_of(files.drop_last());
        let account = account_of(lines(files.last()));
        match account.client {
            Some(id) => if holds(files.last(), "drm-driver"@) {
                with_client(before, id, account_bytes(account))
            } else {
                before
            },
            None => before,
        }
    }
}

/// Whether any memory is accounted for in files.
pub open spec fn accounts(files: Seq<Seq<char>>) -> bool
    decreases files.len(),
{
    &&& files.len() > 0
    &&& accounts(files.drop_last()) || (holds(files.last(), "drm-driver"@) && account_of(
        lines(files.last()),
    ).accounted)
}

/// The memory of all clients.
pub open spec fn total(clients: Seq<(u64, u64)>) -> nat
    decreases clients.len(),
{
    if clients.len() == 0 {
        0
    } else {
        total(clients.drop_last()) + clients.last().1 as nat
    }
}

fn client_of(value: &str) -> (r: Option<u64>)
    ensures
        r == (match parsed_unsigned(value@, u64::MAX as nat) {
            Some(id) => Some(id as u64),
            None => None,
        }),
{
    parse_u64(value)
}

fn max_of(a: u64, b: u64) -> (r: u64)
    ensures
        r == larger(a, b),
{
    if b > a {
        b
    } else {
        a
    }
}

fn read_account(text: &str) -> (r: (Option<u64>, u64, bool))
    ensures
        r.0 == account_of(lines(text@)).client,
        r.1 == account_bytes(account_of(lines(text@))),
        r.2 == account_of(lines(text@)).accounted,
{
    let rows = split_lines(text);
    let ghost all = lines(text@);
    let mut client: Option<u64> = None;
    let mut vram: u64 = 0;
    let mut gtt: u64 = 0;
    let mut accounted = false;
    let mut i: usize = 0;
    while i < rows.len()
        invariant
            i <= rows@.len(),
            all == views(rows@),
            account_of(all.take(i as int)) == (Account { client, vram, gtt, accounted }),
        decreases rows@.len() - i,
    {
        assert(all[i as int] == rows@[i as int]@);
        assert(all.take(i as int + 1).drop_last() =~= all.take(i as int));
        match split_once(rows[i].as_str(), ':') {
            None => {},
            Some((raw_key, raw_value)) => {
                let key = trim(raw_key.as_str());
                let value = trim(raw_value.as_str());
                if same(key.as_str(), "drm-client-id") {
                    client = client_of(value.as_str());
                } else if same(key.as_str(), "drm-resident-vram") || same(
                    key.as_str(),
                    "drm-memory-vram",
                ) {
                    accounted = true;
                    vram = max_of(vram, parse_size(value.as_str()));
                } else if same(key.as_str(), "drm-resident-gtt") || same(
                    key.as_str(),
                    "drm-memory-gtt",
                ) {
                    accounted = true;
                    gtt = max_of(gtt, parse_size(value.as_str()));
                }
            },
        }
        i += 1;
    }
    assert(all.take(i as int) =~= all);
    let bytes = if vram > 0 {
        vram
    } else {
        gtt
    };
    (client, bytes, accounted)
}

fn add_client(clients: &mut Vec<(u64, u64)>, id: u64, bytes: u64)
    ensures
        final(clients)@ == with_client(old(clients)@, id, bytes),
{
    let ghost before = clients@;
    let mut i: usize = 0;
    assert(before.skip(0) =~= before);
    while i < clients.len()
        invariant
            i <= clients@.len(),
            clients@ == before,
            before == old(clients)@,
            client_at(before, id) == i + client_at(before.skip(i as int), id),
        decreases clients@.len() - i,
    {
        if clients[i].0 == id {
            let most = max_of(clients[i].1, bytes);
            clients[i] = (id, most);
            return ;
        }
        assert(before.skip(i as int).skip(1) =~= before.skip(i as int + 1));
        i += 1;
    }
    clients.push((id, bytes));
}

/// How much GPU memory a process holds, by what the kernel says of its files, and whether any
/// memory is accounted for at all. Each client counts once, however many files it has open. A sum
/// that is too large to be counted is the largest count.
pub fn fold(files: &Vec<String>) -> (r: (u64, bool))
    ensures
        r.0 == (if total(clients_of(views(files@))) <= u64::MAX {
            total(clients_of(views(files@))) as u64
        } else {
            u64::MAX
        }),
        r.1 == accounts(views(files@)),
{
    let ghost all = views(files@);
    let mut clients: Vec<(u64, u64)> = Vec::new();
    let mut saw = false;
    let mut i: usize = 0;
    while i < files.len()
        invariant
            i <= files@.len(),
            all == views(files@),
            clients@ == clients_of(all.take(i as int)),
            saw == accounts(all.take(i as int)),
        decreases files@.len() - i,
    {
        assert(all[i as int] == files@[i as int]@);
        assert(all.take(i as int + 1).drop_last() =~= all.take(i as int));
        let text = files[i].as_str();
        if contains(text, "drm-driver") {
            let (client, bytes, accounted) = read_account(text);
            if accounted {
                saw = true;
            }
            match client {
                Some(id) => add_client(&mut clients, id, bytes),
                None => {},
            }
        }
        i += 1;
    }
    assert(all.take(i as int) =~= all);
    let ghost found = clients@;
    let mut sum: u64 = 0;
    let mut k: usize = 0;
    while k < clients.len()
        invariant
            k <= clients@.len(),
            clients@ == found,
            sum == (if total(found.take(k as int)) <= u64::MAX {
                total(found.take(k as int)) as u64
            } else {
                u64::MAX
            }),
        decreases clients@.len() - k,
    {
        assert(found.take(k as int + 1).drop_last() =~= found.take(k as int));
        sum = sum.saturating_add(clients[k].1);
        k += 1;
    }
    assert(found.take(k as int) =~= found);
    (sum, saw)
}

/// What is read of a process.
#[derive(Debug)]
pub struct ProcessFiles {
    /// Its number.
    pub pid: u32,
    /// What it was started as, with a zero character after each argument.
    pub cmdline: String,
    /// What the kernel calls it, if that could be read.
    pub comm: Option<String>,
    /// What the kernel says of its files.
    pub files: Vec<String>,
}

/// What a process is called: the last part of what it was started as, or else what the kernel calls
/// it.
pub open spec fn called(cmdline: Seq<char>, comm: Option<Seq<char>>) -> Seq<char> {
    let argv0 = crate::text::fields(cmdline, '\0')[0];
    if argv0.len() > 0 {
        crate::text::after_last(argv0, '/')
    } else {
        match comm {
            Some(name) => trimmed_end(name),
            None => Seq::empty(),
        }
    }
}

/// What a process is called.
pub fn name_of(cmdline: &str, comm: &Option<String>) -> (r: String)
    ensures
        r@ == called(cmdline@, crate::policy::text_view(*comm)),
{
    let args = split_fields(cmdline, '\0');
    assert(views(args@).len() == args@.len());
    proof {
        crate::text::lemma_index_of(cmdline@, '\0');
    }
    assert(crate::text::fields(cmdline@, '\0').len() > 0);
    assert(views(args@)[0] == args@[0]@);
    if !args[0].as_str().is_empty() {
        return last_part(args[0].as_str(), '/');
    }
    match comm {
        Some(name) => trim_end(name.as_str()),
        None => String::new(),
    }
}

/// The processes among some that hold memory: their numbers, names and amounts, in order.
pub open spec fn holders_in(procs: Seq<ProcessFiles>) -> Seq<(u32, Seq<char>, u64)>
    decreases procs.len(),
{
    if procs.len() == 0 {
        Seq::empty()
    } else {
        let before = holders_in(procs.drop_last());
        let last = procs.last();
        let held = total(clients_of(views(last.files@)));
        let bytes = if held <= u64::MAX {
            held as u64
        } else {
            u64::MAX
        };
        if bytes > 0 {
            before.push(
                (last.pid, called(last.cmdline@, crate::policy::text_view(last.comm)), bytes),
            )
        } else {
            before
        }
    }
}

/// Whether any memory is accounted for among processes.
pub open spec fn any_accounts(procs: Seq<ProcessFiles>) -> bool
    decreases procs.len(),
{
    &&& procs.len() > 0
    &&& any_accounts(procs.drop_last()) || accounts(views(procs.last().files@))
}

/// What triples hold.
pub open spec fn triple_views(rows: Seq<(u32, String, u64)>) -> Seq<(u32, Seq<char>, u64)> {
    rows.map_values(|h: (u32, String, u64)| (h.0, h.1@, h.2))
}

/// The processes that hold GPU memory: their numbers, names and amounts. Where no memory is
/// accounted for at all, nothing is known and nothing is said.
pub fn read(procs: &Vec<ProcessFiles>) -> (r: Vec<(u32, String, u64)>)
    ensures
        triple_views(r@) == (if any_accounts(procs@) {
            holders_in(procs@)
        } else {
            Seq::empty()
        }),
{
    let mut out: Vec<(u32, String, u64)> = Vec::new();
    let mut saw = false;
    let mut i: usize = 0;
    assert(triple_views(out@) =~= Seq::empty());
    while i < procs.len()
        invariant
            i <= procs@.len(),
            triple_views(out@) == holders_in(procs@.take(i as int)),
            saw == any_accounts(procs@.take(i as int)),
        decreases procs@.len() - i,
    {
        assert(procs@.take(i as int + 1).drop_last() =~= procs@.take(i as int));
        let (bytes, accounted) = fold(&procs[i].files);
        if accounted {
            saw = true;
        }
        if bytes > 0 {
            let name = name_of(procs[i].cmdline.as_str(), &procs[i].comm);
            let row = (procs[i].pid, name, bytes);
            let ghost before = triple_views(out@);
            assert(triple_views(out@.push(row)) =~= before.push((row.0, row.1@, row.2)));
            out.push(row);
        }
        i += 1;
    }
    assert(procs@.take(i as int) =~= procs@);
    if saw {
        out
    } else {
        let nothing: Vec<(u32, String, u64)> = Vec::new();
        assert(triple_views(nothing@) =~= Seq::empty());
        nothing
    }
}

// ---- what holds of the whole ----------------------------------------------------------

/// Whether no client is listed twice.
pub open spec fn clients_once(clients: Seq<(u64, u64)>) -> bool {
    forall|i: int, j: int|
        0 <= i < j < clients.len() ==> (#[trigger] clients[i]).0 != (#[trigger] clients[j]).0
}

proof fn lemma_client_at(clients: Seq<(u64, u64)>, id: u64)
    ensures
        0 <= client_at(clients, id) <= clients.len(),
        client_at(clients, id) < clients.len() ==> clients[client_at(clients, id)].0 == id,
        forall|i: int| 0 <= i < client_at(clients, id) ==> (#[trigger] clients[i]).0 != id,
    decreases clients.len(),
{
    if clients.len() > 0 && clients[0].0 != id {
        lemma_client_at(clients.skip(1), id);
        assert forall|i: int| 0 <= i < client_at(clients, id) implies (#[trigger] clients[i]).0
            != id by {
            if i > 0 {
                assert(clients.skip(1)[i - 1] == clients[i]);
            }
        }
    }
}

/// However many files a client has open, it counts once.
pub proof fn a_client_counts_once(files: Seq<Seq<char>>)
    ensures
        clients_once(clients_of(files)),
    decreases files.len(),
{
    if files.len() > 0 {
        a_client_counts_once(files.drop_last());
        let account = account_of(lines(files.last()));
        if account.client is Some {
            lemma_client_at(clients_of(files.drop_last()), account.client->Some_0);
        }
    }
}

/// What a file says of a client is covered: the client is there with at least as much memory.
spec fn covered(clients: Seq<(u64, u64)>, file: Seq<char>) -> bool {
    let account = account_of(lines(file));
    account.client is Some && holds(file, "drm-driver"@) ==> {
        let at = client_at(clients, account.client->Some_0);
        at < clients.len() && clients[at].1 >= account_bytes(account)
    }
}

proof fn lemma_more_still_covers(clients: Seq<(u64, u64)>, id: u64, bytes: u64, file: Seq<char>)
    requires
        covered(clients, file),
    ensures
        covered(with_client(clients, id, bytes), file),
{
    let account = account_of(lines(file));
    if account.client is Some {
        let mine = account.client->Some_0;
        let after = with_client(clients, id, bytes);
        lemma_client_at(clients, id);
        lemma_client_at(clients, mine);
        lemma_client_at(after, mine);
        let at = client_at(clients, mine);
        if at < clients.len() {
            assert(after[at].0 == mine);
            assert(client_at(after, mine) == at) by {
                if client_at(after, mine) < at {
                    assert(after[client_at(after, mine)].0 == clients[client_at(after, mine)].0);
                }
            }
        }
    }
}

proof fn lemma_every_file_is_covered(files: Seq<Seq<char>>, i: int)
    requires
        0 <= i < files.len(),
    ensures
        covered(clients_of(files), files[i]),
    decreases files.len(),
{
    let before = clients_of(files.drop_last());
    let account = account_of(lines(files.last()));
    if i < files.len() - 1 {
        assert(files.drop_last()[i] == files[i]);
        lemma_every_file_is_covered(files.drop_last(), i);
        if account.client is Some {
            lemma_more_still_covers(
                before,
                account.client->Some_0,
                account_bytes(account),
                files[i],
            );
        }
    } else if account.client is Some {
        let id = account.client->Some_0;
        let after = with_client(before, id, account_bytes(account));
        lemma_client_at(before, id);
        lemma_client_at(after, id);
        let at = client_at(before, id);
        assert(after[at].0 == id);
        assert(client_at(after, id) == at) by {
            if client_at(after, id) < at {
                assert(after[client_at(after, id)] == before[client_at(after, id)]);
            }
        }
    }
}

proof fn lemma_some_account_stays(files: Seq<Seq<char>>, i: int)
    requires
        0 <= i < files.len(),
        holds(files[i], "drm-driver"@),
        account_of(lines(files[i])).accounted,
    ensures
        accounts(files),
    decreases files.len(),
{
    if i < files.len() - 1 {
        assert(files.drop_last()[i] == files[i]);
        lemma_some_account_stays(files.drop_last(), i);
    }
}

/// A file that is open once more changes nothing, wherever it was among the files before.
pub proof fn the_same_file_again_changes_nothing(files: Seq<Seq<char>>, file: Seq<char>)
    requires
        files.contains(file),
    ensures
        clients_of(files.push(file)) == clients_of(files),
        accounts(files.push(file)) == accounts(files),
{
    let i = files.index_of(file);
    assert(files.push(file).drop_last() =~= files);
    lemma_every_file_is_covered(files, i);
    let account = account_of(lines(file));
    if account.client is Some {
        let id = account.client->Some_0;
        lemma_client_at(clients_of(files), id);
        if holds(file, "drm-driver"@) {
            assert(with_client(clients_of(files), id, account_bytes(account)) =~= clients_of(files));
        }
    }
    if holds(file, "drm-driver"@) && account.accounted {
        lemma_some_account_stays(files, i);
    }
}

} // verus!
