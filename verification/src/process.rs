//! Processes: what they are called and where they come from.
use vstd::prelude::*;

use crate::text::{
    after_last, chars_of, contains, fields, holds, last_part, parse_u32, parse_u64,
    parsed_unsigned, rsplit_once, same, split_fields, split_words, trim_end, trimmed_end, views,
    words,
};

verus! {

/// A process.
#[derive(Clone, Debug, PartialEq, Eq)]
pub struct Process {
    /// Its number.
    pub pid: u32,
    /// The number of its parent.
    pub ppid: u32,
    /// The name that the kernel keeps, which it cuts short.
    pub comm: String,
    /// Its arguments, with spaces between them.
    pub cmdline: String,
}

/// What somebody would call a process: the last part of its first argument, and the name that the
/// kernel keeps where it has none.
pub open spec fn process_name(p: Process) -> Seq<char> {
    let argv0 = fields(p.cmdline@, ' ')[0];
    if argv0.len() > 0 {
        after_last(argv0, '/')
    } else {
        p.comm@
    }
}

impl Process {
    /// What somebody would call the process.
    pub fn name(&self) -> (r: String)
        ensures
            r@ == process_name(*self),
    {
        let parts = split_fields(self.cmdline.as_str(), ' ');
        assert(views(parts@).len() > 0);
        assert(views(parts@)[0] == parts@[0]@);
        let argv0 = parts[0].as_str();
        if argv0.is_empty() {
            self.comm.clone()
        } else {
            last_part(argv0, '/')
        }
    }
}

/// A text with a space in place of each zero character.
pub open spec fn spaced(s: Seq<char>) -> Seq<char> {
    s.map_values(
        |c: char|
            if c == '\0' {
                ' '
            } else {
                c
            },
    )
}

fn with_spaces(s: &str) -> (r: String)
    ensures
        r@ == spaced(s@),
{
    let chars = chars_of(s);
    let ghost wanted = spaced(s@);
    let mut out = String::new();
    let mut i: usize = 0;
    assert(out@ =~= wanted.take(0));
    while i < chars.len()
        invariant
            i <= chars@.len(),
            chars@ == s@,
            wanted == spaced(s@),
            out@ == wanted.take(i as int),
        decreases chars@.len() - i,
    {
        let c = if chars[i] == '\0' {
            ' '
        } else {
            chars[i]
        };
        assert(wanted[i as int] == c);
        assert(wanted.take(i as int + 1) =~= wanted.take(i as int).push(c));
        out.push(c);
        i += 1;
    }
    assert(wanted.take(i as int) =~= wanted);
    out
}

/// What is kept of a text that may not have been read, without the space at its end.
pub open spec fn trimmed_if_read(text: Option<Seq<char>>) -> Seq<char> {
    match text {
        Some(t) => trimmed_end(t),
        None => Seq::empty(),
    }
}

impl Process {
    /// A process, by what the kernel says of it: its arguments with a zero character after each, the
    /// name that it keeps, and its `stat` line. What could not be read is empty, and so is a parent.
    pub fn read(
        pid: u32,
        cmdline: &Option<String>,
        comm: &Option<String>,
        stat: &Option<String>,
    ) -> (r: Self)
        ensures
            r.pid == pid,
            r.cmdline@ == (match *cmdline {
                Some(text) => trimmed_end(spaced(text@)),
                None => Seq::empty(),
            }),
            r.comm@ == trimmed_if_read(crate::policy::text_view(*comm)),
            r.ppid == (match *stat {
                Some(text) => match stat_ppid(text@) {
                    Some(ppid) => ppid,
                    None => 0,
                },
                None => 0,
            }),
    {
        let cmdline = match cmdline {
            Some(text) => {
                let shown = with_spaces(text.as_str());
                trim_end(shown.as_str())
            },
            None => String::new(),
        };
        let comm = match comm {
            Some(text) => trim_end(text.as_str()),
            None => String::new(),
        };
        let ppid: u32 = match stat {
            Some(text) => match parse_ppid(text.as_str()) {
                Some(ppid) => ppid,
                None => 0,
            },
            None => 0,
        };
        Process { pid, ppid, comm, cmdline }
    }
}

/// A field of a `stat` line, counted from behind the name. The name stands in parentheses and may
/// hold some itself, so it ends at the last one.
pub open spec fn stat_field(stat: Seq<char>, n: int) -> Option<Seq<char>> {
    let rest = words(after_last(stat, ')'));
    if crate::text::last_index_of(stat, ')') >= 0 && n < rest.len() {
        Some(rest[n])
    } else {
        None
    }
}

fn field_of(stat: &str, n: usize) -> (r: Option<String>)
    ensures
        match r {
            Some(field) => stat_field(stat@, n as int) == Some(field@),
            None => stat_field(stat@, n as int) is None,
        },
{
    match rsplit_once(stat, ')') {
        None => None,
        Some((_, rest)) => {
            let parts = split_words(rest.as_str());
            assert(views(parts@).len() == parts@.len());
            if n < parts.len() {
                assert(views(parts@)[n as int] == parts@[n as int]@);
                Some(parts[n].clone())
            } else {
                None
            }
        },
    }
}

/// The number of the parent, in a `stat` line.
pub open spec fn stat_ppid(stat: Seq<char>) -> Option<nat> {
    match stat_field(stat, 1) {
        Some(field) => parsed_unsigned(field, u32::MAX as nat),
        None => None,
    }
}

/// When the process started, in a `stat` line.
pub open spec fn stat_starttime(stat: Seq<char>) -> Option<nat> {
    match stat_field(stat, 19) {
        Some(field) => parsed_unsigned(field, u64::MAX as nat),
        None => None,
    }
}

/// Reads the number of the parent from a `stat` line.
pub fn parse_ppid(stat: &str) -> (r: Option<u32>)
    ensures
        match r {
            Some(pid) => stat_ppid(stat@) == Some(pid as nat),
            None => stat_ppid(stat@) is None,
        },
{
    match field_of(stat, 1) {
        Some(field) => parse_u32(field.as_str()),
        None => None,
    }
}

/// Reads when the process started from a `stat` line.
pub fn parse_starttime(stat: &str) -> (r: Option<u64>)
    ensures
        match r {
            Some(time) => stat_starttime(stat@) == Some(time as nat),
            None => stat_starttime(stat@) is None,
        },
{
    match field_of(stat, 19) {
        Some(field) => parse_u64(field.as_str()),
        None => None,
    }
}

/// Whether some process has a name, by either way of naming it.
pub fn any_process_named(procs: &[Process], name: &str) -> (r: bool)
    ensures
        r == (exists|i: int|
            #![trigger procs@[i]]
            0 <= i < procs@.len() && (procs@[i].comm@ == name@ || process_name(procs@[i])
                == name@)),
{
    let mut i: usize = 0;
    while i < procs.len()
        invariant
            i <= procs@.len(),
            forall|j: int|
                #![trigger procs@[j]]
                0 <= j < i ==> procs@[j].comm@ != name@ && process_name(procs@[j]) != name@,
        decreases procs@.len() - i,
    {
        let own = procs[i].name();
        if same(procs[i].comm.as_str(), name) || same(own.as_str(), name) {
            assert(procs@[i as int].comm@ == name@ || process_name(procs@[i as int]) == name@);
            return true;
        }
        i += 1;
    }
    false
}

/// Which processes have a text in their arguments.
pub open spec fn has_argument(needle: Seq<char>) -> spec_fn(Process) -> bool {
    |p: Process| holds(p.cmdline@, needle)
}

/// The processes that have a text in their arguments.
pub fn matching<'a>(procs: &'a [Process], needle: &str) -> (r: Vec<&'a Process>)
    ensures
        r@.map_values(|p: &'a Process| *p) == procs@.filter(has_argument(needle@)),
{
    let mut out: Vec<&'a Process> = Vec::new();
    let mut i: usize = 0;
    let ghost want = has_argument(needle@);
    assert(procs@.take(0).filter(want) =~= Seq::empty()) by {
        reveal(Seq::filter);
    }
    assert(out@.map_values(|p: &'a Process| *p) =~= Seq::empty());
    while i < procs.len()
        invariant
            i <= procs@.len(),
            want == has_argument(needle@),
            out@.map_values(|p: &'a Process| *p) == procs@.take(i as int).filter(want),
        decreases procs@.len() - i,
    {
        let process = &procs[i];
        proof {
            reveal(Seq::filter);
            assert(procs@.take(i as int + 1).drop_last() =~= procs@.take(i as int));
        }
        if contains(process.cmdline.as_str(), needle) {
            let ghost before = out@.map_values(|p: &'a Process| *p);
            out.push(process);
            assert(out@.map_values(|p: &'a Process| *p) =~= before.push(*process));
        }
        i += 1;
    }
    assert(procs@.take(i as int) =~= procs@);
    out
}

/// The parent of a process, as the last of the processes with its number has it.
pub open spec fn parent_of(procs: Seq<Process>, pid: u32) -> Option<u32>
    decreases procs.len(),
{
    if procs.len() == 0 {
        None
    } else if procs.last().pid == pid {
        Some(procs.last().ppid)
    } else {
        parent_of(procs.drop_last(), pid)
    }
}

/// How far up a chain of parents is followed.
pub const ANCESTRY_LIMIT: usize = 64;

/// A chain of parents, followed some steps further: up to a process without a known parent, or to
/// one that is there already.
pub open spec fn chain_from(procs: Seq<Process>, current: u32, chain: Seq<u32>, steps: nat) -> Seq<u32>
    decreases steps,
{
    if steps == 0 {
        chain
    } else {
        match parent_of(procs, current) {
            None => chain,
            Some(parent) => if parent == 0 || chain.contains(parent) {
                chain
            } else {
                chain_from(procs, parent, chain.push(parent), (steps - 1) as nat)
            },
        }
    }
}

/// The ancestors of a process, the nearest first.
pub open spec fn ancestors(procs: Seq<Process>, pid: u32) -> Seq<u32> {
    chain_from(procs, pid, Seq::empty(), 64)
}

fn parent(procs: &[Process], pid: u32) -> (r: Option<u32>)
    ensures
        r == parent_of(procs@, pid),
{
    let mut i: usize = procs.len();
    assert(procs@.take(i as int) =~= procs@);
    while i > 0
        invariant
            i <= procs@.len(),
            parent_of(procs@, pid) == parent_of(procs@.take(i as int), pid),
        decreases i,
    {
        assert(procs@.take(i as int).drop_last() =~= procs@.take(i as int - 1));
        if procs[i - 1].pid == pid {
            return Some(procs[i - 1].ppid);
        }
        i -= 1;
    }
    None
}

/// Whether a number is in a list.
pub fn listed(list: &[u32], number: u32) -> (r: bool)
    ensures
        r == list@.contains(number),
{
    let mut i: usize = 0;
    while i < list.len()
        invariant
            i <= list@.len(),
            forall|j: int| 0 <= j < i ==> list@[j] != number,
        decreases list@.len() - i,
    {
        if list[i] == number {
            return true;
        }
        i += 1;
    }
    false
}

/// The ancestors of a process, the nearest first. The walk ends, whatever the processes say of
/// their parents.
pub fn ancestry(procs: &[Process], pid: u32) -> (r: Vec<u32>)
    ensures
        r@ == ancestors(procs@, pid),
{
    let mut chain: Vec<u32> = Vec::new();
    let mut current: u32 = pid;
    let mut steps: usize = 0;
    assert(chain@ =~= Seq::empty());
    while steps < ANCESTRY_LIMIT
        invariant
            steps <= 64,
            ancestors(procs@, pid) == chain_from(procs@, current, chain@, (64 - steps) as nat),
        decreases 64 - steps,
    {
        match parent(procs, current) {
            None => return chain,
            Some(above) => {
                if above == 0 || listed(chain.as_slice(), above) {
                    return chain;
                }
                chain.push(above);
                current = above;
            },
        }
        steps += 1;
    }
    chain
}

/// Whether a process is one of some others or descends from one of them.
pub open spec fn comes_from(procs: Seq<Process>, pid: u32, roots: Seq<u32>) -> bool {
    roots.contains(pid) || exists|i: int|
        #![trigger ancestors(procs, pid)[i]]
        0 <= i < ancestors(procs, pid).len() && roots.contains(ancestors(procs, pid)[i])
}

/// Whether a process is one of some others or descends from one of them.
pub fn descends_from(procs: &[Process], pid: u32, roots: &[u32]) -> (r: bool)
    ensures
        r == comes_from(procs@, pid, roots@),
{
    if listed(roots, pid) {
        return true;
    }
    let chain = ancestry(procs, pid);
    let mut i: usize = 0;
    while i < chain.len()
        invariant
            i <= chain@.len(),
            chain@ == ancestors(procs@, pid),
            !roots@.contains(pid),
            forall|j: int| 0 <= j < i ==> !roots@.contains(#[trigger] chain@[j]),
        decreases chain@.len() - i,
    {
        if listed(roots, chain[i]) {
            assert(roots@.contains(ancestors(procs@, pid)[i as int]));
            return true;
        }
        i += 1;
    }
    false
}

/// Whether a link of a chain is the parent of the one before it, and the first that of the process.
pub open spec fn link(procs: Seq<Process>, pid: u32, chain: Seq<u32>, i: int) -> bool {
    &&& chain[i] != 0
    &&& parent_of(
        procs,
        if i == 0 {
            pid
        } else {
            chain[i - 1]
        },
    ) == Some(chain[i])
}

/// A chain of ancestors is short, names no process twice, and each of its links is a parent.
pub proof fn ancestry_is_bounded_and_without_repetition(procs: Seq<Process>, pid: u32)
    ensures
        ancestors(procs, pid).len() <= 64,
        ancestors(procs, pid).no_duplicates(),
        forall|i: int|
            0 <= i < ancestors(procs, pid).len() ==> #[trigger] link(
                procs,
                pid,
                ancestors(procs, pid),
                i,
            ),
{
    lemma_chain(procs, pid, pid, Seq::empty(), 64);
}

proof fn lemma_chain(procs: Seq<Process>, pid: u32, current: u32, chain: Seq<u32>, steps: nat)
    requires
        chain.no_duplicates(),
        forall|i: int| 0 <= i < chain.len() ==> #[trigger] link(procs, pid, chain, i),
        current == (if chain.len() == 0 {
            pid
        } else {
            chain.last()
        }),
    ensures
        chain_from(procs, current, chain, steps).len() <= chain.len() + steps,
        chain_from(procs, current, chain, steps).no_duplicates(),
        forall|i: int|
            0 <= i < chain_from(procs, current, chain, steps).len() ==> #[trigger] link(
                procs,
                pid,
                chain_from(procs, current, chain, steps),
                i,
            ),
    decreases steps,
{
    if steps > 0 {
        match parent_of(procs, current) {
            None => {},
            Some(parent) => {
                if parent != 0 && !chain.contains(parent) {
                    let longer = chain.push(parent);
                    assert forall|i: int, j: int|
                        0 <= i < longer.len() && 0 <= j < longer.len() && i
                            != j implies longer[i] != longer[j] by {
                        if i == chain.len() {
                            assert(chain[j] != parent);
                        } else if j == chain.len() {
                            assert(chain[i] != parent);
                        }
                    }
                    assert forall|i: int| 0 <= i < longer.len() implies #[trigger] link(
                        procs,
                        pid,
                        longer,
                        i,
                    ) by {
                        if i < chain.len() {
                            assert(link(procs, pid, chain, i));
                        }
                    }
                    lemma_chain(procs, pid, parent, longer, (steps - 1) as nat);
                }
            },
        }
    }
}

} // verus!
