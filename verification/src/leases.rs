//! Leases: programs that ask for the machine to stay awake for a while.
//!
//! A lease ends when its time runs out, when it is given back, or when its holder is gone and the
//! handle it held is closed. The table decides and remembers; the handles are kept by whoever runs
//! it.
use vstd::prelude::*;
use vstd::string::StringExecFns;
use vstd::utf8::encode_utf8;

use crate::names::{in_order, insert_sorted, sorted, NameMap};
use crate::text::{in_list, join, joined, trim, trimmed, views};
use crate::time::{later, BootInstant, Duration};

verus! {

/// The longest that a lease can be asked for: in seconds.
pub const MAX_TTL_SECS: u64 = 86_400;

/// How long a lease lasts that asks for no time: in seconds.
pub const DEFAULT_TTL_SECS: u64 = 3_600;

/// The longest identifier and reason: in bytes.
pub const MAX_TEXT: usize = 256;

/// The process that holds a lease: its number, and when the process of that number started.
#[derive(Clone, Copy, Debug, PartialEq, Eq, Structural)]
pub struct Holder {
    /// Its number, if it is known.
    pub pid: Option<u32>,
    /// When it started, if that could be read.
    pub started: Option<u64>,
}

/// What has become of the process that holds a lease.
#[derive(Clone, Debug, PartialEq, Eq)]
pub enum HolderState {
    /// It is not known.
    Unknown,
    /// It is running, under this name.
    Alive(String),
    /// It is gone.
    Gone,
    /// It is gone, and another process has its number.
    Recycled,
}

/// What the state is called on the bus.
pub open spec fn wire_text(state: HolderState) -> Seq<char> {
    match state {
        HolderState::Unknown => "unknown"@,
        HolderState::Alive(_) => "alive"@,
        HolderState::Gone => "gone"@,
        HolderState::Recycled => "recycled"@,
    }
}

impl HolderState {
    /// What the state is called on the bus.
    pub fn wire(&self) -> (r: &'static str)
        ensures
            r@ == wire_text(*self),
    {
        match self {
            HolderState::Unknown => "unknown",
            HolderState::Alive(_) => "alive",
            HolderState::Gone => "gone",
            HolderState::Recycled => "recycled",
        }
    }

    /// The name of the process while it is running, and nothing otherwise.
    pub fn comm(&self) -> (r: &str)
        ensures
            match *self {
                HolderState::Alive(comm) => r@ == comm@,
                _ => r@.len() == 0,
            },
    {
        match self {
            HolderState::Alive(comm) => comm.as_str(),
            _ => {
                proof {
                    reveal_strlit("");
                }
                ""
            },
        }
    }
}

impl Holder {
    /// The process of a number, with when it started.
    pub fn of(pid: Option<u32>, started: Option<u64>) -> (r: Self)
        ensures
            r.pid == pid,
            r.started == (if pid is Some {
                started
            } else {
                None
            }),
    {
        Holder {
            pid,
            started: match pid {
                Some(_) => started,
                None => None,
            },
        }
    }

    /// The number of the process.
    pub fn pid(&self) -> (r: Option<u32>)
        ensures
            r == self.pid,
    {
        self.pid
    }

    /// What has become of the process, by what its number now stands for: when that process
    /// started, and its name.
    ///
    /// Another process under the same number is never taken for the holder.
    pub fn state(&self, started_now: Option<u64>, comm: Option<String>) -> (r: HolderState)
        ensures
            match r {
                HolderState::Unknown => self.pid is None,
                HolderState::Gone => self.pid is Some && started_now is None,
                HolderState::Recycled => {
                    &&& self.pid is Some
                    &&& self.started is Some
                    &&& started_now is Some
                    &&& self.started != started_now
                },
                HolderState::Alive(name) => {
                    &&& self.pid is Some
                    &&& started_now is Some
                    &&& self.started is Some ==> self.started == started_now
                    &&& name@ == (match comm {
                        Some(c) => c@,
                        None => Seq::empty(),
                    })
                },
            },
    {
        if self.pid.is_none() {
            return HolderState::Unknown;
        }
        match (self.started, started_now) {
            (_, None) => HolderState::Gone,
            (Some(recorded), Some(now)) => if recorded != now {
                HolderState::Recycled
            } else {
                HolderState::Alive(name_or_nothing(comm))
            },
            (None, Some(_)) => HolderState::Alive(name_or_nothing(comm)),
        }
    }
}

fn name_or_nothing(comm: Option<String>) -> (r: String)
    ensures
        r@ == (match comm {
            Some(c) => c@,
            None => Seq::empty(),
        }),
{
    match comm {
        Some(c) => c,
        None => String::new(),
    }
}

/// A lease.
#[derive(Clone, Debug)]
pub struct Lease {
    /// Its identifier.
    pub who: String,
    /// The reason that was given.
    pub why: String,
    /// The user that asked for it.
    pub uid: u32,
    /// The process that asked for it.
    pub holder: Holder,
    /// When it was taken.
    pub acquired: BootInstant,
    /// When it ends.
    pub expires: BootInstant,
}

/// Why a lease is refused.
#[derive(Clone, Copy, Debug, PartialEq, Eq)]
pub enum Refusal {
    /// It has no identifier.
    EmptyId,
    /// A text is too long: which one.
    TooLong(&'static str),
    /// It asks for too much time.
    TtlTooLong,
    /// Its identifier is taken.
    AlreadyHeld,
}

/// Why a lease is refused, as a value of the model.
pub enum Denied {
    /// It has no identifier.
    EmptyId,
    /// A text is too long: which one.
    TooLong(Seq<char>),
    /// It asks for too much time.
    TtlTooLong,
    /// Its identifier is taken.
    AlreadyHeld,
}

impl View for Refusal {
    type V = Denied;

    open spec fn view(&self) -> Denied {
        match *self {
            Refusal::EmptyId => Denied::EmptyId,
            Refusal::TooLong(field) => Denied::TooLong(field@),
            Refusal::TtlTooLong => Denied::TtlTooLong,
            Refusal::AlreadyHeld => Denied::AlreadyHeld,
        }
    }
}

/// The message of a refusal.
pub open spec fn denied_text(denied: Denied) -> Seq<char> {
    match denied {
        Denied::EmptyId => "a lease needs a non-empty identifier"@,
        Denied::TooLong(field) => field + " is longer than 256 bytes"@,
        Denied::TtlTooLong => "ttl is longer than the 86400s maximum"@,
        Denied::AlreadyHeld => "a lease with this identifier is already held"@,
    }
}

impl Refusal {
    /// The message of the refusal.
    pub fn to_string(&self) -> (r: String)
        ensures
            r@ == denied_text(self@),
    {
        match self {
            Refusal::EmptyId => "a lease needs a non-empty identifier".to_owned(),
            Refusal::TooLong(field) => {
                let field: &str = field;
                let mut out = field.to_owned();
                out.append(" is longer than 256 bytes");
                out
            },
            Refusal::TtlTooLong => "ttl is longer than the 86400s maximum".to_owned(),
            Refusal::AlreadyHeld => "a lease with this identifier is already held".to_owned(),
        }
    }
}

/// Why a lease would be refused, if it would. What is wrong with the request comes first.
pub open spec fn denial(
    leases: Map<Seq<char>, Lease>,
    who: Seq<char>,
    why: Seq<char>,
    ttl: Duration,
) -> Option<Denied> {
    let id = trimmed(who);
    if id.len() == 0 {
        Some(Denied::EmptyId)
    } else if encode_utf8(id).len() > 256 {
        Some(Denied::TooLong("who"@))
    } else if encode_utf8(why).len() > 256 {
        Some(Denied::TooLong("why"@))
    } else if ttl.nanos > 86_400 * 1_000_000_000 {
        Some(Denied::TtlTooLong)
    } else if leases.contains_key(id) {
        Some(Denied::AlreadyHeld)
    } else {
        None
    }
}

/// How long a lease lasts: what it asks for, and the usual time where it asks for none.
pub open spec fn granted(ttl: Duration) -> Duration {
    if ttl.nanos == 0 {
        crate::time::seconds(3_600)
    } else {
        ttl
    }
}

/// When a lease ends. Where that cannot be counted, with the last instant that can.
pub open spec fn end_of(now: BootInstant, ttl: Duration) -> BootInstant {
    match later(now, granted(ttl)) {
        Some(at) => at,
        None => BootInstant { nanos: u64::MAX },
    }
}

/// Whether a lease is what was asked for.
pub open spec fn lease_for(
    lease: Lease,
    who: Seq<char>,
    why: Seq<char>,
    uid: u32,
    holder: Holder,
    ttl: Duration,
    now: BootInstant,
) -> bool {
    &&& lease.who@ == trimmed(who)
    &&& lease.why@ == why
    &&& lease.uid == uid
    &&& lease.holder == holder
    &&& lease.acquired == now
    &&& lease.expires == end_of(now, ttl)
}

/// Why a lease has ended.
#[derive(Clone, Copy, Debug, PartialEq, Eq, Structural)]
pub enum Ended {
    /// Its time ran out.
    TtlExpired,
    /// Its holder closed the handle.
    HandleClosed,
}

impl Ended {
    /// Why, in words.
    pub fn reason(self) -> (r: &'static str)
        ensures
            r@ == (match self {
                Ended::TtlExpired => "ttl expired"@,
                Ended::HandleClosed => "holder closed its handle"@,
            }),
    {
        match self {
            Ended::TtlExpired => "ttl expired",
            Ended::HandleClosed => "holder closed its handle",
        }
    }
}

/// Why a lease has ended, if it has.
pub open spec fn ended(lease: Lease, closed: bool, now: BootInstant) -> Option<Ended> {
    if now.nanos >= lease.expires.nanos {
        Some(Ended::TtlExpired)
    } else if closed {
        Some(Ended::HandleClosed)
    } else {
        None
    }
}

/// The leases among some that have ended, in order.
pub open spec fn ended_among(
    leases: Map<Seq<char>, Lease>,
    closed: Seq<Seq<char>>,
    now: BootInstant,
    names: Seq<Seq<char>>,
) -> Seq<(Seq<char>, Ended)>
    decreases names.len(),
{
    if names.len() == 0 {
        Seq::empty()
    } else {
        let before = ended_among(leases, closed, now, names.drop_last());
        match ended(leases[names.last()], closed.contains(names.last()), now) {
            Some(why) => before.push((names.last(), why)),
            None => before,
        }
    }
}

/// Whether leases are others without those that have ended.
pub open spec fn without_ended(
    before: Map<Seq<char>, Lease>,
    after: Map<Seq<char>, Lease>,
    closed: Seq<Seq<char>>,
    now: BootInstant,
) -> bool {
    &&& forall|n: Seq<char>| #[trigger]
        after.contains_key(n) == (before.contains_key(n) && ended(
            before[n],
            closed.contains(n),
            now,
        ) is None)
    &&& forall|n: Seq<char>| #[trigger] after.contains_key(n) ==> after[n] == before[n]
}

/// What dropped leases are, in order.
pub open spec fn dropped_views(dropped: Seq<(String, Ended)>) -> Seq<(Seq<char>, Ended)> {
    dropped.map_values(|d: (String, Ended)| (d.0@, d.1))
}

/// A lease in words: its identifier, and the reason if one was given.
pub open spec fn lease_text(lease: Lease) -> Seq<char> {
    if lease.why@.len() == 0 {
        lease.who@
    } else {
        lease.who@ + " ("@ + lease.why@ + ")"@
    }
}

/// The leases in words, in the order of their names.
pub open spec fn lease_texts(leases: Map<Seq<char>, Lease>, names: Seq<Seq<char>>) -> Seq<Seq<char>>
    decreases names.len(),
{
    if names.len() == 0 {
        Seq::empty()
    } else {
        lease_texts(leases, names.drop_last()).push(lease_text(leases[names.last()]))
    }
}

/// Whether a text says who keeps the machine awake: nothing where nobody does, and otherwise the
/// leases in words and in the order of these words.
pub open spec fn summarises(summary: Option<Seq<char>>, leases: Map<Seq<char>, Lease>) -> bool {
    let names = in_order(leases.dom());
    match summary {
        None => names.len() == 0,
        Some(text) => {
            &&& names.len() > 0
            &&& exists|parts: Seq<Seq<char>>| #[trigger]
                sorted(parts) && parts.to_multiset() == lease_texts(leases, names).to_multiset()
                    && text == "held by "@ + joined(parts, ", "@)
        },
    }
}

/// Whether an instant is when the next lease ends, if one is held.
pub open spec fn ends_first(at: Option<BootInstant>, leases: Map<Seq<char>, Lease>) -> bool {
    match at {
        None => forall|n: Seq<char>| !(#[trigger] leases.contains_key(n)),
        Some(at) => {
            &&& exists|n: Seq<char>|
                #![trigger leases.contains_key(n)]
                leases.contains_key(n) && leases[n].expires == at
            &&& forall|n: Seq<char>| #[trigger]
                leases.contains_key(n) ==> at.nanos <= leases[n].expires.nanos
        },
    }
}

/// The leases that are held.
#[derive(Debug)]
pub struct Table {
    /// The leases, by identifier.
    pub leases: NameMap<Lease>,
}

impl Default for Table {
    fn default() -> (r: Self)
        ensures
            r.leases@ == Map::<Seq<char>, Lease>::empty(),
    {
        Table::new()
    }
}

impl Table {
    /// No lease is held.
    pub fn new() -> (r: Self)
        ensures
            r.leases@ == Map::<Seq<char>, Lease>::empty(),
    {
        Table { leases: NameMap::new() }
    }

    /// Why a lease would be refused, if it would.
    pub fn refusal(&self, who: &str, why: &str, ttl: Duration) -> (r: Option<Refusal>)
        ensures
            match r {
                Some(refusal) => denial(self.leases@, who@, why@, ttl) == Some(refusal@),
                None => denial(self.leases@, who@, why@, ttl) is None,
            },
    {
        let id = trim(who);
        if id.as_str().is_empty() {
            return Some(Refusal::EmptyId);
        }
        if id.as_str().as_bytes().len() > MAX_TEXT {
            return Some(Refusal::TooLong("who"));
        }
        if why.as_bytes().len() > MAX_TEXT {
            return Some(Refusal::TooLong("why"));
        }
        if ttl.nanos > Duration::from_secs(MAX_TTL_SECS).nanos {
            return Some(Refusal::TtlTooLong);
        }
        if self.leases.get(id.as_str()).is_some() {
            return Some(Refusal::AlreadyHeld);
        }
        None
    }

    /// Takes a lease, unless it is refused.
    pub fn acquire(
        &mut self,
        who: &str,
        why: &str,
        uid: u32,
        holder: Holder,
        ttl: Duration,
        now: BootInstant,
    ) -> (r: Result<(), Refusal>)
        ensures
            match r {
                Err(refusal) => {
                    &&& denial(old(self).leases@, who@, why@, ttl) == Some(refusal@)
                    &&& final(self).leases@ == old(self).leases@
                },
                Ok(_) => {
                    &&& denial(old(self).leases@, who@, why@, ttl) is None
                    &&& final(self).leases@.contains_key(trimmed(who@))
                    &&& final(self).leases@ == old(self).leases@.insert(
                        trimmed(who@),
                        final(self).leases@[trimmed(who@)],
                    )
                    &&& lease_for(
                        final(self).leases@[trimmed(who@)],
                        who@,
                        why@,
                        uid,
                        holder,
                        ttl,
                        now,
                    )
                },
            },
    {
        match self.refusal(who, why, ttl) {
            Some(refusal) => return Err(refusal),
            None => {},
        }
        let id = trim(who);
        let ttl = if ttl.nanos == 0 {
            Duration::from_secs(DEFAULT_TTL_SECS)
        } else {
            ttl
        };
        let expires = match now.checked_add(ttl) {
            Some(at) => at,
            None => BootInstant::from_nanos(u64::MAX),
        };
        let lease = Lease {
            who: id.clone(),
            why: why.to_owned(),
            uid,
            holder,
            acquired: now,
            expires,
        };
        self.leases.put(id.as_str(), lease);
        Ok(())
    }

    /// Gives a lease back. Says whether it was held.
    pub fn release(&mut self, who: &str) -> (r: bool)
        ensures
            r == old(self).leases@.contains_key(trimmed(who@)),
            final(self).leases@ == old(self).leases@.remove(trimmed(who@)),
    {
        let id = trim(who);
        self.leases.remove(id.as_str())
    }

    /// Drops the leases that have ended, by the time and by which handles are closed. Gives back
    /// which ones, and why.
    pub fn reap(&mut self, now: BootInstant, closed: &Vec<String>) -> (r: Vec<(String, Ended)>)
        ensures
            dropped_views(r@) == ended_among(
                old(self).leases@,
                views(closed@),
                now,
                in_order(old(self).leases@.dom()),
            ),
            without_ended(old(self).leases@, final(self).leases@, views(closed@), now),
    {
        let ghost before = self.leases@;
        let ghost names = in_order(before.dom());
        let ghost shut = views(closed@);
        let mut dropped: Vec<(String, Ended)> = Vec::new();
        let len: usize = self.leases.len();
        let mut i: usize = 0;
        assert(dropped_views(dropped@) =~= Seq::empty());
        while i < len
            invariant
                i <= len,
                len == names.len(),
                self.leases@ == before,
                names == in_order(before.dom()),
                shut == views(closed@),
                dropped_views(dropped@) == ended_among(before, shut, now, names.take(i as int)),
            decreases len - i,
        {
            let name = self.leases.name_at(i).clone();
            let expires = self.leases.value_at(i).expires;
            assert(names.take(i as int + 1).drop_last() =~= names.take(i as int));
            let ghost so_far = dropped_views(dropped@);
            let why = if now.nanos >= expires.nanos {
                Some(Ended::TtlExpired)
            } else if in_list(closed, name.as_str()) {
                Some(Ended::HandleClosed)
            } else {
                None
            };
            match why {
                Some(why) => {
                    assert(dropped_views(dropped@.push((name, why))) =~= so_far.push((name@, why)));
                    dropped.push((name, why));
                },
                None => {},
            }
            i += 1;
        }
        assert(names.take(i as int) =~= names);
        let mut j: usize = 0;
        let count: usize = dropped.len();
        while j < count
            invariant
                j <= count,
                count == dropped@.len(),
                forall|n: Seq<char>| #[trigger]
                    self.leases@.contains_key(n) == (before.contains_key(n) && !gone(
                        dropped@.take(j as int),
                        n,
                    )),
                forall|n: Seq<char>| #[trigger]
                    self.leases@.contains_key(n) ==> self.leases@[n] == before[n],
            decreases count - j,
        {
            let ghost done = dropped@.take(j as int);
            let ghost next = dropped@.take(j as int + 1);
            self.leases.remove(dropped[j].0.as_str());
            proof {
                assert forall|n: Seq<char>| gone(next, n) == (gone(done, n) || n
                    == dropped@[j as int].0@) by {
                    lemma_gone_one_more(dropped@, j as int, n);
                }
            }
            j += 1;
        }
        proof {
            assert(dropped@.take(count as int) =~= dropped@);
            assert forall|n: Seq<char>| before.contains_key(n) implies gone(dropped@, n) == (ended(
                before[n],
                shut.contains(n),
                now,
            ) is Some) by {
                assert(before.dom().contains(n));
                assert(names.contains(n));
                lemma_ended_members(before, shut, now, names, n);
                lemma_gone(dropped@, n);
            }
        }
        dropped
    }

    /// The leases, in the order of their identifiers.
    pub fn iter(&self) -> (r: Vec<&Lease>)
        ensures
            r@.map_values(|l: &Lease| *l) == in_order(self.leases@.dom()).map_values(
                |n: Seq<char>| self.leases@[n],
            ),
    {
        let ghost names = in_order(self.leases@.dom());
        let ghost all = names.map_values(|n: Seq<char>| self.leases@[n]);
        let len: usize = self.leases.len();
        let mut out: Vec<&Lease> = Vec::new();
        let mut i: usize = 0;
        assert(out@.map_values(|l: &Lease| *l) =~= all.take(0));
        while i < len
            invariant
                i <= len,
                len == names.len(),
                names == in_order(self.leases@.dom()),
                all == names.map_values(|n: Seq<char>| self.leases@[n]),
                out@.map_values(|l: &Lease| *l) == all.take(i as int),
            decreases len - i,
        {
            let lease = self.leases.value_at(i);
            let ghost before = out@.map_values(|l: &Lease| *l);
            out.push(lease);
            assert(all[i as int] == *lease);
            assert(out@.map_values(|l: &Lease| *l) =~= before.push(*lease));
            assert(all.take(i as int + 1) =~= all.take(i as int).push(*lease));
            i += 1;
        }
        assert(all.take(i as int) =~= all);
        out
    }

    /// Whether no lease is held.
    pub fn is_empty(&self) -> (r: bool)
        ensures
            r == (forall|n: Seq<char>| !(#[trigger] self.leases@.contains_key(n))),
    {
        let empty = self.leases.len() == 0;
        proof {
            let names = in_order(self.leases@.dom());
            if names.len() > 0 {
                assert(names.contains(names[0]));
                assert(self.leases@.dom().contains(names[0]));
                assert(self.leases@.contains_key(names[0]));
            } else {
                assert forall|n: Seq<char>| !(#[trigger] self.leases@.contains_key(n)) by {
                    if self.leases@.dom().contains(n) {
                        assert(names.contains(n));
                    }
                }
            }
        }
        empty
    }

    /// When the next lease ends, if one is held.
    pub fn next_expiry(&self) -> (r: Option<BootInstant>)
        ensures
            ends_first(r, self.leases@),
    {
        let ghost names = in_order(self.leases@.dom());
        let len: usize = self.leases.len();
        let mut next: Option<BootInstant> = None;
        let mut i: usize = 0;
        while i < len
            invariant
                i <= len,
                len == names.len(),
                names == in_order(self.leases@.dom()),
                i > 0 ==> next is Some,
                next matches Some(at) ==> {
                    &&& exists|n: Seq<char>|
                        #![trigger self.leases@.contains_key(n)]
                        self.leases@.contains_key(n) && self.leases@[n].expires == at
                    &&& forall|j: int|
                        0 <= j < i ==> at.nanos <= self.leases@[#[trigger] names[j]].expires.nanos
                },
            decreases len - i,
        {
            let lease = self.leases.value_at(i);
            assert(self.leases@.contains_key(names[i as int]));
            let sooner = match next {
                None => true,
                Some(at) => lease.expires.nanos < at.nanos,
            };
            if sooner {
                next = Some(lease.expires);
            }
            i += 1;
        }
        proof {
            assert forall|n: Seq<char>| #[trigger] self.leases@.contains_key(n) implies exists|j: int|
                0 <= j < names.len() && #[trigger] names[j] == n by {
                assert(self.leases@.dom().contains(n));
                assert(names.contains(n));
            }
        }
        next
    }

    /// Who keeps the machine awake, if anybody does, in words. The order of the words does not
    /// depend on the order in which the leases were taken.
    pub fn summary(&self) -> (r: Option<String>)
        ensures
            summarises(crate::policy::text_view(r), self.leases@),
    {
        let ghost names = in_order(self.leases@.dom());
        let len: usize = self.leases.len();
        if len == 0 {
            return None;
        }
        let mut parts: Vec<String> = Vec::new();
        let mut i: usize = 0;
        assert(views(parts@) =~= lease_texts(self.leases@, names.take(0)));
        while i < len
            invariant
                i <= len,
                len == names.len(),
                names == in_order(self.leases@.dom()),
                sorted(views(parts@)),
                views(parts@).to_multiset() == lease_texts(
                    self.leases@,
                    names.take(i as int),
                ).to_multiset(),
            decreases len - i,
        {
            let lease = self.leases.value_at(i);
            let mut part = lease.who.clone();
            if !lease.why.as_str().is_empty() {
                part.append(" (");
                part.append(lease.why.as_str());
                part.append(")");
            }
            proof {
                assert(names.take(i as int + 1).drop_last() =~= names.take(i as int));
                lease_texts(self.leases@, names.take(i as int)).to_multiset_ensures();
            }
            insert_sorted(&mut parts, part);
            i += 1;
        }
        assert(names.take(i as int) =~= names);
        let list = join(&parts, ", ");
        let mut out = "held by ".to_owned();
        out.append(list.as_str());
        Some(out)
    }
}

/// Whether a lease is among those that were dropped.
spec fn gone(dropped: Seq<(String, Ended)>, n: Seq<char>) -> bool {
    exists|i: int| 0 <= i < dropped.len() && (#[trigger] dropped[i]).0@ == n
}

proof fn lemma_gone_one_more(dropped: Seq<(String, Ended)>, j: int, n: Seq<char>)
    requires
        0 <= j < dropped.len(),
    ensures
        gone(dropped.take(j + 1), n) == (gone(dropped.take(j), n) || n == dropped[j].0@),
{
    let done = dropped.take(j);
    let next = dropped.take(j + 1);
    assert(next[j] == dropped[j]);
    if gone(done, n) {
        let i = choose|i: int| 0 <= i < done.len() && (#[trigger] done[i]).0@ == n;
        assert(next[i].0@ == n);
    }
    if gone(next, n) {
        let i = choose|i: int| 0 <= i < next.len() && (#[trigger] next[i]).0@ == n;
        if i < j {
            assert(done[i].0@ == n);
        }
    }
}

proof fn lemma_gone(dropped: Seq<(String, Ended)>, n: Seq<char>)
    ensures
        gone(dropped, n) == (exists|i: int|
            0 <= i < dropped_views(dropped).len() && (#[trigger] dropped_views(dropped)[i]).0 == n),
{
    let all = dropped_views(dropped);
    if gone(dropped, n) {
        let i = choose|i: int| 0 <= i < dropped.len() && (#[trigger] dropped[i]).0@ == n;
        assert(all[i].0 == n);
    }
    if exists|i: int| 0 <= i < all.len() && (#[trigger] all[i]).0 == n {
        let i = choose|i: int| 0 <= i < all.len() && (#[trigger] all[i]).0 == n;
        assert(dropped[i].0@ == n);
    }
}

proof fn lemma_ended_members(
    leases: Map<Seq<char>, Lease>,
    closed: Seq<Seq<char>>,
    now: BootInstant,
    names: Seq<Seq<char>>,
    n: Seq<char>,
)
    ensures
        (exists|i: int|
            #![trigger ended_among(leases, closed, now, names)[i]]
            0 <= i < ended_among(leases, closed, now, names).len() && ended_among(
                leases,
                closed,
                now,
                names,
            )[i].0 == n) == (names.contains(n) && ended(leases[n], closed.contains(n), now) is Some),
    decreases names.len(),
{
    let all = ended_among(leases, closed, now, names);
    if names.len() > 0 {
        let fewer = names.drop_last();
        let before = ended_among(leases, closed, now, fewer);
        lemma_ended_members(leases, closed, now, fewer, n);
        crate::names::lemma_pushed(fewer, names.last(), n);
        assert(fewer.push(names.last()) =~= names);
        match ended(leases[names.last()], closed.contains(names.last()), now) {
            Some(why) => {
                assert(all == before.push((names.last(), why)));
                assert(all[before.len() as int].0 == names.last());
                if exists|i: int| 0 <= i < before.len() && (#[trigger] before[i]).0 == n {
                    let i = choose|i: int| 0 <= i < before.len() && (#[trigger] before[i]).0 == n;
                    assert(all[i].0 == n);
                }
                if exists|i: int| 0 <= i < all.len() && (#[trigger] all[i]).0 == n {
                    let i = choose|i: int| 0 <= i < all.len() && (#[trigger] all[i]).0 == n;
                    if i < before.len() {
                        assert(before[i].0 == n);
                    }
                }
            },
            None => {},
        }
    }
}

/// The words depend on the leases alone, and not on the order in which they were taken.
pub proof fn the_summary_depends_on_the_leases_alone(
    a: Option<Seq<char>>,
    b: Option<Seq<char>>,
    leases: Map<Seq<char>, Lease>,
)
    requires
        summarises(a, leases),
        summarises(b, leases),
    ensures
        a == b,
{
    if a is Some && b is Some {
        let wanted = lease_texts(leases, in_order(leases.dom())).to_multiset();
        let x = choose|parts: Seq<Seq<char>>| #[trigger]
            sorted(parts) && parts.to_multiset() == wanted && a->Some_0 == "held by "@ + joined(
                parts,
                ", "@,
            );
        let y = choose|parts: Seq<Seq<char>>| #[trigger]
            sorted(parts) && parts.to_multiset() == wanted && b->Some_0 == "held by "@ + joined(
                parts,
                ", "@,
            );
        crate::names::lemma_one_sorting(x, y);
    }
}

/// No lease is held for longer than a day, nor for no time at all, unless no later instant can be
/// counted.
pub proof fn a_lease_ends_within_a_day(
    leases: Map<Seq<char>, Lease>,
    who: Seq<char>,
    why: Seq<char>,
    ttl: Duration,
    now: BootInstant,
)
    requires
        denial(leases, who, why, ttl) is None,
    ensures
        end_of(now, ttl).nanos <= now.nanos + 86_400 * 1_000_000_000,
        now.nanos < u64::MAX ==> end_of(now, ttl).nanos > now.nanos,
{
}

/// Taking a lease and giving it back leaves the table as it was.
pub proof fn giving_back_undoes_taking(
    leases: Map<Seq<char>, Lease>,
    who: Seq<char>,
    why: Seq<char>,
    ttl: Duration,
    lease: Lease,
)
    requires
        denial(leases, who, why, ttl) is None,
    ensures
        leases.insert(trimmed(who), lease).remove(trimmed(who)) == leases,
{
    assert(leases.insert(trimmed(who), lease).remove(trimmed(who)) =~= leases);
}

/// No lease is kept that has ended, every other one is, and looking again changes nothing.
pub proof fn only_what_has_ended_is_dropped(
    before: Map<Seq<char>, Lease>,
    after: Map<Seq<char>, Lease>,
    closed: Seq<Seq<char>>,
    now: BootInstant,
)
    requires
        without_ended(before, after, closed, now),
    ensures
        forall|n: Seq<char>| #[trigger]
            after.contains_key(n) ==> now.nanos < after[n].expires.nanos && !closed.contains(n),
        forall|n: Seq<char>| #[trigger]
            before.contains_key(n) && now.nanos < before[n].expires.nanos && !closed.contains(n)
                ==> after.contains_key(n),
        without_ended(after, after, closed, now),
{
    assert forall|n: Seq<char>| #[trigger] after.contains_key(n) implies now.nanos
        < after[n].expires.nanos && !closed.contains(n) by {
        assert(after[n] == before[n]);
        assert(ended(before[n], closed.contains(n), now) is None);
    }
}

} // verus!
