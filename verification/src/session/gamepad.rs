//! Game pads, which a compositor does not see.
use std::collections::HashMap;

use vstd::prelude::*;

use crate::names::{insert_sorted, sorted};
use crate::session::backend::Idle;
use crate::text::{all_digits, chars_of, in_list, is_digit, same, views};
use crate::time::{between, later, BootInstant, Duration};

verus! {

broadcast use vstd::std_specs::hash::group_hash_axioms;

/// How often the devices are listed again: in seconds.
pub const RESCAN_SECS: u64 = 5;

/// How long a pad must have been quiet for a touch to be news: in seconds.
pub const NEWS_AFTER_SECS: u64 = 5;

/// How many bytes an event has.
pub const EVENT_SIZE: usize = 8;

/// How far an axis must move for it to be a person: an eighth of its range.
pub const DEADZONE: i32 = 4_095;

/// The kind of a button.
pub const JS_EVENT_BUTTON: u8 = 1;

/// The kind of an axis.
pub const JS_EVENT_AXIS: u8 = 2;

/// What is added to the kind where the kernel only repeats the present state of a device.
pub const JS_EVENT_INIT: u8 = 128;

/// How many devices are watched at most.
pub const MAX_WATCHED: usize = 8;

/// What a device says.
#[derive(Clone, Copy, Debug, PartialEq, Eq, Structural)]
pub struct Event {
    /// Where the axis is, or whether the button is down.
    pub value: i16,
    /// The kind, without the mark of a repetition.
    pub kind: u8,
    /// Which axis or button.
    pub number: u8,
    /// Whether the kernel only repeats the present state.
    pub initial: bool,
}

/// The number that two bytes stand for, the lower one first.
pub open spec fn signed(low: u8, high: u8) -> int {
    let n = low + 256 * high;
    if n < 32_768 {
        n
    } else {
        n - 65_536
    }
}

/// Reads a number of two bytes in the order of the machine, by `i16::from_ne_bytes` of the standard
/// library. Which of the two orders that is depends on the machine and is left open.
#[verifier::external_body]
fn native_i16(first: u8, second: u8) -> (r: i16)
    ensures
        r == signed(first, second) || r == signed(second, first),
{
    i16::from_ne_bytes([first, second])
}

/// Whether a number is what two bytes stand for in the order of the machine, the first of them
/// standing first.
pub closed spec fn stands_for(first: u8, second: u8, value: i16) -> bool {
    call_ensures(native_i16, (first, second), value)
}

/// Whether an event is what eight bytes stand for, by the number in them.
pub open spec fn event_of(raw: Seq<u8>, value: i16) -> Event {
    Event { value, kind: raw[6] % 128, number: raw[7], initial: raw[6] >= 128 }
}

/// What eight bytes stand for, by the number in them. Any other number of bytes stands for nothing.
pub fn decode_with(raw: &[u8], value: i16) -> (r: Option<Event>)
    ensures
        r == (if raw@.len() == 8 {
            Some(event_of(raw@, value))
        } else {
            None
        }),
{
    if raw.len() != EVENT_SIZE {
        return None;
    }
    let kind: u8 = raw[6];
    let bare: u8 = kind & !JS_EVENT_INIT;
    let mark: u8 = kind & JS_EVENT_INIT;
    proof {
        assert(kind & !128u8 == kind % 128) by (bit_vector);
        assert((kind & 128u8 != 0) == (kind >= 128)) by (bit_vector);
    }
    Some(Event { value, kind: bare, number: raw[7], initial: mark != 0 })
}

/// What the bytes of an event stand for. Its time is on a clock that nothing here counts by, and is
/// not read.
pub fn decode(raw: &[u8]) -> (r: Option<Event>)
    ensures
        match r {
            Some(event) => {
                &&& raw@.len() == 8
                &&& event == event_of(raw@, event.value)
                &&& stands_for(raw@[4], raw@[5], event.value)
                &&& event.value == signed(raw@[4], raw@[5]) || event.value == signed(
                    raw@[5],
                    raw@[4],
                )
            },
            None => raw@.len() != 8,
        },
{
    if raw.len() != EVENT_SIZE {
        return None;
    }
    let value = native_i16(raw[4], raw[5]);
    decode_with(raw, value)
}

/// Whether an axis has moved far enough from where it was last counted.
pub open spec fn moved(from: i16, to: i16) -> bool {
    to - from > 4_095 || from - to > 4_095
}

/// Whether an event is a person, by where each axis was last counted from.
pub open spec fn is_person(axes: Map<u8, i16>, event: Event) -> bool {
    if event.kind == 2 {
        !event.initial && axes.contains_key(event.number) && moved(axes[event.number], event.value)
    } else {
        event.kind == 1 && !event.initial && event.value == 1
    }
}

/// Where each axis is counted from after an event. An axis that is first heard of, or whose state is
/// only repeated, is counted from there; one that has moved far enough is counted from where it came
/// to. Any other movement changes nothing, so that slow ones add up.
pub open spec fn counted_from(axes: Map<u8, i16>, event: Event) -> Map<u8, i16> {
    if event.kind == 2 && (event.initial || !axes.contains_key(event.number) || moved(
        axes[event.number],
        event.value,
    )) {
        axes.insert(event.number, event.value)
    } else {
        axes
    }
}

/// Whether an event is a person, and from where to count next.
pub fn is_human(axes: &mut HashMap<u8, i16>, event: Event) -> (r: bool)
    ensures
        r == is_person(old(axes)@, event),
        final(axes)@ == counted_from(old(axes)@, event),
{
    if event.kind == JS_EVENT_AXIS {
        if event.initial {
            axes.insert(event.number, event.value);
            return false;
        }
        let baseline: i16 = match axes.get(&event.number) {
            Some(baseline) => *baseline,
            None => {
                axes.insert(event.number, event.value);
                return false;
            },
        };
        let difference: i32 = (event.value as i32) - (baseline as i32);
        if difference > DEADZONE || difference < -DEADZONE {
            axes.insert(event.number, event.value);
            return true;
        }
        false
    } else {
        event.kind == JS_EVENT_BUTTON && !event.initial && event.value == 1
    }
}

/// What becomes of the counting over several events.
pub open spec fn counted_over(axes: Map<u8, i16>, events: Seq<Event>) -> Map<u8, i16>
    decreases events.len(),
{
    if events.len() == 0 {
        axes
    } else {
        counted_from(counted_over(axes, events.drop_last()), events.last())
    }
}

/// Whether one of several events is a person.
pub open spec fn some_person(axes: Map<u8, i16>, events: Seq<Event>) -> bool
    decreases events.len(),
{
    &&& events.len() > 0
    &&& some_person(axes, events.drop_last()) || is_person(
        counted_over(axes, events.drop_last()),
        events.last(),
    )
}

/// Whether one of several events is a person, and from where to count next.
pub fn any_human(axes: &mut HashMap<u8, i16>, events: &Vec<Event>) -> (r: bool)
    ensures
        r == some_person(old(axes)@, events@),
        final(axes)@ == counted_over(old(axes)@, events@),
{
    let ghost before = axes@;
    let mut touched = false;
    let mut i: usize = 0;
    while i < events.len()
        invariant
            i <= events@.len(),
            axes@ == counted_over(before, events@.take(i as int)),
            touched == some_person(before, events@.take(i as int)),
        decreases events@.len() - i,
    {
        assert(events@.take(i as int + 1).drop_last() =~= events@.take(i as int));
        if is_human(axes, events[i]) {
            touched = true;
        }
        i += 1;
    }
    assert(events@.take(i as int) =~= events@);
    touched
}

/// The events of a read, in order: what is left over after whole ones is not one.
pub fn decode_all(raw: &[u8]) -> (r: Vec<Event>)
    ensures
        r@.len() == raw@.len() / 8,
        forall|i: int|
            0 <= i < r@.len() ==> {
                let chunk = raw@.subrange(8 * i, 8 * i + 8);
                &&& (#[trigger] r@[i]) == event_of(chunk, r@[i].value)
                &&& stands_for(chunk[4], chunk[5], r@[i].value)
                &&& r@[i].value == signed(chunk[4], chunk[5]) || r@[i].value == signed(
                    chunk[5],
                    chunk[4],
                )
            },
{
    let mut out: Vec<Event> = Vec::new();
    let len: usize = raw.len();
    let count: usize = len / EVENT_SIZE;
    let mut i: usize = 0;
    while i < count
        invariant
            i <= count,
            len == raw@.len(),
            count == len / 8,
            out@.len() == i,
            forall|j: int|
                0 <= j < i ==> {
                    let chunk = raw@.subrange(8 * j, 8 * j + 8);
                    &&& (#[trigger] out@[j]) == event_of(chunk, out@[j].value)
                    &&& stands_for(chunk[4], chunk[5], out@[j].value)
                    &&& out@[j].value == signed(chunk[4], chunk[5]) || out@[j].value == signed(
                        chunk[5],
                        chunk[4],
                    )
                },
        decreases count - i,
    {
        let chunk = vstd::slice::slice_subrange(raw, 8 * i, 8 * i + 8);
        match decode(chunk) {
            Some(event) => {
                assert(chunk@ == raw@.subrange(8 * i, 8 * i + 8));
                out.push(event);
            },
            None => {
                assert(chunk@.len() == 8);
            },
        }
        i += 1;
    }
    out
}

// ---- the pads -------------------------------------------------------------------------

/// The pads that are watched, and when one was last touched.
#[derive(Debug)]
pub struct Gamepads {
    /// When a pad was last touched.
    pub last_input: Option<BootInstant>,
    /// The devices that are watched.
    pub watching: Vec<String>,
    /// When the devices are listed again.
    pub next_scan: Option<BootInstant>,
    /// Whether a pad, and not the compositor, says that somebody is there.
    pub pad_is_source: bool,
}

/// Whether a touch is news: none before it was, or the last one was a while ago.
pub open spec fn is_news(last: Option<BootInstant>, now: BootInstant) -> bool {
    match last {
        Some(last) => between(last, now).nanos >= 5_000_000_000,
        None => true,
    }
}

/// The idle time of a session with its pads: a pad only makes it shorter, and what cannot be told
/// stays so.
pub open spec fn merged_idle(seen: Idle, last: Option<BootInstant>, now: BootInstant) -> Idle {
    match (seen, last) {
        (Idle::For(known), Some(last)) => if between(last, now).nanos < known.nanos {
            Idle::For(between(last, now))
        } else {
            seen
        },
        _ => seen,
    }
}

impl Default for Gamepads {
    fn default() -> (r: Self)
        ensures
            r.last_input is None,
            r.watching@.len() == 0,
            r.next_scan is None,
            !r.pad_is_source,
    {
        Gamepads::new()
    }
}

impl Gamepads {
    /// No pad is watched, and none was touched.
    pub fn new() -> (r: Self)
        ensures
            r.last_input is None,
            r.watching@.len() == 0,
            r.next_scan is None,
            !r.pad_is_source,
    {
        Gamepads { last_input: None, watching: Vec::new(), next_scan: None, pad_is_source: false }
    }

    /// Records a touch. Says whether it is news.
    pub fn touch(&mut self, now: BootInstant) -> (r: bool)
        ensures
            r == is_news(old(self).last_input, now),
            *final(self) == (Gamepads { last_input: Some(now), ..*old(self) }),
    {
        let news = match self.last_input {
            Some(last) => now.since(last).nanos >= Duration::from_secs(NEWS_AFTER_SECS).nanos,
            None => true,
        };
        self.last_input = Some(now);
        news
    }

    /// Whether the devices are to be listed again. If so, the next time is set.
    pub fn scan_due(&mut self, now: BootInstant) -> (r: bool)
        ensures
            r == (match old(self).next_scan {
                Some(due) => now.nanos >= due.nanos,
                None => true,
            }),
            *final(self) == (Gamepads {
                next_scan: if r {
                    later(now, crate::time::seconds(5))
                } else {
                    old(self).next_scan
                },
                ..*old(self)
            }),
    {
        let due = match self.next_scan {
            Some(due) => now.nanos >= due.nanos,
            None => true,
        };
        if due {
            self.next_scan = now.checked_add(Duration::from_secs(RESCAN_SECS));
        }
        due
    }

    /// Sets out to watch a device. Says whether to: not where it is watched already, and not where
    /// too many are.
    pub fn start(&mut self, path: &str) -> (r: bool)
        ensures
            r == (old(self).watching@.len() < 8 && !views(old(self).watching@).contains(path@)),
            views(final(self).watching@) == (if r {
                views(old(self).watching@).push(path@)
            } else {
                views(old(self).watching@)
            }),
            *final(self) == (Gamepads { watching: final(self).watching, ..*old(self) }),
    {
        if self.watching.len() >= MAX_WATCHED || in_list(&self.watching, path) {
            return false;
        }
        let ghost before = views(self.watching@);
        self.watching.push(path.to_owned());
        assert(views(self.watching@) =~= before.push(path@));
        true
    }

    /// Records that a device is no longer watched, so that it can be again.
    pub fn forget(&mut self, path: &str)
        ensures
            views(final(self).watching@) == without(views(old(self).watching@), path@),
            *final(self) == (Gamepads { watching: final(self).watching, ..*old(self) }),
    {
        let ghost before = views(self.watching@);
        let mut kept: Vec<String> = Vec::new();
        let mut i: usize = 0;
        assert(views(kept@) =~= without(before.take(0), path@));
        while i < self.watching.len()
            invariant
                i <= self.watching@.len(),
                before == views(self.watching@),
                *self == *old(self),
                views(kept@) == without(before.take(i as int), path@),
            decreases self.watching@.len() - i,
        {
            assert(before[i as int] == self.watching@[i as int]@);
            assert(before.take(i as int + 1).drop_last() =~= before.take(i as int));
            if !same(self.watching[i].as_str(), path) {
                let other = self.watching[i].clone();
                let ghost so_far = views(kept@);
                assert(views(kept@.push(other)) =~= so_far.push(other@));
                kept.push(other);
            }
            i += 1;
        }
        assert(before.take(i as int) =~= before);
        self.watching = kept;
    }

    /// The idle time of a session with its pads, by what the compositor says.
    pub fn merge(&mut self, seen: Idle, now: BootInstant) -> (r: Idle)
        ensures
            r == merged_idle(seen, old(self).last_input, now),
            *final(self) == (Gamepads { pad_is_source: r != seen, ..*old(self) }),
    {
        let merged = match (seen, self.last_input) {
            (Idle::For(known), Some(last)) => {
                let pad = now.since(last);
                if pad.nanos < known.nanos {
                    Idle::For(pad)
                } else {
                    seen
                }
            },
            _ => seen,
        };
        self.pad_is_source = merged != seen;
        merged
    }
}

/// Texts without one of them.
pub open spec fn without(texts: Seq<Seq<char>>, text: Seq<char>) -> Seq<Seq<char>>
    decreases texts.len(),
{
    if texts.len() == 0 {
        Seq::empty()
    } else if texts.last() == text {
        without(texts.drop_last(), text)
    } else {
        without(texts.drop_last(), text).push(texts.last())
    }
}

/// Whether a device is a pad, by its name.
pub open spec fn names_pad(name: Seq<char>) -> bool {
    name.len() > 2 && name[0] == 'j' && name[1] == 's' && all_digits(name.skip(2))
}

fn is_pad(name: &str) -> (r: bool)
    ensures
        r == names_pad(name@),
{
    let chars = chars_of(name);
    if chars.len() <= 2 || chars[0] != 'j' || chars[1] != 's' {
        return false;
    }
    let ghost digits = name@.skip(2);
    let mut i: usize = 2;
    while i < chars.len()
        invariant
            2 <= i <= chars@.len(),
            chars@ == name@,
            digits == name@.skip(2),
            forall|j: int| 0 <= j < i - 2 ==> is_digit(#[trigger] digits[j]),
        decreases chars@.len() - i,
    {
        let c = chars[i];
        assert(digits[i - 2] == c);
        if c < '0' || c > '9' {
            assert(!is_digit(digits[i - 2]));
            return false;
        }
        i += 1;
    }
    true
}

/// The pads among devices, as they were found.
pub open spec fn pads_among(names: Seq<Seq<char>>) -> Seq<Seq<char>>
    decreases names.len(),
{
    if names.len() == 0 {
        Seq::empty()
    } else if names_pad(names.last()) {
        pads_among(names.drop_last()).push(names.last())
    } else {
        pads_among(names.drop_last())
    }
}

/// The pads among devices, in the order of their names.
pub fn joysticks(names: &Vec<String>) -> (r: Vec<String>)
    ensures
        sorted(views(r@)),
        views(r@).to_multiset() == pads_among(views(names@)).to_multiset(),
{
    let ghost all = views(names@);
    let mut out: Vec<String> = Vec::new();
    let mut i: usize = 0;
    assert(views(out@) =~= pads_among(all.take(0)));
    while i < names.len()
        invariant
            i <= names@.len(),
            all == views(names@),
            sorted(views(out@)),
            views(out@).to_multiset() == pads_among(all.take(i as int)).to_multiset(),
        decreases names@.len() - i,
    {
        assert(all[i as int] == names@[i as int]@);
        assert(all.take(i as int + 1).drop_last() =~= all.take(i as int));
        proof {
            pads_among(all.take(i as int)).to_multiset_ensures();
        }
        if is_pad(names[i].as_str()) {
            insert_sorted(&mut out, names[i].clone());
        }
        i += 1;
    }
    assert(all.take(i as int) =~= all);
    out
}

// ---- what holds of the whole ----------------------------------------------------------

/// A pad never makes an idle time longer, and never overrules what cannot be told.
pub proof fn a_pad_only_shortens(seen: Idle, last: Option<BootInstant>, now: BootInstant)
    ensures
        merged_idle(Idle::Unknown, last, now) == Idle::Unknown,
        seen matches Idle::For(known) ==> (merged_idle(seen, last, now) matches Idle::For(d)
            && d.nanos <= known.nanos),
        last is None ==> merged_idle(seen, last, now) == seen,
{
}

/// What the kernel repeats when a device is opened is never a person.
pub proof fn a_repetition_is_never_a_person(axes: Map<u8, i16>, event: Event)
    requires
        event.initial,
    ensures
        !is_person(axes, event),
{
}

/// A stick that is swept slowly counts as soon as it is far enough from where it was last counted,
/// however small the steps: until then no step changes where it is counted from.
pub proof fn a_slow_sweep_adds_up(axes: Map<u8, i16>, steps: Seq<Event>, last: Event, axis: u8)
    requires
        axes.contains_key(axis),
        forall|i: int|
            0 <= i < steps.len() ==> {
                let step = #[trigger] steps[i];
                step.kind == 2 && step.number == axis && !step.initial && !moved(
                    axes[axis],
                    step.value,
                )
            },
        last.kind == 2,
        last.number == axis,
        !last.initial,
        moved(axes[axis], last.value),
    ensures
        counted_over(axes, steps) == axes,
        is_person(counted_over(axes, steps), last),
    decreases steps.len(),
{
    if steps.len() > 0 {
        let fewer = steps.drop_last();
        assert forall|i: int| 0 <= i < fewer.len() implies {
            let step = #[trigger] fewer[i];
            step.kind == 2 && step.number == axis && !step.initial && !moved(axes[axis], step.value)
        } by {
            assert(fewer[i] == steps[i]);
        }
        a_slow_sweep_adds_up(axes, fewer, last, axis);
        assert(steps[steps.len() - 1] == steps.last());
    }
}

/// A stick that wobbles around where it rests is never a person, for however long it does.
pub proof fn a_wobble_is_never_a_person(axes: Map<u8, i16>, steps: Seq<Event>, axis: u8)
    requires
        axes.contains_key(axis),
        forall|i: int|
            0 <= i < steps.len() ==> {
                let step = #[trigger] steps[i];
                step.kind == 2 && step.number == axis && !step.initial && !moved(
                    axes[axis],
                    step.value,
                )
            },
    ensures
        !some_person(axes, steps),
        counted_over(axes, steps) == axes,
    decreases steps.len(),
{
    if steps.len() > 0 {
        let fewer = steps.drop_last();
        assert forall|i: int| 0 <= i < fewer.len() implies {
            let step = #[trigger] fewer[i];
            step.kind == 2 && step.number == axis && !step.initial && !moved(axes[axis], step.value)
        } by {
            assert(fewer[i] == steps[i]);
        }
        a_wobble_is_never_a_person(axes, fewer, axis);
        assert(steps[steps.len() - 1] == steps.last());
    }
}

} // verus!
