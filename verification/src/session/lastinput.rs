//! When a session was last used, from one instance of its agent to the next.
use vstd::prelude::*;
use vstd::string::StringExecFns;

use crate::session::backend::Idle;
use crate::text::{
    all_digits, decimal, is_digit, is_space, lemma_decimal_reads_back, parse_u64,
    parsed_unsigned, push_decimal, split_words, unsigned_digits, word_run, words,
};
use crate::time::{between, earlier, BootInstant, Duration};

verus! {

/// For how long nobody may have watched a session for its last use to be taken over: in seconds.
pub const ADOPT_MAX_GAP_SECS: u64 = 90;

/// When a session was last used, by what was written of it, if that can be believed: when it was
/// last used and when that was written, neither later than the other nor than now, and not too long
/// ago.
pub open spec fn carried(text: Seq<char>, now: BootInstant) -> Option<BootInstant> {
    let parts = words(text);
    if parts.len() < 2 {
        None
    } else {
        match (parsed_unsigned(parts[0], u64::MAX as nat), parsed_unsigned(
            parts[1],
            u64::MAX as nat,
        )) {
            (Some(used), Some(written)) => if written > now.nanos || used > written || now.nanos
                - written > 90 * 1_000_000_000 {
                None
            } else {
                Some(BootInstant { nanos: used as u64 })
            },
            _ => None,
        }
    }
}

/// When a session was last used, by what was written of it.
pub fn load(text: &str, now: BootInstant) -> (r: Option<BootInstant>)
    ensures
        r == carried(text@, now),
{
    let parts = split_words(text);
    let ghost all = words(text@);
    assert(all.len() == parts@.len());
    if parts.len() < 2 {
        return None;
    }
    assert(all[0] == parts@[0]@ && all[1] == parts@[1]@);
    let last_input = match parse_u64(parts[0].as_str()) {
        Some(nanos) => BootInstant::from_nanos(nanos),
        None => return None,
    };
    let written_at = match parse_u64(parts[1].as_str()) {
        Some(nanos) => BootInstant::from_nanos(nanos),
        None => return None,
    };
    if written_at.nanos > now.nanos || last_input.nanos > written_at.nanos {
        return None;
    }
    let gap = now.since(written_at);
    if gap.nanos > Duration::from_secs(ADOPT_MAX_GAP_SECS).nanos {
        return None;
    }
    Some(last_input)
}

/// How long nobody has used a session, by what it says and what was taken over. A session that was
/// just joined has not seen anybody yet, so what was taken over stands for what it says. One that
/// cannot tell is not spoken for.
pub fn taken_over(says: Idle, carried: Option<BootInstant>, now: BootInstant) -> (r: Idle)
    ensures
        r == (match (says, carried) {
            (Idle::For(_), Some(before)) => Idle::For(between(before, now)),
            _ => says,
        }),
{
    match (says, carried) {
        (Idle::For(_), Some(before)) => Idle::For(now.since(before)),
        _ => says,
    }
}

/// When a session was last used, if that can be told.
pub fn last_used(idle: Idle, now: BootInstant) -> (r: Option<BootInstant>)
    ensures
        r == (match idle {
            Idle::For(span) => Some(earlier(now, span)),
            Idle::Unknown => None,
        }),
{
    match idle {
        Idle::For(span) => Some(now.saturating_sub(span)),
        Idle::Unknown => None,
    }
}

/// What is written of when a session was last used.
pub open spec fn stored(last_input: BootInstant, now: BootInstant) -> Seq<char> {
    decimal(last_input.nanos as nat) + " "@ + decimal(now.nanos as nat) + "\n"@
}

/// What is written of when a session was last used.
pub fn store(last_input: BootInstant, now: BootInstant) -> (r: String)
    ensures
        r@ == stored(last_input, now),
{
    let mut out = String::new();
    push_decimal(&mut out, last_input.as_nanos() as u128);
    assert(out@ =~= decimal(last_input.nanos as nat));
    out.append(" ");
    push_decimal(&mut out, now.as_nanos() as u128);
    out.append("\n");
    out
}

proof fn lemma_digits_run(digits: Seq<char>, rest: Seq<char>)
    requires
        all_digits(digits),
        rest.len() > 0,
        is_space(rest[0]),
    ensures
        word_run(digits + rest) == digits.len(),
    decreases digits.len(),
{
    let s = digits + rest;
    if digits.len() == 0 {
        assert(s =~= rest);
    } else {
        assert(is_digit(digits[0]));
        assert(s[0] == digits[0]);
        assert(!is_space(s[0]));
        assert(s.skip(1) =~= digits.skip(1) + rest);
        assert forall|i: int| 0 <= i < digits.skip(1).len() implies is_digit(
            #[trigger] digits.skip(1)[i],
        ) by {
            assert(digits.skip(1)[i] == digits[i + 1]);
        }
        lemma_digits_run(digits.skip(1), rest);
    }
}

proof fn lemma_first_word(digits: Seq<char>, rest: Seq<char>)
    requires
        all_digits(digits),
        digits.len() > 0,
        rest.len() > 0,
        is_space(rest[0]),
    ensures
        words(digits + rest) == seq![digits] + words(rest),
{
    let s = digits + rest;
    lemma_digits_run(digits, rest);
    assert(is_digit(digits[0]));
    assert(s[0] == digits[0]);
    assert(!is_space(s[0]));
    assert(s.take(digits.len() as int) =~= digits);
    assert(s.skip(digits.len() as int) =~= rest);
}

/// What was written reads back: the next instance takes over exactly when the session was last used,
/// where that is not later than the writing, the writing is not later than the reading, and no more
/// than a minute and a half passed between the two. Otherwise it takes over nothing.
pub proof fn what_is_stored_is_carried_over(
    last_input: BootInstant,
    written: BootInstant,
    now: BootInstant,
)
    ensures
        carried(stored(last_input, written), now) == (if last_input.nanos <= written.nanos
            && written.nanos <= now.nanos && now.nanos - written.nanos <= 90 * 1_000_000_000 {
            Some(last_input)
        } else {
            None
        }),
{
    reveal_strlit(" ");
    reveal_strlit("\n");
    let a = decimal(last_input.nanos as nat);
    let b = decimal(written.nanos as nat);
    lemma_decimal_reads_back(last_input.nanos as nat);
    lemma_decimal_reads_back(written.nanos as nat);
    let end = "\n"@;
    let tail = b + end;
    let rest = " "@ + tail;
    assert(stored(last_input, written) =~= a + rest);
    assert(rest[0] == ' ' && is_space(' '));
    lemma_first_word(a, rest);
    assert(rest.skip(1) =~= tail);
    assert(words(rest) == words(tail));
    assert(end[0] == '\n' && is_space('\n'));
    lemma_first_word(b, end);
    assert(end.skip(1) =~= Seq::<char>::empty());
    assert(words(Seq::<char>::empty()) =~= Seq::empty());
    assert(words(end) == words(end.skip(1)));
    let all = words(stored(last_input, written));
    assert(all == seq![a] + (seq![b] + words(end)));
    assert(all[0] == a && all[1] == b);
    assert(unsigned_digits(a) == a && unsigned_digits(b) == b);
}

} // verus!
