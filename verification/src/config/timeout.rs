//! Timeouts as they are written: `30m`, `1h 30m`, `never`.
use vstd::prelude::*;
use vstd::string::StringExecFns;

use crate::text::{
    all_digits, chars_of, decimal, digits_up_to, digits_value, is_digit, is_space, push_decimal,
    same, space, trim, trimmed,
};
use crate::time::{whole_secs, Duration, Timeout};

verus! {

/// Why a timeout cannot be read.
#[derive(Clone, Copy, PartialEq, Eq, Debug, Structural)]
pub enum TimeoutError {
    /// There is nothing but white space.
    Empty,
    /// A number without a unit, a bare `0` included: it could mean seconds or minutes.
    MissingUnit,
    /// A unit without a number before it.
    MissingNumber,
    /// A character that is no unit.
    UnknownUnit(char),
    /// The span does not fit.
    Overflow,
    /// `never` where a span is required.
    NeverNotAllowed,
}

/// The message of an error.
pub open spec fn timeout_error_text(error: TimeoutError) -> Seq<char> {
    match error {
        TimeoutError::Empty => "empty value"@,
        TimeoutError::MissingUnit =>
            "missing unit: write \"30s\", \"10m\", \"2h\", \"1d\" or \"0s\", not a bare number"@,
        TimeoutError::MissingNumber => "unit with no number in front of it"@,
        TimeoutError::UnknownUnit(c) => "unknown unit '"@.push(c)
            + "': valid units are s, m, h, d, and the only sentinel is the exact lower-case \"never\""@,
        TimeoutError::Overflow => "value too large"@,
        TimeoutError::NeverNotAllowed =>
            "\"never\" is not allowed here; a finite duration is required"@,
    }
}

impl TimeoutError {
    /// The message of the error.
    pub fn to_string(&self) -> (r: String)
        ensures
            r@ == timeout_error_text(*self),
    {
        match *self {
            TimeoutError::Empty => "empty value".to_owned(),
            TimeoutError::MissingUnit =>
                "missing unit: write \"30s\", \"10m\", \"2h\", \"1d\" or \"0s\", not a bare number".to_owned(),
            TimeoutError::MissingNumber => "unit with no number in front of it".to_owned(),
            TimeoutError::UnknownUnit(c) => {
                let mut out = "unknown unit '".to_owned();
                out.push(c);
                out.append(
                    "': valid units are s, m, h, d, and the only sentinel is the exact lower-case \"never\"",
                );
                out
            },
            TimeoutError::Overflow => "value too large".to_owned(),
            TimeoutError::NeverNotAllowed =>
                "\"never\" is not allowed here; a finite duration is required".to_owned(),
        }
    }
}

/// How many seconds a unit stands for.
pub open spec fn unit_secs(c: char) -> Option<nat> {
    if c == 's' {
        Some(1)
    } else if c == 'm' {
        Some(60)
    } else if c == 'h' {
        Some(3_600)
    } else if c == 'd' {
        Some(86_400)
    } else {
        None
    }
}

/// A text without underscores and white space, which mean nothing in a timeout.
pub open spec fn significant(s: Seq<char>) -> Seq<char>
    decreases s.len(),
{
    if s.len() == 0 {
        Seq::empty()
    } else {
        let before = significant(s.drop_last());
        if s.last() == '_' || is_space(s.last()) {
            before
        } else {
            before.push(s.last())
        }
    }
}

/// How many digits a text starts with.
pub open spec fn digit_run(s: Seq<char>) -> nat
    decreases s.len(),
{
    if s.len() > 0 && is_digit(s[0]) {
        1 + digit_run(s.skip(1))
    } else {
        0
    }
}

/// The seconds that the terms of a timeout add up to, after those counted so far. A term is a
/// number and its unit.
pub open spec fn sum_of_terms(s: Seq<char>, so_far: nat) -> Result<nat, TimeoutError>
    decreases s.len(),
{
    let n = digit_run(s) as int;
    if s.len() == 0 {
        Ok(so_far)
    } else if n >= s.len() {
        Err(TimeoutError::MissingUnit)
    } else {
        match unit_secs(s[n]) {
            None => Err(TimeoutError::UnknownUnit(s[n])),
            Some(secs) => if n == 0 {
                Err(TimeoutError::MissingNumber)
            } else {
                let sum = so_far + digits_value(s.take(n)) * secs;
                if sum > u64::MAX {
                    Err(TimeoutError::Overflow)
                } else {
                    sum_of_terms(s.skip(n + 1), sum)
                }
            },
        }
    }
}

/// The timeout that a text stands for: the word `never`, or terms.
pub open spec fn timeout_of(input: Seq<char>) -> Result<Timeout, TimeoutError> {
    let text = trimmed(input);
    let terms = significant(text);
    if text.len() == 0 {
        Err(TimeoutError::Empty)
    } else if text == "never"@ {
        Ok(Timeout::Never)
    } else if terms.len() == 0 {
        Err(TimeoutError::MissingUnit)
    } else {
        match sum_of_terms(terms, 0) {
            Ok(secs) => Ok(Timeout::After(Duration { nanos: (secs * 1_000_000_000) as u128 })),
            Err(error) => Err(error),
        }
    }
}

/// The span that a text stands for, where `never` is not allowed.
pub open spec fn duration_of(input: Seq<char>) -> Result<Duration, TimeoutError> {
    match timeout_of(input) {
        Ok(Timeout::After(d)) => Ok(d),
        Ok(Timeout::Never) => Err(TimeoutError::NeverNotAllowed),
        Err(error) => Err(error),
    }
}

pub proof fn lemma_digit_run(s: Seq<char>)
    ensures
        digit_run(s) <= s.len(),
        forall|i: int| 0 <= i < digit_run(s) ==> is_digit(#[trigger] s[i]),
        digit_run(s) < s.len() ==> !is_digit(s[digit_run(s) as int]),
    decreases s.len(),
{
    if s.len() > 0 && is_digit(s[0]) {
        lemma_digit_run(s.skip(1));
        assert forall|i: int| 0 <= i < digit_run(s) implies is_digit(#[trigger] s[i]) by {
            if i > 0 {
                assert(s.skip(1)[i - 1] == s[i]);
            }
        }
    }
}

fn significant_chars(s: &str) -> (out: Vec<char>)
    ensures
        out@ == significant(s@),
{
    let chars = chars_of(s);
    let mut out: Vec<char> = Vec::new();
    let mut i: usize = 0;
    while i < chars.len()
        invariant
            i <= chars@.len(),
            chars@ == s@,
            out@ == significant(s@.take(i as int)),
        decreases chars@.len() - i,
    {
        let c = chars[i];
        assert(s@.take(i as int + 1).drop_last() =~= s@.take(i as int));
        if !(c == '_' || space(c)) {
            out.push(c);
        }
        i += 1;
    }
    assert(s@.take(i as int) =~= s@);
    out
}

fn skip_digits(chars: &Vec<char>, from: usize) -> (i: usize)
    requires
        from <= chars@.len(),
    ensures
        from <= i <= chars@.len(),
        i - from == digit_run(chars@.skip(from as int)),
{
    let mut i: usize = from;
    while i < chars.len() && '0' <= chars[i] && chars[i] <= '9'
        invariant
            from <= i <= chars@.len(),
            digit_run(chars@.skip(from as int)) == (i - from) + digit_run(chars@.skip(i as int)),
        decreases chars@.len() - i,
    {
        assert(chars@.skip(i as int).skip(1) =~= chars@.skip(i as int + 1));
        i += 1;
    }
    i
}

/// Reads a timeout: the exact word `never`, or numbers each with a unit `s`, `m`, `h` or `d`.
///
/// Several terms add up. Underscores and white space are ignored. A bare number is refused, `0`
/// included.
pub fn parse_timeout(input: &str) -> (r: Result<Timeout, TimeoutError>)
    ensures
        r == timeout_of(input@),
{
    let text = trim(input);
    if text.as_str().is_empty() {
        return Err(TimeoutError::Empty);
    }
    if same(text.as_str(), "never") {
        return Ok(Timeout::Never);
    }
    let chars = significant_chars(text.as_str());
    if chars.len() == 0 {
        return Err(TimeoutError::MissingUnit);
    }
    let ghost terms = chars@;
    let mut total: u64 = 0;
    let mut i: usize = 0;
    assert(chars@.skip(0) =~= terms);
    while i < chars.len()
        invariant
            i <= chars@.len(),
            chars@ == terms,
            terms.len() > 0,
            terms == significant(trimmed(input@)),
            trimmed(input@).len() > 0,
            trimmed(input@) != "never"@,
            sum_of_terms(terms, 0) == sum_of_terms(terms.skip(i as int), total as nat),
        decreases chars@.len() - i,
    {
        let ghost rest = terms.skip(i as int);
        let n = skip_digits(&chars, i);
        if n == chars.len() {
            return Err(TimeoutError::MissingUnit);
        }
        let unit = chars[n];
        assert(rest[n - i] == unit);
        let secs: u64 = match unit {
            's' => 1,
            'm' => 60,
            'h' => 3_600,
            'd' => 86_400,
            _ => return Err(TimeoutError::UnknownUnit(unit)),
        };
        if n == i {
            return Err(TimeoutError::MissingNumber);
        }
        assert(rest.take(n - i) =~= chars@.subrange(i as int, n as int));
        proof {
            lemma_digit_run(rest);
            assert forall|j: int| 0 <= j < n - i implies is_digit(
                #[trigger] rest.take(n - i)[j],
            ) by {
                assert(is_digit(rest[j]));
            }
        }
        let ghost value = digits_value(rest.take(n - i));
        match digits_up_to(&chars, i, n, u64::MAX) {
            None => {
                assert(total + value * secs > u64::MAX) by (nonlinear_arith)
                    requires
                        value > u64::MAX,
                        secs >= 1,
                        total >= 0,
                ;
                return Err(TimeoutError::Overflow);
            },
            Some(count) => {
                assert(0 <= count * secs <= u64::MAX * 86_400) by (nonlinear_arith)
                    requires
                        0 <= count <= u64::MAX,
                        0 <= secs <= 86_400,
                ;
                let sum: u128 = (total as u128) + (count as u128) * (secs as u128);
                if sum > u64::MAX as u128 {
                    return Err(TimeoutError::Overflow);
                }
                total = sum as u64;
            },
        }
        assert(rest.skip(n - i + 1) =~= terms.skip(n as int + 1));
        i = n + 1;
    }
    assert(terms.skip(i as int).len() == 0);
    Ok(Timeout::After(Duration::from_secs(total)))
}

/// Reads a span, where `never` is not allowed.
pub fn parse_duration(input: &str) -> (r: Result<Duration, TimeoutError>)
    ensures
        r == duration_of(input@),
{
    match parse_timeout(input) {
        Ok(Timeout::After(d)) => Ok(d),
        Ok(Timeout::Never) => Err(TimeoutError::NeverNotAllowed),
        Err(error) => Err(error),
    }
}

/// A term of a timeout, or nothing where the number is zero.
pub open spec fn term(count: nat, unit: char) -> Seq<char> {
    if count > 0 {
        decimal(count).push(unit)
    } else {
        Seq::empty()
    }
}

/// A number of seconds the way a configuration would spell it.
pub open spec fn formatted_secs(secs: nat) -> Seq<char> {
    if secs == 0 {
        "0s"@
    } else {
        term(secs / 86_400, 'd') + term(secs % 86_400 / 3_600, 'h') + term(
            secs % 3_600 / 60,
            'm',
        ) + term(secs % 60, 's')
    }
}

/// A timeout the way a configuration would spell it.
pub open spec fn formatted(timeout: Timeout) -> Seq<char> {
    match timeout {
        Timeout::Never => "never"@,
        Timeout::After(d) => formatted_secs(whole_secs(d)),
    }
}

fn push_term(out: &mut String, count: u64, unit: char)
    ensures
        final(out)@ == old(out)@ + term(count as nat, unit),
{
    if count > 0 {
        push_decimal(out, count as u128);
        out.push(unit);
        assert((old(out)@ + decimal(count as nat)).push(unit) =~= old(out)@ + decimal(
            count as nat,
        ).push(unit));
    } else {
        assert(old(out)@ + Seq::<char>::empty() =~= old(out)@);
    }
}

/// Spells a timeout the way a configuration would.
pub fn format_timeout(timeout: Timeout) -> (r: String)
    ensures
        r@ == formatted(timeout),
{
    let duration = match timeout {
        Timeout::Never => return "never".to_owned(),
        Timeout::After(d) => d,
    };
    let secs = duration.as_secs();
    if secs == 0 {
        return "0s".to_owned();
    }
    let mut out = String::new();
    push_term(&mut out, secs / 86_400, 'd');
    assert(out@ =~= term((secs / 86_400) as nat, 'd'));
    push_term(&mut out, secs % 86_400 / 3_600, 'h');
    push_term(&mut out, secs % 3_600 / 60, 'm');
    push_term(&mut out, secs % 60, 's');
    out
}

// ---- the round trip -------------------------------------------------------------------

proof fn lemma_digit_run_of_term(digits: Seq<char>, unit: char, rest: Seq<char>)
    requires
        all_digits(digits),
        !is_digit(unit),
    ensures
        digit_run(digits.push(unit) + rest) == digits.len(),
    decreases digits.len(),
{
    let s = digits.push(unit) + rest;
    if digits.len() == 0 {
        assert(s[0] == unit);
    } else {
        let fewer = digits.skip(1);
        assert forall|i: int| 0 <= i < fewer.len() implies is_digit(#[trigger] fewer[i]) by {
            assert(is_digit(digits[i + 1]));
        }
        lemma_digit_run_of_term(fewer, unit, rest);
        assert(s.skip(1) =~= fewer.push(unit) + rest);
        assert(is_digit(digits[0]));
        assert(s[0] == digits[0]);
    }
}

/// A term adds its seconds to those counted so far.
proof fn lemma_term_adds(count: nat, unit: char, secs: nat, rest: Seq<char>, so_far: nat)
    requires
        unit_secs(unit) == Some(secs),
        so_far + count * secs <= u64::MAX,
    ensures
        sum_of_terms(term(count, unit) + rest, so_far) == sum_of_terms(rest, so_far + count * secs),
{
    if count > 0 {
        crate::text::lemma_decimal_reads_back(count);
        let digits = decimal(count);
        lemma_digit_run_of_term(digits, unit, rest);
        let s = digits.push(unit) + rest;
        assert(s.take(digits.len() as int) =~= digits);
        assert(s[digits.len() as int] == unit);
        assert(s.skip(digits.len() as int + 1) =~= rest);
    } else {
        assert(term(count, unit) + rest =~= rest);
        assert(count * secs == 0) by (nonlinear_arith)
            requires
                count == 0,
        ;
    }
}

/// Whether every character means something in a timeout.
spec fn plain(s: Seq<char>) -> bool {
    forall|i: int| 0 <= i < s.len() ==> #[trigger] s[i] != '_' && !is_space(s[i])
}

proof fn lemma_plain_is_kept(s: Seq<char>)
    requires
        plain(s),
    ensures
        significant(s) == s,
        trimmed(s) == s,
    decreases s.len(),
{
    if s.len() > 0 {
        let shorter = s.drop_last();
        assert forall|i: int| 0 <= i < shorter.len() implies #[trigger] shorter[i] != '_'
            && !is_space(shorter[i]) by {
            assert(s[i] != '_' && !is_space(s[i]));
        }
        lemma_plain_is_kept(shorter);
        assert(s.last() == s[s.len() - 1]);
        assert(shorter.push(s.last()) =~= s);
        assert(!is_space(s[0]));
    } else {
        assert(significant(s) =~= s);
    }
}

proof fn lemma_term_is_plain(count: nat, unit: char)
    requires
        unit_secs(unit) is Some,
    ensures
        plain(term(count, unit)),
        count > 0 ==> term(count, unit).len() > 1 && is_digit(term(count, unit)[0]),
{
    if count > 0 {
        crate::text::lemma_decimal_reads_back(count);
        let digits = decimal(count);
        assert forall|i: int| 0 <= i < term(count, unit).len() implies #[trigger] term(
            count,
            unit,
        )[i] != '_' && !is_space(term(count, unit)[i]) by {
            if i < digits.len() {
                assert(is_digit(digits[i]));
            }
        }
        assert(is_digit(digits[0]));
    }
}

proof fn lemma_plain_concat(a: Seq<char>, b: Seq<char>)
    requires
        plain(a),
        plain(b),
    ensures
        plain(a + b),
{
    assert forall|i: int| 0 <= i < (a + b).len() implies #[trigger] (a + b)[i] != '_'
        && !is_space((a + b)[i]) by {
        if i < a.len() {
            assert(a[i] != '_' && !is_space(a[i]));
        } else {
            assert(b[i - a.len()] != '_' && !is_space(b[i - a.len()]));
        }
    }
}

/// What is spelled the way a configuration would spell it reads back as the same timeout, for
/// every timeout of whole seconds.
pub proof fn spelling_reads_back(timeout: Timeout)
    requires
        timeout matches Timeout::After(d) ==> d.nanos == whole_secs(d) * 1_000_000_000,
    ensures
        timeout_of(formatted(timeout)) == Ok::<Timeout, TimeoutError>(timeout),
{
    match timeout {
        Timeout::Never => {
            reveal_strlit("never");
            let s = "never"@;
            assert(s.len() == 5);
            assert(s[0] == 'n' && s[1] == 'e' && s[2] == 'v' && s[3] == 'e' && s[4] == 'r');
            lemma_plain_is_kept(s);
        },
        Timeout::After(d) => {
            let secs = whole_secs(d);
            reveal_strlit("never");
            assert("never"@[0] == 'n');
            if secs == 0 {
                reveal_strlit("0s");
                let s = "0s"@;
                assert(s.len() == 2 && s[0] == '0' && s[1] == 's');
                lemma_plain_is_kept(s);
                assert(s != "never"@);
                reveal_with_fuel(digit_run, 3);
                assert(digit_run(s) == 1);
                assert(s.take(1).drop_last() =~= Seq::<char>::empty());
                assert(digits_value(Seq::<char>::empty()) == 0);
                assert(digits_value(s.take(1)) == 0);
                assert(s.skip(2).len() == 0);
                assert(sum_of_terms(s.skip(2), 0) == Ok::<nat, TimeoutError>(0));
                assert(0nat * 1nat == 0);
                assert(sum_of_terms(s, 0) == Ok::<nat, TimeoutError>(0));
            } else {
                lemma_formatted_reads_back(secs);
            }
        },
    }
}

proof fn lemma_formatted_reads_back(secs: nat)
    requires
        0 < secs <= u64::MAX,
    ensures
        timeout_of(formatted_secs(secs)) == Ok::<Timeout, TimeoutError>(
            Timeout::After(Duration { nanos: (secs * 1_000_000_000) as u128 }),
        ),
{
    let d = secs / 86_400;
    let h = secs % 86_400 / 3_600;
    let m = secs % 3_600 / 60;
    let s = secs % 60;
    assert(secs == d * 86_400 + h * 3_600 + m * 60 + s);
    let (td, th, tm, ts) = (term(d, 'd'), term(h, 'h'), term(m, 'm'), term(s, 's'));
    let text = formatted_secs(secs);
    lemma_term_is_plain(d, 'd');
    lemma_term_is_plain(h, 'h');
    lemma_term_is_plain(m, 'm');
    lemma_term_is_plain(s, 's');
    lemma_plain_concat(td, th);
    lemma_plain_concat(td + th, tm);
    lemma_plain_concat(td + th + tm, ts);
    lemma_plain_is_kept(text);
    let none = Seq::<char>::empty();
    assert(text =~= td + (th + (tm + (ts + none))));
    lemma_term_adds(d, 'd', 86_400, th + (tm + (ts + none)), 0);
    lemma_term_adds(h, 'h', 3_600, tm + (ts + none), d * 86_400);
    lemma_term_adds(m, 'm', 60, ts + none, d * 86_400 + h * 3_600);
    lemma_term_adds(s, 's', 1, none, d * 86_400 + h * 3_600 + m * 60);
    assert(sum_of_terms(none, secs) == Ok::<nat, TimeoutError>(secs));
    assert(sum_of_terms(text, 0) == Ok::<nat, TimeoutError>(secs));
    assert(text.len() > 0 && is_digit(text[0])) by {
        if d > 0 {
            assert(text[0] == td[0]);
        } else if h > 0 {
            assert(text[0] == th[0]);
        } else if m > 0 {
            assert(text[0] == tm[0]);
        } else {
            assert(text[0] == ts[0]);
        }
    }
    reveal_strlit("never");
    assert("never"@[0] == 'n');
}

} // verus!
