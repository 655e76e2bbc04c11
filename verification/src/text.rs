//! Text, as sequences of characters.
//!
//! A contract speaks of a text through its characters. The functions here take a text apart
//! (trimming, splitting, reading numbers) and put one together, and say of each result which
//! characters it holds.
use vstd::prelude::*;
use vstd::string::StringExecFns;

verus! {

/// `String::push` appends one character at the end of the text.
pub assume_specification[ String::push ](s: &mut String, ch: char)
    ensures
        final(s)@ == old(s)@.push(ch),
;

/// The characters of a text, in order.
pub fn chars_of(s: &str) -> (out: Vec<char>)
    ensures
        out@ == s@,
{
    let mut out: Vec<char> = Vec::new();
    for c in it: s.chars()
        invariant
            out@ == it.seq().take(it.index() as int),
            it.seq() == s@,
    {
        out.push(c);
    }
    out
}

/// The text made of the characters from `from` up to `to`.
pub fn text_of(chars: &[char], from: usize, to: usize) -> (out: String)
    requires
        from <= to <= chars@.len(),
    ensures
        out@ == chars@.subrange(from as int, to as int),
{
    let mut out = String::new();
    let mut i: usize = from;
    while i < to
        invariant
            from <= i <= to <= chars@.len(),
            out@ == chars@.subrange(from as int, i as int),
        decreases to - i,
    {
        out.push(chars[i]);
        i += 1;
        assert(chars@.subrange(from as int, i as int) =~= chars@.subrange(
            from as int,
            i as int - 1,
        ).push(chars@[i as int - 1]));
    }
    out
}

/// Whether two texts hold the same characters.
pub fn same(a: &str, b: &str) -> (r: bool)
    ensures
        r == (a@ == b@),
{
    let x = chars_of(a);
    let y = chars_of(b);
    if x.len() != y.len() {
        return false;
    }
    let mut i: usize = 0;
    while i < x.len()
        invariant
            i <= x@.len(),
            x@.len() == y@.len(),
            x@ == a@,
            y@ == b@,
            forall|j: int| 0 <= j < i ==> x@[j] == y@[j],
        decreases x@.len() - i,
    {
        if x[i] != y[i] {
            assert(a@[i as int] != b@[i as int]);
            return false;
        }
        i += 1;
    }
    assert(a@ =~= b@);
    true
}

/// What the texts of a list hold, in order.
pub open spec fn views(texts: Seq<String>) -> Seq<Seq<char>> {
    texts.map_values(|t: String| t@)
}

/// Whether a text is in a list.
pub fn in_list(list: &Vec<String>, text: &str) -> (r: bool)
    ensures
        r == views(list@).contains(text@),
{
    let ghost texts = views(list@);
    let mut i: usize = 0;
    while i < list.len()
        invariant
            i <= list@.len(),
            texts == views(list@),
            forall|j: int| 0 <= j < i ==> #[trigger] texts[j] != text@,
        decreases list@.len() - i,
    {
        assert(texts[i as int] == list@[i as int]@);
        if same(list[i].as_str(), text) {
            return true;
        }
        i += 1;
    }
    false
}

// ---- numbers --------------------------------------------------------------------------

/// The character of a decimal digit.
pub open spec fn digit_char(d: nat) -> char {
    (('0' as u32) + d) as char
}

/// Whether a character is an ASCII decimal digit.
pub open spec fn is_digit(c: char) -> bool {
    '0' <= c <= '9'
}

/// The number in decimal, without leading zeros.
pub open spec fn decimal(n: nat) -> Seq<char>
    decreases n,
{
    if n < 10 {
        seq![digit_char(n)]
    } else {
        decimal(n / 10).push(digit_char(n % 10))
    }
}

/// Whether every character is an ASCII decimal digit.
pub open spec fn all_digits(s: Seq<char>) -> bool {
    forall|i: int| 0 <= i < s.len() ==> is_digit(#[trigger] s[i])
}

/// The number that a run of decimal digits stands for.
pub open spec fn digits_value(s: Seq<char>) -> nat
    decreases s.len(),
{
    if s.len() == 0 {
        0
    } else {
        10 * digits_value(s.drop_last()) + (s.last() as nat - '0' as nat) as nat
    }
}

/// What an unsigned number is written as: digits, which a plus sign may precede.
pub open spec fn unsigned_digits(s: Seq<char>) -> Seq<char> {
    if s.len() > 0 && s[0] == '+' {
        s.skip(1)
    } else {
        s
    }
}

/// The unsigned number that a text is written as, if it is one and at most `limit`.
pub open spec fn parsed_unsigned(s: Seq<char>, limit: nat) -> Option<nat> {
    let digits = unsigned_digits(s);
    if digits.len() > 0 && all_digits(digits) && digits_value(digits) <= limit {
        Some(digits_value(digits))
    } else {
        None
    }
}

/// Every number reads back from its decimal text.
pub proof fn lemma_decimal_reads_back(n: nat)
    ensures
        decimal(n).len() > 0,
        all_digits(decimal(n)),
        digits_value(decimal(n)) == n,
        unsigned_digits(decimal(n)) == decimal(n),
    decreases n,
{
    if n < 10 {
        assert(seq![digit_char(n)].drop_last() =~= Seq::<char>::empty());
        assert(digits_value(Seq::<char>::empty()) == 0);
    } else {
        lemma_decimal_reads_back(n / 10);
        assert(decimal(n).drop_last() =~= decimal(n / 10));
        assert(decimal(n)[0] == decimal(n / 10)[0]);
    }
    assert(is_digit(decimal(n)[0]));
}

/// Leading digits do not shrink a number.
proof fn lemma_digits_value_grows(s: Seq<char>, k: int)
    requires
        all_digits(s),
        0 <= k <= s.len(),
    ensures
        digits_value(s.take(k)) <= digits_value(s),
    decreases s.len() - k,
{
    if k < s.len() {
        lemma_digits_value_grows(s, k + 1);
        assert(s.take(k + 1).drop_last() =~= s.take(k));
        assert(is_digit(s[k]));
    } else {
        assert(s.take(k) =~= s);
    }
}

/// The character of a decimal digit.
fn digit(d: u8) -> (c: char)
    requires
        d < 10,
    ensures
        c == digit_char(d as nat),
{
    match d {
        0 => '0',
        1 => '1',
        2 => '2',
        3 => '3',
        4 => '4',
        5 => '5',
        6 => '6',
        7 => '7',
        8 => '8',
        _ => '9',
    }
}

/// Appends a number in decimal.
pub fn push_decimal(out: &mut String, n: u128)
    ensures
        final(out)@ == old(out)@ + decimal(n as nat),
    decreases n,
{
    if n < 10 {
        out.push(digit(n as u8));
        assert(old(out)@.push(digit_char(n as nat)) =~= old(out)@ + decimal(n as nat));
    } else {
        push_decimal(out, n / 10);
        out.push(digit((n % 10) as u8));
        assert((old(out)@ + decimal((n / 10) as nat)).push(digit_char((n % 10) as nat))
            =~= old(out)@ + decimal(n as nat));
    }
}

/// A whole number in decimal, with a minus sign where it is negative.
pub open spec fn signed_decimal(n: int) -> Seq<char> {
    if n < 0 {
        "-"@ + decimal((-n) as nat)
    } else {
        decimal(n as nat)
    }
}

/// A whole number in decimal, with a minus sign where it is negative.
pub fn signed_text(n: i64) -> (out: String)
    ensures
        out@ == signed_decimal(n as int),
{
    let mut out = String::new();
    if n < 0 {
        out.append("-");
        push_decimal(&mut out, (-(n as i128)) as u128);
        assert(Seq::<char>::empty() + "-"@ =~= "-"@);
    } else {
        push_decimal(&mut out, n as u128);
        assert(out@ =~= decimal(n as nat));
    }
    out
}

/// Reads the number that the digits from `from` up to `to` stand for, if they are digits and it is
/// at most `limit`.
pub fn digits_up_to(chars: &Vec<char>, from: usize, to: usize, limit: u64) -> (r: Option<u64>)
    requires
        from <= to <= chars@.len(),
    ensures
        ({
            let digits = chars@.subrange(from as int, to as int);
            match r {
                Some(n) => all_digits(digits) && digits_value(digits) == n && n <= limit,
                None => !all_digits(digits) || digits_value(digits) > limit,
            }
        }),
{
    let ghost digits = chars@.subrange(from as int, to as int);
    let mut value: u64 = 0;
    let mut i: usize = from;
    while i < to
        invariant
            from <= i <= to <= chars@.len(),
            digits == chars@.subrange(from as int, to as int),
            all_digits(digits.take(i - from)),
            value == digits_value(digits.take(i - from)),
            value <= limit,
        decreases to - i,
    {
        let c = chars[i];
        assert(digits[i - from] == c);
        if !('0' <= c && c <= '9') {
            return None;
        }
        let d: u64 = (c as u64) - ('0' as u64);
        assert(digits.take(i - from + 1).drop_last() =~= digits.take(i - from));
        assert(digits.take(i - from + 1).last() == c);
        let next: u128 = (value as u128) * 10 + (d as u128);
        assert(next == digits_value(digits.take(i - from + 1)));
        if next > limit as u128 {
            proof {
                if all_digits(digits) {
                    lemma_digits_value_grows(digits, i - from + 1);
                }
            }
            return None;
        }
        value = next as u64;
        i += 1;
        assert forall|j: int| 0 <= j < i - from implies is_digit(
            #[trigger] digits.take(i - from)[j],
        ) by {
            if j < i - from - 1 {
                assert(digits.take(i - from - 1)[j] == digits[j]);
            }
        }
    }
    assert(digits.take(i - from) =~= digits);
    Some(value)
}

/// Reads an unsigned number that is at most `limit`.
fn parse_up_to(s: &str, limit: u64) -> (r: Option<u64>)
    ensures
        r matches Some(n) ==> parsed_unsigned(s@, limit as nat) == Some(n as nat),
        r is None ==> parsed_unsigned(s@, limit as nat) is None,
{
    let chars = chars_of(s);
    let start: usize = if chars.len() > 0 && chars[0] == '+' {
        1
    } else {
        0
    };
    assert(unsigned_digits(s@) =~= chars@.subrange(start as int, chars@.len() as int));
    if start == chars.len() {
        return None;
    }
    digits_up_to(&chars, start, chars.len(), limit)
}

/// Reads an unsigned number: decimal digits, which a plus sign may precede, up to the largest
/// that fits.
pub fn parse_u64(s: &str) -> (r: Option<u64>)
    ensures
        r matches Some(n) ==> parsed_unsigned(s@, u64::MAX as nat) == Some(n as nat),
        r is None ==> parsed_unsigned(s@, u64::MAX as nat) is None,
{
    parse_up_to(s, u64::MAX)
}

/// Reads an unsigned 32-bit number: decimal digits, which a plus sign may precede.
pub fn parse_u32(s: &str) -> (r: Option<u32>)
    ensures
        r matches Some(n) ==> parsed_unsigned(s@, u32::MAX as nat) == Some(n as nat),
        r is None ==> parsed_unsigned(s@, u32::MAX as nat) is None,
{
    match parse_up_to(s, u32::MAX as u64) {
        Some(n) => Some(n as u32),
        None => None,
    }
}

// ---- space ----------------------------------------------------------------------------

/// Whether a character is white space.
pub open spec fn is_space(c: char) -> bool {
    ||| '\u{9}' <= c <= '\u{d}'
    ||| c == ' '
    ||| c == '\u{85}'
    ||| c == '\u{a0}'
    ||| c == '\u{1680}'
    ||| '\u{2000}' <= c <= '\u{200a}'
    ||| c == '\u{2028}'
    ||| c == '\u{2029}'
    ||| c == '\u{202f}'
    ||| c == '\u{205f}'
    ||| c == '\u{3000}'
}

/// Whether a character is white space.
pub fn space(c: char) -> (r: bool)
    ensures
        r == is_space(c),
{
    ('\u{9}' <= c && c <= '\u{d}') || c == ' ' || c == '\u{85}' || c == '\u{a0}' || c
        == '\u{1680}' || ('\u{2000}' <= c && c <= '\u{200a}') || c == '\u{2028}' || c
        == '\u{2029}' || c == '\u{202f}' || c == '\u{205f}' || c == '\u{3000}'
}

/// How many characters of white space a text starts with.
pub open spec fn space_run(s: Seq<char>) -> nat
    decreases s.len(),
{
    if s.len() > 0 && is_space(s[0]) {
        1 + space_run(s.skip(1))
    } else {
        0
    }
}

/// How many characters other than white space a text starts with.
pub open spec fn word_run(s: Seq<char>) -> nat
    decreases s.len(),
{
    if s.len() > 0 && !is_space(s[0]) {
        1 + word_run(s.skip(1))
    } else {
        0
    }
}

/// A text without the white space it starts with.
pub open spec fn trimmed_start(s: Seq<char>) -> Seq<char>
    decreases s.len(),
{
    if s.len() > 0 && is_space(s[0]) {
        trimmed_start(s.skip(1))
    } else {
        s
    }
}

/// A text without the white space it ends with.
pub open spec fn trimmed_end(s: Seq<char>) -> Seq<char>
    decreases s.len(),
{
    if s.len() > 0 && is_space(s.last()) {
        trimmed_end(s.drop_last())
    } else {
        s
    }
}

/// A text without the white space around it.
pub open spec fn trimmed(s: Seq<char>) -> Seq<char> {
    trimmed_end(trimmed_start(s))
}

/// The words of a text: what white space separates, in order.
pub open spec fn words(s: Seq<char>) -> Seq<Seq<char>>
    decreases s.len(),
{
    if s.len() == 0 {
        Seq::empty()
    } else if is_space(s[0]) {
        words(s.skip(1))
    } else {
        let n = word_run(s) as int;
        if 0 < n <= s.len() {
            seq![s.take(n)] + words(s.skip(n))
        } else {
            Seq::empty()
        }
    }
}

proof fn lemma_word_run(s: Seq<char>)
    ensures
        word_run(s) <= s.len(),
        s.len() > 0 && !is_space(s[0]) ==> word_run(s) > 0,
        forall|i: int| 0 <= i < word_run(s) ==> !is_space(#[trigger] s[i]),
        word_run(s) < s.len() ==> is_space(s[word_run(s) as int]),
    decreases s.len(),
{
    if s.len() > 0 && !is_space(s[0]) {
        lemma_word_run(s.skip(1));
        assert forall|i: int| 0 <= i < word_run(s) implies !is_space(#[trigger] s[i]) by {
            if i > 0 {
                assert(s.skip(1)[i - 1] == s[i]);
            }
        }
    }
}

/// The index past the white space that starts at `from`.
fn skip_space(chars: &Vec<char>, from: usize) -> (i: usize)
    requires
        from <= chars@.len(),
    ensures
        from <= i <= chars@.len(),
        trimmed_start(chars@.skip(from as int)) == chars@.skip(i as int),
        words(chars@.skip(from as int)) == words(chars@.skip(i as int)),
        i < chars@.len() ==> !is_space(chars@[i as int]),
{
    let mut i: usize = from;
    while i < chars.len() && space(chars[i])
        invariant
            from <= i <= chars@.len(),
            trimmed_start(chars@.skip(from as int)) == trimmed_start(chars@.skip(i as int)),
            words(chars@.skip(from as int)) == words(chars@.skip(i as int)),
        decreases chars@.len() - i,
    {
        assert(chars@.skip(i as int).skip(1) =~= chars@.skip(i as int + 1));
        i += 1;
    }
    i
}

/// The index past the word that starts at `from`.
fn skip_word(chars: &Vec<char>, from: usize) -> (i: usize)
    requires
        from < chars@.len(),
        !is_space(chars@[from as int]),
    ensures
        from < i <= chars@.len(),
        i - from == word_run(chars@.skip(from as int)),
{
    let mut i: usize = from;
    while i < chars.len() && !space(chars[i])
        invariant
            from <= i <= chars@.len(),
            from < chars@.len(),
            !is_space(chars@[from as int]),
            word_run(chars@.skip(from as int)) == (i - from) + word_run(chars@.skip(i as int)),
        decreases chars@.len() - i,
    {
        assert(chars@.skip(i as int).skip(1) =~= chars@.skip(i as int + 1));
        i += 1;
    }
    i
}

/// A text without the white space around it.
pub fn trim(s: &str) -> (out: String)
    ensures
        out@ == trimmed(s@),
{
    let chars = chars_of(s);
    let from = skip_space(&chars, 0);
    assert(chars@.skip(0) =~= s@);
    let to = end_without_space(&chars, from);
    text_of(chars.as_slice(), from, to)
}

/// A text without the white space it ends with.
pub fn trim_end(s: &str) -> (out: String)
    ensures
        out@ == trimmed_end(s@),
{
    let chars = chars_of(s);
    let to = end_without_space(&chars, 0);
    assert(chars@.skip(0) =~= s@);
    text_of(chars.as_slice(), 0, to)
}

/// The end of what starts at `from`, without the white space it ends with.
fn end_without_space(chars: &Vec<char>, from: usize) -> (to: usize)
    requires
        from <= chars@.len(),
    ensures
        from <= to <= chars@.len(),
        chars@.subrange(from as int, to as int) == trimmed_end(chars@.skip(from as int)),
{
    let mut to: usize = chars.len();
    assert(chars@.subrange(from as int, to as int) =~= chars@.skip(from as int));
    while to > from && space(chars[to - 1])
        invariant
            from <= to <= chars@.len(),
            trimmed_end(chars@.subrange(from as int, to as int)) == trimmed_end(
                chars@.skip(from as int),
            ),
        decreases to,
    {
        assert(chars@.subrange(from as int, to as int).drop_last() =~= chars@.subrange(
            from as int,
            to as int - 1,
        ));
        to -= 1;
    }
    to
}

/// The words of a text.
pub fn split_words(s: &str) -> (out: Vec<String>)
    ensures
        views(out@) == words(s@),
{
    let chars = chars_of(s);
    let mut out: Vec<String> = Vec::new();
    assert(chars@.skip(0) =~= s@);
    assert(views(out@) =~= Seq::empty());
    assert(Seq::<Seq<char>>::empty() + words(s@) =~= words(s@));
    let mut i: usize = skip_space(&chars, 0);
    while i < chars.len()
        invariant
            i <= chars@.len(),
            i < chars@.len() ==> !is_space(chars@[i as int]),
            words(s@) == views(out@) + words(chars@.skip(i as int)),
        decreases chars@.len() - i,
    {
        let end = skip_word(&chars, i);
        let ghost rest = chars@.skip(i as int);
        let ghost before = views(out@);
        let word = text_of(chars.as_slice(), i, end);
        assert(word@ =~= rest.take(end - i));
        assert(rest.skip(end - i) =~= chars@.skip(end as int));
        assert(views(out@.push(word)) =~= before.push(word@));
        out.push(word);
        assert(before + (seq![word@] + words(chars@.skip(end as int))) =~= before.push(word@)
            + words(chars@.skip(end as int)));
        i = skip_space(&chars, end);
    }
    assert(words(chars@.skip(i as int)) =~= Seq::empty());
    assert(views(out@) + Seq::<Seq<char>>::empty() =~= views(out@));
    out
}

// ---- separators -----------------------------------------------------------------------

/// The first place where a character stands, or the length where it does not.
pub open spec fn index_of(s: Seq<char>, c: char) -> int
    decreases s.len(),
{
    if s.len() == 0 || s[0] == c {
        0
    } else {
        1 + index_of(s.skip(1), c)
    }
}

/// The last place where a character stands, or -1 where it does not.
pub open spec fn last_index_of(s: Seq<char>, c: char) -> int
    decreases s.len(),
{
    if s.len() == 0 || s.last() == c {
        s.len() - 1
    } else {
        last_index_of(s.drop_last(), c)
    }
}

/// The fields of a text that a character separates, in order.
pub open spec fn fields(s: Seq<char>, c: char) -> Seq<Seq<char>>
    decreases s.len(),
{
    let n = index_of(s, c);
    if 0 <= n < s.len() {
        seq![s.take(n)] + fields(s.skip(n + 1), c)
    } else {
        seq![s]
    }
}

/// A line without the carriage return that stands before its line feed.
pub open spec fn without_return(s: Seq<char>) -> Seq<char> {
    if s.len() > 0 && s.last() == '\r' {
        s.drop_last()
    } else {
        s
    }
}

/// The lines of a text: what ends in a line feed, with or without a carriage return before it,
/// and what follows the last of them if it is not empty.
pub open spec fn lines(s: Seq<char>) -> Seq<Seq<char>>
    decreases s.len(),
{
    let n = index_of(s, '\n');
    if s.len() == 0 {
        Seq::empty()
    } else if 0 <= n < s.len() {
        seq![without_return(s.take(n))] + lines(s.skip(n + 1))
    } else {
        seq![s]
    }
}

/// What a text holds before and after the first place where a character stands.
pub open spec fn split_at_first(s: Seq<char>, c: char) -> Option<(Seq<char>, Seq<char>)> {
    let n = index_of(s, c);
    if n < s.len() {
        Some((s.take(n), s.skip(n + 1)))
    } else {
        None
    }
}

/// What follows the last place where a character stands; the whole text where it does not.
pub open spec fn after_last(s: Seq<char>, c: char) -> Seq<char> {
    s.skip(last_index_of(s, c) + 1)
}

/// Whether a text holds another one somewhere.
pub open spec fn holds(s: Seq<char>, part: Seq<char>) -> bool {
    exists|k: int| #![trigger s.skip(k)] 0 <= k <= s.len() && part.is_prefix_of(s.skip(k))
}

/// The texts, with a separator between each two.
pub open spec fn joined(parts: Seq<Seq<char>>, sep: Seq<char>) -> Seq<char>
    decreases parts.len(),
{
    if parts.len() == 0 {
        Seq::empty()
    } else if parts.len() == 1 {
        parts[0]
    } else {
        joined(parts.drop_last(), sep) + sep + parts.last()
    }
}

pub proof fn lemma_index_of(s: Seq<char>, c: char)
    ensures
        0 <= index_of(s, c) <= s.len(),
        index_of(s, c) < s.len() ==> s[index_of(s, c)] == c,
        forall|i: int| 0 <= i < index_of(s, c) ==> #[trigger] s[i] != c,
    decreases s.len(),
{
    if s.len() > 0 && s[0] != c {
        lemma_index_of(s.skip(1), c);
        assert forall|i: int| 0 <= i < index_of(s, c) implies #[trigger] s[i] != c by {
            if i > 0 {
                assert(s.skip(1)[i - 1] == s[i]);
            }
        }
    }
}

pub proof fn lemma_last_index_of(s: Seq<char>, c: char)
    ensures
        -1 <= last_index_of(s, c) < s.len(),
        0 <= last_index_of(s, c) ==> s[last_index_of(s, c)] == c,
        forall|i: int| last_index_of(s, c) < i < s.len() ==> #[trigger] s[i] != c,
    decreases s.len(),
{
    if s.len() > 0 && s.last() != c {
        lemma_last_index_of(s.drop_last(), c);
        assert forall|i: int| last_index_of(s, c) < i < s.len() implies #[trigger] s[i] != c by {
            if i < s.len() - 1 {
                assert(s.drop_last()[i] == s[i]);
            }
        }
    }
}

/// The first place from `from` on where a character stands, or the length.
fn find(chars: &Vec<char>, from: usize, c: char) -> (i: usize)
    requires
        from <= chars@.len(),
    ensures
        from <= i <= chars@.len(),
        i - from == index_of(chars@.skip(from as int), c),
{
    let mut i: usize = from;
    while i < chars.len() && chars[i] != c
        invariant
            from <= i <= chars@.len(),
            index_of(chars@.skip(from as int), c) == (i - from) + index_of(
                chars@.skip(i as int),
                c,
            ),
        decreases chars@.len() - i,
    {
        assert(chars@.skip(i as int).skip(1) =~= chars@.skip(i as int + 1));
        i += 1;
    }
    i
}

/// What a text holds before and after the first place where a character stands.
pub fn split_once(s: &str, c: char) -> (r: Option<(String, String)>)
    ensures
        match r {
            Some((a, b)) => split_at_first(s@, c) == Some((a@, b@)),
            None => split_at_first(s@, c) is None,
        },
{
    let chars = chars_of(s);
    let n = find(&chars, 0, c);
    assert(chars@.skip(0) =~= s@);
    if n < chars.len() {
        let a = text_of(chars.as_slice(), 0, n);
        let b = text_of(chars.as_slice(), n + 1, chars.len());
        assert(a@ =~= s@.take(n as int));
        assert(b@ =~= s@.skip(n as int + 1));
        Some((a, b))
    } else {
        None
    }
}

/// What a text holds before and after the last place where a character stands.
pub fn rsplit_once(s: &str, c: char) -> (r: Option<(String, String)>)
    ensures
        match r {
            Some((a, b)) => {
                &&& last_index_of(s@, c) >= 0
                &&& a@ == s@.take(last_index_of(s@, c))
                &&& b@ == after_last(s@, c)
            },
            None => last_index_of(s@, c) == -1,
        },
{
    let chars = chars_of(s);
    let mut n: usize = chars.len();
    assert(chars@.take(n as int) =~= s@);
    while n > 0
        invariant
            n <= chars@.len(),
            chars@ == s@,
            last_index_of(s@, c) == last_index_of(s@.take(n as int), c),
        decreases n,
    {
        if chars[n - 1] == c {
            let a = text_of(chars.as_slice(), 0, n - 1);
            let b = text_of(chars.as_slice(), n, chars.len());
            assert(a@ =~= s@.take(n as int - 1));
            assert(b@ =~= s@.skip(n as int));
            return Some((a, b));
        }
        assert(s@.take(n as int).drop_last() =~= s@.take(n as int - 1));
        n -= 1;
    }
    None
}

/// What follows the last place where a character stands; the whole text where it does not.
pub fn last_part(s: &str, c: char) -> (out: String)
    ensures
        out@ == after_last(s@, c),
{
    match rsplit_once(s, c) {
        Some((_, b)) => b,
        None => {
            assert(s@.skip(0) =~= s@);
            s.to_owned()
        },
    }
}

/// The fields of a text that a character separates.
pub fn split_fields(s: &str, c: char) -> (out: Vec<String>)
    ensures
        views(out@) == fields(s@, c),
{
    let chars = chars_of(s);
    let mut out: Vec<String> = Vec::new();
    let mut i: usize = 0;
    assert(chars@.skip(0) =~= s@);
    assert(views(out@) =~= Seq::empty());
    assert(Seq::<Seq<char>>::empty() + fields(s@, c) =~= fields(s@, c));
    loop
        invariant
            i <= chars@.len(),
            fields(s@, c) == views(out@) + fields(chars@.skip(i as int), c),
        decreases chars@.len() - i,
    {
        let n = find(&chars, i, c);
        let ghost rest = chars@.skip(i as int);
        let ghost before = views(out@);
        let field = text_of(chars.as_slice(), i, n);
        assert(field@ =~= rest.take(n - i));
        assert(views(out@.push(field)) =~= before.push(field@));
        out.push(field);
        if n == chars.len() {
            assert(rest.take(n - i) =~= rest);
            assert(before + seq![field@] =~= before.push(field@));
            return out;
        }
        assert(rest.skip(n - i + 1) =~= chars@.skip(n as int + 1));
        assert(before + (seq![field@] + fields(chars@.skip(n as int + 1), c)) =~= before.push(
            field@,
        ) + fields(chars@.skip(n as int + 1), c));
        i = n + 1;
    }
}

/// The lines of a text.
pub fn split_lines(s: &str) -> (out: Vec<String>)
    ensures
        views(out@) == lines(s@),
{
    let chars = chars_of(s);
    let mut out: Vec<String> = Vec::new();
    let mut i: usize = 0;
    assert(chars@.skip(0) =~= s@);
    assert(views(out@) =~= Seq::empty());
    assert(Seq::<Seq<char>>::empty() + lines(s@) =~= lines(s@));
    while i < chars.len()
        invariant
            i <= chars@.len(),
            lines(s@) == views(out@) + lines(chars@.skip(i as int)),
        decreases chars@.len() - i,
    {
        let n = find(&chars, i, '\n');
        let ghost rest = chars@.skip(i as int);
        let ghost before = views(out@);
        if n == chars.len() {
            let line = text_of(chars.as_slice(), i, n);
            assert(line@ =~= rest);
            assert(views(out@.push(line)) =~= before.push(line@));
            out.push(line);
            assert(before + seq![rest] =~= before.push(rest));
            i = n;
            assert(lines(chars@.skip(i as int)) =~= Seq::empty());
            assert(before.push(rest) + Seq::<Seq<char>>::empty() =~= before.push(rest));
        } else {
            let end: usize = if n > i && chars[n - 1] == '\r' {
                n - 1
            } else {
                n
            };
            let line = text_of(chars.as_slice(), i, end);
            assert(rest.take(n - i).len() == n - i);
            assert(n > i ==> rest.take(n - i).last() == chars@[n as int - 1]);
            assert(line@ =~= without_return(rest.take(n - i)));
            assert(views(out@.push(line)) =~= before.push(line@));
            out.push(line);
            assert(rest.skip(n - i + 1) =~= chars@.skip(n as int + 1));
            assert(before + (seq![line@] + lines(chars@.skip(n as int + 1))) =~= before.push(
                line@,
            ) + lines(chars@.skip(n as int + 1)));
            i = n + 1;
        }
    }
    assert(lines(chars@.skip(i as int)) =~= Seq::empty());
    assert(views(out@) + Seq::<Seq<char>>::empty() =~= views(out@));
    out
}

/// Whether the characters from `from` on start with those of a text.
fn prefix_at(chars: &Vec<char>, from: usize, part: &Vec<char>) -> (r: bool)
    requires
        from <= chars@.len(),
    ensures
        r == part@.is_prefix_of(chars@.skip(from as int)),
{
    let ghost rest = chars@.skip(from as int);
    let len: usize = chars.len();
    if len - from < part.len() {
        return false;
    }
    let mut i: usize = 0;
    while i < part.len()
        invariant
            i <= part@.len(),
            from <= chars@.len(),
            len == chars@.len(),
            part@.len() <= chars@.len() - from,
            rest == chars@.skip(from as int),
            forall|j: int| 0 <= j < i ==> part@[j] == rest[j],
        decreases part@.len() - i,
    {
        if chars[from + i] != part[i] {
            assert(rest[i as int] != part@[i as int]);
            assert(rest.subrange(0, part@.len() as int)[i as int] != part@[i as int]);
            return false;
        }
        i += 1;
    }
    assert(part@ =~= rest.subrange(0, part@.len() as int));
    true
}

/// Whether a text starts with another one.
pub fn starts_with(s: &str, part: &str) -> (r: bool)
    ensures
        r == part@.is_prefix_of(s@),
{
    let chars = chars_of(s);
    let wanted = chars_of(part);
    assert(chars@.skip(0) =~= s@);
    prefix_at(&chars, 0, &wanted)
}

/// What follows a text at the start of another one, if it stands there.
pub fn strip_prefix(s: &str, part: &str) -> (r: Option<String>)
    ensures
        match r {
            Some(rest) => part@.is_prefix_of(s@) && rest@ == s@.skip(part@.len() as int),
            None => !part@.is_prefix_of(s@),
        },
{
    let chars = chars_of(s);
    let wanted = chars_of(part);
    assert(chars@.skip(0) =~= s@);
    if prefix_at(&chars, 0, &wanted) {
        let rest = text_of(chars.as_slice(), wanted.len(), chars.len());
        assert(rest@ =~= s@.skip(part@.len() as int));
        Some(rest)
    } else {
        None
    }
}

/// Whether a text holds another one somewhere.
pub fn contains(s: &str, part: &str) -> (r: bool)
    ensures
        r == holds(s@, part@),
{
    let chars = chars_of(s);
    let wanted = chars_of(part);
    let mut i: usize = 0;
    loop
        invariant
            i <= chars@.len(),
            chars@ == s@,
            wanted@ == part@,
            forall|k: int| 0 <= k < i ==> !part@.is_prefix_of(#[trigger] s@.skip(k)),
        decreases chars@.len() - i,
    {
        if prefix_at(&chars, i, &wanted) {
            return true;
        }
        if i == chars.len() {
            return false;
        }
        i += 1;
    }
}

/// The first place where a text holds another one, or one past its end where it does not.
pub open spec fn place_of_text(s: Seq<char>, part: Seq<char>) -> int
    decreases s.len(),
{
    if part.is_prefix_of(s) {
        0
    } else if s.len() == 0 {
        1
    } else {
        1 + place_of_text(s.skip(1), part)
    }
}

/// What a text holds before and after the first place where another one stands.
pub fn split_once_at(s: &str, part: &str) -> (r: Option<(String, String)>)
    ensures
        ({
            let n = place_of_text(s@, part@);
            match r {
                Some((a, b)) => n <= s@.len() && a@ == s@.take(n) && b@ == s@.skip(
                    n + part@.len(),
                ),
                None => n > s@.len(),
            }
        }),
{
    let chars = chars_of(s);
    let wanted = chars_of(part);
    assert(chars@.skip(0) =~= s@);
    let mut i: usize = 0;
    loop
        invariant
            i <= chars@.len(),
            chars@ == s@,
            wanted@ == part@,
            place_of_text(s@, part@) == i + place_of_text(s@.skip(i as int), part@),
        decreases chars@.len() - i,
    {
        if prefix_at(&chars, i, &wanted) {
            let a = text_of(chars.as_slice(), 0, i);
            assert(wanted@.len() <= chars@.skip(i as int).len());
            assert(chars@.len() == chars.len());
            let b = text_of(chars.as_slice(), i + wanted.len(), chars.len());
            assert(a@ =~= s@.take(i as int));
            assert(b@ =~= s@.skip(i + part@.len()));
            return Some((a, b));
        }
        if i == chars.len() {
            return None;
        }
        assert(s@.skip(i as int).skip(1) =~= s@.skip(i as int + 1));
        i += 1;
    }
}

/// A number of spaces.
pub open spec fn spaces(n: nat) -> Seq<char> {
    Seq::new(n, |i: int| ' ')
}

/// A text, with spaces after it up to a width.
pub open spec fn padded(s: Seq<char>, width: nat) -> Seq<char> {
    if s.len() < width {
        s + spaces((width - s.len()) as nat)
    } else {
        s
    }
}

/// Adds a text, with spaces after it up to a width.
pub fn push_padded(out: &mut String, s: &str, width: usize)
    ensures
        final(out)@ == old(out)@ + padded(s@, width as nat),
{
    let ghost before = out@;
    out.append(s);
    let mut n: usize = chars_of(s).len();
    let ghost len = s@.len();
    assert(before + s@ =~= before + (s@ + spaces(0)));
    while n < width
        invariant
            len == s@.len(),
            len <= n,
            n <= width || n == len,
            out@ == before + (s@ + spaces((n - len) as nat)),
        decreases width - n,
    {
        out.push(' ');
        n += 1;
        assert(s@ + spaces((n - len) as nat) =~= (s@ + spaces((n - 1 - len) as nat)).push(' '));
        assert(before + (s@ + spaces((n - len) as nat)) =~= (before + (s@ + spaces(
            (n - 1 - len) as nat,
        ))).push(' '));
    }
    assert(s@ + spaces(0) =~= s@);
}

/// The texts, with a separator between each two.
pub fn join(parts: &Vec<String>, sep: &str) -> (out: String)
    ensures
        out@ == joined(views(parts@), sep@),
{
    let mut out = String::new();
    let mut i: usize = 0;
    assert(views(parts@).take(0) =~= Seq::empty());
    while i < parts.len()
        invariant
            i <= parts@.len(),
            out@ == joined(views(parts@).take(i as int), sep@),
        decreases parts@.len() - i,
    {
        let ghost before = views(parts@).take(i as int);
        if i > 0 {
            out.append(sep);
        }
        out.append(parts[i].as_str());
        i += 1;
        let ghost now = views(parts@).take(i as int);
        assert(now.drop_last() =~= before);
        assert(now.last() == parts@[i as int - 1]@);
        if i == 1 {
            assert(Seq::<char>::empty() + parts@[0]@ =~= parts@[0]@);
        }
    }
    assert(views(parts@).take(i as int) =~= views(parts@));
    out
}

} // verus!
