//! How texts are taken apart and put together: fields, words, lines and numbers.
use vstd::prelude::*;

use crate::reading::ago_text;
use crate::text::{
    after_last, decimal, fields, holds, index_of, is_digit, is_space, joined, last_index_of,
    lemma_decimal_reads_back, lemma_index_of, lemma_last_index_of, lines, padded, parsed_unsigned,
    place_of_text, signed_decimal, split_at_first, trimmed, trimmed_end, trimmed_start,
    unsigned_digits, word_run, words,
};

verus! {

/// Whether a character stands nowhere in a text.
pub open spec fn lacks(s: Seq<char>, c: char) -> bool {
    forall|i: int| 0 <= i < s.len() ==> #[trigger] s[i] != c
}

/// Whether every character of a text is white space.
pub open spec fn blank(s: Seq<char>) -> bool {
    forall|i: int| 0 <= i < s.len() ==> is_space(#[trigger] s[i])
}

/// Whether no character of a text is white space, and there is one.
pub open spec fn one_word(s: Seq<char>) -> bool {
    s.len() > 0 && forall|i: int| 0 <= i < s.len() ==> !is_space(#[trigger] s[i])
}

/// White space is what Unicode says it is.
pub proof fn white_space_is_that_of_unicode(c: char)
    ensures
        is_space(c) <==> {
            ||| 9 <= c as u32 <= 13
            ||| c as u32 == 32
            ||| c as u32 == 133
            ||| c as u32 == 160
            ||| c as u32 == 5_760
            ||| 8_192 <= c as u32 <= 8_202
            ||| c as u32 == 8_232
            ||| c as u32 == 8_233
            ||| c as u32 == 8_239
            ||| c as u32 == 8_287
            ||| c as u32 == 12_288
        },
{
}

pub proof fn lemma_index_at(a: Seq<char>, c: char, rest: Seq<char>)
    requires
        lacks(a, c),
    ensures
        index_of(a + seq![c] + rest, c) == a.len(),
        index_of(a, c) == a.len(),
{
    let s = a + seq![c] + rest;
    lemma_index_of(s, c);
    lemma_index_of(a, c);
    assert(s[a.len() as int] == c);
    let n = index_of(s, c);
    if n < a.len() {
        assert(s[n] == a[n]);
    }
    if index_of(a, c) < a.len() {
        assert(a[index_of(a, c)] == c);
    }
}

pub proof fn lemma_last_index_at(a: Seq<char>, c: char, rest: Seq<char>)
    requires
        lacks(rest, c),
    ensures
        last_index_of(a + seq![c] + rest, c) == a.len(),
        last_index_of(rest, c) == -1,
{
    let s = a + seq![c] + rest;
    lemma_last_index_of(s, c);
    lemma_last_index_of(rest, c);
    assert(s[a.len() as int] == c);
    let n = last_index_of(s, c);
    if n > a.len() {
        assert(s[n] == rest[n - a.len() - 1]);
    }
    if last_index_of(rest, c) >= 0 {
        assert(rest[last_index_of(rest, c)] == c);
    }
}

/// What stands before the first separator is the first field, what follows it has the others, and a
/// text without a separator is a field on its own.
pub proof fn fields_are_what_a_separator_parts(a: Seq<char>, c: char, rest: Seq<char>)
    requires
        lacks(a, c),
    ensures
        fields(a, c) == seq![a],
        fields(a + seq![c] + rest, c) == seq![a] + fields(rest, c),
        split_at_first(a, c) is None,
        split_at_first(a + seq![c] + rest, c) == Some((a, rest)),
{
    let s = a + seq![c] + rest;
    lemma_index_at(a, c, rest);
    assert(s.take(a.len() as int) =~= a);
    assert(s.skip(a.len() as int + 1) =~= rest);
}

/// What follows the last separator is the last part, and a text without one is that as a whole.
pub proof fn the_last_part_follows_the_last_separator(a: Seq<char>, c: char, rest: Seq<char>)
    requires
        lacks(rest, c),
    ensures
        after_last(rest, c) == rest,
        after_last(a + seq![c] + rest, c) == rest,
{
    let s = a + seq![c] + rest;
    lemma_last_index_at(a, c, rest);
    assert(s.skip(a.len() as int + 1) =~= rest);
    assert(rest.skip(0) =~= rest);
}

proof fn lemma_word_at(word: Seq<char>, rest: Seq<char>)
    requires
        forall|i: int| 0 <= i < word.len() ==> !is_space(#[trigger] word[i]),
        rest.len() > 0 ==> is_space(rest[0]),
    ensures
        word_run(word + rest) == word.len(),
    decreases word.len(),
{
    let s = word + rest;
    if word.len() == 0 {
        assert(s =~= rest);
    } else {
        assert(s.skip(1) =~= word.skip(1) + rest);
        assert(s[0] == word[0]);
        assert forall|i: int| 0 <= i < word.skip(1).len() implies !is_space(
            #[trigger] word.skip(1)[i],
        ) by {
            assert(word.skip(1)[i] == word[i + 1]);
        }
        lemma_word_at(word.skip(1), rest);
    }
}

/// White space parts words and is part of none: in front of a word it changes nothing, and behind one
/// it ends it.
pub proof fn words_are_what_white_space_parts(word: Seq<char>, gap: char, rest: Seq<char>)
    requires
        one_word(word),
        is_space(gap),
    ensures
        words(Seq::<char>::empty()).len() == 0,
        words(seq![gap] + rest) == words(rest),
        words(word) == seq![word],
        words(word + seq![gap] + rest) == seq![word] + words(rest),
{
    let lead = seq![gap] + rest;
    assert(lead.skip(1) =~= rest);
    lemma_word_at(word, Seq::empty());
    assert(word + Seq::<char>::empty() =~= word);
    assert(word.take(word.len() as int) =~= word);
    assert(word.skip(word.len() as int) =~= Seq::empty());
    assert(seq![word] + Seq::<Seq<char>>::empty() =~= seq![word]);
    let s = word + seq![gap] + rest;
    assert(s =~= word + lead);
    lemma_word_at(word, lead);
    assert(s.take(word.len() as int) =~= word);
    assert(s.skip(word.len() as int) =~= lead);
    assert(s[0] == word[0]);
}

proof fn lemma_trimmed_start(s: Seq<char>)
    ensures
        exists|k: int|
            #![trigger s.skip(k)]
            0 <= k <= s.len() && trimmed_start(s) == s.skip(k) && blank(s.take(k)),
        trimmed_start(s).len() > 0 ==> !is_space(trimmed_start(s)[0]),
    decreases s.len(),
{
    if s.len() > 0 && is_space(s[0]) {
        let t = s.skip(1);
        lemma_trimmed_start(t);
        let k = choose|k: int|
            #![trigger t.skip(k)]
            0 <= k <= t.len() && trimmed_start(t) == t.skip(k) && blank(t.take(k));
        assert(s.skip(k + 1) =~= t.skip(k));
        assert forall|i: int| 0 <= i < k + 1 implies is_space(#[trigger] s.take(k + 1)[i]) by {
            if i > 0 {
                assert(s.take(k + 1)[i] == t.take(k)[i - 1]);
            }
        }
        assert(trimmed_start(s) == s.skip(k + 1));
    } else {
        assert(s.skip(0) =~= s);
        assert(blank(s.take(0)));
    }
}

proof fn lemma_trimmed_end(s: Seq<char>)
    ensures
        exists|k: int|
            #![trigger s.take(k)]
            0 <= k <= s.len() && trimmed_end(s) == s.take(k) && blank(s.skip(k)),
        trimmed_end(s).len() > 0 ==> !is_space(trimmed_end(s)[trimmed_end(s).len() - 1]),
    decreases s.len(),
{
    if s.len() > 0 && is_space(s.last()) {
        let t = s.drop_last();
        lemma_trimmed_end(t);
        let k = choose|k: int|
            #![trigger t.take(k)]
            0 <= k <= t.len() && trimmed_end(t) == t.take(k) && blank(t.skip(k));
        assert(s.take(k) =~= t.take(k));
        assert forall|i: int| 0 <= i < s.len() - k implies is_space(#[trigger] s.skip(k)[i]) by {
            if i < t.len() - k {
                assert(s.skip(k)[i] == t.skip(k)[i]);
            }
        }
        assert(trimmed_end(s) == s.take(k));
    } else {
        assert(s.take(s.len() as int) =~= s);
        assert(blank(s.skip(s.len() as int)));
    }
}

/// Taking white space away takes nothing else, and leaves none at either end.
pub proof fn only_white_space_is_taken_away(s: Seq<char>)
    ensures
        exists|j: int, k: int|
            #![trigger s.subrange(j, k)]
            0 <= j <= k <= s.len() && trimmed(s) == s.subrange(j, k) && blank(s.take(j)) && blank(
                s.skip(k),
            ),
        trimmed(s).len() > 0 ==> !is_space(trimmed(s)[0]) && !is_space(
            trimmed(s)[trimmed(s).len() - 1],
        ),
        exists|k: int|
            #![trigger s.take(k)]
            0 <= k <= s.len() && trimmed_end(s) == s.take(k) && blank(s.skip(k)),
        trimmed_end(s).len() > 0 ==> !is_space(trimmed_end(s)[trimmed_end(s).len() - 1]),
{
    let t = trimmed_start(s);
    lemma_trimmed_start(s);
    lemma_trimmed_end(t);
    lemma_trimmed_end(s);
    let j = choose|j: int|
        #![trigger s.skip(j)]
        0 <= j <= s.len() && t == s.skip(j) && blank(s.take(j));
    let k = choose|k: int|
        #![trigger t.take(k)]
        0 <= k <= t.len() && trimmed_end(t) == t.take(k) && blank(t.skip(k));
    assert(s.subrange(j, j + k) =~= t.take(k));
    assert(s.skip(j + k) =~= t.skip(k));
    if trimmed(s).len() > 0 {
        assert(trimmed(s)[0] == t[0]);
    }
}

/// A text that neither starts nor ends with white space stays as it is, and one around which there is
/// some is as it is without.
pub proof fn white_space_around_a_text_is_no_part_of_it(before: Seq<char>, s: Seq<char>, after: Seq<char>)
    requires
        blank(before),
        blank(after),
        s.len() > 0 ==> !is_space(s[0]) && !is_space(s[s.len() - 1]),
    ensures
        trimmed(before + s + after) == s,
    decreases before.len(),
{
    let whole = before + s + after;
    if before.len() > 0 {
        assert(whole[0] == before[0]);
        assert(whole.skip(1) =~= before.skip(1) + s + after);
        assert forall|i: int| 0 <= i < before.skip(1).len() implies is_space(
            #[trigger] before.skip(1)[i],
        ) by {
            assert(before.skip(1)[i] == before[i + 1]);
        }
        white_space_around_a_text_is_no_part_of_it(before.skip(1), s, after);
    } else if s.len() > 0 {
        assert(whole[0] == s[0]);
        assert(whole =~= s + after);
        lemma_end_of(s, after);
    } else {
        assert(whole =~= after);
        lemma_all_blank(after);
    }
}

proof fn lemma_end_of(s: Seq<char>, after: Seq<char>)
    requires
        blank(after),
        s.len() > 0 ==> !is_space(s[s.len() - 1]),
    ensures
        trimmed_end(s + after) == s,
    decreases after.len(),
{
    let whole = s + after;
    if after.len() > 0 {
        assert(whole.last() == after[after.len() - 1]);
        assert(whole.drop_last() =~= s + after.drop_last());
        assert forall|i: int| 0 <= i < after.drop_last().len() implies is_space(
            #[trigger] after.drop_last()[i],
        ) by {
            assert(after.drop_last()[i] == after[i]);
        }
        lemma_end_of(s, after.drop_last());
    } else {
        assert(whole =~= s);
    }
}

proof fn lemma_all_blank(s: Seq<char>)
    requires
        blank(s),
    ensures
        trimmed_start(s) == Seq::<char>::empty(),
        trimmed(s) == Seq::<char>::empty(),
    decreases s.len(),
{
    if s.len() > 0 {
        assert forall|i: int| 0 <= i < s.skip(1).len() implies is_space(#[trigger] s.skip(1)[i]) by {
            assert(s.skip(1)[i] == s[i + 1]);
        }
        lemma_all_blank(s.skip(1));
    } else {
        assert(s =~= Seq::empty());
    }
}

/// A line ends at a line feed, without it and without the carriage return before it; what follows the
/// last one is a line if there is anything.
pub proof fn lines_end_at_a_line_feed(line: Seq<char>, rest: Seq<char>)
    requires
        lacks(line, '\n'),
    ensures
        lines(Seq::<char>::empty()).len() == 0,
        line.len() > 0 ==> lines(line) == seq![line],
        lines(line + seq!['\n'] + rest) == seq![
            if line.len() > 0 && line[line.len() - 1] == '\r' {
                line.take(line.len() - 1)
            } else {
                line
            },
        ] + lines(rest),
{
    let s = line + seq!['\n'] + rest;
    lemma_index_at(line, '\n', rest);
    assert(s.take(line.len() as int) =~= line);
    assert(s.skip(line.len() as int + 1) =~= rest);
    if line.len() > 0 {
        assert(line.drop_last() =~= line.take(line.len() - 1));
    }
}

/// Parts that are put together stand in their order, with the separator between each two.
pub proof fn parts_are_joined_in_order(parts: Seq<Seq<char>>, more: Seq<char>, sep: Seq<char>)
    ensures
        joined(Seq::<Seq<char>>::empty(), sep).len() == 0,
        parts.len() == 0 ==> joined(parts.push(more), sep) == more,
        parts.len() > 0 ==> joined(parts.push(more), sep) == joined(parts, sep) + sep + more,
{
    assert(parts.push(more).drop_last() =~= parts);
}

/// A text holds another one exactly where that stands somewhere in it.
pub proof fn a_text_holds_what_stands_in_it(s: Seq<char>, part: Seq<char>)
    ensures
        holds(s, part) <==> exists|i: int|
            #![trigger s.subrange(i, i + part.len())]
            0 <= i && i + part.len() <= s.len() && s.subrange(i, i + part.len()) == part,
{
    if holds(s, part) {
        let k = choose|k: int|
            #![trigger s.skip(k)]
            0 <= k <= s.len() && part.is_prefix_of(s.skip(k));
        assert(s.subrange(k, k + part.len()) =~= s.skip(k).subrange(0, part.len() as int));
        assert(s.subrange(k, k + part.len()) == part);
    }
    if exists|i: int|
        #![trigger s.subrange(i, i + part.len())]
        0 <= i && i + part.len() <= s.len() && s.subrange(i, i + part.len()) == part {
        let i = choose|i: int|
            #![trigger s.subrange(i, i + part.len())]
            0 <= i && i + part.len() <= s.len() && s.subrange(i, i + part.len()) == part;
        assert(s.skip(i).subrange(0, part.len() as int) =~= part);
        assert(part.is_prefix_of(s.skip(i)));
    }
}

/// The first place of a text in another one is where it stands and before which it stands nowhere.
pub proof fn the_first_place_is_the_first(s: Seq<char>, part: Seq<char>)
    ensures
        0 <= place_of_text(s, part) <= s.len() + 1,
        place_of_text(s, part) <= s.len() ==> part.is_prefix_of(s.skip(place_of_text(s, part))),
        forall|i: int|
            0 <= i < place_of_text(s, part) && i <= s.len() ==> !part.is_prefix_of(
                #[trigger] s.skip(i),
            ),
    decreases s.len(),
{
    assert(s.skip(0) =~= s);
    if !part.is_prefix_of(s) && s.len() > 0 {
        let t = s.skip(1);
        the_first_place_is_the_first(t, part);
        let n = place_of_text(t, part);
        if n <= t.len() {
            assert(s.skip(n + 1) =~= t.skip(n));
        }
        assert forall|i: int| 0 <= i < place_of_text(s, part) && i <= s.len() implies
            !part.is_prefix_of(#[trigger] s.skip(i)) by {
            if i > 0 {
                assert(s.skip(i) =~= t.skip(i - 1));
            }
        }
    }
}

/// Decimal digits have the value of their place, and the digits of a number are the only ones with its
/// value that do not start with a zero.
pub proof fn numbers_are_written_in_decimal(n: nat, d: nat)
    requires
        d < 10,
    ensures
        decimal(0) == seq!['0'],
        decimal(1) == seq!['1'],
        decimal(2) == seq!['2'],
        decimal(3) == seq!['3'],
        decimal(4) == seq!['4'],
        decimal(5) == seq!['5'],
        decimal(6) == seq!['6'],
        decimal(7) == seq!['7'],
        decimal(8) == seq!['8'],
        decimal(9) == seq!['9'],
        n > 0 ==> decimal(10 * n + d) == decimal(n) + decimal(d),
        n > 0 ==> signed_decimal(-(n as int)) == seq!['-'] + decimal(n),
        signed_decimal(n as int) == decimal(n),
{
    reveal_strlit("-");
    assert("-"@ =~= seq!['-']);
    if n > 0 {
        assert((10 * n + d) / 10 == n);
        assert((10 * n + d) % 10 == d);
        assert(decimal(n) + decimal(d) =~= decimal(n).push(crate::text::digit_char(d)));
    }
}

/// A number that is not too large reads back from its digits, with a plus sign or without; a larger
/// one does not, and nor does anything that is not made of digits alone.
pub proof fn numbers_read_back(n: nat, limit: nat, s: Seq<char>)
    ensures
        n <= limit ==> parsed_unsigned(decimal(n), limit) == Some(n),
        n <= limit ==> parsed_unsigned(seq!['+'] + decimal(n), limit) == Some(n),
        n > limit ==> parsed_unsigned(decimal(n), limit) is None,
        parsed_unsigned(Seq::<char>::empty(), limit) is None,
        parsed_unsigned(s, limit) is Some ==> forall|i: int|
            0 <= i < s.len() ==> ('0' <= #[trigger] s[i] <= '9' || (i == 0 && s[i] == '+')),
{
    lemma_decimal_reads_back(n);
    let plus = seq!['+'] + decimal(n);
    assert(plus.skip(1) =~= decimal(n));
    assert(plus[0] == '+');
    if parsed_unsigned(s, limit) is Some {
        let digits = unsigned_digits(s);
        assert forall|i: int| 0 <= i < s.len() implies ('0' <= #[trigger] s[i] <= '9' || (i == 0
            && s[i] == '+')) by {
            if s[0] == '+' {
                if i > 0 {
                    assert(digits[i - 1] == s[i]);
                    assert(is_digit(digits[i - 1]));
                }
            } else {
                assert(is_digit(digits[i]));
            }
        }
    }
}

/// A text is filled up with spaces behind it, and never cut short.
pub proof fn a_text_is_filled_up_to_its_width(s: Seq<char>, width: nat, i: int)
    ensures
        padded(s, width).len() == (if s.len() >= width {
            s.len()
        } else {
            width
        }),
        0 <= i < s.len() ==> padded(s, width)[i] == s[i],
        s.len() <= i < width ==> padded(s, width)[i] == ' ',
{
}

/// A past time is told in seconds up to a minute and a half, in minutes up to an hour and a half, and
/// else in hours and minutes. What is left over is dropped.
pub proof fn a_past_time_is_told_in_round_numbers(hours: nat, minutes: nat, secs: nat)
    requires
        minutes < 60,
        secs < 60,
    ensures
        ({
            let all = 3_600 * hours + 60 * minutes + secs;
            &&& all < 90 ==> ago_text(all) == decimal(all) + "s ago"@
            &&& 90 <= all < 5_400 ==> ago_text(all) == decimal(60 * hours + minutes) + "m ago"@
            &&& 5_400 <= all && minutes < 10 ==> ago_text(all) == decimal(hours) + "h"@ + ("0"@
                + decimal(minutes)) + "m ago"@
            &&& 5_400 <= all && minutes >= 10 ==> ago_text(all) == decimal(hours) + "h"@ + decimal(
                minutes,
            ) + "m ago"@
        }),
{
    let all = 3_600 * hours + 60 * minutes + secs;
    assert(all / 60 == 60 * hours + minutes);
    assert(all / 60 / 60 == hours);
    assert(all / 60 % 60 == minutes);
}

} // verus!
