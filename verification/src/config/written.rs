//! What is written in a configuration: spans of time, and the keys of its tables.
use vstd::prelude::*;

use super::document::{
    block_in, blocks_in, fact_in, facts_in, file_in, general_in, whole, Fault, Tree,
};
use super::section::{BlockKeys, FactKeys, FileKeys, Written};
use super::timeout::{
    digit_run, duration_of, significant, sum_of_terms, timeout_of, unit_secs, TimeoutError,
};
use crate::spelling::{blank, white_space_around_a_text_is_no_part_of_it};
use crate::text::{
    all_digits, decimal, is_digit, is_space, lemma_decimal_reads_back, trimmed,
};
use crate::time::{Duration, Timeout};

verus! {

// ---- spans of time --------------------------------------------------------------------

/// How many seconds a unit has: a second, a minute, an hour or a day.
pub open spec fn seconds_in(unit: char) -> nat {
    if unit == 's' {
        1
    } else if unit == 'm' {
        60
    } else if unit == 'h' {
        3_600
    } else {
        86_400
    }
}

/// Whether a character is a unit.
pub open spec fn is_unit(c: char) -> bool {
    c == 's' || c == 'm' || c == 'h' || c == 'd'
}

/// A number with its unit.
pub open spec fn quantity(count: nat, unit: char) -> Seq<char> {
    decimal(count) + seq![unit]
}

/// Whether every character means something in a span.
spec fn dense(s: Seq<char>) -> bool {
    forall|i: int| 0 <= i < s.len() ==> #[trigger] s[i] != '_' && !is_space(s[i])
}

proof fn lemma_dense_is_kept(s: Seq<char>)
    requires
        dense(s),
    ensures
        significant(s) == s,
        trimmed(s) == s,
    decreases s.len(),
{
    let none = Seq::<char>::empty();
    white_space_around_a_text_is_no_part_of_it(none, s, none);
    assert(none + s + none =~= s);
    if s.len() > 0 {
        let shorter = s.drop_last();
        assert forall|i: int| 0 <= i < shorter.len() implies #[trigger] shorter[i] != '_'
            && !is_space(shorter[i]) by {
            assert(s[i] != '_' && !is_space(s[i]));
        }
        lemma_dense_is_kept(shorter);
        assert(s.last() == s[s.len() - 1]);
        assert(shorter.push(s.last()) =~= s);
    } else {
        assert(significant(s) =~= s);
    }
}

proof fn lemma_digits_of(digits: Seq<char>, rest: Seq<char>)
    requires
        all_digits(digits),
        rest.len() > 0 ==> !is_digit(rest[0]),
    ensures
        digit_run(digits + rest) == digits.len(),
    decreases digits.len(),
{
    let s = digits + rest;
    if digits.len() == 0 {
        assert(s =~= rest);
    } else {
        let fewer = digits.skip(1);
        assert forall|i: int| 0 <= i < fewer.len() implies is_digit(#[trigger] fewer[i]) by {
            assert(is_digit(digits[i + 1]));
        }
        lemma_digits_of(fewer, rest);
        assert(s.skip(1) =~= fewer + rest);
        assert(is_digit(digits[0]));
        assert(s[0] == digits[0]);
    }
}

proof fn lemma_quantity_adds(count: nat, unit: char, rest: Seq<char>, so_far: nat)
    requires
        is_unit(unit),
    ensures
        so_far + count * seconds_in(unit) <= u64::MAX ==> sum_of_terms(
            quantity(count, unit) + rest,
            so_far,
        ) == sum_of_terms(rest, so_far + count * seconds_in(unit)),
        so_far + count * seconds_in(unit) > u64::MAX ==> sum_of_terms(
            quantity(count, unit) + rest,
            so_far,
        ) == Err::<nat, TimeoutError>(TimeoutError::Overflow),
{
    lemma_decimal_reads_back(count);
    let digits = decimal(count);
    let tail = seq![unit] + rest;
    let s = quantity(count, unit) + rest;
    assert(s =~= digits + tail);
    assert(tail[0] == unit);
    lemma_digits_of(digits, tail);
    assert(s.take(digits.len() as int) =~= digits);
    assert(s[digits.len() as int] == unit);
    assert(s.skip(digits.len() as int + 1) =~= rest);
    assert(unit_secs(unit) == Some(seconds_in(unit)));
}

proof fn lemma_quantity_is_dense(count: nat, unit: char)
    requires
        is_unit(unit),
    ensures
        dense(quantity(count, unit)),
        quantity(count, unit).len() > 1,
        is_digit(quantity(count, unit)[0]),
{
    lemma_decimal_reads_back(count);
    let digits = decimal(count);
    let s = quantity(count, unit);
    assert forall|i: int| 0 <= i < s.len() implies #[trigger] s[i] != '_' && !is_space(s[i]) by {
        if i < digits.len() {
            assert(is_digit(digits[i]));
        }
    }
    assert(is_digit(digits[0]));
}

proof fn lemma_dense_together(a: Seq<char>, b: Seq<char>)
    requires
        dense(a),
        dense(b),
    ensures
        dense(a + b),
{
    let s = a + b;
    assert forall|i: int| 0 <= i < s.len() implies #[trigger] s[i] != '_' && !is_space(s[i]) by {
        if i < a.len() {
            assert(a[i] != '_' && !is_space(a[i]));
        } else {
            assert(b[i - a.len()] != '_' && !is_space(b[i - a.len()]));
        }
    }
}

proof fn lemma_never_is_no_number(s: Seq<char>)
    requires
        s.len() > 0,
        is_digit(s[0]),
    ensures
        s != "never"@,
{
    reveal_strlit("never");
    assert("never"@[0] == 'n');
}

/// A number with its unit is so many of that unit, and too many of it are refused.
pub proof fn a_quantity_is_so_many_of_its_unit(count: nat, unit: char)
    requires
        is_unit(unit),
    ensures
        count * seconds_in(unit) <= u64::MAX ==> timeout_of(quantity(count, unit)) == Ok::<
            Timeout,
            TimeoutError,
        >(
            Timeout::After(
                Duration { nanos: (count * seconds_in(unit) * 1_000_000_000) as u128 },
            ),
        ),
        count * seconds_in(unit) > u64::MAX ==> timeout_of(quantity(count, unit)) == Err::<
            Timeout,
            TimeoutError,
        >(TimeoutError::Overflow),
{
    let none = Seq::<char>::empty();
    lemma_quantity_is_dense(count, unit);
    lemma_dense_is_kept(quantity(count, unit));
    lemma_never_is_no_number(quantity(count, unit));
    lemma_quantity_adds(count, unit, none, 0);
    assert(quantity(count, unit) + none =~= quantity(count, unit));
}

/// Several quantities add up, in whatever order and whether or not a unit comes twice, and with or
/// without a space or an underscore between them.
pub proof fn quantities_add_up(a: nat, first: char, b: nat, second: char, gap: char)
    requires
        is_unit(first),
        is_unit(second),
        gap == '_' || is_space(gap),
        a * seconds_in(first) + b * seconds_in(second) <= u64::MAX,
    ensures
        timeout_of(quantity(a, first) + quantity(b, second)) == Ok::<Timeout, TimeoutError>(
            Timeout::After(
                Duration {
                    nanos: ((a * seconds_in(first) + b * seconds_in(second))
                        * 1_000_000_000) as u128,
                },
            ),
        ),
        timeout_of(quantity(a, first) + seq![gap] + quantity(b, second)) == timeout_of(
            quantity(a, first) + quantity(b, second),
        ),
{
    let none = Seq::<char>::empty();
    let x = quantity(a, first);
    let y = quantity(b, second);
    lemma_quantity_is_dense(a, first);
    lemma_quantity_is_dense(b, second);
    lemma_dense_together(x, y);
    lemma_dense_is_kept(x + y);
    assert((x + y)[0] == x[0]);
    lemma_never_is_no_number(x + y);
    lemma_quantity_adds(a, first, y, 0);
    lemma_quantity_adds(b, second, none, a * seconds_in(first));
    assert(y + none =~= y);
    assert(a * seconds_in(first) >= 0) by (nonlinear_arith);
    assert(b * seconds_in(second) >= 0) by (nonlinear_arith);
    let s = x + seq![gap] + y;
    lemma_gap_is_dropped(x, gap, y);
    white_space_around_a_text_is_no_part_of_it(none, s, none);
    assert(none + s + none =~= s);
    assert(s[0] == x[0]);
    assert(s[s.len() - 1] == y[y.len() - 1]);
    lemma_never_is_no_number(s);
}

proof fn lemma_gap_is_dropped(x: Seq<char>, gap: char, y: Seq<char>)
    requires
        gap == '_' || is_space(gap),
    ensures
        significant(x + seq![gap] + y) == significant(x + y),
    decreases y.len(),
{
    let s = x + seq![gap] + y;
    if y.len() == 0 {
        assert(s.last() == gap);
        assert(s.drop_last() =~= x + y);
    } else {
        assert(s.last() == y.last());
        assert((x + y).last() == y.last());
        assert(s.drop_last() =~= x + seq![gap] + y.drop_last());
        assert((x + y).drop_last() =~= x + y.drop_last());
        lemma_gap_is_dropped(x, gap, y.drop_last());
    }
}

/// Days, hours, minutes and seconds add up to one span.
pub proof fn days_hours_minutes_and_seconds_add_up(d: nat, h: nat, m: nat, s: nat)
    requires
        d * 86_400 + h * 3_600 + m * 60 + s <= u64::MAX,
    ensures
        timeout_of(quantity(d, 'd') + (quantity(h, 'h') + (quantity(m, 'm') + quantity(s, 's'))))
            == Ok::<Timeout, TimeoutError>(
            Timeout::After(
                Duration {
                    nanos: ((d * 86_400 + h * 3_600 + m * 60 + s) * 1_000_000_000) as u128,
                },
            ),
        ),
{
    let none = Seq::<char>::empty();
    let (td, th, tm, ts) = (quantity(d, 'd'), quantity(h, 'h'), quantity(m, 'm'), quantity(s, 's'));
    lemma_quantity_is_dense(d, 'd');
    lemma_quantity_is_dense(h, 'h');
    lemma_quantity_is_dense(m, 'm');
    lemma_quantity_is_dense(s, 's');
    lemma_dense_together(tm, ts);
    lemma_dense_together(th, tm + ts);
    lemma_dense_together(td, th + (tm + ts));
    let all = td + (th + (tm + ts));
    lemma_dense_is_kept(all);
    assert(all[0] == td[0]);
    lemma_never_is_no_number(all);
    lemma_quantity_adds(d, 'd', th + (tm + ts), 0);
    lemma_quantity_adds(h, 'h', tm + ts, d * 86_400);
    lemma_quantity_adds(m, 'm', ts, d * 86_400 + h * 3_600);
    lemma_quantity_adds(s, 's', none, d * 86_400 + h * 3_600 + m * 60);
    assert(ts + none =~= ts);
}

/// The word `never` is never, whatever white space is around it; where a span is required it is
/// refused, and every other timeout is that span.
pub proof fn never_is_spelled_exactly(before: Seq<char>, after: Seq<char>, input: Seq<char>)
    requires
        blank(before),
        blank(after),
    ensures
        timeout_of(before + "never"@ + after) == Ok::<Timeout, TimeoutError>(Timeout::Never),
        duration_of(before + "never"@ + after) == Err::<Duration, TimeoutError>(
            TimeoutError::NeverNotAllowed,
        ),
        timeout_of(input) == Ok::<Timeout, TimeoutError>(Timeout::Never) ==> trimmed(input)
            == "never"@,
        forall|d: Duration|
            timeout_of(input) == Ok::<Timeout, TimeoutError>(Timeout::After(d)) <==> #[trigger]
            duration_of(input) == Ok::<Duration, TimeoutError>(d),
{
    reveal_strlit("never");
    assert("never"@.len() == 5);
    assert("never"@[0] == 'n' && "never"@[4] == 'r');
    white_space_around_a_text_is_no_part_of_it(before, "never"@, after);
}

/// What is empty, has no unit, no number or a unit that there is not is refused as such.
pub proof fn what_is_no_span_is_refused(count: nat, unit: char, c: char, gap: Seq<char>)
    requires
        is_unit(unit),
        !is_unit(c),
        !is_digit(c),
        c != '_',
        !is_space(c),
        blank(gap),
    ensures
        timeout_of(gap) == Err::<Timeout, TimeoutError>(TimeoutError::Empty),
        timeout_of(decimal(count)) == Err::<Timeout, TimeoutError>(TimeoutError::MissingUnit),
        timeout_of(seq![unit]) == Err::<Timeout, TimeoutError>(TimeoutError::MissingNumber),
        timeout_of(decimal(count) + seq![c]) == Err::<Timeout, TimeoutError>(
            TimeoutError::UnknownUnit(c),
        ),
{
    let none = Seq::<char>::empty();
    let digits = decimal(count);
    white_space_around_a_text_is_no_part_of_it(gap, none, none);
    assert(gap + none + none =~= gap);
    lemma_decimal_reads_back(count);
    assert forall|i: int| 0 <= i < digits.len() implies #[trigger] digits[i] != '_' && !is_space(
        digits[i],
    ) by {
        assert(is_digit(digits[i]));
    }
    assert(is_digit(digits[0]));
    lemma_dense_is_kept(digits);
    lemma_never_is_no_number(digits);
    lemma_digits_of(digits, none);
    assert(digits + none =~= digits);
    let u = seq![unit];
    lemma_dense_is_kept(u);
    reveal_strlit("never");
    assert("never"@.len() == 5);
    lemma_digits_of(none, u);
    assert(none + u =~= u);
    let s = digits + seq![c];
    lemma_dense_together(digits, seq![c]);
    lemma_dense_is_kept(s);
    assert(s[0] == digits[0]);
    lemma_never_is_no_number(s);
    lemma_digits_of(digits, seq![c]);
    assert(s[digits.len() as int] == c);
}

// ---- the keys of a table --------------------------------------------------------------

/// Whether a value stands for what is written there: its text, or a whole number.
pub open spec fn stands_written(tree: Tree, written: Option<Written>) -> bool {
    match tree {
        Tree::Text(text) => written == Some(Written::Text(text)),
        Tree::Integer(digits, radix) => match whole(digits, radix as int) {
            Some(n) => written == Some(Written::Integer(n as int)),
            None => false,
        },
        _ => false,
    }
}

/// Whether a value can stand where a span is written.
pub open spec fn can_be_written(tree: Tree) -> bool {
    ||| tree is Text
    ||| tree matches Tree::Integer(digits, radix) && whole(digits, radix as int) is Some
}

/// A further key of the table of a block sets that key of the block, and no other. A key that there is
/// not, or a value of the wrong type, makes the table unreadable.
pub proof fn a_key_of_a_block_sets_its_own(
    rows: Seq<(Seq<char>, usize, Tree)>,
    row: (Seq<char>, usize, Tree),
    path: Seq<char>,
    keys: BlockKeys,
)
    requires
        block_in(rows, path) == Ok::<BlockKeys, Fault>(keys),
    ensures
        ({
            let (key, _, tree) = row;
            let after = block_in(rows.push(row), path);
            &&& key == "enabled"@ ==> (after is Ok <==> tree is Boolean)
            &&& key == "clock"@ ==> (after is Ok <==> tree is Text)
            &&& key == "screen_off"@ || key == "suspend"@ || key == "hibernate"@ || key
                == "poweroff"@ ==> (after is Ok <==> can_be_written(tree))
            &&& key != "enabled"@ && key != "clock"@ && key != "screen_off"@ && key != "suspend"@
                && key != "hibernate"@ && key != "poweroff"@ ==> after is Err
            &&& after matches Ok(now) ==> {
                &&& if key == "enabled"@ {
                    tree matches Tree::Boolean(flag) && now.enabled == Some(flag)
                } else {
                    now.enabled == keys.enabled
                }
                &&& if key == "clock"@ {
                    tree matches Tree::Text(text) && now.clock == Some(text)
                } else {
                    now.clock == keys.clock
                }
                &&& if key == "screen_off"@ {
                    stands_written(tree, now.screen_off)
                } else {
                    now.screen_off == keys.screen_off
                }
                &&& if key == "suspend"@ {
                    stands_written(tree, now.suspend)
                } else {
                    now.suspend == keys.suspend
                }
                &&& if key == "hibernate"@ {
                    stands_written(tree, now.hibernate)
                } else {
                    now.hibernate == keys.hibernate
                }
                &&& if key == "poweroff"@ {
                    stands_written(tree, now.poweroff)
                } else {
                    now.poweroff == keys.poweroff
                }
            }
        }),
        block_in(Seq::empty(), path) matches Ok(none) && none.enabled is None && none.clock is None
            && none.screen_off is None && none.suspend is None && none.hibernate is None
            && none.poweroff is None,
{
    lemma_block_keys_differ();
    assert(rows.push(row).drop_last() =~= rows);
}

proof fn lemma_block_keys_differ()
    ensures
        "enabled"@ != "clock"@,
        "enabled"@ != "screen_off"@,
        "enabled"@ != "suspend"@,
        "enabled"@ != "hibernate"@,
        "enabled"@ != "poweroff"@,
        "clock"@ != "screen_off"@,
        "clock"@ != "suspend"@,
        "clock"@ != "hibernate"@,
        "clock"@ != "poweroff"@,
        "screen_off"@ != "suspend"@,
        "screen_off"@ != "hibernate"@,
        "screen_off"@ != "poweroff"@,
        "suspend"@ != "hibernate"@,
        "suspend"@ != "poweroff"@,
        "hibernate"@ != "poweroff"@,
{
    reveal_strlit("enabled");
    reveal_strlit("clock");
    reveal_strlit("screen_off");
    reveal_strlit("suspend");
    reveal_strlit("hibernate");
    reveal_strlit("poweroff");
    assert("enabled"@[0] == 'e');
    assert("clock"@[0] == 'c');
    assert("screen_off"@[0] == 's' && "screen_off"@[1] == 'c');
    assert("suspend"@[0] == 's' && "suspend"@[1] == 'u');
    assert("hibernate"@[0] == 'h');
    assert("poweroff"@[0] == 'p');
}

/// A further key of the table of a fact sets that key of the fact, and no other. A key that there is
/// not, or a value of the wrong type, makes the table unreadable.
pub proof fn a_key_of_a_fact_sets_its_own(
    rows: Seq<(Seq<char>, usize, Tree)>,
    row: (Seq<char>, usize, Tree),
    path: Seq<char>,
    keys: FactKeys,
)
    requires
        fact_in(rows, path) == Ok::<FactKeys, Fault>(keys),
    ensures
        ({
            let (key, _, tree) = row;
            let after = fact_in(rows.push(row), path);
            &&& key == "enabled"@ ==> (after is Ok <==> tree is Boolean)
            &&& key == "counters_url"@ || key == "steam_root"@ ==> (after is Ok <==> tree is Text)
            &&& key == "idle_window"@ || key == "window"@ ==> (after is Ok <==> can_be_written(tree))
            &&& key != "enabled"@ && key != "counters_url"@ && key != "idle_window"@ && key
                != "steam_root"@ && key != "window"@ ==> after is Err
            &&& after matches Ok(now) ==> {
                &&& if key == "enabled"@ {
                    tree matches Tree::Boolean(flag) && now.enabled == Some(flag)
                } else {
                    now.enabled == keys.enabled
                }
                &&& if key == "counters_url"@ {
                    tree matches Tree::Text(text) && now.counters_url == Some(text)
                } else {
                    now.counters_url == keys.counters_url
                }
                &&& if key == "idle_window"@ {
                    stands_written(tree, now.idle_window)
                } else {
                    now.idle_window == keys.idle_window
                }
                &&& if key == "steam_root"@ {
                    tree matches Tree::Text(text) && now.steam_root == Some(text)
                } else {
                    now.steam_root == keys.steam_root
                }
                &&& if key == "window"@ {
                    stands_written(tree, now.window)
                } else {
                    now.window == keys.window
                }
            }
        }),
        fact_in(Seq::empty(), path) matches Ok(none) && none.enabled is None && none.counters_url
            is None && none.idle_window is None && none.steam_root is None && none.window is None,
{
    reveal_strlit("enabled");
    reveal_strlit("counters_url");
    reveal_strlit("idle_window");
    reveal_strlit("steam_root");
    reveal_strlit("window");
    assert("enabled"@[0] == 'e');
    assert("counters_url"@[0] == 'c');
    assert("idle_window"@[0] == 'i');
    assert("steam_root"@[0] == 's');
    assert("window"@[0] == 'w');
    assert(rows.push(row).drop_last() =~= rows);
}

/// The idle time is the only key of its table, and a file has the five tables and keys that it has:
/// each is read by its own rules into its own place.
pub proof fn a_key_of_a_file_sets_its_own(
    rows: Seq<(Seq<char>, usize, Tree)>,
    row: (Seq<char>, usize, Tree),
    file: FileKeys,
)
    requires
        file_in(rows) == Ok::<FileKeys, Fault>(file),
    ensures
        ({
            let (key, _, tree) = row;
            let after = file_in(rows.push(row));
            &&& key != "version"@ && key != "general"@ && key != "facts"@ && key != "while"@ && key
                != "when"@ ==> after is Err
            &&& key != "version"@ && !(tree is Table) ==> after is Err
            &&& after matches Ok(now) ==> {
                &&& if key == "version"@ {
                    tree matches Tree::Integer(digits, radix) && whole(digits, radix as int)
                        matches Some(n) && now.version == Some(n as u32) && 0 <= n <= u32::MAX
                } else {
                    now.version == file.version
                }
                &&& if key == "general"@ {
                    tree matches Tree::Table(inner) && general_in(inner) == Ok::<
                        Option<Written>,
                        Fault,
                    >(now.min_idle) && now.general
                } else {
                    now.min_idle == file.min_idle && now.general == file.general
                }
                &&& if key == "facts"@ {
                    tree matches Tree::Table(inner) && facts_in(inner) == Ok::<
                        Map<Seq<char>, FactKeys>,
                        Fault,
                    >(now.facts)
                } else {
                    now.facts == file.facts
                }
                &&& if key == "while"@ {
                    tree matches Tree::Table(inner) && blocks_in(inner, "while."@) == Ok::<
                        Map<Seq<char>, BlockKeys>,
                        Fault,
                    >(now.while_blocks)
                } else {
                    now.while_blocks == file.while_blocks
                }
                &&& if key == "when"@ {
                    tree matches Tree::Table(inner) && blocks_in(inner, "when."@) == Ok::<
                        Map<Seq<char>, BlockKeys>,
                        Fault,
                    >(now.when)
                } else {
                    now.when == file.when
                }
            }
        }),
        file_in(Seq::empty()) matches Ok(none) && none.version is None && none.min_idle is None
            && none.facts == Map::<Seq<char>, FactKeys>::empty() && none.while_blocks == Map::<
            Seq<char>,
            BlockKeys,
        >::empty() && none.when == Map::<Seq<char>, BlockKeys>::empty(),
{
    reveal_strlit("version");
    reveal_strlit("general");
    reveal_strlit("facts");
    reveal_strlit("while");
    reveal_strlit("when");
    assert("version"@[0] == 'v');
    assert("general"@[0] == 'g');
    assert("facts"@[0] == 'f');
    assert("while"@[0] == 'w' && "while"@[2] == 'i');
    assert("when"@[0] == 'w' && "when"@[2] == 'e');
    assert(rows.push(row).drop_last() =~= rows);
}

/// The table of the idle time has one key, and a table of tables has each of them under its name.
pub proof fn tables_are_kept_under_their_names(
    rows: Seq<(Seq<char>, usize, Tree)>,
    row: (Seq<char>, usize, Tree),
    path: Seq<char>,
)
    ensures
        general_in(rows) is Ok ==> {
            let after = general_in(rows.push(row));
            &&& row.0 != "min_idle"@ ==> after is Err
            &&& row.0 == "min_idle"@ ==> (after is Ok <==> can_be_written(row.2))
            &&& after matches Ok(min_idle) ==> stands_written(row.2, min_idle)
        },
        general_in(Seq::empty()) == Ok::<Option<Written>, Fault>(None),
        blocks_in(rows, path) matches Ok(tables) ==> {
            let after = blocks_in(rows.push(row), path);
            &&& !(row.2 is Table) ==> after is Err
            &&& after matches Ok(now) ==> now.contains_key(row.0) && now.remove(row.0)
                == tables.remove(row.0) && exists|place: Seq<char>| #[trigger]
                block_in(row.2->Table_0, place) == Ok::<BlockKeys, Fault>(now[row.0])
        },
        facts_in(rows) matches Ok(tables) ==> {
            let after = facts_in(rows.push(row));
            &&& !(row.2 is Table) ==> after is Err
            &&& after matches Ok(now) ==> now.contains_key(row.0) && now.remove(row.0)
                == tables.remove(row.0) && exists|place: Seq<char>| #[trigger]
                fact_in(row.2->Table_0, place) == Ok::<FactKeys, Fault>(now[row.0])
        },
{
    assert(rows.push(row).drop_last() =~= rows);
    if blocks_in(rows, path) is Ok {
        let tables = blocks_in(rows, path)->Ok_0;
        if let Ok(now) = blocks_in(rows.push(row), path) {
            assert(now.remove(row.0) =~= tables.remove(row.0));
        }
    }
    if facts_in(rows) is Ok {
        let tables = facts_in(rows)->Ok_0;
        if let Ok(now) = facts_in(rows.push(row)) {
            assert(now.remove(row.0) =~= tables.remove(row.0));
        }
    }
}

} // verus!
