//! Whether a local service has work in progress, by the counters that it publishes.
//!
//! A service that is up is not a service that is in use. What tells them apart is whether its
//! counters move.
use vstd::prelude::*;
use vstd::string::StringExecFns;

use crate::fact::FactState;
use crate::policy::FactSettings;
use crate::reading::{ago, ago_text, Reading};
use crate::text::{
    chars_of, contains, decimal, holds, in_list, index_of, is_space, last_index_of,
    lines, place_of_text, push_decimal, rsplit_once, same, space, split_lines, split_once,
    split_once_at, split_words, starts_with, strip_prefix, text_of, trim, trimmed, trimmed_start,
    views, word_run, words,
};
use crate::time::{between, whole_secs, BootInstant, Duration};

verus! {

/// How long the counters must stand still where no configuration says so: in seconds.
pub const DEFAULT_IDLE_WINDOW_SECS: u64 = 1_800;

/// How long the service may take to answer: in seconds.
pub const TIMEOUT_SECS: u64 = 3;

/// The longest answer that is read: in bytes.
pub const MAX_RESPONSE: usize = 4_194_304;

// ---- what a service publishes ---------------------------------------------------------

/// What a service publishes, as far as it matters here.
#[derive(Clone, Copy, Debug, PartialEq, Eq, Structural)]
pub struct Sample {
    /// The sum of the counters. Only whether it changes means anything.
    pub counters: u64,
    /// The work that the service says it is doing.
    pub in_flight: u64,
}

/// The metrics that are declared to be of a kind, in order.
pub open spec fn declared(rows: Seq<Seq<char>>, kind: Seq<char>) -> Seq<Seq<char>>
    decreases rows.len(),
{
    if rows.len() == 0 {
        Seq::empty()
    } else {
        let before = declared(rows.drop_last(), kind);
        let parts = words(rows.last().skip("# TYPE "@.len() as int));
        if "# TYPE "@.is_prefix_of(rows.last()) && parts.len() >= 2 && parts[1] == kind {
            before.push(parts[0])
        } else {
            before
        }
    }
}

/// How far the name of a metric runs: up to its labels, or up to white space.
pub open spec fn name_run(line: Seq<char>) -> int {
    if index_of(line, '{') < word_run(line) {
        index_of(line, '{')
    } else {
        word_run(line) as int
    }
}

/// Where the brace stands that ends the labels, from a place in them on that is quoted or not. One
/// that is quoted ends nothing, nor does a quotation mark with a backslash before it.
pub open spec fn closing(text: Seq<char>, from: int, quoted: bool) -> Option<int>
    decreases text.len() - from,
{
    if from >= text.len() {
        None
    } else if quoted && text[from] == '\\' {
        if from + 1 < text.len() {
            closing(text, from + 2, true)
        } else {
            None
        }
    } else if text[from] == '"' {
        closing(text, from + 1, !quoted)
    } else if !quoted && text[from] == '}' {
        Some(from)
    } else {
        closing(text, from + 1, quoted)
    }
}

/// How far the labels run that a text starts with. Where no brace ends them, up to the last space.
pub open spec fn labels_run(text: Seq<char>) -> int {
    match closing(text, 0, false) {
        Some(at) => at + 1,
        None => if last_index_of(text, ' ') >= 0 {
            last_index_of(text, ' ')
        } else {
            text.len() as int
        },
    }
}

/// A text without the labels that it starts with, if it starts with any.
pub open spec fn without_labels(text: Seq<char>) -> Seq<char> {
    if text.len() > 0 && text[0] == '{' {
        text.skip(labels_run(text))
    } else {
        text
    }
}

/// The metric of a line and the text of its value, if it has both: the value is the first word
/// after the name and its labels. What may follow it says when it was measured.
pub open spec fn metric(row: Seq<char>) -> Option<(Seq<char>, Seq<char>)> {
    let line = trimmed(row);
    let name = line.take(name_run(line));
    let parts = words(without_labels(trimmed(line.skip(name_run(line)))));
    if "#"@.is_prefix_of(row) || parts.len() == 0 {
        None
    } else {
        Some((name, parts[0]))
    }
}

/// The metrics of the lines and the texts of their values, in order.
pub open spec fn metrics(rows: Seq<Seq<char>>) -> Seq<(Seq<char>, Seq<char>)>
    decreases rows.len(),
{
    if rows.len() == 0 {
        Seq::empty()
    } else {
        let before = metrics(rows.drop_last());
        match metric(rows.last()) {
            Some(found) => before.push(found),
            None => before,
        }
    }
}

/// Whether the name of a metric suggests work in progress.
pub open spec fn suggests_work(name: Seq<char>) -> bool {
    holds(name, "processing"@) || holds(name, "in_flight"@) || holds(name, "inflight"@) || holds(
        name,
        "active_requests"@,
    )
}

/// A sum, as far as it can be counted.
pub open spec fn capped_sum(a: u64, b: u64) -> u64 {
    if a + b <= u64::MAX {
        (a + b) as u64
    } else {
        u64::MAX
    }
}

/// What the metrics come to. Of each, its whole value, if it has one. Where neither a counter nor a
/// gauge is declared, every metric is taken for a counter.
pub open spec fn tally(
    names: Seq<Seq<char>>,
    wholes: Seq<Option<u64>>,
    counters: Seq<Seq<char>>,
    gauges: Seq<Seq<char>>,
) -> Option<Sample>
    decreases names.len(),
{
    if names.len() == 0 {
        None
    } else {
        let before = tally(names.drop_last(), wholes, counters, gauges);
        let sum = match before {
            Some(sample) => sample,
            None => Sample { counters: 0, in_flight: 0 },
        };
        let name = names.last();
        let at = names.len() - 1;
        if at < wholes.len() && wholes[at] is Some {
            let whole = wholes[at]->Some_0;
            let typed = counters.len() > 0 || gauges.len() > 0;
            if !typed || counters.contains(name) {
                Some(Sample { counters: capped_sum(sum.counters, whole), ..sum })
            } else if gauges.contains(name) && suggests_work(name) {
                Some(Sample { in_flight: capped_sum(sum.in_flight, whole), ..sum })
            } else {
                Some(sum)
            }
        } else {
            before
        }
    }
}

/// What a published text comes to, by the whole values of its metrics in order.
pub open spec fn sample_of(body: Seq<char>, wholes: Seq<Option<u64>>) -> Option<Sample> {
    let rows = lines(body);
    tally(
        metrics(rows).map_values(|m: (Seq<char>, Seq<char>)| m.0),
        wholes,
        declared(rows, "counter"@),
        declared(rows, "gauge"@),
    )
}

fn declared_as(rows: &Vec<String>, kind: &str) -> (r: Vec<String>)
    ensures
        views(r@) == declared(views(rows@), kind@),
{
    let ghost all = views(rows@);
    let mut out: Vec<String> = Vec::new();
    let mut i: usize = 0;
    assert(views(out@) =~= Seq::empty());
    while i < rows.len()
        invariant
            i <= rows@.len(),
            all == views(rows@),
            views(out@) == declared(all.take(i as int), kind@),
        decreases rows@.len() - i,
    {
        assert(all[i as int] == rows@[i as int]@);
        assert(all.take(i as int + 1).drop_last() =~= all.take(i as int));
        match strip_prefix(rows[i].as_str(), "# TYPE ") {
            Some(rest) => {
                let parts = split_words(rest.as_str());
                assert(views(parts@).len() == parts@.len());
                if parts.len() >= 2 {
                    assert(views(parts@)[0] == parts@[0]@ && views(parts@)[1] == parts@[1]@);
                    if same(parts[1].as_str(), kind) {
                        let name = parts[0].clone();
                        let ghost before = views(out@);
                        assert(views(out@.push(name)) =~= before.push(name@));
                        out.push(name);
                    }
                }
            },
            None => {},
        }
        i += 1;
    }
    assert(all.take(i as int) =~= all);
    out
}

/// Where the name of a metric ends.
fn end_of_name(chars: &Vec<char>) -> (n: usize)
    ensures
        n <= chars@.len(),
        n == name_run(chars@),
{
    let mut n: usize = 0;
    assert(chars@.skip(0) =~= chars@);
    while n < chars.len() && !space(chars[n]) && chars[n] != '{'
        invariant
            n <= chars@.len(),
            word_run(chars@) == n + word_run(chars@.skip(n as int)),
            index_of(chars@, '{') == n + index_of(chars@.skip(n as int), '{'),
        decreases chars@.len() - n,
    {
        assert(chars@.skip(n as int).skip(1) =~= chars@.skip(n as int + 1));
        n += 1;
    }
    proof {
        crate::text::lemma_index_of(chars@.skip(n as int), '{');
    }
    n
}

/// Where the labels end that a text starts with.
fn end_of_labels(text: &str, chars: &Vec<char>) -> (n: usize)
    requires
        chars@ == text@,
    ensures
        n <= chars@.len(),
        n == labels_run(text@),
{
    let mut i: usize = 0;
    let mut quoted = false;
    while i < chars.len()
        invariant
            i <= chars@.len(),
            chars@ == text@,
            closing(text@, 0, false) == closing(text@, i as int, quoted),
        decreases chars@.len() - i,
    {
        let c = chars[i];
        if quoted && c == '\\' {
            if i + 1 < chars.len() {
                i += 2;
            } else {
                i += 1;
            }
        } else if c == '"' {
            quoted = !quoted;
            i += 1;
        } else if !quoted && c == '}' {
            return i + 1;
        } else {
            i += 1;
        }
    }
    proof {
        crate::text::lemma_last_index_of(text@, ' ');
    }
    match rsplit_once(text, ' ') {
        Some((before, _)) => chars_of(before.as_str()).len(),
        None => chars.len(),
    }
}

fn skip_labels(text: &str) -> (r: String)
    ensures
        r@ == without_labels(text@),
{
    let chars = chars_of(text);
    let from: usize = if chars.len() > 0 && chars[0] == '{' {
        end_of_labels(text, &chars)
    } else {
        0
    };
    let rest = text_of(chars.as_slice(), from, chars.len());
    assert(rest@ =~= text@.skip(from as int));
    assert(text@.skip(0) =~= text@);
    rest
}

fn metric_of(row: &str) -> (r: Option<(String, String)>)
    ensures
        match r {
            Some((name, value)) => metric(row@) == Some((name@, value@)),
            None => metric(row@) is None,
        },
{
    if starts_with(row, "#") {
        return None;
    }
    let line = trim(row);
    let chars = chars_of(line.as_str());
    let n = end_of_name(&chars);
    let name = text_of(chars.as_slice(), 0, n);
    let rest = text_of(chars.as_slice(), n, chars.len());
    assert(name@ =~= line@.take(n as int));
    assert(rest@ =~= line@.skip(n as int));
    let rest = skip_labels(trim(rest.as_str()).as_str());
    let parts = split_words(rest.as_str());
    assert(views(parts@).len() == parts@.len());
    if parts.len() == 0 {
        return None;
    }
    assert(views(parts@)[0] == parts@[0]@);
    Some((name, parts[0].clone()))
}

/// Whether a text is one word.
pub open spec fn is_word(text: Seq<char>) -> bool {
    &&& text.len() > 0
    &&& forall|i: int| 0 <= i < text.len() ==> !is_space(#[trigger] text[i])
}

/// Whether a text can be the name of a metric: it holds neither white space nor a brace that opens
/// labels.
pub open spec fn is_name(text: Seq<char>) -> bool {
    forall|i: int| 0 <= i < text.len() ==> !is_space(#[trigger] text[i]) && text[i] != '{'
}

/// Whether a text is the labels of a metric, or none: a brace opens them, and the one that ends them
/// is the last character.
pub open spec fn is_labels(text: Seq<char>) -> bool {
    text.len() > 0 ==> text[0] == '{' && closing(text, 0, false) == Some(text.len() - 1)
}

proof fn lemma_name_run(name: Seq<char>, rest: Seq<char>)
    requires
        is_name(name),
        rest.len() > 0,
        is_space(rest[0]) || rest[0] == '{',
    ensures
        name_run(name + rest) == name.len(),
    decreases name.len(),
{
    let s = name + rest;
    if name.len() == 0 {
        assert(s =~= rest);
        crate::text::lemma_index_of(rest, '{');
    } else {
        assert(s.skip(1) =~= name.skip(1) + rest);
        assert(s[0] == name[0]);
        assert forall|i: int| 0 <= i < name.skip(1).len() implies !is_space(
            #[trigger] name.skip(1)[i],
        ) && name.skip(1)[i] != '{' by {
            assert(name.skip(1)[i] == name[i + 1]);
        }
        lemma_name_run(name.skip(1), rest);
    }
}

proof fn lemma_closing(labels: Seq<char>, rest: Seq<char>, from: int, quoted: bool)
    requires
        0 <= from,
        closing(labels, from, quoted) is Some,
    ensures
        closing(labels + rest, from, quoted) == closing(labels, from, quoted),
    decreases labels.len() - from,
{
    let s = labels + rest;
    if from < labels.len() {
        assert(s[from] == labels[from]);
        if quoted && labels[from] == '\\' {
            if from + 1 < labels.len() {
                lemma_closing(labels, rest, from + 2, true);
            }
        } else if labels[from] == '"' {
            lemma_closing(labels, rest, from + 1, !quoted);
        } else if !quoted && labels[from] == '}' {
        } else {
            lemma_closing(labels, rest, from + 1, quoted);
        }
    }
}

proof fn lemma_first_word(word: Seq<char>, rest: Seq<char>)
    requires
        is_word(word),
        rest.len() > 0 ==> is_space(rest[0]),
    ensures
        words(word + rest) == seq![word] + words(rest),
{
    let s = word + rest;
    lemma_word_run(word, rest);
    assert(s[0] == word[0]);
    assert(s.take(word.len() as int) =~= word);
    assert(s.skip(word.len() as int) =~= rest);
}

proof fn lemma_word_run(word: Seq<char>, rest: Seq<char>)
    requires
        forall|i: int| 0 <= i < word.len() ==> !is_space(#[trigger] word[i]),
        rest.len() > 0 ==> is_space(rest[0]),
    ensures
        word_run(word + rest) == word.len(),
    decreases word.len(),
{
    let s = word + rest;
    if word.len() == 0 {
        assert(s =~= rest);
    } else {
        assert(s[0] == word[0]);
        assert(s.skip(1) =~= word.skip(1) + rest);
        assert forall|i: int| 0 <= i < word.skip(1).len() implies !is_space(
            #[trigger] word.skip(1)[i],
        ) by {
            assert(word.skip(1)[i] == word[i + 1]);
        }
        lemma_word_run(word.skip(1), rest);
    }
}

proof fn lemma_measured(name: Seq<char>, labels: Seq<char>, value: Seq<char>, rest: Seq<char>)
    requires
        is_name(name),
        name.len() > 0,
        name[0] != '#',
        is_labels(labels),
        is_word(value),
        value[0] != '{',
        rest.len() > 0 ==> is_space(rest[0]) && !is_space(rest.last()),
    ensures
        metric(name + labels + " "@ + value + rest) == Some((name, value)),
{
    reveal_strlit("#");
    reveal_strlit(" ");
    let word = value + rest;
    let tail = " "@ + word;
    let after = labels + tail;
    let row = name + labels + " "@ + value + rest;
    assert(row =~= name + after);
    assert(row[0] == name[0]);
    assert(!"#"@.is_prefix_of(row)) by {
        assert("#"@[0] == '#');
    }
    assert(!is_space(row.last())) by {
        if rest.len() > 0 {
            assert(row.last() == rest.last());
        } else {
            assert(row.last() == value.last());
        }
    }
    assert(trimmed(row) == row);
    assert(is_space(' '));
    lemma_name_run(name, after);
    assert(row.take(name.len() as int) =~= name);
    assert(row.skip(name.len() as int) =~= after);
    assert(after.last() == row.last());
    assert(word.last() == row.last());
    assert(word[0] == value[0]);
    assert(tail.skip(1) =~= word);
    if labels.len() > 0 {
        assert(after[0] == '{');
        assert(trimmed(after) == after);
        lemma_closing(labels, tail, 0, false);
        assert(after.skip(labels.len() as int) =~= tail);
        assert(words(tail) == words(word));
    } else {
        assert(after =~= tail);
        assert(trimmed_start(tail) == trimmed_start(word));
        assert(trimmed(after) == word);
    }
    lemma_first_word(value, rest);
    assert((seq![value] + words(rest))[0] == value);
}

/// The value of a metric is what is read of its line, with or without labels, and whether or not the
/// line says when the value was measured.
pub proof fn a_time_of_measurement_is_never_taken_for_the_value(
    name: Seq<char>,
    labels: Seq<char>,
    value: Seq<char>,
    stamp: Seq<char>,
)
    requires
        is_name(name),
        name.len() > 0,
        name[0] != '#',
        is_labels(labels),
        is_word(value),
        value[0] != '{',
        is_word(stamp),
    ensures
        metric(name + labels + " "@ + value) == Some((name, value)),
        metric(name + labels + " "@ + value + " "@ + stamp) == Some((name, value)),
{
    reveal_strlit(" ");
    let none = Seq::<char>::empty();
    lemma_measured(name, labels, value, none);
    assert(name + labels + " "@ + value + none =~= name + labels + " "@ + value);
    let rest = " "@ + stamp;
    assert(rest.last() == stamp.last());
    lemma_measured(name, labels, value, rest);
    assert(name + labels + " "@ + value + rest =~= name + labels + " "@ + value + " "@ + stamp);
}

/// What pairs of texts hold.
pub open spec fn pair_views(pairs: Seq<(String, String)>) -> Seq<(Seq<char>, Seq<char>)> {
    pairs.map_values(|p: (String, String)| (p.0@, p.1@))
}

/// The metrics that a service publishes and the texts of their values, in order.
pub fn published(body: &str) -> (r: Vec<(String, String)>)
    ensures
        pair_views(r@) == metrics(lines(body@)),
{
    let rows = split_lines(body);
    let ghost all = lines(body@);
    let mut out: Vec<(String, String)> = Vec::new();
    let mut i: usize = 0;
    assert(pair_views(out@) =~= Seq::empty());
    while i < rows.len()
        invariant
            i <= rows@.len(),
            all == views(rows@),
            pair_views(out@) == metrics(all.take(i as int)),
        decreases rows@.len() - i,
    {
        assert(all[i as int] == rows@[i as int]@);
        assert(all.take(i as int + 1).drop_last() =~= all.take(i as int));
        match metric_of(rows[i].as_str()) {
            Some(found) => {
                let ghost before = pair_views(out@);
                assert(pair_views(out@.push(found)) =~= before.push((found.0@, found.1@)));
                out.push(found);
            },
            None => {},
        }
        i += 1;
    }
    assert(all.take(i as int) =~= all);
    out
}

fn suggests(name: &str) -> (r: bool)
    ensures
        r == suggests_work(name@),
{
    contains(name, "processing") || contains(name, "in_flight") || contains(name, "inflight")
        || contains(name, "active_requests")
}

/// Reads what a service publishes, by the whole values of its metrics in the order in which
/// [`published`] gives them. A metric whose value is not a number that can be counted has none.
///
/// Only what is declared to be a counter is summed, and only a gauge whose name suggests work in
/// progress counts as such. A text without a single number is no reading.
pub fn parse(body: &str, wholes: &Vec<Option<u64>>) -> (r: Option<Sample>)
    ensures
        r == sample_of(body@, wholes@),
{
    let rows = split_lines(body);
    let counters = declared_as(&rows, "counter");
    let gauges = declared_as(&rows, "gauge");
    let found = published(body);
    let ghost names = metrics(lines(body@)).map_values(|m: (Seq<char>, Seq<char>)| m.0);
    let ghost summed = views(counters@);
    let ghost gauged = views(gauges@);
    assert(summed.len() == counters@.len() && gauged.len() == gauges@.len());
    assert(pair_views(found@).len() == found@.len());
    let typed = counters.len() > 0 || gauges.len() > 0;
    let mut sum: Option<Sample> = None;
    let mut i: usize = 0;
    while i < found.len()
        invariant
            i <= found@.len(),
            found@.len() == names.len(),
            summed == views(counters@),
            gauged == views(gauges@),
            typed == (summed.len() > 0 || gauged.len() > 0),
            forall|j: int| 0 <= j < names.len() ==> #[trigger] names[j] == found@[j].0@,
            sum == tally(names.take(i as int), wholes@, summed, gauged),
        decreases found@.len() - i,
    {
        assert(names.take(i as int + 1).drop_last() =~= names.take(i as int));
        assert(names[i as int] == found@[i as int].0@);
        let whole: Option<u64> = if i < wholes.len() {
            wholes[i]
        } else {
            None
        };
        match whole {
            Some(whole) => {
                let name = found[i].0.as_str();
                let mut so_far = match sum {
                    Some(sample) => sample,
                    None => Sample { counters: 0, in_flight: 0 },
                };
                if !typed || in_list(&counters, name) {
                    so_far.counters = so_far.counters.saturating_add(whole);
                } else if in_list(&gauges, name) && suggests(name) {
                    so_far.in_flight = so_far.in_flight.saturating_add(whole);
                }
                sum = Some(so_far);
            },
            None => {},
        }
        i += 1;
    }
    assert(names.take(i as int) =~= names);
    sum
}

// ---- asking the service ---------------------------------------------------------------

/// What is asked of a service, and where.
#[derive(Debug)]
pub struct Request {
    /// Where it listens.
    pub addr: String,
    /// What is sent to it.
    pub text: String,
}

/// The part of an address before a path.
pub open spec fn authority_of(rest: Seq<char>) -> Seq<char> {
    rest.take(index_of(rest, '/'))
}

/// The path of an address.
pub open spec fn path_of(rest: Seq<char>) -> Seq<char> {
    if index_of(rest, '/') < rest.len() {
        rest.skip(index_of(rest, '/'))
    } else {
        "/"@
    }
}

/// Where a service listens: on the usual port where none is named.
pub open spec fn listens_at(authority: Seq<char>) -> Seq<char> {
    if last_index_of(authority, ':') >= 0 {
        authority
    } else {
        authority + ":80"@
    }
}

/// The name of a host, without the port.
pub open spec fn host_of(authority: Seq<char>) -> Seq<char> {
    if last_index_of(authority, ':') >= 0 {
        authority.take(last_index_of(authority, ':'))
    } else {
        authority
    }
}

/// What is asked of a service at an address, or why nothing is.
pub fn request_for(url: &str) -> (r: Result<Request, String>)
    ensures
        match r {
            Ok(request) => {
                let rest = url@.skip("http://"@.len() as int);
                &&& "http://"@.is_prefix_of(url@)
                &&& request.addr@ == listens_at(authority_of(rest))
                &&& request.text@ == "GET "@ + path_of(rest) + " HTTP/1.1\r\nHost: "@ + host_of(
                    authority_of(rest),
                )
                    + "\r\nUser-Agent: idlepolicyd\r\nAccept: text/plain\r\nConnection: close\r\n\r\n"@
            },
            Err(why) => {
                &&& !"http://"@.is_prefix_of(url@)
                &&& why@ == if "https://"@.is_prefix_of(url@) {
                    "https is not supported: counters_url is expected to be a loopback endpoint"@
                } else {
                    "not an http:// URL: "@ + url@
                }
            },
        },
{
    let rest = match strip_prefix(url, "http://") {
        Some(rest) => rest,
        None => {
            if starts_with(url, "https://") {
                return Err(
                    "https is not supported: counters_url is expected to be a loopback endpoint".to_owned(),
                );
            }
            let mut why = "not an http:// URL: ".to_owned();
            why.append(url);
            return Err(why);
        },
    };
    proof {
        crate::text::lemma_index_of(rest@, '/');
    }
    let (authority, path) = match split_once(rest.as_str(), '/') {
        Some((before, _)) => {
            let chars = chars_of(rest.as_str());
            let at: usize = chars_of(before.as_str()).len();
            assert(before@.len() == index_of(rest@, '/'));
            let path = text_of(chars.as_slice(), at, chars.len());
            assert(path@ =~= path_of(rest@));
            (before, path)
        },
        None => {
            assert(rest@.take(rest@.len() as int) =~= rest@);
            (rest.clone(), "/".to_owned())
        },
    };
    let mut addr = authority.clone();
    let host = match rsplit_once(authority.as_str(), ':') {
        Some((host, _)) => host,
        None => {
            addr.append(":80");
            authority.clone()
        },
    };
    let mut text = "GET ".to_owned();
    text.append(path.as_str());
    text.append(" HTTP/1.1\r\nHost: ");
    text.append(host.as_str());
    text.append(
        "\r\nUser-Agent: idlepolicyd\r\nAccept: text/plain\r\nConnection: close\r\n\r\n",
    );
    Ok(Request { addr, text })
}

/// The first line of a text, or nothing.
pub open spec fn first_line(text: Seq<char>) -> Seq<char> {
    if lines(text).len() > 0 {
        lines(text)[0]
    } else {
        Seq::empty()
    }
}

/// What an answer holds, or why it cannot be used.
pub open spec fn answer_of(response: Seq<char>) -> Result<Seq<char>, Seq<char>> {
    let at = place_of_text(response, "\r\n\r\n"@);
    let status = first_line(response.take(at));
    if at > response.len() {
        Err("malformed HTTP response"@)
    } else if !holds(status, " 200"@) {
        Err("HTTP status: "@ + status)
    } else {
        Ok(response.skip(at + "\r\n\r\n"@.len()))
    }
}

/// What an answer holds, or why it cannot be used.
pub fn read_response(response: &str) -> (r: Result<String, String>)
    ensures
        match (r, answer_of(response@)) {
            (Ok(body), Ok(text)) => body@ == text,
            (Err(why), Err(text)) => why@ == text,
            _ => false,
        },
{
    match split_once_at(response, "\r\n\r\n") {
        None => Err("malformed HTTP response".to_owned()),
        Some((head, body)) => {
            let rows = split_lines(head.as_str());
            assert(views(rows@).len() == rows@.len());
            let status = if rows.len() > 0 {
                assert(views(rows@)[0] == rows@[0]@);
                rows[0].clone()
            } else {
                String::new()
            };
            assert(status@ =~= first_line(head@));
            if !contains(status.as_str(), " 200") {
                let mut why = "HTTP status: ".to_owned();
                why.append(status.as_str());
                return Err(why);
            }
            Ok(body)
        },
    }
}

// ---- whether it is at work ------------------------------------------------------------

/// What the last sample was, and when the counters last moved.
#[derive(Clone, Copy, Debug, PartialEq, Eq, Structural)]
pub struct Sampler {
    /// The counters at the last sample.
    pub previous: Option<u64>,
    /// When a counter last moved.
    pub last_movement: Option<BootInstant>,
}

/// What is remembered after a sample.
pub open spec fn after_sample(before: Sampler, sample: Sample, now: BootInstant) -> Sampler {
    let moved = before.previous != Some(sample.counters);
    Sampler {
        previous: Some(sample.counters),
        last_movement: if moved || sample.in_flight > 0 {
            Some(now)
        } else {
            before.last_movement
        },
    }
}

/// For how long nothing has moved, by what is remembered.
pub open spec fn idle_since(state: Sampler, now: BootInstant) -> Duration {
    match state.last_movement {
        Some(at) => between(at, now),
        None => between(now, now),
    }
}

/// What a sample says, by what is remembered after it.
pub open spec fn busy_of(
    after: Sampler,
    sample: Sample,
    window: Duration,
    now: BootInstant,
) -> (FactState, Seq<char>) {
    let idle = idle_since(after, now);
    let limit = " (idle window "@ + decimal(whole_secs(window)) + "s)"@;
    if sample.in_flight > 0 {
        (FactState::True, decimal(sample.in_flight as nat) + " request(s) in flight"@)
    } else if idle.nanos < window.nanos {
        (FactState::True, "counters last moved "@ + ago_text(whole_secs(idle)) + limit)
    } else {
        (FactState::False, "no counter has moved for "@ + ago_text(whole_secs(idle)) + limit)
    }
}

/// The span for which the counters must stand still.
pub open spec fn window_of(settings: FactSettings) -> Duration {
    match settings.idle_window {
        Some(window) => window,
        None => crate::time::seconds(1_800),
    }
}

/// What is known of a service: by what is remembered, by what it answered, and by the whole values
/// in it. Without an address there is nothing to know; an answer that cannot be used is doubt.
pub open spec fn service_of(
    before: Sampler,
    settings: FactSettings,
    now: BootInstant,
    fetched: Result<String, String>,
    wholes: Seq<Option<u64>>,
) -> (Sampler, FactState, Seq<char>) {
    match settings.counters_url {
        None => (before, FactState::Unavailable, "no counters_url is configured"@),
        Some(url) => match fetched {
            Err(err) => (
                before,
                FactState::Indeterminate,
                url@ + " could not be read: "@ + err@,
            ),
            Ok(body) => match sample_of(body@, wholes) {
                None => (
                    before,
                    FactState::Indeterminate,
                    url@ + " exposed no counters this detector understands"@,
                ),
                Some(sample) => {
                    let after = after_sample(before, sample, now);
                    let said = busy_of(after, sample, window_of(settings), now);
                    (after, said.0, said.1)
                },
            },
        },
    }
}

impl Default for Sampler {
    fn default() -> (r: Self)
        ensures
            r.previous is None,
            r.last_movement is None,
    {
        Sampler::new()
    }
}

impl Sampler {
    /// Nothing is remembered.
    pub fn new() -> (r: Self)
        ensures
            r.previous is None,
            r.last_movement is None,
    {
        Sampler { previous: None, last_movement: None }
    }

    /// Decides whether a service is at work, by what it answered, and remembers it.
    pub fn sample(
        &mut self,
        settings: &FactSettings,
        now: BootInstant,
        fetched: &Result<String, String>,
        wholes: &Vec<Option<u64>>,
    ) -> (r: Reading)
        ensures
            ({
                let said = service_of(*old(self), *settings, now, *fetched, wholes@);
                *final(self) == said.0 && r.says(said.1, said.2)
            }),
    {
        let url = match &settings.counters_url {
            None => return Reading::absent("no counters_url is configured"),
            Some(url) => url,
        };
        let window = match settings.idle_window {
            Some(window) => window,
            None => Duration::from_secs(DEFAULT_IDLE_WINDOW_SECS),
        };
        let mut detail = url.clone();
        let body = match fetched {
            Ok(body) => body,
            Err(err) => {
                detail.append(" could not be read: ");
                detail.append(err.as_str());
                return Reading::doubt(detail.as_str());
            },
        };
        let sample = match parse(body.as_str(), wholes) {
            Some(sample) => sample,
            None => {
                detail.append(" exposed no counters this detector understands");
                return Reading::doubt(detail.as_str());
            },
        };
        let moved = match self.previous {
            None => true,
            Some(previous) => sample.counters != previous,
        };
        self.previous = Some(sample.counters);
        if moved || sample.in_flight > 0 {
            self.last_movement = Some(now);
        }
        let since = match self.last_movement {
            Some(at) => at,
            None => now,
        };
        let idle = now.since(since);
        if sample.in_flight > 0 {
            let mut said = String::new();
            push_decimal(&mut said, sample.in_flight as u128);
            assert(said@ =~= decimal(sample.in_flight as nat));
            said.append(" request(s) in flight");
            return Reading::yes(said.as_str());
        }
        let age = ago(idle);
        let mut limit = " (idle window ".to_owned();
        push_decimal(&mut limit, window.as_secs() as u128);
        limit.append("s)");
        if idle.nanos < window.nanos {
            let mut said = "counters last moved ".to_owned();
            said.append(age.as_str());
            said.append(limit.as_str());
            Reading::yes(said.as_str())
        } else {
            let mut said = "no counter has moved for ".to_owned();
            said.append(age.as_str());
            said.append(limit.as_str());
            Reading::no(said.as_str())
        }
    }
}

/// At the first sample nothing is known of the past, so a service counts as in use.
pub proof fn the_first_sample_is_in_use(
    settings: FactSettings,
    now: BootInstant,
    body: String,
    wholes: Seq<Option<u64>>,
)
    requires
        settings.counters_url is Some,
        sample_of(body@, wholes) is Some,
        window_of(settings).nanos > 0,
    ensures
        service_of(
            Sampler { previous: None, last_movement: None },
            settings,
            now,
            Ok(body),
            wholes,
        ).1 == FactState::True,
{
}

/// A service that cannot be read is never taken to be idle.
pub proof fn a_service_that_cannot_be_read_is_not_idle(
    before: Sampler,
    settings: FactSettings,
    now: BootInstant,
    fetched: Result<String, String>,
    wholes: Seq<Option<u64>>,
)
    requires
        settings.counters_url is Some,
        fetched is Err || sample_of(fetched->Ok_0@, wholes) is None,
    ensures
        service_of(before, settings, now, fetched, wholes).1 == FactState::Indeterminate,
        service_of(before, settings, now, fetched, wholes).0 == before,
{
}

/// Work that began and ended between two samples still shows: a counter that moved since the last
/// sample makes the service in use, however long ago the last movement was.
pub proof fn movement_between_samples_is_seen(
    before: Sampler,
    settings: FactSettings,
    now: BootInstant,
    body: String,
    wholes: Seq<Option<u64>>,
)
    requires
        settings.counters_url is Some,
        sample_of(body@, wholes) is Some,
        before.previous != Some((sample_of(body@, wholes)->Some_0).counters),
        window_of(settings).nanos > 0,
    ensures
        service_of(before, settings, now, Ok(body), wholes).1 == FactState::True,
        service_of(before, settings, now, Ok(body), wholes).0.last_movement == Some(now),
{
}

} // verus!
