//! From the text of a file to what it says.
//!
//! The TOML grammar is read by the `toml` crate. What a document may hold is decided here: a key
//! that there is not, or a value of the wrong type, makes the whole file unreadable.
use vstd::prelude::*;
use vstd::string::StringExecFns;

use toml::de::{DeTable, DeValue};

use super::error::{Complaint, ConfigError, ErrorKind, Problem};
use super::section::{
    block_tables, fact_tables, no_block_keys, no_fact_keys, no_file_keys, BlockKeys, BlockSection,
    ConfigFile, FactKeys, FactSection, FileKeys, GeneralSection, TimeoutValue, Written,
};
use crate::names::NameMap;
use crate::text::{chars_of, decimal, last_index_of, push_decimal, same};

verus! {

/// A value of the `toml` crate, with the places of its keys. Nothing is known of what is inside but
/// what [`value_tree`] names.
#[verifier::external_type_specification]
#[verifier::external_body]
pub struct ExDeValue<'i>(toml::de::DeValue<'i>);

/// A value of a document, as a value of the model. Of a kind that no key takes, only the kind.
pub enum Tree {
    /// A text.
    Text(Seq<char>),
    /// A whole number: its digits, after a sign if it has one, and what they count by.
    Integer(Seq<char>, u32),
    /// A truth value.
    Boolean(bool),
    /// A number with a fraction.
    Float,
    /// A date or a time.
    Datetime,
    /// A list.
    Array,
    /// A table: its keys, the places where they stand, in bytes, and its values.
    Table(Seq<(Seq<char>, usize, Tree)>),
}

/// What `toml::de::DeTable::parse` reads a text as: the rows of the document, or the message of the
/// error.
pub uninterp spec fn toml_document(text: Seq<char>) -> Result<
    Seq<(Seq<char>, usize, Tree)>,
    Seq<char>,
>;

/// What a value of the `toml` crate is. The rows of a table are in the order in which it hands them
/// out.
pub uninterp spec fn value_tree(value: DeValue<'_>) -> Tree;

/// One level of a value.
enum Shape {
    Text(String),
    Integer(String, u32),
    Boolean(bool),
    Float,
    Datetime,
    Array,
    Table,
}

/// `toml::de::DeTable::parse`, by which `toml::from_str` parses too, reads a text as a table, or says
/// what is wrong with it. The result is a function of the text, and the names `toml_document` and
/// `value_tree` stand for it.
#[verifier::external_body]
fn read_toml<'i>(text: &'i str) -> (r: Result<DeValue<'i>, String>)
    ensures
        match r {
            Ok(value) => {
                &&& value_tree(value) is Table
                &&& toml_document(text@) == Ok::<Seq<(Seq<char>, usize, Tree)>, Seq<char>>(
                    value_tree(value)->Table_0,
                )
            },
            Err(message) => toml_document(text@) == Err::<
                Seq<(Seq<char>, usize, Tree)>,
                Seq<char>,
            >(message@),
        },
{
    match DeTable::parse(text) {
        Ok(document) => Ok(DeValue::Table(document.into_inner())),
        Err(err) => Err(err.to_string()),
    }
}

/// The variants of `toml::de::DeValue`, told apart: the payload of a text, a whole number and a
/// truth value, and only the kind of the others.
#[verifier::external_body]
fn shape_of(value: &DeValue) -> (r: Shape)
    ensures
        match r {
            Shape::Text(text) => value_tree(*value) == Tree::Text(text@),
            Shape::Integer(digits, radix) => value_tree(*value) == Tree::Integer(digits@, radix),
            Shape::Boolean(flag) => value_tree(*value) == Tree::Boolean(flag),
            Shape::Float => value_tree(*value) == Tree::Float,
            Shape::Datetime => value_tree(*value) == Tree::Datetime,
            Shape::Array => value_tree(*value) == Tree::Array,
            Shape::Table => value_tree(*value) is Table,
        },
{
    match value {
        DeValue::String(text) => Shape::Text(text.to_string()),
        DeValue::Integer(n) => Shape::Integer(n.as_str().to_owned(), n.radix()),
        DeValue::Boolean(flag) => Shape::Boolean(*flag),
        DeValue::Float(_) => Shape::Float,
        DeValue::Datetime(_) => Shape::Datetime,
        DeValue::Array(_) => Shape::Array,
        DeValue::Table(_) => Shape::Table,
    }
}

/// What the rows of a table of the `toml` crate are, in order.
pub open spec fn raw_rows<'i>(rows: Seq<(String, usize, DeValue<'i>)>) -> Seq<
    (Seq<char>, usize, Tree),
> {
    rows.map_values(|row: (String, usize, DeValue<'i>)| (row.0@, row.1, value_tree(row.2)))
}

/// `toml::map::Map::iter` hands out every row of a table, with its key and the place where the key
/// starts.
#[verifier::external_body]
fn rows_in<'i>(table: &DeValue<'i>) -> (r: Vec<(String, usize, DeValue<'i>)>)
    requires
        value_tree(*table) is Table,
    ensures
        raw_rows(r@) == value_tree(*table)->Table_0,
{
    match table {
        DeValue::Table(rows) => rows.iter().map(
            |(key, value)| (key.get_ref().to_string(), key.span().start, value.get_ref().clone()),
        ).collect(),
        _ => Vec::new(),
    }
}

/// A value of a document.
#[derive(Debug)]
pub enum Node {
    /// A text.
    Text(String),
    /// A whole number: its digits, after a sign if it has one, and what they count by.
    Integer(String, u32),
    /// A truth value.
    Boolean(bool),
    /// A number with a fraction.
    Float,
    /// A date or a time.
    Datetime,
    /// A list.
    Array,
    /// A table: its keys, the places where they stand, in bytes, and its values.
    Table(Vec<(String, usize, Node)>),
}

impl Node {
    /// What the value is, as a value of the model.
    pub open spec fn tree(self) -> Tree
        decreases self,
    {
        match self {
            Node::Text(text) => Tree::Text(text@),
            Node::Integer(digits, radix) => Tree::Integer(digits@, radix),
            Node::Boolean(flag) => Tree::Boolean(flag),
            Node::Float => Tree::Float,
            Node::Datetime => Tree::Datetime,
            Node::Array => Tree::Array,
            Node::Table(rows) => Tree::Table(
                Seq::new(
                    rows@.len(),
                    |i: int|
                        if 0 <= i < rows@.len() {
                            (rows@[i].0@, rows@[i].1, rows@[i].2.tree())
                        } else {
                            arbitrary()
                        },
                ),
            ),
        }
    }
}

/// What the rows of a table are, in order.
pub open spec fn row_trees(rows: Seq<(String, usize, Node)>) -> Seq<(Seq<char>, usize, Tree)> {
    rows.map_values(|row: (String, usize, Node)| (row.0@, row.1, row.2.tree()))
}

proof fn lemma_table_tree(rows: Vec<(String, usize, Node)>)
    ensures
        Node::Table(rows).tree() == Tree::Table(row_trees(rows@)),
{
    assert(Node::Table(rows).tree()->Table_0 =~= row_trees(rows@));
}

fn to_node(value: &DeValue) -> (r: Node)
    ensures
        r.tree() == value_tree(*value),
    decreases value_tree(*value),
{
    match shape_of(value) {
        Shape::Text(text) => Node::Text(text),
        Shape::Integer(digits, radix) => Node::Integer(digits, radix),
        Shape::Boolean(flag) => Node::Boolean(flag),
        Shape::Float => Node::Float,
        Shape::Datetime => Node::Datetime,
        Shape::Array => Node::Array,
        Shape::Table => {
            let ghost tree = value_tree(*value);
            assert(decreases_to!(tree => tree->Table_0));
            let raw = rows_in(value);
            let rows = to_rows(&raw);
            proof {
                lemma_table_tree(rows);
            }
            Node::Table(rows)
        },
    }
}

fn to_rows(raw: &Vec<(String, usize, DeValue)>) -> (r: Vec<(String, usize, Node)>)
    ensures
        row_trees(r@) == raw_rows(raw@),
    decreases raw_rows(raw@),
{
    let ghost trees = raw_rows(raw@);
    let mut out: Vec<(String, usize, Node)> = Vec::new();
    let mut i: usize = 0;
    while i < raw.len()
        invariant
            i <= raw@.len(),
            trees == raw_rows(raw@),
            row_trees(out@) == trees.take(i as int),
        decreases raw@.len() - i,
    {
        let ghost row = trees[i as int];
        assert(row == (raw@[i as int].0@, raw@[i as int].1, value_tree(raw@[i as int].2)));
        assert(decreases_to!(trees => row));
        assert(decreases_to!(row => row.2));
        let node = to_node(&raw[i].2);
        let key = raw[i].0.clone();
        let at: usize = raw[i].1;
        let ghost before = row_trees(out@);
        assert(row_trees(out@.push((key, at, node))) =~= before.push(row));
        out.push((key, at, node));
        i += 1;
        assert(trees.take(i as int) =~= trees.take(i as int - 1).push(row));
    }
    assert(trees.take(i as int) =~= trees);
    out
}

// ---- what a document may hold ---------------------------------------------------------

/// The keys of a file.
pub const FILE_KEYS: &'static str = "version, general, facts, while, when";

/// The keys of the `[general]` table.
pub const GENERAL_KEYS: &'static str = "min_idle";

/// The keys that the tables of facts have, all together.
pub const FACT_KEYS: &'static str = "enabled, counters_url, idle_window, steam_root, window";

/// The keys of the table of a block.
pub const BLOCK_KEYS: &'static str = "enabled, clock, screen_off, suspend, hibernate, poweroff";

/// Why a document cannot be read, and the place of the key, in bytes.
#[derive(Debug)]
pub struct Misread {
    /// Why, in words.
    pub message: String,
    /// Where the key starts.
    pub at: usize,
}

/// Why a document cannot be read, as a value of the model.
pub struct Fault {
    /// Why, in words.
    pub message: Seq<char>,
    /// Where the key starts.
    pub at: usize,
}

impl View for Misread {
    type V = Fault;

    open spec fn view(&self) -> Fault {
        Fault { message: self.message@, at: self.at }
    }
}

/// A key that there is not: the message names the keys that there are.
pub open spec fn unknown_key(path: Seq<char>, key: Seq<char>, at: usize, keys: Seq<char>) -> Fault {
    Fault { message: "unknown key \""@ + path + key + "\". Valid keys are: "@ + keys, at }
}

/// A value of the wrong type: the message names the right one.
pub open spec fn wrong_type(path: Seq<char>, key: Seq<char>, at: usize, right: Seq<char>) -> Fault {
    Fault {
        message: "the value of \""@ + path + key + "\" has the wrong type: expected "@ + right,
        at,
    }
}

fn unknown(path: &str, key: &str, at: usize, keys: &str) -> (r: Misread)
    ensures
        r@ == unknown_key(path@, key@, at, keys@),
{
    let mut message = "unknown key \"".to_owned();
    message.append(path);
    message.append(key);
    message.append("\". Valid keys are: ");
    message.append(keys);
    Misread { message, at }
}

fn mistyped(path: &str, key: &str, at: usize, right: &str) -> (r: Misread)
    ensures
        r@ == wrong_type(path@, key@, at, right@),
{
    let mut message = "the value of \"".to_owned();
    message.append(path);
    message.append(key);
    message.append("\" has the wrong type: expected ");
    message.append(right);
    Misread { message, at }
}

/// What a digit stands for, or no digit at all.
pub open spec fn digit_of(c: char) -> Option<int> {
    if '0' <= c <= '9' {
        Some(c as int - '0' as int)
    } else if 'a' <= c <= 'f' {
        Some(c as int - 'a' as int + 10)
    } else if 'A' <= c <= 'F' {
        Some(c as int - 'A' as int + 10)
    } else {
        None
    }
}

/// What digits that count by a number stand for, if all of them do.
pub open spec fn counted(digits: Seq<char>, radix: int) -> Option<int>
    decreases digits.len(),
{
    if digits.len() == 0 {
        Some(0)
    } else {
        match (counted(digits.drop_last(), radix), digit_of(digits.last())) {
            (Some(before), Some(d)) => if d < radix {
                Some(before * radix + d)
            } else {
                None
            },
            _ => None,
        }
    }
}

/// The number that digits stand for, after a sign if there is one, if it is an `i64`.
pub open spec fn whole(text: Seq<char>, radix: int) -> Option<i64> {
    let signed = text.len() > 0 && (text[0] == '-' || text[0] == '+');
    let digits = if signed {
        text.skip(1)
    } else {
        text
    };
    match counted(digits, radix) {
        Some(n) => {
            let value = if signed && text[0] == '-' {
                -n
            } else {
                n
            };
            if digits.len() > 0 && i64::MIN <= value <= i64::MAX {
                Some(value as i64)
            } else {
                None
            }
        },
        None => None,
    }
}

proof fn lemma_counted_grows(digits: Seq<char>, radix: int, k: int)
    requires
        0 <= k <= digits.len(),
        counted(digits, radix) is Some,
    ensures
        counted(digits.take(k), radix) is Some,
        0 <= counted(digits.take(k), radix)->Some_0 <= counted(digits, radix)->Some_0,
    decreases digits.len(),
{
    if digits.len() == 0 {
        assert(digits.take(k) =~= digits);
    } else {
        let before = digits.drop_last();
        let n = counted(before, radix)->Some_0;
        let d = digit_of(digits.last())->Some_0;
        if k < digits.len() {
            lemma_counted_grows(before, radix, k);
            assert(before.take(k) =~= digits.take(k));
        } else {
            lemma_counted_grows(before, radix, before.len() as int);
            assert(before.take(before.len() as int) =~= before);
            assert(digits.take(k) =~= digits);
        }
        assert(n * radix + d >= n) by (nonlinear_arith)
            requires
                n >= 0,
                0 <= d < radix,
        ;
    }
}

fn digit_value(c: char) -> (r: Option<u32>)
    ensures
        match r {
            Some(d) => digit_of(c) == Some(d as int) && d < 16,
            None => digit_of(c) is None,
        },
{
    if '0' <= c && c <= '9' {
        Some(c as u32 - '0' as u32)
    } else if 'a' <= c && c <= 'f' {
        Some(c as u32 - 'a' as u32 + 10)
    } else if 'A' <= c && c <= 'F' {
        Some(c as u32 - 'A' as u32 + 10)
    } else {
        None
    }
}

fn whole_number(text: &str, radix: u32) -> (r: Option<i64>)
    ensures
        r == whole(text@, radix as int),
{
    let chars = chars_of(text);
    let signed = chars.len() > 0 && (chars[0] == '-' || chars[0] == '+');
    let negative = signed && chars[0] == '-';
    let from: usize = if signed {
        1
    } else {
        0
    };
    let ghost digits = text@.skip(from as int);
    assert(text@.skip(0) =~= text@);
    if from == chars.len() {
        return None;
    }
    let mut n: u128 = 0;
    let mut i: usize = from;
    while i < chars.len()
        invariant
            from <= i <= chars@.len(),
            chars@ == text@,
            signed == (text@.len() > 0 && (text@[0] == '-' || text@[0] == '+')),
            digits == (if signed {
                text@.skip(1)
            } else {
                text@
            }),
            digits.len() == text@.len() - from,
            digits == text@.skip(from as int),
            counted(digits.take(i - from), radix as int) == Some(n as int),
            n <= 0x8000_0000_0000_0000,
        decreases chars@.len() - i,
    {
        let ghost next = digits.take(i - from + 1);
        assert(next.drop_last() =~= digits.take(i - from));
        assert(next.last() == chars@[i as int]);
        let d: u32 = match digit_value(chars[i]) {
            Some(d) if d < radix => d,
            _ => {
                proof {
                    if counted(digits, radix as int) is Some {
                        lemma_counted_grows(digits, radix as int, i - from + 1);
                    }
                }
                return None;
            },
        };
        assert(n * radix <= 0x8000_0000_0000_0000 * 0xffff_ffff) by (nonlinear_arith)
            requires
                n <= 0x8000_0000_0000_0000,
                radix <= 0xffff_ffff,
        ;
        n = n * (radix as u128) + (d as u128);
        if n > 0x8000_0000_0000_0000 {
            proof {
                if counted(digits, radix as int) is Some {
                    lemma_counted_grows(digits, radix as int, i - from + 1);
                }
            }
            return None;
        }
        i += 1;
    }
    assert(digits.take(i - from) =~= digits);
    if negative {
        Some((0 - n as i128) as i64)
    } else if n <= i64::MAX as u128 {
        Some(n as i64)
    } else {
        None
    }
}

/// A timeout as it is written: a text, or a bare integer.
pub open spec fn written_in(tree: Tree) -> Option<Written> {
    match tree {
        Tree::Text(text) => Some(Written::Text(text)),
        Tree::Integer(digits, radix) => match whole(digits, radix as int) {
            Some(number) => Some(Written::Integer(number as int)),
            None => None,
        },
        _ => None,
    }
}

fn timeout_in(node: &Node) -> (r: Option<TimeoutValue>)
    ensures
        match r {
            Some(value) => written_in(node.tree()) == Some(value@),
            None => written_in(node.tree()) is None,
        },
{
    match node {
        Node::Text(text) => Some(TimeoutValue::Text(text.clone())),
        Node::Integer(digits, radix) => match whole_number(digits.as_str(), *radix) {
            Some(number) => Some(TimeoutValue::Integer(number)),
            None => None,
        },
        _ => None,
    }
}

fn text_in(node: &Node) -> (r: Option<String>)
    ensures
        match r {
            Some(text) => node.tree() == Tree::Text(text@),
            None => !(node.tree() is Text),
        },
{
    match node {
        Node::Text(text) => Some(text.clone()),
        _ => None,
    }
}

/// The `[general]` table with one more key.
pub open spec fn general_with(min_idle: Option<Written>, row: (Seq<char>, usize, Tree)) -> Result<
    Option<Written>,
    Fault,
> {
    if row.0 == "min_idle"@ {
        match written_in(row.2) {
            Some(written) => Ok(Some(written)),
            None => Err(wrong_type("general."@, row.0, row.1, "a text or a whole number"@)),
        }
    } else {
        Err(unknown_key("general."@, row.0, row.1, GENERAL_KEYS@))
    }
}

/// What a `[general]` table says.
pub open spec fn general_in(rows: Seq<(Seq<char>, usize, Tree)>) -> Result<Option<Written>, Fault>
    decreases rows.len(),
{
    if rows.len() == 0 {
        Ok(None)
    } else {
        match general_in(rows.drop_last()) {
            Ok(min_idle) => general_with(min_idle, rows.last()),
            Err(fault) => Err(fault),
        }
    }
}

fn read_general(rows: &Vec<(String, usize, Node)>) -> (r: Result<GeneralSection, Misread>)
    ensures
        match r {
            Ok(general) => general_in(row_trees(rows@)) == Ok::<Option<Written>, Fault>(
                super::section::value_view(general.min_idle),
            ),
            Err(fault) => general_in(row_trees(rows@)) == Err::<Option<Written>, Fault>(
                fault@,
            ),
        },
{
    let ghost trees = row_trees(rows@);
    let mut min_idle: Option<TimeoutValue> = None;
    let mut i: usize = 0;
    while i < rows.len()
        invariant
            i <= rows@.len(),
            trees == row_trees(rows@),
            general_in(trees.take(i as int)) == Ok::<Option<Written>, Fault>(
                super::section::value_view(min_idle),
            ),
        decreases rows@.len() - i,
    {
        let key = rows[i].0.as_str();
        let at: usize = rows[i].1;
        let node = &rows[i].2;
        assert(trees.take(i as int + 1).drop_last() =~= trees.take(i as int));
        assert(trees.take(i as int + 1).last() == (key@, at, node.tree()));
        if same(key, "min_idle") {
            match timeout_in(node) {
                Some(value) => min_idle = Some(value),
                None => {
                    proof {
                        lemma_general_stops(trees, i as int);
                    }
                    return Err(mistyped("general.", key, at, "a text or a whole number"));
                },
            }
        } else {
            proof {
                lemma_general_stops(trees, i as int);
            }
            return Err(unknown("general.", key, at, GENERAL_KEYS));
        }
        i += 1;
    }
    assert(trees.take(i as int) =~= trees);
    Ok(GeneralSection { min_idle })
}

proof fn lemma_general_stops(rows: Seq<(Seq<char>, usize, Tree)>, i: int)
    requires
        0 <= i < rows.len(),
        general_in(rows.take(i + 1)) is Err,
    ensures
        general_in(rows) == general_in(rows.take(i + 1)),
    decreases rows.len() - i,
{
    if i + 1 < rows.len() {
        assert(rows.take(i + 2).drop_last() =~= rows.take(i + 1));
        lemma_general_stops(rows, i + 1);
    } else {
        assert(rows.take(i + 1) =~= rows);
    }
}

/// The table of a fact with one more key.
pub open spec fn fact_with(keys: FactKeys, path: Seq<char>, row: (Seq<char>, usize, Tree)) -> Result<
    FactKeys,
    Fault,
> {
    if row.0 == "enabled"@ {
        match row.2 {
            Tree::Boolean(flag) => Ok(FactKeys { enabled: Some(flag), ..keys }),
            _ => Err(wrong_type(path, row.0, row.1, "true or false"@)),
        }
    } else if row.0 == "counters_url"@ {
        match row.2 {
            Tree::Text(text) => Ok(FactKeys { counters_url: Some(text), ..keys }),
            _ => Err(wrong_type(path, row.0, row.1, "a text"@)),
        }
    } else if row.0 == "idle_window"@ {
        match written_in(row.2) {
            Some(written) => Ok(FactKeys { idle_window: Some(written), ..keys }),
            None => Err(wrong_type(path, row.0, row.1, "a text or a whole number"@)),
        }
    } else if row.0 == "steam_root"@ {
        match row.2 {
            Tree::Text(text) => Ok(FactKeys { steam_root: Some(text), ..keys }),
            _ => Err(wrong_type(path, row.0, row.1, "a text"@)),
        }
    } else if row.0 == "window"@ {
        match written_in(row.2) {
            Some(written) => Ok(FactKeys { window: Some(written), ..keys }),
            None => Err(wrong_type(path, row.0, row.1, "a text or a whole number"@)),
        }
    } else {
        Err(unknown_key(path, row.0, row.1, FACT_KEYS@))
    }
}

/// What the table of a fact says.
pub open spec fn fact_in(rows: Seq<(Seq<char>, usize, Tree)>, path: Seq<char>) -> Result<
    FactKeys,
    Fault,
>
    decreases rows.len(),
{
    if rows.len() == 0 {
        Ok(no_fact_keys())
    } else {
        match fact_in(rows.drop_last(), path) {
            Ok(keys) => fact_with(keys, path, rows.last()),
            Err(fault) => Err(fault),
        }
    }
}

proof fn lemma_fact_stops(rows: Seq<(Seq<char>, usize, Tree)>, path: Seq<char>, i: int)
    requires
        0 <= i < rows.len(),
        fact_in(rows.take(i + 1), path) is Err,
    ensures
        fact_in(rows, path) == fact_in(rows.take(i + 1), path),
    decreases rows.len() - i,
{
    if i + 1 < rows.len() {
        assert(rows.take(i + 2).drop_last() =~= rows.take(i + 1));
        lemma_fact_stops(rows, path, i + 1);
    } else {
        assert(rows.take(i + 1) =~= rows);
    }
}

fn set_fact_key(section: &mut FactSection, path: &str, key: &str, at: usize, node: &Node) -> (r: Result<
    (),
    Misread,
>)
    ensures
        match r {
            Ok(_) => fact_with(old(section)@, path@, (key@, at, node.tree())) == Ok::<
                FactKeys, Fault,
            >(final(section)@),
            Err(fault) => fact_with(old(section)@, path@, (key@, at, node.tree())) == Err::<
                FactKeys, Fault,
            >(fault@),
        },
{
    let right: &'static str;
    if same(key, "enabled") {
        right = "true or false";
        match node {
            Node::Boolean(flag) => {
                section.enabled = Some(*flag);
                return Ok(());
            },
            _ => {},
        }
    } else if same(key, "counters_url") {
        right = "a text";
        match text_in(node) {
            Some(text) => {
                section.counters_url = Some(text);
                return Ok(());
            },
            None => {},
        }
    } else if same(key, "idle_window") {
        right = "a text or a whole number";
        match timeout_in(node) {
            Some(value) => {
                section.idle_window = Some(value);
                return Ok(());
            },
            None => {},
        }
    } else if same(key, "steam_root") {
        right = "a text";
        match text_in(node) {
            Some(text) => {
                section.steam_root = Some(text);
                return Ok(());
            },
            None => {},
        }
    } else if same(key, "window") {
        right = "a text or a whole number";
        match timeout_in(node) {
            Some(value) => {
                section.window = Some(value);
                return Ok(());
            },
            None => {},
        }
    } else {
        return Err(unknown(path, key, at, FACT_KEYS));
    }
    Err(mistyped(path, key, at, right))
}

fn read_fact(rows: &Vec<(String, usize, Node)>, path: &str) -> (r: Result<FactSection, Misread>)
    ensures
        match r {
            Ok(section) => fact_in(row_trees(rows@), path@) == Ok::<FactKeys, Fault>(section@),
            Err(fault) => fact_in(row_trees(rows@), path@) == Err::<FactKeys, Fault>(
                fault@,
            ),
        },
{
    let ghost trees = row_trees(rows@);
    let mut section = FactSection::new();
    let mut i: usize = 0;
    while i < rows.len()
        invariant
            i <= rows@.len(),
            trees == row_trees(rows@),
            fact_in(trees.take(i as int), path@) == Ok::<FactKeys, Fault>(section@),
        decreases rows@.len() - i,
    {
        let key = rows[i].0.as_str();
        let at: usize = rows[i].1;
        let node = &rows[i].2;
        assert(trees.take(i as int + 1).drop_last() =~= trees.take(i as int));
        assert(trees.take(i as int + 1).last() == (key@, at, node.tree()));
        match set_fact_key(&mut section, path, key, at, node) {
            Ok(_) => {},
            Err(fault) => {
                proof {
                    lemma_fact_stops(trees, path@, i as int);
                }
                return Err(fault);
            },
        }
        i += 1;
    }
    assert(trees.take(i as int) =~= trees);
    Ok(section)
}

/// The table of a block with one more key.
pub open spec fn block_with(keys: BlockKeys, path: Seq<char>, row: (Seq<char>, usize, Tree)) -> Result<
    BlockKeys,
    Fault,
> {
    if row.0 == "enabled"@ {
        match row.2 {
            Tree::Boolean(flag) => Ok(BlockKeys { enabled: Some(flag), ..keys }),
            _ => Err(wrong_type(path, row.0, row.1, "true or false"@)),
        }
    } else if row.0 == "clock"@ {
        match row.2 {
            Tree::Text(text) => Ok(BlockKeys { clock: Some(text), ..keys }),
            _ => Err(wrong_type(path, row.0, row.1, "a text"@)),
        }
    } else if row.0 == "screen_off"@ {
        match written_in(row.2) {
            Some(written) => Ok(BlockKeys { screen_off: Some(written), ..keys }),
            None => Err(wrong_type(path, row.0, row.1, "a text or a whole number"@)),
        }
    } else if row.0 == "suspend"@ {
        match written_in(row.2) {
            Some(written) => Ok(BlockKeys { suspend: Some(written), ..keys }),
            None => Err(wrong_type(path, row.0, row.1, "a text or a whole number"@)),
        }
    } else if row.0 == "hibernate"@ {
        match written_in(row.2) {
            Some(written) => Ok(BlockKeys { hibernate: Some(written), ..keys }),
            None => Err(wrong_type(path, row.0, row.1, "a text or a whole number"@)),
        }
    } else if row.0 == "poweroff"@ {
        match written_in(row.2) {
            Some(written) => Ok(BlockKeys { poweroff: Some(written), ..keys }),
            None => Err(wrong_type(path, row.0, row.1, "a text or a whole number"@)),
        }
    } else {
        Err(unknown_key(path, row.0, row.1, BLOCK_KEYS@))
    }
}

/// What the table of a block says.
pub open spec fn block_in(rows: Seq<(Seq<char>, usize, Tree)>, path: Seq<char>) -> Result<
    BlockKeys,
    Fault,
>
    decreases rows.len(),
{
    if rows.len() == 0 {
        Ok(no_block_keys())
    } else {
        match block_in(rows.drop_last(), path) {
            Ok(keys) => block_with(keys, path, rows.last()),
            Err(fault) => Err(fault),
        }
    }
}

proof fn lemma_block_stops(rows: Seq<(Seq<char>, usize, Tree)>, path: Seq<char>, i: int)
    requires
        0 <= i < rows.len(),
        block_in(rows.take(i + 1), path) is Err,
    ensures
        block_in(rows, path) == block_in(rows.take(i + 1), path),
    decreases rows.len() - i,
{
    if i + 1 < rows.len() {
        assert(rows.take(i + 2).drop_last() =~= rows.take(i + 1));
        lemma_block_stops(rows, path, i + 1);
    } else {
        assert(rows.take(i + 1) =~= rows);
    }
}

fn set_block_key(section: &mut BlockSection, path: &str, key: &str, at: usize, node: &Node) -> (r: Result<
    (),
    Misread,
>)
    ensures
        match r {
            Ok(_) => block_with(old(section)@, path@, (key@, at, node.tree())) == Ok::<
                BlockKeys, Fault,
            >(final(section)@),
            Err(fault) => block_with(old(section)@, path@, (key@, at, node.tree())) == Err::<
                BlockKeys, Fault,
            >(fault@),
        },
{
    let right: &'static str;
    if same(key, "enabled") {
        right = "true or false";
        match node {
            Node::Boolean(flag) => {
                section.enabled = Some(*flag);
                return Ok(());
            },
            _ => {},
        }
    } else if same(key, "clock") {
        right = "a text";
        match text_in(node) {
            Some(text) => {
                section.clock = Some(text);
                return Ok(());
            },
            None => {},
        }
    } else if same(key, "screen_off") {
        right = "a text or a whole number";
        match timeout_in(node) {
            Some(value) => {
                section.screen_off = Some(value);
                return Ok(());
            },
            None => {},
        }
    } else if same(key, "suspend") {
        right = "a text or a whole number";
        match timeout_in(node) {
            Some(value) => {
                section.suspend = Some(value);
                return Ok(());
            },
            None => {},
        }
    } else if same(key, "hibernate") {
        right = "a text or a whole number";
        match timeout_in(node) {
            Some(value) => {
                section.hibernate = Some(value);
                return Ok(());
            },
            None => {},
        }
    } else if same(key, "poweroff") {
        right = "a text or a whole number";
        match timeout_in(node) {
            Some(value) => {
                section.poweroff = Some(value);
                return Ok(());
            },
            None => {},
        }
    } else {
        return Err(unknown(path, key, at, BLOCK_KEYS));
    }
    Err(mistyped(path, key, at, right))
}

fn read_block(rows: &Vec<(String, usize, Node)>, path: &str) -> (r: Result<BlockSection, Misread>)
    ensures
        match r {
            Ok(section) => block_in(row_trees(rows@), path@) == Ok::<BlockKeys, Fault>(
                section@,
            ),
            Err(fault) => block_in(row_trees(rows@), path@) == Err::<BlockKeys, Fault>(
                fault@,
            ),
        },
{
    let ghost trees = row_trees(rows@);
    let mut section = BlockSection::new();
    let mut i: usize = 0;
    while i < rows.len()
        invariant
            i <= rows@.len(),
            trees == row_trees(rows@),
            block_in(trees.take(i as int), path@) == Ok::<BlockKeys, Fault>(section@),
        decreases rows@.len() - i,
    {
        let key = rows[i].0.as_str();
        let at: usize = rows[i].1;
        let node = &rows[i].2;
        assert(trees.take(i as int + 1).drop_last() =~= trees.take(i as int));
        assert(trees.take(i as int + 1).last() == (key@, at, node.tree()));
        match set_block_key(&mut section, path, key, at, node) {
            Ok(_) => {},
            Err(fault) => {
                proof {
                    lemma_block_stops(trees, path@, i as int);
                }
                return Err(fault);
            },
        }
        i += 1;
    }
    assert(trees.take(i as int) =~= trees);
    Ok(section)
}

/// The path of a table, with the dot that its keys follow.
pub open spec fn table_path(path: Seq<char>, name: Seq<char>) -> Seq<char> {
    path + name + "."@
}

fn table_path_text(path: &str, name: &str) -> (r: String)
    ensures
        r@ == table_path(path@, name@),
{
    let mut out = path.to_owned();
    out.append(name);
    out.append(".");
    out
}

/// What the tables of facts say.
pub open spec fn facts_in(rows: Seq<(Seq<char>, usize, Tree)>) -> Result<
    Map<Seq<char>, FactKeys>,
    Fault,
>
    decreases rows.len(),
{
    if rows.len() == 0 {
        Ok(Map::empty())
    } else {
        match facts_in(rows.drop_last()) {
            Err(fault) => Err(fault),
            Ok(tables) => match rows.last().2 {
                Tree::Table(inner) => match fact_in(inner, table_path("facts."@, rows.last().0)) {
                    Ok(keys) => Ok(tables.insert(rows.last().0, keys)),
                    Err(fault) => Err(fault),
                },
                _ => Err(wrong_type("facts."@, rows.last().0, rows.last().1, "a table"@)),
            },
        }
    }
}

proof fn lemma_facts_stop(rows: Seq<(Seq<char>, usize, Tree)>, i: int)
    requires
        0 <= i < rows.len(),
        facts_in(rows.take(i + 1)) is Err,
    ensures
        facts_in(rows) == facts_in(rows.take(i + 1)),
    decreases rows.len() - i,
{
    if i + 1 < rows.len() {
        assert(rows.take(i + 2).drop_last() =~= rows.take(i + 1));
        lemma_facts_stop(rows, i + 1);
    } else {
        assert(rows.take(i + 1) =~= rows);
    }
}

fn read_facts(rows: &Vec<(String, usize, Node)>) -> (r: Result<NameMap<FactSection>, Misread>)
    ensures
        match r {
            Ok(tables) => facts_in(row_trees(rows@)) == Ok::<Map<Seq<char>, FactKeys>, Fault>(
                fact_tables(tables@),
            ),
            Err(fault) => facts_in(row_trees(rows@)) == Err::<
                Map<Seq<char>, FactKeys>,
                Fault,
            >(fault@),
        },
{
    let ghost trees = row_trees(rows@);
    let mut tables: NameMap<FactSection> = NameMap::new();
    let mut i: usize = 0;
    assert(fact_tables(tables@) =~= Map::empty());
    while i < rows.len()
        invariant
            i <= rows@.len(),
            trees == row_trees(rows@),
            facts_in(trees.take(i as int)) == Ok::<Map<Seq<char>, FactKeys>, Fault>(
                fact_tables(tables@),
            ),
        decreases rows@.len() - i,
    {
        let name = rows[i].0.as_str();
        let at: usize = rows[i].1;
        let node = &rows[i].2;
        assert(trees.take(i as int + 1).drop_last() =~= trees.take(i as int));
        assert(trees.take(i as int + 1).last() == (name@, at, node.tree()));
        match node {
            Node::Table(inner) => {
                proof {
                    lemma_table_tree(*inner);
                }
                let path = table_path_text("facts.", name);
                match read_fact(inner, path.as_str()) {
                    Ok(section) => {
                        let ghost before = tables@;
                        tables.put(name, section);
                        assert(fact_tables(tables@) =~= fact_tables(before).insert(
                            name@,
                            section@,
                        ));
                    },
                    Err(fault) => {
                        proof {
                            lemma_facts_stop(trees, i as int);
                        }
                        return Err(fault);
                    },
                }
            },
            _ => {
                proof {
                    lemma_facts_stop(trees, i as int);
                }
                return Err(mistyped("facts.", name, at, "a table"));
            },
        }
        i += 1;
    }
    assert(trees.take(i as int) =~= trees);
    Ok(tables)
}

/// What the tables of blocks of a kind say.
pub open spec fn blocks_in(rows: Seq<(Seq<char>, usize, Tree)>, path: Seq<char>) -> Result<
    Map<Seq<char>, BlockKeys>,
    Fault,
>
    decreases rows.len(),
{
    if rows.len() == 0 {
        Ok(Map::empty())
    } else {
        match blocks_in(rows.drop_last(), path) {
            Err(fault) => Err(fault),
            Ok(tables) => match rows.last().2 {
                Tree::Table(inner) => match block_in(inner, table_path(path, rows.last().0)) {
                    Ok(keys) => Ok(tables.insert(rows.last().0, keys)),
                    Err(fault) => Err(fault),
                },
                _ => Err(wrong_type(path, rows.last().0, rows.last().1, "a table"@)),
            },
        }
    }
}

proof fn lemma_blocks_stop(rows: Seq<(Seq<char>, usize, Tree)>, path: Seq<char>, i: int)
    requires
        0 <= i < rows.len(),
        blocks_in(rows.take(i + 1), path) is Err,
    ensures
        blocks_in(rows, path) == blocks_in(rows.take(i + 1), path),
    decreases rows.len() - i,
{
    if i + 1 < rows.len() {
        assert(rows.take(i + 2).drop_last() =~= rows.take(i + 1));
        lemma_blocks_stop(rows, path, i + 1);
    } else {
        assert(rows.take(i + 1) =~= rows);
    }
}

fn read_blocks(rows: &Vec<(String, usize, Node)>, path: &str) -> (r: Result<NameMap<BlockSection>, Misread>)
    ensures
        match r {
            Ok(tables) => blocks_in(row_trees(rows@), path@) == Ok::<
                Map<Seq<char>, BlockKeys>,
                Fault,
            >(block_tables(tables@)),
            Err(fault) => blocks_in(row_trees(rows@), path@) == Err::<
                Map<Seq<char>, BlockKeys>,
                Fault,
            >(fault@),
        },
{
    let ghost trees = row_trees(rows@);
    let mut tables: NameMap<BlockSection> = NameMap::new();
    let mut i: usize = 0;
    assert(block_tables(tables@) =~= Map::empty());
    while i < rows.len()
        invariant
            i <= rows@.len(),
            trees == row_trees(rows@),
            blocks_in(trees.take(i as int), path@) == Ok::<Map<Seq<char>, BlockKeys>, Fault>(
                block_tables(tables@),
            ),
        decreases rows@.len() - i,
    {
        let name = rows[i].0.as_str();
        let at: usize = rows[i].1;
        let node = &rows[i].2;
        assert(trees.take(i as int + 1).drop_last() =~= trees.take(i as int));
        assert(trees.take(i as int + 1).last() == (name@, at, node.tree()));
        match node {
            Node::Table(inner) => {
                proof {
                    lemma_table_tree(*inner);
                }
                let inner_path = table_path_text(path, name);
                match read_block(inner, inner_path.as_str()) {
                    Ok(section) => {
                        let ghost before = tables@;
                        tables.put(name, section);
                        assert(block_tables(tables@) =~= block_tables(before).insert(
                            name@,
                            section@,
                        ));
                    },
                    Err(fault) => {
                        proof {
                            lemma_blocks_stop(trees, path@, i as int);
                        }
                        return Err(fault);
                    },
                }
            },
            _ => {
                proof {
                    lemma_blocks_stop(trees, path@, i as int);
                }
                return Err(mistyped(path, name, at, "a table"));
            },
        }
        i += 1;
    }
    assert(trees.take(i as int) =~= trees);
    Ok(tables)
}

/// A file with one more key.
pub open spec fn file_with(file: FileKeys, row: (Seq<char>, usize, Tree)) -> Result<FileKeys, Fault> {
    let none = Seq::<char>::empty();
    if row.0 == "version"@ {
        match row.2 {
            Tree::Integer(digits, radix) => match whole(digits, radix as int) {
                Some(number) => if 0 <= number <= u32::MAX {
                    Ok(FileKeys { version: Some(number as u32), ..file })
                } else {
                    Err(wrong_type(none, row.0, row.1, "a whole number from 0 to 4294967295"@))
                },
                None => Err(
                    wrong_type(none, row.0, row.1, "a whole number from 0 to 4294967295"@),
                ),
            },
            _ => Err(wrong_type(none, row.0, row.1, "a whole number from 0 to 4294967295"@)),
        }
    } else if row.0 == "general"@ {
        match row.2 {
            Tree::Table(inner) => match general_in(inner) {
                Ok(min_idle) => Ok(FileKeys { general: true, min_idle, ..file }),
                Err(fault) => Err(fault),
            },
            _ => Err(wrong_type(none, row.0, row.1, "a table"@)),
        }
    } else if row.0 == "facts"@ {
        match row.2 {
            Tree::Table(inner) => match facts_in(inner) {
                Ok(facts) => Ok(FileKeys { facts, ..file }),
                Err(fault) => Err(fault),
            },
            _ => Err(wrong_type(none, row.0, row.1, "a table"@)),
        }
    } else if row.0 == "while"@ {
        match row.2 {
            Tree::Table(inner) => match blocks_in(inner, "while."@) {
                Ok(while_blocks) => Ok(FileKeys { while_blocks, ..file }),
                Err(fault) => Err(fault),
            },
            _ => Err(wrong_type(none, row.0, row.1, "a table"@)),
        }
    } else if row.0 == "when"@ {
        match row.2 {
            Tree::Table(inner) => match blocks_in(inner, "when."@) {
                Ok(when) => Ok(FileKeys { when, ..file }),
                Err(fault) => Err(fault),
            },
            _ => Err(wrong_type(none, row.0, row.1, "a table"@)),
        }
    } else {
        Err(unknown_key(none, row.0, row.1, FILE_KEYS@))
    }
}

/// What a document says, or why it cannot be read: the first key that there is not, or whose value
/// has the wrong type.
pub open spec fn file_in(rows: Seq<(Seq<char>, usize, Tree)>) -> Result<FileKeys, Fault>
    decreases rows.len(),
{
    if rows.len() == 0 {
        Ok(no_file_keys())
    } else {
        match file_in(rows.drop_last()) {
            Ok(file) => file_with(file, rows.last()),
            Err(fault) => Err(fault),
        }
    }
}

proof fn lemma_file_stops(rows: Seq<(Seq<char>, usize, Tree)>, i: int)
    requires
        0 <= i < rows.len(),
        file_in(rows.take(i + 1)) is Err,
    ensures
        file_in(rows) == file_in(rows.take(i + 1)),
    decreases rows.len() - i,
{
    if i + 1 < rows.len() {
        assert(rows.take(i + 2).drop_last() =~= rows.take(i + 1));
        lemma_file_stops(rows, i + 1);
    } else {
        assert(rows.take(i + 1) =~= rows);
    }
}

fn set_file_key(file: &mut ConfigFile, key: &str, at: usize, node: &Node) -> (r: Result<(), Misread>)
    ensures
        match r {
            Ok(_) => file_with(old(file)@, (key@, at, node.tree())) == Ok::<FileKeys, Fault>(
                final(file)@,
            ),
            Err(fault) => file_with(old(file)@, (key@, at, node.tree())) == Err::<
                FileKeys, Fault,
            >(fault@),
        },
{
    proof {
        reveal_strlit("");
        assert(""@ =~= Seq::<char>::empty());
        match node {
            Node::Table(inner) => {
                lemma_table_tree(*inner);
            },
            _ => {},
        }
    }
    let right: &'static str;
    if same(key, "version") {
        right = "a whole number from 0 to 4294967295";
        match node {
            Node::Integer(digits, radix) => match whole_number(digits.as_str(), *radix) {
                Some(number) => {
                    if 0 <= number && number <= u32::MAX as i64 {
                        file.version = Some(number as u32);
                        return Ok(());
                    }
                },
                None => {},
            },
            _ => {},
        }
    } else if same(key, "general") {
        right = "a table";
        match node {
            Node::Table(inner) => match read_general(inner) {
                Ok(general) => {
                    file.general = Some(general);
                    return Ok(());
                },
                Err(fault) => return Err(fault),
            },
            _ => {},
        }
    } else if same(key, "facts") {
        right = "a table";
        match node {
            Node::Table(inner) => match read_facts(inner) {
                Ok(facts) => {
                    file.facts = facts;
                    return Ok(());
                },
                Err(fault) => return Err(fault),
            },
            _ => {},
        }
    } else if same(key, "while") {
        right = "a table";
        match node {
            Node::Table(inner) => match read_blocks(inner, "while.") {
                Ok(blocks) => {
                    file.while_blocks = blocks;
                    return Ok(());
                },
                Err(fault) => return Err(fault),
            },
            _ => {},
        }
    } else if same(key, "when") {
        right = "a table";
        match node {
            Node::Table(inner) => match read_blocks(inner, "when.") {
                Ok(blocks) => {
                    file.when = blocks;
                    return Ok(());
                },
                Err(fault) => return Err(fault),
            },
            _ => {},
        }
    } else {
        return Err(unknown("", key, at, FILE_KEYS));
    }
    Err(mistyped("", key, at, right))
}

/// What a document says, or why it cannot be read.
pub fn decode(rows: &Vec<(String, usize, Node)>) -> (r: Result<ConfigFile, Misread>)
    ensures
        match r {
            Ok(file) => file_in(row_trees(rows@)) == Ok::<FileKeys, Fault>(file@),
            Err(fault) => file_in(row_trees(rows@)) == Err::<FileKeys, Fault>(fault@),
        },
{
    let ghost trees = row_trees(rows@);
    let mut file = ConfigFile::new();
    let mut i: usize = 0;
    while i < rows.len()
        invariant
            i <= rows@.len(),
            trees == row_trees(rows@),
            file_in(trees.take(i as int)) == Ok::<FileKeys, Fault>(file@),
        decreases rows@.len() - i,
    {
        let key = rows[i].0.as_str();
        let at: usize = rows[i].1;
        let node = &rows[i].2;
        assert(trees.take(i as int + 1).drop_last() =~= trees.take(i as int));
        assert(trees.take(i as int + 1).last() == (key@, at, node.tree()));
        match set_file_key(&mut file, key, at, node) {
            Ok(_) => {},
            Err(fault) => {
                proof {
                    lemma_file_stops(trees, i as int);
                }
                return Err(fault);
            },
        }
        i += 1;
    }
    assert(trees.take(i as int) =~= trees);
    Ok(file)
}

/// One layer of a configuration: what to call it, and its text.
#[derive(Clone, Debug)]
pub struct Source {
    /// What it is called in messages, normally its path.
    pub label: String,
    /// Its text.
    pub text: String,
}

impl Source {
    /// A layer.
    pub fn new(label: &str, text: &str) -> (r: Self)
        ensures
            r.label@ == label@,
            r.text@ == text@,
    {
        Source { label: label.to_owned(), text: text.to_owned() }
    }
}

/// How many bytes a character takes in a text.
pub open spec fn width(c: char) -> int {
    if c as u32 <= 0x7f {
        1
    } else if c as u32 <= 0x7ff {
        2
    } else if c as u32 <= 0xffff {
        3
    } else {
        4
    }
}

/// How many characters of a text start before a byte of it.
pub open spec fn chars_before(text: Seq<char>, at: int) -> int
    decreases text.len(),
{
    if text.len() == 0 || at <= 0 {
        0
    } else {
        1 + chars_before(text.skip(1), at - width(text[0]))
    }
}

/// How many lines a text ends.
pub open spec fn line_ends(text: Seq<char>) -> int
    decreases text.len(),
{
    if text.len() == 0 {
        0
    } else if text.last() == '\n' {
        line_ends(text.drop_last()) + 1
    } else {
        line_ends(text.drop_last())
    }
}

/// The line and the column of a byte of a text, both counted from one, the column in characters.
pub open spec fn place(text: Seq<char>, at: int) -> (int, int) {
    let before = text.take(chars_before(text, at));
    (line_ends(before) + 1, before.len() - last_index_of(before, '\n'))
}

fn width_of(c: char) -> (r: usize)
    ensures
        r == width(c),
{
    let code: u32 = c as u32;
    if code <= 0x7f {
        1
    } else if code <= 0x7ff {
        2
    } else if code <= 0xffff {
        3
    } else {
        4
    }
}

fn place_of(text: &str, at: usize) -> (r: (u128, u128))
    ensures
        (r.0 as int, r.1 as int) == place(text@, at as int),
{
    let chars = chars_of(text);
    let mut line: u128 = 1;
    let mut column: u128 = 1;
    let mut left: usize = at;
    let mut i: usize = 0;
    assert(text@.skip(0) =~= text@);
    while i < chars.len() && left > 0
        invariant
            i <= chars@.len(),
            chars@ == text@,
            chars_before(text@, at as int) == i + chars_before(text@.skip(i as int), left as int),
            line == line_ends(text@.take(i as int)) + 1,
            column == i - last_index_of(text@.take(i as int), '\n'),
            line <= i + 1,
            column <= i + 1,
        decreases chars@.len() - i,
    {
        let c = chars[i];
        let taken = width_of(c);
        proof {
            let rest = text@.skip(i as int);
            assert(rest.skip(1) =~= text@.skip(i as int + 1));
            assert(text@.take(i as int + 1).drop_last() =~= text@.take(i as int));
            if left <= taken {
                assert(chars_before(rest.skip(1), left - taken) == 0);
                assert(chars_before(rest.skip(1), 0) == 0);
            }
        }
        left = if left > taken {
            left - taken
        } else {
            0
        };
        if c == '\n' {
            line += 1;
            column = 1;
        } else {
            column += 1;
        }
        i += 1;
    }
    assert(chars_before(text@.skip(i as int), left as int) == 0);
    (line, column)
}

/// Why a text cannot be read, with the line and the column.
pub open spec fn placed(text: Seq<char>, fault: Fault) -> Seq<char> {
    let (line, column) = place(text, fault.at as int);
    "line "@ + decimal(line as nat) + ", column "@ + decimal(column as nat) + ": "@ + fault.message
}

fn placed_message(text: &str, misread: &Misread) -> (r: String)
    ensures
        r@ == placed(text@, misread@),
{
    let (line, column) = place_of(text, misread.at);
    let mut out = "line ".to_owned();
    push_decimal(&mut out, line);
    out.append(", column ");
    push_decimal(&mut out, column);
    out.append(": ");
    out.append(misread.message.as_str());
    out
}

/// What a layer says, or why it cannot be read, by its text.
pub open spec fn file_of_text(text: Seq<char>) -> Result<FileKeys, Seq<char>> {
    match toml_document(text) {
        Ok(rows) => match file_in(rows) {
            Ok(file) => Ok(file),
            Err(fault) => Err(placed(text, fault)),
        },
        Err(message) => Err(message),
    }
}

/// Reads one layer.
pub fn parse(source: &Source) -> (r: Result<ConfigFile, ConfigError>)
    ensures
        match r {
            Ok(file) => file_of_text(source.text@) == Ok::<FileKeys, Seq<char>>(file@),
            Err(error) => {
                &&& file_of_text(source.text@) is Err
                &&& error@ == Complaint {
                    source: source.label@,
                    location: Seq::empty(),
                    problem: Problem::Syntax(file_of_text(source.text@)->Err_0),
                }
            },
        },
{
    let result = match read_toml(source.text.as_str()) {
        Ok(value) => match to_node(&value) {
            Node::Table(rows) => {
                proof {
                    lemma_table_tree(rows);
                }
                match decode(&rows) {
                    Ok(file) => Ok(file),
                    Err(misread) => Err(placed_message(source.text.as_str(), &misread)),
                }
            },
            _ => {
                assert(false);
                Err(String::new())
            },
        },
        Err(message) => Err(message),
    };
    match result {
        Ok(file) => Ok(file),
        Err(message) => Err(
            ConfigError {
                source: source.label.clone(),
                location: String::new(),
                kind: ErrorKind::Syntax(message),
            },
        ),
    }
}

} // verus!
