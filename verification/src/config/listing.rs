//! A policy in words, for whoever wrote its files.
use vstd::prelude::*;
use vstd::string::StringExecFns;

use crate::action::Action;
use crate::block::Block;
use crate::config::error::{notices, ConfigError};
use crate::config::load::Loaded;
use crate::config::timeout::{format_timeout, formatted};
use crate::doctor::{fault_names, fault_texts};
use crate::engine::{describe_warnings, warning_texts};
use crate::lines::{extend, label_all, labelled, none, one, only_if, push_line, unlined, unlines};
use crate::text::{decimal, padded, push_decimal, push_padded, views};
use crate::time::{whole_secs, Duration};

verus! {

/// A span as the standard library writes it for debugging: by its whole seconds and the nanoseconds
/// beyond them.
pub uninterp spec fn span_text(secs: u64, nanos: u32) -> Seq<char>;

/// Writes a span, by the `Debug` impl of `std::time::Duration`. The result is named and not
/// described further. The constructor that is called panics on a whole second of nanoseconds, so
/// there must be less.
#[verifier::external_body]
fn write_span(secs: u64, nanos: u32) -> (r: String)
    requires
        nanos < 1_000_000_000,
    ensures
        r@ == span_text(secs, nanos),
{
    format!("{:?}", std::time::Duration::new(secs, nanos))
}

/// A span in words.
pub open spec fn spelled(d: Duration) -> Seq<char> {
    span_text(whole_secs(d) as u64, (d.nanos % 1_000_000_000) as u32)
}

fn spell(d: Duration) -> (r: String)
    ensures
        r@ == spelled(d),
{
    write_span(d.as_secs(), (d.nanos % 1_000_000_000) as u32)
}

/// How a listing is laid out.
#[derive(Debug)]
pub struct Layout {
    /// Before the name of a block.
    pub before: &'static str,
    /// Between the name of a block and its clock.
    pub between: &'static str,
    /// After a block that takes no part.
    pub disabled: &'static str,
    /// Before a timeout.
    pub indent: &'static str,
}

/// How a listing is laid out, as a value of the model.
pub struct Style {
    /// Before the name of a block.
    pub before: Seq<char>,
    /// Between the name of a block and its clock.
    pub between: Seq<char>,
    /// After a block that takes no part.
    pub disabled: Seq<char>,
    /// Before a timeout.
    pub indent: Seq<char>,
}

impl View for Layout {
    type V = Style;

    open spec fn view(&self) -> Style {
        Style {
            before: self.before@,
            between: self.between@,
            disabled: self.disabled@,
            indent: self.indent@,
        }
    }
}

/// How the daemon lays a policy out.
pub open spec fn daemon_style() -> Style {
    Style { before: "  ["@, between: "] clock="@, disabled: " (disabled)"@, indent: "      "@ }
}

/// How a check of files lays a policy out.
pub open spec fn check_style() -> Style {
    Style { before: "["@, between: "]  clock = "@, disabled: "  (disabled)"@, indent: "    "@ }
}

/// The timeouts of a block, for the first actions.
pub open spec fn timeout_rows(style: Style, block: Block, actions: int) -> Seq<Seq<char>>
    decreases actions,
{
    if actions <= 0 {
        Seq::empty()
    } else {
        let before = timeout_rows(style, block, actions - 1);
        let action = Action::ALL@[actions - 1];
        match block.timeouts.of(action) {
            Some(timeout) => before.push(
                style.indent + padded(action.text(), 11) + " "@ + formatted(timeout),
            ),
            None => before,
        }
    }
}

/// The lines of a block.
pub open spec fn block_rows(style: Style, block: Block) -> Seq<Seq<char>> {
    seq![
        style.before + block.id.text() + style.between + block.clock.text() + (
        if block.enabled {
            ""@
        } else {
            style.disabled
        }),
    ] + timeout_rows(style, block, 4)
}

/// The lines of blocks.
pub open spec fn blocks_rows(style: Style, blocks: Seq<Block>) -> Seq<Seq<char>>
    decreases blocks.len(),
{
    if blocks.len() == 0 {
        Seq::empty()
    } else {
        blocks_rows(style, blocks.drop_last()) + block_rows(style, blocks.last())
    }
}

fn list_block(layout: &Layout, block: &Block) -> (r: Vec<String>)
    ensures
        views(r@) == block_rows(layout@, *block),
{
    let mut line = layout.before.to_owned();
    let id = block.id.to_string();
    line.append(id.as_str());
    line.append(layout.between);
    line.append(block.clock.name());
    if block.enabled {
        line.append("");
    } else {
        line.append(layout.disabled);
    }
    let mut out = one(line);
    let ghost head = views(out@);
    let all = Action::ALL;
    let mut i: usize = 0;
    assert(head + timeout_rows(layout@, *block, 0) =~= head);
    while i < 4
        invariant
            i <= 4,
            all@ == Action::ALL@,
            all@.len() == 4,
            views(out@) == head + timeout_rows(layout@, *block, i as int),
        decreases 4 - i,
    {
        let action = all[i];
        match block.timeouts.get(action) {
            Some(timeout) => {
                let mut row = layout.indent.to_owned();
                push_padded(&mut row, action.name(), 11);
                row.append(" ");
                let shown = format_timeout(timeout);
                row.append(shown.as_str());
                let ghost before = timeout_rows(layout@, *block, i as int);
                assert(head + before.push(row@) =~= (head + before).push(row@));
                push_line(&mut out, row);
            },
            None => {},
        }
        i += 1;
    }
    out
}

fn list_blocks(layout: &Layout, blocks: &Vec<Block>) -> (r: Vec<String>)
    ensures
        views(r@) == blocks_rows(layout@, blocks@),
{
    let mut out = none();
    let mut i: usize = 0;
    while i < blocks.len()
        invariant
            i <= blocks@.len(),
            views(out@) == blocks_rows(layout@, blocks@.take(i as int)),
        decreases blocks@.len() - i,
    {
        assert(blocks@.take(i as int + 1).drop_last() =~= blocks@.take(i as int));
        extend(&mut out, list_block(layout, &blocks[i]));
        i += 1;
    }
    assert(blocks@.take(i as int) =~= blocks@);
    out
}

/// How the daemon lays a policy out.
pub fn daemon_layout() -> (r: Layout)
    ensures
        r@ == daemon_style(),
{
    Layout { before: "  [", between: "] clock=", disabled: " (disabled)", indent: "      " }
}

/// How a check of files lays a policy out.
pub fn check_layout() -> (r: Layout)
    ensures
        r@ == check_style(),
{
    Layout { before: "[", between: "]  clock = ", disabled: "  (disabled)", indent: "    " }
}

/// A policy in words, as the daemon prints it.
pub open spec fn policy_rows(style: Style, loaded: Loaded, span: Seq<char>) -> Seq<Seq<char>> {
    seq!["layers:"@] + labelled("  "@, views(loaded.layers@)) + seq![
        "min_idle: "@ + span,
        "blocks:"@,
    ] + blocks_rows(style, loaded.policy.blocks@)
}

/// A policy in words, as the daemon prints it.
pub fn print_policy(loaded: &Loaded) -> (r: String)
    ensures
        r@ == unlined(policy_rows(daemon_style(), *loaded, spelled(loaded.policy.min_idle))),
{
    let span = spell(loaded.policy.min_idle);
    list_policy(loaded, span.as_str())
}

/// A policy in words, as the daemon prints it, with its idle time in words.
pub fn list_policy(loaded: &Loaded, span: &str) -> (r: String)
    ensures
        r@ == unlined(policy_rows(daemon_style(), *loaded, span@)),
{
    let layout = daemon_layout();
    let mut out = one("layers:".to_owned());
    extend(&mut out, label_all("  ", &loaded.layers));
    let mut idle = "min_idle: ".to_owned();
    idle.append(span);
    let ghost shown = idle@;
    let mut rows = one(idle);
    push_line(&mut rows, "blocks:".to_owned());
    assert(views(rows@) =~= seq![shown, "blocks:"@]);
    extend(&mut out, rows);
    extend(&mut out, list_blocks(&layout, &loaded.policy.blocks));
    assert(views(out@) == policy_rows(layout@, *loaded, span@));
    unlines(&out)
}

/// What a check of files prints.
#[derive(Debug)]
pub struct Checked {
    /// What is found.
    pub out: String,
    /// What is wrong, if anything is.
    pub err: String,
    /// The last word on what is wrong, if anything is.
    pub verdict: Option<String>,
}

/// What a check of files finds.
pub open spec fn checked_rows(
    style: Style,
    loaded: Loaded,
    faults: nat,
    span: Seq<char>,
) -> Seq<Seq<char>> {
    let warnings = warning_texts(notices(loaded.warnings@));
    labelled("layer   "@, views(loaded.layers@)) + seq![
        "min_idle "@ + span,
        ""@,
    ] + blocks_rows(style, loaded.policy.blocks@) + only_if(
        warnings.len() > 0,
        seq![""@] + labelled("warning: "@, warnings),
    ) + only_if(
        faults == 0,
        seq![
            ""@,
            decimal(loaded.policy.blocks@.len()) + " block(s), configuration is valid."@,
        ],
    )
}

/// What a check of files says is wrong.
pub open spec fn wrong_rows(faults: Seq<ConfigError>) -> Seq<Seq<char>> {
    only_if(
        faults.len() > 0,
        seq![""@] + labelled("fault: "@, fault_texts(faults)) + seq![
            ""@,
            "The daemon would still run: a faulted file is dropped, not fatal. But it would"@,
            "hold suspend, hibernate and poweroff until this is fixed. screen_off is unaffected."@,
        ],
    )
}

fn list_wrong(faults: &Vec<ConfigError>) -> (r: Vec<String>)
    ensures
        views(r@) == wrong_rows(faults@),
{
    if faults.len() == 0 {
        return none();
    }
    let mut out = one("".to_owned());
    let names = fault_names(faults);
    extend(&mut out, label_all("fault: ", &names));
    let mut rows = one("".to_owned());
    push_line(
        &mut rows,
        "The daemon would still run: a faulted file is dropped, not fatal. But it would".to_owned(),
    );
    push_line(
        &mut rows,
        "hold suspend, hibernate and poweroff until this is fixed. screen_off is unaffected.".to_owned(),
    );
    assert(views(rows@) =~= seq![
        ""@,
        "The daemon would still run: a faulted file is dropped, not fatal. But it would"@,
        "hold suspend, hibernate and poweroff until this is fixed. screen_off is unaffected."@,
    ]);
    extend(&mut out, rows);
    out
}

/// The last word on a number of faults.
pub fn fault_verdict(faults: usize) -> (r: Option<String>)
    ensures
        match r {
            Some(text) => faults > 0 && text@ == decimal(faults as nat)
                + " configuration fault(s)"@,
            None => faults == 0,
        },
{
    if faults == 0 {
        return None;
    }
    let mut text = String::new();
    push_decimal(&mut text, faults as u128);
    assert(text@ =~= decimal(faults as nat));
    text.append(" configuration fault(s)");
    Some(text)
}

/// Checks files that were read: says what they make, what to look at twice and what is wrong.
pub fn check_config(loaded: &Loaded, faults: &Vec<ConfigError>) -> (r: Checked)
    ensures
        r.out@ == unlined(
            checked_rows(
                check_style(),
                *loaded,
                faults@.len(),
                spelled(loaded.policy.min_idle),
            ),
        ),
        r.err@ == unlined(wrong_rows(faults@)),
        match r.verdict {
            Some(text) => faults@.len() > 0 && text@ == decimal(faults@.len())
                + " configuration fault(s)"@,
            None => faults@.len() == 0,
        },
{
    let span = spell(loaded.policy.min_idle);
    list_checked(loaded, faults, span.as_str())
}

/// Checks files that were read, with the idle time in words.
pub fn list_checked(loaded: &Loaded, faults: &Vec<ConfigError>, span: &str) -> (r: Checked)
    ensures
        r.out@ == unlined(checked_rows(check_style(), *loaded, faults@.len(), span@)),
        r.err@ == unlined(wrong_rows(faults@)),
        match r.verdict {
            Some(text) => faults@.len() > 0 && text@ == decimal(faults@.len())
                + " configuration fault(s)"@,
            None => faults@.len() == 0,
        },
{
    let layout = check_layout();
    let mut out = label_all("layer   ", &loaded.layers);
    let mut idle = "min_idle ".to_owned();
    idle.append(span);
    let ghost shown = idle@;
    let mut rows = one(idle);
    push_line(&mut rows, "".to_owned());
    assert(views(rows@) =~= seq![shown, ""@]);
    extend(&mut out, rows);
    extend(&mut out, list_blocks(&layout, &loaded.policy.blocks));
    let warnings = describe_warnings(loaded);
    assert(views(warnings@).len() == warnings@.len());
    if warnings.len() > 0 {
        let mut more = one("".to_owned());
        extend(&mut more, label_all("warning: ", &warnings));
        extend(&mut out, more);
    } else {
        extend(&mut out, none());
    }
    if faults.len() == 0 {
        let mut last = one("".to_owned());
        let mut count = String::new();
        push_decimal(&mut count, loaded.policy.blocks.len() as u128);
        assert(count@ =~= decimal(loaded.policy.blocks@.len()));
        count.append(" block(s), configuration is valid.");
        push_line(&mut last, count);
        assert(views(last@) =~= seq![
            ""@,
            decimal(loaded.policy.blocks@.len()) + " block(s), configuration is valid."@,
        ]);
        extend(&mut out, last);
    } else {
        extend(&mut out, none());
    }
    assert(views(out@) == checked_rows(layout@, *loaded, faults@.len(), span@));
    let wrong = list_wrong(faults);
    Checked { out: unlines(&out), err: unlines(&wrong), verdict: fault_verdict(faults.len()) }
}

} // verus!
