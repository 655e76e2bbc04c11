//! Lines of text.
use vstd::prelude::*;
use vstd::string::StringExecFns;

use crate::text::views;

verus! {

/// Lines as one text: each with a line feed after it.
pub open spec fn unlined(rows: Seq<Seq<char>>) -> Seq<char>
    decreases rows.len(),
{
    if rows.len() == 0 {
        Seq::empty()
    } else {
        unlined(rows.drop_last()) + rows.last() + "\n"@
    }
}

/// Lines as one text: each with a line feed after it.
pub fn unlines(rows: &Vec<String>) -> (out: String)
    ensures
        out@ == unlined(views(rows@)),
{
    let ghost all = views(rows@);
    let mut out = String::new();
    let mut i: usize = 0;
    assert(all.take(0) =~= Seq::empty());
    while i < rows.len()
        invariant
            i <= rows@.len(),
            all == views(rows@),
            out@ == unlined(all.take(i as int)),
        decreases rows@.len() - i,
    {
        assert(all[i as int] == rows@[i as int]@);
        assert(all.take(i as int + 1).drop_last() =~= all.take(i as int));
        out.append(rows[i].as_str());
        out.append("\n");
        i += 1;
    }
    assert(all.take(i as int) =~= all);
    out
}

/// Adds a line to a list.
pub fn push_line(rows: &mut Vec<String>, line: String)
    ensures
        views(final(rows)@) == views(old(rows)@).push(line@),
{
    let ghost before = views(rows@);
    assert(views(rows@.push(line)) =~= before.push(line@));
    rows.push(line);
}

/// Texts, each with a label before it.
pub open spec fn labelled(label: Seq<char>, texts: Seq<Seq<char>>) -> Seq<Seq<char>> {
    texts.map_values(|t: Seq<char>| label + t)
}

/// Lines that are only there on a condition.
pub open spec fn only_if(condition: bool, rows: Seq<Seq<char>>) -> Seq<Seq<char>> {
    if condition {
        rows
    } else {
        Seq::empty()
    }
}

/// Adds lines to a list.
pub fn extend(rows: &mut Vec<String>, more: Vec<String>)
    ensures
        views(final(rows)@) == views(old(rows)@) + views(more@),
{
    let ghost before = views(rows@);
    let ghost wanted = views(more@);
    let mut i: usize = 0;
    assert(before + wanted.take(0) =~= before);
    while i < more.len()
        invariant
            i <= more@.len(),
            wanted == views(more@),
            views(rows@) == before + wanted.take(i as int),
        decreases more@.len() - i,
    {
        assert(wanted[i as int] == more@[i as int]@);
        assert(before + wanted.take(i as int + 1) =~= (before + wanted.take(i as int)).push(
            wanted[i as int],
        ));
        push_line(rows, more[i].clone());
        i += 1;
    }
    assert(wanted.take(i as int) =~= wanted);
}

/// Texts, each with a label before it.
pub fn label_all(label: &str, texts: &Vec<String>) -> (r: Vec<String>)
    ensures
        views(r@) == labelled(label@, views(texts@)),
{
    let ghost wanted = labelled(label@, views(texts@));
    let mut out: Vec<String> = Vec::new();
    let mut i: usize = 0;
    assert(views(out@) =~= wanted.take(0));
    while i < texts.len()
        invariant
            i <= texts@.len(),
            wanted == labelled(label@, views(texts@)),
            views(out@) == wanted.take(i as int),
        decreases texts@.len() - i,
    {
        let mut line = label.to_owned();
        line.append(texts[i].as_str());
        assert(wanted[i as int] == line@);
        assert(wanted.take(i as int + 1) =~= wanted.take(i as int).push(line@));
        push_line(&mut out, line);
        i += 1;
    }
    assert(wanted.take(i as int) =~= wanted);
    out
}

/// No line.
pub fn none() -> (r: Vec<String>)
    ensures
        views(r@) == Seq::<Seq<char>>::empty(),
{
    let out: Vec<String> = Vec::new();
    assert(views(out@) =~= Seq::empty());
    out
}

/// One line.
pub fn one(line: String) -> (r: Vec<String>)
    ensures
        views(r@) == seq![line@],
{
    let mut out: Vec<String> = Vec::new();
    out.push(line);
    assert(views(out@) =~= seq![line@]);
    out
}

} // verus!
