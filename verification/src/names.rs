//! Tables whose rows have names, in the order of the names.
use vstd::prelude::*;

use crate::text::chars_of;

verus! {

/// Whether one text comes before another: by the first character in which they differ, and the
/// shorter one where they do not differ before its end.
pub open spec fn before(a: Seq<char>, b: Seq<char>) -> bool
    decreases a.len(),
{
    if b.len() == 0 {
        false
    } else if a.len() == 0 {
        true
    } else if a[0] != b[0] {
        a[0] < b[0]
    } else {
        before(a.skip(1), b.skip(1))
    }
}

/// Whether each text comes before those that follow it.
pub open spec fn ascending(names: Seq<Seq<char>>) -> bool {
    forall|i: int, j: int| 0 <= i < j < names.len() ==> before(#[trigger] names[i], #[trigger] names[j])
}

/// Whether a list holds the names of a set, each once and in order.
pub open spec fn lists(names: Seq<Seq<char>>, set: Set<Seq<char>>) -> bool {
    &&& ascending(names)
    &&& forall|n: Seq<char>| #[trigger] set.contains(n) <==> names.contains(n)
}

/// The names of a set, in order.
pub open spec fn in_order(set: Set<Seq<char>>) -> Seq<Seq<char>> {
    choose|names: Seq<Seq<char>>| lists(names, set)
}

pub proof fn lemma_before_is_strict(a: Seq<char>)
    ensures
        !before(a, a),
    decreases a.len(),
{
    if a.len() > 0 {
        lemma_before_is_strict(a.skip(1));
    }
}

pub proof fn lemma_before_is_transitive(a: Seq<char>, b: Seq<char>, c: Seq<char>)
    requires
        before(a, b),
        before(b, c),
    ensures
        before(a, c),
    decreases a.len(),
{
    if a.len() > 0 && b.len() > 0 && c.len() > 0 && a[0] == b[0] && b[0] == c[0] {
        lemma_before_is_transitive(a.skip(1), b.skip(1), c.skip(1));
    }
}

pub proof fn lemma_before_is_total(a: Seq<char>, b: Seq<char>)
    ensures
        a == b || before(a, b) || before(b, a),
    decreases a.len(),
{
    if a.len() > 0 && b.len() > 0 {
        if a[0] == b[0] {
            lemma_before_is_total(a.skip(1), b.skip(1));
            if a.skip(1) == b.skip(1) {
                assert(a =~= seq![a[0]] + a.skip(1));
                assert(b =~= seq![b[0]] + b.skip(1));
            }
        }
    } else if a.len() == 0 && b.len() == 0 {
        assert(a =~= b);
    }
}

/// There is only one way to list a set in order.
pub proof fn lemma_one_order(a: Seq<Seq<char>>, b: Seq<Seq<char>>, set: Set<Seq<char>>)
    requires
        lists(a, set),
        lists(b, set),
    ensures
        a == b,
    decreases a.len(),
{
    if a.len() == 0 {
        if b.len() > 0 {
            assert(b.contains(b[0]));
            assert(set.contains(b[0]));
            assert(a.contains(b[0]));
        }
        assert(a =~= b);
    } else {
        assert(a.contains(a[0]));
        assert(set.contains(a[0]));
        assert(b.contains(a[0]));
        assert(b.contains(b[0]));
        assert(set.contains(b[0]));
        assert(a.contains(b[0]));
        let i = choose|i: int| 0 <= i < b.len() && b[i] == a[0];
        let j = choose|j: int| 0 <= j < a.len() && a[j] == b[0];
        if i > 0 && j > 0 {
            assert(before(b[0], b[i]));
            assert(before(a[0], a[j]));
            lemma_before_is_transitive(a[0], b[0], a[0]);
            lemma_before_is_strict(a[0]);
        }
        assert(a[0] == b[0]);
        let rest = set.remove(a[0]);
        lemma_rest_is_listed(a, set);
        lemma_rest_is_listed(b, set);
        lemma_one_order(a.skip(1), b.skip(1), rest);
        assert(a =~= seq![a[0]] + a.skip(1));
        assert(b =~= seq![b[0]] + b.skip(1));
    }
}

proof fn lemma_rest_is_listed(a: Seq<Seq<char>>, set: Set<Seq<char>>)
    requires
        lists(a, set),
        a.len() > 0,
    ensures
        lists(a.skip(1), set.remove(a[0])),
{
    let rest = a.skip(1);
    assert forall|i: int, j: int| 0 <= i < j < rest.len() implies before(
        #[trigger] rest[i],
        #[trigger] rest[j],
    ) by {
        assert(before(a[i + 1], a[j + 1]));
    }
    assert forall|n: Seq<char>| #[trigger]
        set.remove(a[0]).contains(n) <==> rest.contains(n) by {
        if rest.contains(n) {
            let i = choose|i: int| 0 <= i < rest.len() && rest[i] == n;
            assert(a[i + 1] == n);
            assert(a.contains(n));
            assert(set.contains(n));
            assert(before(a[0], a[i + 1]));
            lemma_before_is_strict(a[0]);
        }
        if set.remove(a[0]).contains(n) {
            assert(set.contains(n));
            assert(a.contains(n));
            let i = choose|i: int| 0 <= i < a.len() && a[i] == n;
            assert(rest[i - 1] == n);
        }
    }
}

/// A name of a list in order does not stand among those before it.
pub proof fn lemma_ascending_take(names: Seq<Seq<char>>, i: int)
    requires
        ascending(names),
        0 <= i < names.len(),
    ensures
        !names.take(i).contains(names[i]),
{
    if names.take(i).contains(names[i]) {
        let j = choose|j: int| 0 <= j < i && names.take(i)[j] == names[i];
        assert(names[j] == names[i]);
        assert(before(names[j], names[i]));
        lemma_before_is_strict(names[i]);
    }
}

/// What a list holds with one more name.
pub proof fn lemma_pushed(names: Seq<Seq<char>>, name: Seq<char>, n: Seq<char>)
    ensures
        names.push(name).contains(n) <==> names.contains(n) || n == name,
{
    if names.contains(n) {
        let i = choose|i: int| 0 <= i < names.len() && names[i] == n;
        assert(names.push(name)[i] == n);
    }
    assert(names.push(name)[names.len() as int] == name);
    if names.push(name).contains(n) {
        let i = choose|i: int| 0 <= i < names.push(name).len() && names.push(name)[i] == n;
        if i < names.len() {
            assert(names[i] == n);
        }
    }
}

/// How two texts compare.
pub enum Place {
    /// The first comes before.
    Before,
    /// They are the same.
    Same,
    /// The first comes after.
    After,
}

/// How two texts compare.
pub fn place(a: &str, b: &str) -> (r: Place)
    ensures
        match r {
            Place::Before => before(a@, b@),
            Place::Same => a@ == b@,
            Place::After => before(b@, a@),
        },
{
    let x = chars_of(a);
    let y = chars_of(b);
    let mut i: usize = 0;
    assert(x@.skip(0) =~= a@);
    assert(y@.skip(0) =~= b@);
    loop
        invariant
            i <= x@.len(),
            i <= y@.len(),
            x@ == a@,
            y@ == b@,
            before(a@, b@) == before(x@.skip(i as int), y@.skip(i as int)),
            before(b@, a@) == before(y@.skip(i as int), x@.skip(i as int)),
            forall|j: int| 0 <= j < i ==> x@[j] == y@[j],
        decreases x@.len() - i,
    {
        if i == x.len() {
            if i == y.len() {
                assert(a@ =~= b@);
                return Place::Same;
            }
            return Place::Before;
        }
        if i == y.len() {
            return Place::After;
        }
        let c = x[i];
        let d = y[i];
        assert(x@.skip(i as int)[0] == c);
        assert(y@.skip(i as int)[0] == d);
        if c < d {
            return Place::Before;
        }
        if d < c {
            return Place::After;
        }
        assert(x@.skip(i as int).skip(1) =~= x@.skip(i as int + 1));
        assert(y@.skip(i as int).skip(1) =~= y@.skip(i as int + 1));
        i += 1;
    }
}

/// A table whose rows have names.
#[derive(Debug)]
pub struct NameMap<V> {
    rows: Vec<(String, V)>,
}

/// The names of some rows.
pub open spec fn row_names<V>(rows: Seq<(String, V)>) -> Seq<Seq<char>> {
    rows.map_values(|row: (String, V)| row.0@)
}

impl<V> NameMap<V> {
    #[verifier::type_invariant]
    spec fn rows_are_in_order(self) -> bool {
        ascending(row_names(self.rows@))
    }

    /// The rows, by name.
    pub closed spec fn table(self) -> Map<Seq<char>, V> {
        Map::new(
            |n: Seq<char>| row_names(self.rows@).contains(n),
            |n: Seq<char>| self.rows@[row_names(self.rows@).index_of(n)].1,
        )
    }
}

impl<V> View for NameMap<V> {
    type V = Map<Seq<char>, V>;

    open spec fn view(&self) -> Map<Seq<char>, V> {
        self.table()
    }
}

proof fn lemma_row<V>(rows: Seq<(String, V)>, i: int)
    requires
        ascending(row_names(rows)),
        0 <= i < rows.len(),
    ensures
        row_names(rows).contains(rows[i].0@),
        row_names(rows).index_of(rows[i].0@) == i,
{
    let names = row_names(rows);
    assert(names[i] == rows[i].0@);
    let j = names.index_of(rows[i].0@);
    assert(0 <= j < names.len() && names[j] == rows[i].0@);
    if i < j {
        assert(before(names[i], names[j]));
        lemma_before_is_strict(names[i]);
    } else if j < i {
        assert(before(names[j], names[i]));
        lemma_before_is_strict(names[i]);
    }
}

impl<V> NameMap<V> {
    /// A table without a row.
    pub fn new() -> (r: Self)
        ensures
            r@ == Map::<Seq<char>, V>::empty(),
    {
        let r = NameMap { rows: Vec::new() };
        assert(r@ =~= Map::<Seq<char>, V>::empty());
        r
    }

    /// How many rows there are.
    pub fn len(&self) -> (r: usize)
        ensures
            r == in_order(self@.dom()).len(),
            lists(in_order(self@.dom()), self@.dom()),
    {
        proof {
            use_type_invariant(self);
            self.lemma_rows_are_the_order();
        }
        self.rows.len()
    }

    proof fn lemma_rows_are_the_order(self)
        requires
            ascending(row_names(self.rows@)),
        ensures
            row_names(self.rows@) == in_order(self@.dom()),
            lists(in_order(self@.dom()), self@.dom()),
            forall|i: int|
                0 <= i < self.rows@.len() ==> self@.contains_key((#[trigger] self.rows@[i]).0@)
                    && self@[self.rows@[i].0@] == self.rows@[i].1,
    {
        let names = row_names(self.rows@);
        assert(lists(names, self@.dom()));
        lemma_one_order(names, in_order(self@.dom()), self@.dom());
        assert forall|i: int| 0 <= i < self.rows@.len() implies self@.contains_key(
            (#[trigger] self.rows@[i]).0@,
        ) && self@[self.rows@[i].0@] == self.rows@[i].1 by {
            lemma_row(self.rows@, i);
        }
    }

    /// The name of a row, by its place.
    pub fn name_at(&self, i: usize) -> (r: &String)
        requires
            i < in_order(self@.dom()).len(),
        ensures
            r@ == in_order(self@.dom())[i as int],
            self@.contains_key(r@),
    {
        proof {
            use_type_invariant(self);
            self.lemma_rows_are_the_order();
            assert(row_names(self.rows@)[i as int] == self.rows@[i as int].0@);
        }
        &self.rows[i].0
    }

    /// A row, by its place.
    pub fn value_at(&self, i: usize) -> (r: &V)
        requires
            i < in_order(self@.dom()).len(),
        ensures
            self@.contains_key(in_order(self@.dom())[i as int]),
            *r == self@[in_order(self@.dom())[i as int]],
    {
        proof {
            use_type_invariant(self);
            self.lemma_rows_are_the_order();
            assert(row_names(self.rows@)[i as int] == self.rows@[i as int].0@);
        }
        &self.rows[i].1
    }

    /// The row of a name.
    pub fn get(&self, name: &str) -> (r: Option<&V>)
        ensures
            match r {
                Some(v) => self@.contains_key(name@) && *v == self@[name@],
                None => !self@.contains_key(name@),
            },
    {
        proof {
            use_type_invariant(self);
            self.lemma_rows_are_the_order();
        }
        let mut i: usize = 0;
        while i < self.rows.len()
            invariant
                i <= self.rows@.len(),
                ascending(row_names(self.rows@)),
                forall|j: int| 0 <= j < i ==> (#[trigger] self.rows@[j]).0@ != name@,
                forall|i: int|
                    0 <= i < self.rows@.len() ==> self@.contains_key((#[trigger] self.rows@[i]).0@)
                        && self@[self.rows@[i].0@] == self.rows@[i].1,
            decreases self.rows@.len() - i,
        {
            if crate::text::same(self.rows[i].0.as_str(), name) {
                return Some(&self.rows[i].1);
            }
            i += 1;
        }
        proof {
            if self@.contains_key(name@) {
                let names = row_names(self.rows@);
                let j = choose|j: int| 0 <= j < names.len() && names[j] == name@;
                assert(self.rows@[j].0@ == name@);
            }
        }
        None
    }

    /// Sets the row of a name.
    pub fn put(&mut self, name: &str, value: V)
        ensures
            final(self)@ == old(self)@.insert(name@, value),
    {
        proof {
            use_type_invariant(&*self);
        }
        let mut rows: Vec<(String, V)> = Vec::new();
        std::mem::swap(&mut rows, &mut self.rows);
        let ghost old_rows = rows@;
        let ghost old_names = row_names(old_rows);
        let mut i: usize = 0;
        while i < rows.len()
            invariant_except_break
                rows@ == old_rows,
                i <= rows@.len(),
                forall|j: int| 0 <= j < i ==> before((#[trigger] rows@[j]).0@, name@),
            ensures
                rows@ == old_rows,
                i <= rows@.len(),
                forall|j: int| 0 <= j < i ==> before((#[trigger] rows@[j]).0@, name@),
                i < rows@.len() ==> !before(rows@[i as int].0@, name@),
            decreases rows@.len() - i,
        {
            match place(rows[i].0.as_str(), name) {
                Place::Before => {},
                Place::Same => {
                    proof {
                        lemma_before_is_strict(name@);
                    }
                    break;
                },
                Place::After => {
                    proof {
                        if before(rows@[i as int].0@, name@) {
                            lemma_before_is_transitive(name@, rows@[i as int].0@, name@);
                            lemma_before_is_strict(name@);
                        }
                    }
                    break;
                },
            }
            i += 1;
        }
        let found = i < rows.len() && crate::text::same(rows[i].0.as_str(), name);
        if found {
            rows[i].1 = value;
            proof {
                assert(row_names(rows@) =~= old_names);
                lemma_replaced(old_rows, rows@, i as int, name@, value);
            }
        } else {
            proof {
                lemma_inserted(old_rows, i as int, name@);
            }
            rows.insert(i, (name.to_owned(), value));
            proof {
                lemma_placed(old_rows, rows@, i as int, name@, value);
            }
        }
        self.rows = rows;
    }
}

impl<V> NameMap<V> {
    /// Takes the row of a name out. Gives back whether there was one.
    pub fn remove(&mut self, name: &str) -> (r: bool)
        ensures
            r == old(self)@.contains_key(name@),
            final(self)@ == old(self)@.remove(name@),
    {
        self.take(name).is_some()
    }

    /// Takes the row of a name out, and gives it back.
    pub fn take(&mut self, name: &str) -> (r: Option<V>)
        ensures
            r == (if old(self)@.contains_key(name@) {
                Some(old(self)@[name@])
            } else {
                None
            }),
            final(self)@ == old(self)@.remove(name@),
    {
        proof {
            use_type_invariant(&*self);
            self.lemma_rows_are_the_order();
        }
        let mut i: usize = 0;
        while i < self.rows.len()
            invariant
                i <= self.rows@.len(),
                self.rows@ == old(self).rows@,
                ascending(row_names(self.rows@)),
                forall|j: int| 0 <= j < i ==> (#[trigger] self.rows@[j]).0@ != name@,
            decreases self.rows@.len() - i,
        {
            if crate::text::same(self.rows[i].0.as_str(), name) {
                let mut rows: Vec<(String, V)> = Vec::new();
                std::mem::swap(&mut rows, &mut self.rows);
                let ghost old_rows = rows@;
                let (_, value) = rows.remove(i);
                proof {
                    lemma_removed(old_rows, rows@, i as int, name@);
                    lemma_row(old_rows, i as int);
                }
                self.rows = rows;
                return Some(value);
            }
            i += 1;
        }
        proof {
            let names = row_names(self.rows@);
            if self@.contains_key(name@) {
                let j = choose|j: int| 0 <= j < names.len() && names[j] == name@;
                assert(self.rows@[j].0@ == name@);
            }
            assert(self@.remove(name@) =~= self@);
        }
        None
    }
}

proof fn lemma_removed<V>(
    old_rows: Seq<(String, V)>,
    rows: Seq<(String, V)>,
    i: int,
    name: Seq<char>,
)
    requires
        ascending(row_names(old_rows)),
        0 <= i < old_rows.len(),
        old_rows[i].0@ == name,
        rows == old_rows.remove(i),
    ensures
        ascending(row_names(rows)),
        table_of(rows) == table_of(old_rows).remove(name),
        table_of(old_rows).contains_key(name),
{
    let names = row_names(rows);
    let old_names = row_names(old_rows);
    assert(old_names[i] == name);
    assert forall|a: int, b: int| 0 <= a < b < names.len() implies before(
        #[trigger] names[a],
        #[trigger] names[b],
    ) by {
        let x = if a < i {
            a
        } else {
            a + 1
        };
        let y = if b < i {
            b
        } else {
            b + 1
        };
        assert(before(old_names[x], old_names[y]));
    }
    assert forall|n: Seq<char>| names.contains(n) == (old_names.contains(n) && n != name) by {
        if names.contains(n) {
            let a = names.index_of(n);
            assert(0 <= a < names.len() && names[a] == n);
            let x = if a < i {
                a
            } else {
                a + 1
            };
            assert(old_names[x] == n);
            if n == name {
                lemma_row(old_rows, i);
                lemma_row(old_rows, x);
            }
        }
        if old_names.contains(n) && n != name {
            let a = old_names.index_of(n);
            assert(0 <= a < old_names.len() && old_names[a] == n);
            if a < i {
                assert(names[a] == n);
            } else {
                assert(names[a - 1] == n);
            }
        }
    }
    assert(table_of(rows) =~= table_of(old_rows).remove(name)) by {
        assert forall|n: Seq<char>| names.contains(n) implies table_of(rows)[n] == table_of(
            old_rows,
        )[n] by {
            let a = names.index_of(n);
            assert(0 <= a < names.len() && names[a] == n);
            let x = if a < i {
                a
            } else {
                a + 1
            };
            assert(rows[a] == old_rows[x]);
            lemma_row(old_rows, x);
        }
    }
}

/// Whether no text comes before one that precedes it.
pub open spec fn sorted(texts: Seq<Seq<char>>) -> bool {
    forall|i: int, j: int|
        0 <= i < j < texts.len() ==> !before(#[trigger] texts[j], #[trigger] texts[i])
}

/// The same texts can be sorted in one way only.
pub proof fn lemma_one_sorting(a: Seq<Seq<char>>, b: Seq<Seq<char>>)
    requires
        sorted(a),
        sorted(b),
        a.to_multiset() == b.to_multiset(),
    ensures
        a == b,
    decreases a.len(),
{
    a.to_multiset_ensures();
    b.to_multiset_ensures();
    assert(a.len() == a.to_multiset().len() && b.len() == b.to_multiset().len());
    if a.len() == 0 {
        assert(a =~= b);
    } else {
        let x = a.last();
        let y = b.last();
        assert(a.contains(x) && b.contains(y));
        assert(b.to_multiset().count(x) > 0 && a.to_multiset().count(y) > 0);
        assert(b.contains(x) && a.contains(y));
        let i = choose|i: int| 0 <= i < b.len() && b[i] == x;
        let j = choose|j: int| 0 <= j < a.len() && a[j] == y;
        lemma_before_is_total(x, y);
        lemma_before_is_strict(x);
        assert(x == y) by {
            if i < b.len() - 1 {
                assert(!before(b[b.len() - 1], b[i]));
            }
            if j < a.len() - 1 {
                assert(!before(a[a.len() - 1], a[j]));
            }
        }
        let p = a.drop_last();
        let q = b.drop_last();
        assert(a =~= p.push(x) && b =~= q.push(x));
        p.to_multiset_ensures();
        q.to_multiset_ensures();
        assert(a.to_multiset() =~= p.to_multiset().insert(x));
        assert(b.to_multiset() =~= q.to_multiset().insert(x));
        assert(p.to_multiset() =~= q.to_multiset()) by {
            assert forall|t: Seq<char>| p.to_multiset().count(t) == q.to_multiset().count(t) by {
                let more: nat = if t == x {
                    1
                } else {
                    0
                };
                assert(p.to_multiset().insert(x).count(t) == p.to_multiset().count(t) + more);
                assert(q.to_multiset().insert(x).count(t) == q.to_multiset().count(t) + more);
            }
        }
        assert(sorted(p)) by {
            assert forall|m: int, n: int| 0 <= m < n < p.len() implies !before(
                #[trigger] p[n],
                #[trigger] p[m],
            ) by {
                assert(p[n] == a[n] && p[m] == a[m]);
            }
        }
        assert(sorted(q)) by {
            assert forall|m: int, n: int| 0 <= m < n < q.len() implies !before(
                #[trigger] q[n],
                #[trigger] q[m],
            ) by {
                assert(q[n] == b[n] && q[m] == b[m]);
            }
        }
        lemma_one_sorting(p, q);
    }
}

/// Puts one more text where it belongs in a sorted list.
pub fn insert_sorted(list: &mut Vec<String>, text: String)
    requires
        sorted(crate::text::views(old(list)@)),
    ensures
        sorted(crate::text::views(final(list)@)),
        crate::text::views(final(list)@).to_multiset() == crate::text::views(
            old(list)@,
        ).to_multiset().insert(text@),
{
    let ghost texts = crate::text::views(list@);
    let mut i: usize = 0;
    while i < list.len()
        invariant_except_break
            i <= list@.len(),
            list@ == old(list)@,
            texts == crate::text::views(list@),
            forall|j: int| 0 <= j < i ==> !before(text@, #[trigger] texts[j]),
        ensures
            i <= list@.len(),
            list@ == old(list)@,
            forall|j: int| 0 <= j < i ==> !before(text@, #[trigger] texts[j]),
            i < list@.len() ==> before(text@, texts[i as int]),
        decreases list@.len() - i,
    {
        assert(texts[i as int] == list@[i as int]@);
        match place(text.as_str(), list[i].as_str()) {
            Place::Before => {
                break;
            },
            Place::Same => {
                proof {
                    lemma_before_is_strict(text@);
                }
            },
            Place::After => {
                proof {
                    if before(text@, texts[i as int]) {
                        lemma_before_is_transitive(text@, texts[i as int], text@);
                        lemma_before_is_strict(text@);
                    }
                }
            },
        }
        i += 1;
    }
    let ghost content = text@;
    list.insert(i, text);
    proof {
        let after = crate::text::views(list@);
        assert(after =~= texts.insert(i as int, content));
        vstd::seq_lib::to_multiset_insert(texts, i as int, content);
        assert forall|a: int, b: int| 0 <= a < b < after.len() implies !before(
            #[trigger] after[b],
            #[trigger] after[a],
        ) by {
            let x = if a < i {
                a
            } else {
                a - 1
            };
            let y = if b < i {
                b
            } else {
                b - 1
            };
            if a != i && b != i {
                assert(!before(texts[y], texts[x]));
            } else if a == i {
                // What follows the new text does not come before it: the first that does follows
                // it, and the others do not come before that one.
                if before(texts[y], content) {
                    lemma_before_is_transitive(texts[y], content, texts[i as int]);
                    if y > i {
                        assert(!before(texts[y], texts[i as int]));
                    } else {
                        lemma_before_is_strict(texts[y]);
                    }
                }
            }
        }
    }
}

spec fn table_of<V>(rows: Seq<(String, V)>) -> Map<Seq<char>, V> {
    Map::new(
        |n: Seq<char>| row_names(rows).contains(n),
        |n: Seq<char>| rows[row_names(rows).index_of(n)].1,
    )
}

proof fn lemma_replaced<V>(
    old_rows: Seq<(String, V)>,
    rows: Seq<(String, V)>,
    i: int,
    name: Seq<char>,
    value: V,
)
    requires
        ascending(row_names(old_rows)),
        row_names(rows) == row_names(old_rows),
        0 <= i < rows.len(),
        rows.len() == old_rows.len(),
        rows[i].0@ == name,
        rows[i].1 == value,
        forall|j: int| 0 <= j < rows.len() && j != i ==> rows[j] == old_rows[j],
    ensures
        table_of(rows) == table_of(old_rows).insert(name, value),
{
    lemma_row(rows, i);
    assert(row_names(rows)[i] == name);
    assert(table_of(rows) =~= table_of(old_rows).insert(name, value)) by {
        assert forall|n: Seq<char>| row_names(rows).contains(n) implies table_of(rows)[n]
            == table_of(old_rows).insert(name, value)[n] by {
            if n != name {
                let j = row_names(rows).index_of(n);
                assert(0 <= j < rows.len() && row_names(rows)[j] == n);
            }
        }
    }
}

proof fn lemma_inserted<V>(rows: Seq<(String, V)>, i: int, name: Seq<char>)
    requires
        ascending(row_names(rows)),
        0 <= i <= rows.len(),
        forall|j: int| 0 <= j < i ==> before((#[trigger] rows[j]).0@, name),
        i < rows.len() ==> !before(rows[i].0@, name) && rows[i].0@ != name,
    ensures
        forall|j: int| i <= j < rows.len() ==> before(name, (#[trigger] rows[j]).0@),
{
    assert forall|j: int| i <= j < rows.len() implies before(name, (#[trigger] rows[j]).0@) by {
        lemma_before_is_total(name, rows[i].0@);
        if j > i {
            assert(before(row_names(rows)[i], row_names(rows)[j]));
            lemma_before_is_transitive(name, rows[i].0@, rows[j].0@);
        }
    }
}

proof fn lemma_placed<V>(
    old_rows: Seq<(String, V)>,
    rows: Seq<(String, V)>,
    i: int,
    name: Seq<char>,
    value: V,
)
    requires
        ascending(row_names(old_rows)),
        0 <= i <= old_rows.len(),
        rows.len() == old_rows.len() + 1,
        rows[i].0@ == name,
        rows[i].1 == value,
        rows == old_rows.insert(i, rows[i]),
        forall|j: int| 0 <= j < i ==> before((#[trigger] old_rows[j]).0@, name),
        forall|j: int| i <= j < old_rows.len() ==> before(name, (#[trigger] old_rows[j]).0@),
    ensures
        ascending(row_names(rows)),
        table_of(rows) == table_of(old_rows).insert(name, value),
{
    let names = row_names(rows);
    let old_names = row_names(old_rows);
    assert forall|a: int, b: int| 0 <= a < b < names.len() implies before(
        #[trigger] names[a],
        #[trigger] names[b],
    ) by {
        let x = if a < i {
            a
        } else {
            a - 1
        };
        let y = if b < i {
            b
        } else {
            b - 1
        };
        if a != i && b != i {
            assert(before(old_names[x], old_names[y]));
        } else if a == i {
            assert(before(name, old_rows[y].0@));
        } else {
            assert(before(old_rows[x].0@, name));
        }
    }
    assert(table_of(rows) =~= table_of(old_rows).insert(name, value)) by {
        lemma_row(rows, i);
        assert forall|n: Seq<char>|
            names.contains(n) == (old_names.contains(n) || n == name) by {
            if names.contains(n) {
                let a = names.index_of(n);
                assert(0 <= a < names.len() && names[a] == n);
                if a < i {
                    assert(old_names[a] == n);
                } else if a > i {
                    assert(old_names[a - 1] == n);
                }
            }
            if old_names.contains(n) {
                let a = old_names.index_of(n);
                assert(0 <= a < old_names.len() && old_names[a] == n);
                if a < i {
                    assert(names[a] == n);
                } else {
                    assert(names[a + 1] == n);
                }
            }
            assert(names[i] == name);
        }
        assert forall|n: Seq<char>| names.contains(n) implies table_of(rows)[n] == table_of(
            old_rows,
        ).insert(name, value)[n] by {
            if n != name {
                let a = old_names.index_of(n);
                assert(0 <= a < old_names.len() && old_names[a] == n);
                let b = if a < i {
                    a
                } else {
                    a + 1
                };
                assert(rows[b] == old_rows[a]);
                lemma_row(rows, b);
            }
        }
    }
}

} // verus!
