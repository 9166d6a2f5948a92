//! Rows of text, as tables show them.

use vstd::prelude::*;
use crate::lists::push_text;
use crate::text::before;
use crate::text::lemma_before_irreflexive;
use crate::text::lemma_before_total;
use crate::text::lemma_before_transitive;
use crate::text::same;
use crate::text::text_before;
use crate::text::texts;

verus! {

/// The cells of the rows.
pub open spec fn cells(rows: Seq<Vec<String>>) -> Seq<Seq<Seq<char>>> {
    rows.map_values(|row: Vec<String>| texts(row@))
}

/// A row of two cells.
pub fn row2(a: String, b: String) -> (row: Vec<String>)
    ensures
        texts(row@) == seq![a@, b@],
{
    let mut row: Vec<String> = Vec::new();
    push_text(&mut row, a);
    push_text(&mut row, b);
    assert(texts(row@) =~= seq![a@, b@]);
    row
}

/// A row of three cells.
pub fn row3(a: String, b: String, c: String) -> (row: Vec<String>)
    ensures
        texts(row@) == seq![a@, b@, c@],
{
    let mut row = row2(a, b);
    push_text(&mut row, c);
    assert(texts(row@) =~= seq![a@, b@, c@]);
    row
}

/// A row of four cells.
pub fn row4(a: String, b: String, c: String, d: String) -> (row: Vec<String>)
    ensures
        texts(row@) == seq![a@, b@, c@, d@],
{
    let mut row = row3(a, b, c);
    push_text(&mut row, d);
    assert(texts(row@) =~= seq![a@, b@, c@, d@]);
    row
}

/// A row of five cells.
pub fn row5(a: String, b: String, c: String, d: String, e: String) -> (row: Vec<String>)
    ensures
        texts(row@) == seq![a@, b@, c@, d@, e@],
{
    let mut row = row4(a, b, c, d);
    push_text(&mut row, e);
    assert(texts(row@) =~= seq![a@, b@, c@, d@, e@]);
    row
}

/// Adds a row.
pub fn push_row(rows: &mut Vec<Vec<String>>, row: Vec<String>)
    ensures
        cells(final(rows)@) == cells(old(rows)@).push(texts(row@)),
{
    let ghost before = cells(rows@);
    rows.push(row);
    assert(cells(rows@) =~= before.push(texts(row@)));
}

/// Whether one row comes before another: by the first cells in which they
/// differ.
pub open spec fn row_before(a: Seq<Seq<char>>, b: Seq<Seq<char>>) -> bool
    decreases a.len(),
{
    if b.len() == 0 {
        false
    } else if a.len() == 0 {
        true
    } else if a[0] == b[0] {
        row_before(a.drop_first(), b.drop_first())
    } else {
        before(a[0], b[0])
    }
}

/// Whether no row comes before one that stands ahead of it.
pub open spec fn rows_in_order(rows: Seq<Seq<Seq<char>>>) -> bool {
    forall|i: int, j: int| 0 <= i < j < rows.len() ==> !row_before(#[trigger] rows[j], #[trigger] rows[i])
}

/// Of two rows at most one comes before the other.
pub proof fn lemma_row_before_asymmetric(a: Seq<Seq<char>>, b: Seq<Seq<char>>)
    requires
        row_before(a, b),
    ensures
        !row_before(b, a),
    decreases a.len(),
{
    if a.len() > 0 {
        if a[0] == b[0] {
            lemma_row_before_asymmetric(a.drop_first(), b.drop_first());
        } else if before(b[0], a[0]) {
            lemma_before_transitive(a[0], b[0], a[0]);
            lemma_before_irreflexive(a[0]);
        }
    }
}

/// A row that comes before a second comes before every third that does not.
pub proof fn lemma_row_before_transitive(a: Seq<Seq<char>>, b: Seq<Seq<char>>, c: Seq<Seq<char>>)
    requires
        row_before(a, b),
        !row_before(c, b),
    ensures
        row_before(a, c),
    decreases a.len(),
{
    if a.len() == 0 {
        if c.len() == 0 {
            assert(row_before(c, b));
        }
    } else if c.len() == 0 {
        assert(row_before(c, b));
    } else if a[0] == b[0] && b[0] == c[0] {
        lemma_row_before_transitive(a.drop_first(), b.drop_first(), c.drop_first());
    } else {
        lemma_before_total(b[0], c[0]);
        if a[0] != b[0] && b[0] != c[0] {
            lemma_before_transitive(a[0], b[0], c[0]);
            lemma_before_irreflexive(a[0]);
        }
        if a[0] == c[0] {
            if a[0] != b[0] {
                lemma_before_irreflexive(a[0]);
                if b[0] != c[0] {
                    lemma_before_transitive(a[0], b[0], c[0]);
                }
            }
        }
    }
}

/// Tests whether one row comes before another.
pub fn comes_before(a: &Vec<String>, b: &Vec<String>) -> (yes: bool)
    ensures
        yes == row_before(texts(a@), texts(b@)),
{
    let ghost left = texts(a@);
    let ghost right = texts(b@);
    let mut i: usize = 0;
    assert(left.subrange(0, left.len() as int) =~= left);
    assert(right.subrange(0, right.len() as int) =~= right);
    loop
        invariant
            i <= a@.len(),
            i <= b@.len(),
            left == texts(a@),
            right == texts(b@),
            row_before(left, right) == row_before(
                left.subrange(i as int, left.len() as int),
                right.subrange(i as int, right.len() as int),
            ),
        decreases a.len() - i,
    {
        let ghost rest_left = left.subrange(i as int, left.len() as int);
        let ghost rest_right = right.subrange(i as int, right.len() as int);
        if i == b.len() {
            return false;
        }
        if i == a.len() {
            return true;
        }
        assert(rest_left[0] == a@[i as int]@);
        assert(rest_right[0] == b@[i as int]@);
        if !same(a[i].as_str(), b[i].as_str()) {
            return text_before(a[i].as_str(), b[i].as_str());
        }
        assert(rest_left.drop_first() =~= left.subrange(i + 1, left.len() as int));
        assert(rest_right.drop_first() =~= right.subrange(i + 1, right.len() as int));
        i = i + 1;
    }
}

fn insert_in_order(sorted: &mut Vec<Vec<String>>, row: Vec<String>)
    requires
        rows_in_order(cells(old(sorted)@)),
    ensures
        rows_in_order(cells(final(sorted)@)),
        cells(final(sorted)@).to_multiset() == cells(old(sorted)@).to_multiset().insert(
            texts(row@),
        ),
{
    let ghost known = cells(sorted@);
    let ghost new = texts(row@);
    let mut i: usize = sorted.len();
    while i > 0 && comes_before(&row, &sorted[i - 1])
        invariant
            i <= sorted@.len(),
            cells(sorted@) == known,
            new == texts(row@),
            forall|k: int| i <= k < known.len() ==> row_before(new, #[trigger] known[k]),
        decreases i,
    {
        assert(known[i - 1] == texts(sorted@[i - 1]@));
        i = i - 1;
    }
    proof {
        if i > 0 {
            assert(known[i - 1] == texts(sorted@[i - 1]@));
        }
    }
    sorted.insert(i, row);
    proof {
        let all = cells(sorted@);
        let front = known.subrange(0, i as int);
        let back = known.subrange(i as int, known.len() as int);
        assert(front + back =~= known);
        assert(all =~= front.push(new) + back);
        broadcast use vstd::seq_lib::group_to_multiset_ensures;

        vstd::seq_lib::lemma_multiset_commutative(front, back);
        vstd::seq_lib::lemma_multiset_commutative(front.push(new), back);
        assert(all.to_multiset() =~= known.to_multiset().insert(new));
        assert forall|x: int, y: int| 0 <= x < y < all.len() implies !row_before(#[trigger] all[y], #[trigger] all[x]) by {
            let from = |k: int| if k < i { k } else { k - 1 };
            if x != i && y != i {
                assert(all[x] == known[from(x)] && all[y] == known[from(y)]);
            } else if y == i {
                assert(all[x] == known[x]);
                if row_before(new, known[x]) {
                    if x < i - 1 {
                        assert(!row_before(known[i - 1], known[x]));
                        lemma_row_before_transitive(new, known[x], known[i - 1]);
                    }
                }
            } else {
                assert(all[y] == known[y - 1]);
                assert(row_before(new, known[y - 1]));
                lemma_row_before_asymmetric(new, known[y - 1]);
            }
        }
    }
}

/// Sorts rows by their cells.
pub fn sort_rows(rows: Vec<Vec<String>>) -> (sorted: Vec<Vec<String>>)
    ensures
        rows_in_order(cells(sorted@)),
        cells(sorted@).to_multiset() == cells(rows@).to_multiset(),
{
    let mut rows = rows;
    let ghost all = cells(rows@);
    let mut sorted: Vec<Vec<String>> = Vec::new();
    proof {
        broadcast use vstd::seq_lib::group_to_multiset_ensures;

        assert(cells(sorted@) =~= Seq::<Seq<Seq<char>>>::empty());
        assert(cells(rows@).to_multiset().add(cells(sorted@).to_multiset()) =~= all.to_multiset());
    }
    while rows.len() > 0
        invariant
            rows_in_order(cells(sorted@)),
            cells(rows@).to_multiset().add(cells(sorted@).to_multiset()) == all.to_multiset(),
        decreases rows.len(),
    {
        let ghost left = cells(rows@);
        let ghost done = cells(sorted@);
        match rows.pop() {
            Some(row) => {
                proof {
                    broadcast use vstd::seq_lib::group_to_multiset_ensures;

                    assert(left.drop_last() =~= cells(rows@));
                    assert(left.last() == texts(row@));
                    assert(left =~= left.drop_last().push(left.last()));
                    assert(left.to_multiset() =~= cells(rows@).to_multiset().insert(texts(row@)));
                }
                insert_in_order(&mut sorted, row);
                assert(cells(rows@).to_multiset().add(cells(sorted@).to_multiset())
                    =~= all.to_multiset());
            },
            None => {},
        }
    }
    proof {
        broadcast use vstd::seq_lib::group_to_multiset_ensures;

        assert(cells(rows@) =~= Seq::<Seq<Seq<char>>>::empty());
        assert(cells(sorted@).to_multiset() =~= all.to_multiset());
    }
    sorted
}

} // verus!
