//! Counting spec functions over sequences of cells, with the induction
//! lemmas that the battlefield and session proofs rest on: bounds, the
//! effect of a point update, prefix extension, and a pigeonhole argument
//! relating revealed cells to non-mine cells.

use vstd::prelude::*;

use crate::engine::cell::Cell;
use crate::engine::cell::CellState;
use crate::engine::cell::CellType;

verus! {

/// Number of `true` entries of a boolean sequence.
pub open spec fn count_true(s: Seq<bool>) -> int
    decreases s.len(),
{
    if s.len() == 0 {
        0
    } else {
        count_true(s.drop_last()) + if s.last() { 1int } else { 0int }
    }
}

/// Number of cells whose kind is `Mine`.
pub open spec fn count_mines(s: Seq<Cell>) -> int
    decreases s.len(),
{
    if s.len() == 0 {
        0
    } else {
        count_mines(s.drop_last()) + if s.last().ctype is Mine { 1int } else { 0int }
    }
}

/// Number of cells whose state is `Flagged`.
pub open spec fn count_flagged(s: Seq<Cell>) -> int
    decreases s.len(),
{
    if s.len() == 0 {
        0
    } else {
        count_flagged(s.drop_last()) + if s.last().state is Flagged { 1int } else { 0int }
    }
}

/// Number of cells whose state is `Revealed`.
pub open spec fn count_revealed(s: Seq<Cell>) -> int
    decreases s.len(),
{
    if s.len() == 0 {
        0
    } else {
        count_revealed(s.drop_last()) + if s.last().state is Revealed { 1int } else { 0int }
    }
}

pub proof fn lemma_count_mines_bounds(s: Seq<Cell>)
    ensures
        0 <= count_mines(s) <= s.len(),
    decreases s.len(),
{
    if s.len() > 0 {
        lemma_count_mines_bounds(s.drop_last());
    }
}

pub proof fn lemma_count_flagged_bounds(s: Seq<Cell>)
    ensures
        0 <= count_flagged(s) <= s.len(),
    decreases s.len(),
{
    if s.len() > 0 {
        lemma_count_flagged_bounds(s.drop_last());
    }
}

pub proof fn lemma_count_revealed_bounds(s: Seq<Cell>)
    ensures
        0 <= count_revealed(s) <= s.len(),
    decreases s.len(),
{
    if s.len() > 0 {
        lemma_count_revealed_bounds(s.drop_last());
    }
}

pub proof fn lemma_count_true_update(s: Seq<bool>, i: int, b: bool)
    requires
        0 <= i < s.len(),
    ensures
        count_true(s.update(i, b)) == count_true(s) - (if s[i] { 1int } else { 0int }) + (if b {
            1int
        } else {
            0int
        }),
    decreases s.len(),
{
    let t = s.update(i, b);
    if i == s.len() - 1 {
        assert(t.drop_last() =~= s.drop_last());
    } else {
        assert(t.drop_last() =~= s.drop_last().update(i, b));
        lemma_count_true_update(s.drop_last(), i, b);
    }
}

pub proof fn lemma_count_flagged_update(s: Seq<Cell>, i: int, c: Cell)
    requires
        0 <= i < s.len(),
    ensures
        count_flagged(s.update(i, c)) == count_flagged(s) - (if s[i].state is Flagged {
            1int
        } else {
            0int
        }) + (if c.state is Flagged { 1int } else { 0int }),
    decreases s.len(),
{
    let t = s.update(i, c);
    if i == s.len() - 1 {
        assert(t.drop_last() =~= s.drop_last());
    } else {
        assert(t.drop_last() =~= s.drop_last().update(i, c));
        lemma_count_flagged_update(s.drop_last(), i, c);
    }
}

pub proof fn lemma_count_revealed_update(s: Seq<Cell>, i: int, c: Cell)
    requires
        0 <= i < s.len(),
    ensures
        count_revealed(s.update(i, c)) == count_revealed(s) - (if s[i].state is Revealed {
            1int
        } else {
            0int
        }) + (if c.state is Revealed { 1int } else { 0int }),
    decreases s.len(),
{
    let t = s.update(i, c);
    if i == s.len() - 1 {
        assert(t.drop_last() =~= s.drop_last());
    } else {
        assert(t.drop_last() =~= s.drop_last().update(i, c));
        lemma_count_revealed_update(s.drop_last(), i, c);
    }
}

/// Extending a prefix by one element adds that element's contribution.
pub proof fn lemma_count_true_prefix(s: Seq<bool>, i: int)
    requires
        0 <= i < s.len(),
    ensures
        count_true(s.subrange(0, i + 1)) == count_true(s.subrange(0, i)) + (if s[i] {
            1int
        } else {
            0int
        }),
{
    let p = s.subrange(0, i + 1);
    assert(p.drop_last() =~= s.subrange(0, i));
    assert(p.last() == s[i]);
}

pub proof fn lemma_count_mines_prefix(s: Seq<Cell>, i: int)
    requires
        0 <= i < s.len(),
    ensures
        count_mines(s.subrange(0, i + 1)) == count_mines(s.subrange(0, i)) + (
        if s[i].ctype is Mine {
            1int
        } else {
            0int
        }),
{
    let p = s.subrange(0, i + 1);
    assert(p.drop_last() =~= s.subrange(0, i));
    assert(p.last() == s[i]);
}

pub proof fn lemma_count_flagged_prefix(s: Seq<Cell>, i: int)
    requires
        0 <= i < s.len(),
    ensures
        count_flagged(s.subrange(0, i + 1)) == count_flagged(s.subrange(0, i)) + (
        if s[i].state is Flagged {
            1int
        } else {
            0int
        }),
{
    let p = s.subrange(0, i + 1);
    assert(p.drop_last() =~= s.subrange(0, i));
    assert(p.last() == s[i]);
}

pub proof fn lemma_count_revealed_prefix(s: Seq<Cell>, i: int)
    requires
        0 <= i < s.len(),
    ensures
        count_revealed(s.subrange(0, i + 1)) == count_revealed(s.subrange(0, i)) + (
        if s[i].state is Revealed {
            1int
        } else {
            0int
        }),
{
    let p = s.subrange(0, i + 1);
    assert(p.drop_last() =~= s.subrange(0, i));
    assert(p.last() == s[i]);
}

/// A prefix never holds more flagged cells than the whole sequence.
pub proof fn lemma_count_flagged_prefix_le(s: Seq<Cell>, i: int)
    requires
        0 <= i <= s.len(),
    ensures
        count_flagged(s.subrange(0, i)) <= count_flagged(s),
    decreases s.len() - i,
{
    if i == s.len() {
        assert(s.subrange(0, i) =~= s);
    } else {
        lemma_count_flagged_prefix(s, i);
        lemma_count_flagged_prefix_le(s, i + 1);
    }
}

/// A sequence with a flagged cell holds at least one flagged cell.
pub proof fn lemma_count_flagged_pos(s: Seq<Cell>, i: int)
    requires
        0 <= i < s.len(),
        s[i].state is Flagged,
    ensures
        count_flagged(s) >= 1,
    decreases s.len(),
{
    lemma_count_flagged_bounds(s.drop_last());
    if i < s.len() - 1 {
        lemma_count_flagged_pos(s.drop_last(), i);
    }
}

/// A sequence without `true` entries counts zero of them.
pub proof fn lemma_count_true_all_false(s: Seq<bool>)
    requires
        forall|i: int| 0 <= i < s.len() ==> !s[i],
    ensures
        count_true(s) == 0,
    decreases s.len(),
{
    if s.len() > 0 {
        lemma_count_true_all_false(s.drop_last());
    }
}

/// When every cell is hidden, nothing is flagged and nothing is revealed.
pub proof fn lemma_count_all_hidden(s: Seq<Cell>)
    requires
        forall|i: int| 0 <= i < s.len() ==> s[i].state is Hidden,
    ensures
        count_flagged(s) == 0,
        count_revealed(s) == 0,
    decreases s.len(),
{
    if s.len() > 0 {
        lemma_count_all_hidden(s.drop_last());
    }
}

/// Sequences that agree pointwise on cell kinds hold the same number of
/// mines.
pub proof fn lemma_count_mines_pointwise(s1: Seq<Cell>, s2: Seq<Cell>)
    requires
        s1.len() == s2.len(),
        forall|i: int| 0 <= i < s1.len() ==> s1[i].ctype == s2[i].ctype,
    ensures
        count_mines(s1) == count_mines(s2),
    decreases s1.len(),
{
    if s1.len() > 0 {
        lemma_count_mines_pointwise(s1.drop_last(), s2.drop_last());
    }
}

/// A cell is a mine exactly where the mask is `true`, so both counts agree.
pub proof fn lemma_count_mines_matches_mask(s: Seq<Cell>, mask: Seq<bool>)
    requires
        s.len() == mask.len(),
        forall|i: int| 0 <= i < s.len() ==> (s[i].ctype is Mine <==> mask[i]),
    ensures
        count_mines(s) == count_true(mask),
    decreases s.len(),
{
    if s.len() > 0 {
        lemma_count_mines_matches_mask(s.drop_last(), mask.drop_last());
    }
}

/// When exactly the non-mine cells are revealed, the revealed count is
/// the complement of the mine count.
pub proof fn lemma_count_revealed_complement(s: Seq<Cell>)
    requires
        forall|i: int| 0 <= i < s.len() ==> (s[i].state is Revealed <==> !(s[i].ctype is Mine)),
    ensures
        count_revealed(s) == s.len() - count_mines(s),
    decreases s.len(),
{
    if s.len() > 0 {
        lemma_count_revealed_complement(s.drop_last());
    }
}

/// Pigeonhole for the win condition: when no revealed cell is a mine, at
/// most the non-mine cells can be revealed, and when the revealed count
/// reaches that bound, every non-mine cell is revealed.
pub proof fn lemma_revealed_vs_mines(s: Seq<Cell>)
    requires
        forall|i: int| 0 <= i < s.len() ==> (s[i].state is Revealed ==> !(s[i].ctype is Mine)),
    ensures
        count_revealed(s) <= s.len() - count_mines(s),
        count_revealed(s) == s.len() - count_mines(s) ==> forall|i: int|
            0 <= i < s.len() ==> (!(s[i].ctype is Mine) ==> s[i].state is Revealed),
    decreases s.len(),
{
    if s.len() > 0 {
        let p = s.drop_last();
        assert(forall|i: int|
            0 <= i < p.len() ==> (p[i].state is Revealed ==> !(p[i].ctype is Mine))) by {
            assert(forall|i: int| 0 <= i < p.len() ==> p[i] == s[i]);
        }
        lemma_revealed_vs_mines(p);
        if count_revealed(s) == s.len() - count_mines(s) {
            assert(forall|i: int|
                0 <= i < s.len() ==> (!(s[i].ctype is Mine) ==> s[i].state is Revealed)) by {
                assert(count_revealed(p) == p.len() - count_mines(p));
                assert(forall|i: int| 0 <= i < p.len() ==> p[i] == s[i]);
            }
        }
    }
}

} // verus!
