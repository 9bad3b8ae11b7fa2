//! The battlefield grid: mine placement, adjacency counts, flood-fill
//! revealing, flagging with a bounded flag budget, and lookups.
//!
//! Cells are stored in one flat vector in column-major order: the cell at
//! column `x` and row `y` sits at index `x * rows + y`, and that index is
//! also the cell's id. The fields are public so that the specification
//! functions below can speak about them; the contracts of every operation
//! assume and preserve the well-formedness predicates, so callers that
//! mutate the fields directly are on their own.

use vstd::arithmetic::div_mod::lemma_fundamental_div_mod;
use vstd::arithmetic::div_mod::lemma_fundamental_div_mod_converse;
use vstd::arithmetic::div_mod::lemma_mod_division_less_than_divisor;
use vstd::arithmetic::div_mod::lemma_multiply_divide_lt;
use vstd::prelude::*;

use crate::engine::cell::Cell;
use crate::engine::cell::CellId;
use crate::engine::cell::CellPosition;
use crate::engine::cell::CellState;
use crate::engine::cell::CellType;
use crate::engine::counting::count_flagged;
use crate::engine::counting::count_mines;
use crate::engine::counting::count_revealed;
use crate::engine::counting::count_true;
use crate::engine::counting::lemma_count_all_hidden;
use crate::engine::counting::lemma_count_flagged_update;
use crate::engine::counting::lemma_count_mines_matches_mask;
use crate::engine::counting::lemma_count_revealed_update;
use crate::engine::counting::lemma_count_true_all_false;
use crate::engine::counting::lemma_count_true_prefix;
use crate::engine::counting::lemma_count_flagged_bounds;
use crate::engine::counting::lemma_count_flagged_prefix;
use crate::engine::counting::lemma_count_flagged_prefix_le;
use crate::engine::counting::lemma_count_mines_bounds;
use crate::engine::counting::lemma_count_mines_pointwise;
use crate::engine::counting::lemma_count_mines_prefix;
use crate::engine::counting::lemma_count_revealed_bounds;
use crate::engine::counting::lemma_count_revealed_prefix;
use crate::engine::counting::lemma_count_true_update;

verus! {

/// Two grid coordinates are adjacent when they differ by at most one on
/// each axis and are not the same coordinate.
pub open spec fn adjacent(x1: int, y1: int, x2: int, y2: int) -> bool {
    &&& (x1 != x2 || y1 != y2)
    &&& -1 <= x1 - x2 <= 1
    &&& -1 <= y1 - y2 <= 1
}

/// Coordinates within a `cols` by `rows` grid round-trip through the flat
/// column-major index `x * rows + y`.
pub proof fn lemma_grid_inverse(rows: int, cols: int, x: int, y: int)
    requires
        0 <= x < cols,
        0 <= y < rows,
    ensures
        0 <= x * rows + y < cols * rows,
        (x * rows + y) / rows == x,
        (x * rows + y) % rows == y,
{
    lemma_fundamental_div_mod_converse(x * rows + y, rows, x, y);
    assert(x * rows + y >= 0) by (nonlinear_arith)
        requires
            0 <= x,
            0 <= y,
            0 < rows,
    ;
    assert(x * rows + y < cols * rows) by (nonlinear_arith)
        requires
            0 <= x < cols,
            0 <= y < rows,
    ;
}

/// Whether the mask of a `cols` by `rows` grid holds a mine at column
/// `x`, row `y`; positions off the grid hold none.
spec fn mask_mine_at(mask: Seq<bool>, rows: int, cols: int, x: int, y: int) -> bool {
    0 <= x < cols && 0 <= y < rows && mask[x * rows + y]
}

/// Number of mines of the mask among the up-to-eight neighbours of
/// column `x`, row `y`.
spec fn mask_adj(mask: Seq<bool>, rows: int, cols: int, x: int, y: int) -> int {
    (if mask_mine_at(mask, rows, cols, x - 1, y - 1) { 1int } else { 0int })
        + (if mask_mine_at(mask, rows, cols, x - 1, y) { 1int } else { 0int })
        + (if mask_mine_at(mask, rows, cols, x - 1, y + 1) { 1int } else { 0int })
        + (if mask_mine_at(mask, rows, cols, x, y - 1) { 1int } else { 0int })
        + (if mask_mine_at(mask, rows, cols, x, y + 1) { 1int } else { 0int })
        + (if mask_mine_at(mask, rows, cols, x + 1, y - 1) { 1int } else { 0int })
        + (if mask_mine_at(mask, rows, cols, x + 1, y) { 1int } else { 0int })
        + (if mask_mine_at(mask, rows, cols, x + 1, y + 1) { 1int } else { 0int })
}

/// On a battlefield whose cells carry a mine exactly where the mask does,
/// both readings of "mine at this position" agree.
proof fn lemma_mine_at_congruent(bf: BattleField, mask: Seq<bool>, x: int, y: int)
    requires
        bf.cells@.len() == bf.total(),
        mask.len() == bf.total(),
        forall|k: int| 0 <= k < bf.total() ==> ((#[trigger] bf.cells@[k]).ctype is Mine <==> mask[k]),
    ensures
        bf.mine_at(x, y) == mask_mine_at(mask, bf.rows as int, bf.cols as int, x, y),
{
    if 0 <= x < bf.cols as int && 0 <= y < bf.rows as int {
        lemma_grid_inverse(bf.rows as int, bf.cols as int, x, y);
    }
}

/// On a battlefield whose cells carry a mine exactly where the mask does,
/// both readings of the adjacency count agree.
proof fn lemma_adj_congruent(bf: BattleField, mask: Seq<bool>, x: int, y: int)
    requires
        bf.cells@.len() == bf.total(),
        mask.len() == bf.total(),
        forall|k: int| 0 <= k < bf.total() ==> ((#[trigger] bf.cells@[k]).ctype is Mine <==> mask[k]),
    ensures
        bf.adj_mines(x, y) == mask_adj(mask, bf.rows as int, bf.cols as int, x, y),
{
    lemma_mine_at_congruent(bf, mask, x - 1, y - 1);
    lemma_mine_at_congruent(bf, mask, x - 1, y);
    lemma_mine_at_congruent(bf, mask, x - 1, y + 1);
    lemma_mine_at_congruent(bf, mask, x, y - 1);
    lemma_mine_at_congruent(bf, mask, x, y + 1);
    lemma_mine_at_congruent(bf, mask, x + 1, y - 1);
    lemma_mine_at_congruent(bf, mask, x + 1, y);
    lemma_mine_at_congruent(bf, mask, x + 1, y + 1);
}

/// Relies on `rand::random_range`: returns a value of the given range,
/// uniformly distributed; the range `0..n` is non-empty because `n > 0`.
/// Nothing more is assumed of the outcome.
#[verifier::external_body]
fn random_below(n: u16) -> (r: u16)
    requires
        n > 0,
    ensures
        r < n,
{
    rand::random_range(0..n)
}

/// Returns the index of the `r`-th (zero-based) free slot of the mask.
/// The caller guarantees that more than `r` slots are free.
fn select_free(mask: &Vec<bool>, r: u16) -> (idx: u16)
    requires
        mask@.len() <= 0xffff,
        (r as int) < mask@.len() - count_true(mask@),
    ensures
        (idx as int) < mask@.len(),
        !mask@[idx as int],
{
    let n = mask.len();
    let mut i: usize = 0;
    let mut seen: u16 = 0;
    while i < n
        invariant
            n == mask@.len(),
            mask@.len() <= 0xffff,
            (r as int) < mask@.len() - count_true(mask@),
            0 <= i <= n,
            seen as int == i as int - count_true(mask@.subrange(0, i as int)),
            seen <= r,
        decreases n - i,
    {
        let was_free = !mask[i];
        if was_free {
            if seen == r {
                return i as u16;
            }
            seen = seen + 1;
        }
        proof {
            lemma_count_true_prefix(mask@, i as int);
        }
        i = i + 1;
    }
    proof {
        assert(mask@.subrange(0, n as int) =~= mask@);
        assert(false);
    }
    0
}

/// Counts the mines of the mask among the up-to-eight neighbours of
/// column `x`, row `y`.
fn adj_count_from_mask(mask: &Vec<bool>, rows: u16, cols: u16, x: u16, y: u16) -> (n: u8)
    requires
        rows <= 0x7fff,
        cols <= 0x7fff,
        mask@.len() == cols as int * rows as int,
        mask@.len() <= 0xffff,
        x < cols,
        y < rows,
    ensures
        n as int == mask_adj(mask@, rows as int, cols as int, x as int, y as int),
{
    let mut n: u8 = 0;
    if x >= 1 && y >= 1 {
        proof {
            lemma_grid_inverse(rows as int, cols as int, x - 1, y - 1);
        }
        if mask[(x - 1) as usize * rows as usize + (y - 1) as usize] {
            n = n + 1;
        }
    }
    if x >= 1 {
        proof {
            lemma_grid_inverse(rows as int, cols as int, x - 1, y as int);
        }
        if mask[(x - 1) as usize * rows as usize + y as usize] {
            n = n + 1;
        }
    }
    if x >= 1 && y + 1 < rows {
        proof {
            lemma_grid_inverse(rows as int, cols as int, x - 1, y + 1);
        }
        if mask[(x - 1) as usize * rows as usize + (y + 1) as usize] {
            n = n + 1;
        }
    }
    if y >= 1 {
        proof {
            lemma_grid_inverse(rows as int, cols as int, x as int, y - 1);
        }
        if mask[x as usize * rows as usize + (y - 1) as usize] {
            n = n + 1;
        }
    }
    if y + 1 < rows {
        proof {
            lemma_grid_inverse(rows as int, cols as int, x as int, y + 1);
        }
        if mask[x as usize * rows as usize + (y + 1) as usize] {
            n = n + 1;
        }
    }
    if x + 1 < cols && y >= 1 {
        proof {
            lemma_grid_inverse(rows as int, cols as int, x + 1, y - 1);
        }
        if mask[(x + 1) as usize * rows as usize + (y - 1) as usize] {
            n = n + 1;
        }
    }
    if x + 1 < cols {
        proof {
            lemma_grid_inverse(rows as int, cols as int, x + 1, y as int);
        }
        if mask[(x + 1) as usize * rows as usize + y as usize] {
            n = n + 1;
        }
    }
    if x + 1 < cols && y + 1 < rows {
        proof {
            lemma_grid_inverse(rows as int, cols as int, x + 1, y + 1);
        }
        if mask[(x + 1) as usize * rows as usize + (y + 1) as usize] {
            n = n + 1;
        }
    }
    n
}

/// The row count that a matrix of cells determines: the length of its
/// first column, or zero when it has no column.
pub open spec fn map_rows(m: Seq<Vec<Cell>>) -> int {
    if m.len() == 0 {
        0int
    } else {
        m[0]@.len() as int
    }
}

/// Whether the `k`-th snapshot was reached by the flood: some earlier
/// snapshot shows a cell with adjacency count zero that neighbours it.
pub open spec fn flood_justified(pre: BattleField, rc: Seq<Cell>, k: int) -> bool {
    exists|j: int|
        0 <= j < k && (#[trigger] rc[j]).ctype == CellType::Empty(0) && pre.neighbors(
            rc[j].id as int,
            rc[k].id as int,
        )
}

/// Whether the sequence of cell snapshots holds a cell with id `i`.
pub open spec fn snaps_have(rc: Seq<Cell>, i: int) -> bool {
    exists|k: int| 0 <= k < rc.len() && (#[trigger] rc[k]).id as int == i
}

/// Whether the worklist holds the id `j`.
pub open spec fn stack_has(st: Seq<CellId>, j: int) -> bool {
    exists|k: int| 0 <= k < st.len() && (#[trigger] st[k]) as int == j
}

/// How one reveal operation relates the battlefield before the call
/// (`pre`), the battlefield after it (`post`), the returned snapshots
/// (`rc`), the returned mine flag (`over`) and the target id (`id`).
///
/// In both outcomes: nothing but cell states and the flag counter
/// changes; the target's snapshot comes first; every snapshot shows a
/// distinct cell as it stands after the call, revealed; every snapshot
/// but possibly the target's shows a cell that was not yet revealed; a
/// cell is revealed after the call exactly when it was revealed before or
/// appears among the snapshots; and the flag budget accounting is
/// restored (revealing overrides flags, so flagged cells may have been
/// spent back into the budget).
///
/// When the target is a mine (`over`), the whole field is disclosed: all
/// cells end revealed and the snapshots are exactly the target followed
/// by every previously unrevealed cell in ascending id order.
///
/// Otherwise no snapshot shows a mine; every snapshot after the first is
/// justified by an earlier snapshot of an `Empty(0)` cell next to it (the
/// flood-fill); and every snapshot of an `Empty(0)` cell has all its
/// non-mine neighbours revealed after the call (the flood ran to
/// completion).
pub open spec fn uncover_rel(
    pre: BattleField,
    post: BattleField,
    rc: Seq<Cell>,
    over: bool,
    id: int,
) -> bool {
    &&& post.rows == pre.rows
    &&& post.cols == pre.cols
    &&& post.bombs == pre.bombs
    &&& post.cells@.len() == pre.cells@.len()
    &&& forall|i: int|
        0 <= i < pre.total() ==> (#[trigger] post.cells@[i]).id == pre.cells@[i].id
            && post.cells@[i].ctype == pre.cells@[i].ctype && post.cells@[i].position
            == pre.cells@[i].position
    &&& rc.len() >= 1
    &&& rc[0].id as int == id
    &&& forall|k: int|
        0 <= k < rc.len() ==> 0 <= ((#[trigger] rc[k]).id as int) < pre.total() && rc[k]
            == post.cells@[rc[k].id as int] && rc[k].state is Revealed
    &&& forall|k1: int, k2: int|
        0 <= k1 < k2 < rc.len() ==> (#[trigger] rc[k1]).id != (#[trigger] rc[k2]).id
    &&& forall|k: int|
        1 <= k < rc.len() ==> !(pre.cells@[(#[trigger] rc[k]).id as int].state is Revealed)
    &&& forall|i: int|
        0 <= i < pre.total() && !snaps_have(rc, i) ==> #[trigger] post.cells@[i] == pre.cells@[i]
    &&& forall|i: int|
        0 <= i < pre.total() ==> ((#[trigger] post.cells@[i]).state is Revealed <==> (
        pre.cells@[i].state is Revealed || snaps_have(rc, i)))
    &&& over == (pre.cells@[id].ctype is Mine)
    &&& post.budget_ok()
    &&& count_flagged(post.cells@) <= count_flagged(pre.cells@)
    &&& (over ==> {
        &&& forall|i: int| 0 <= i < pre.total() ==> (#[trigger] post.cells@[i]).state is Revealed
        &&& forall|i: int|
            0 <= i < pre.total() ==> (#[trigger] snaps_have(rc, i) <==> (i == id || !(
            pre.cells@[i].state is Revealed)))
        &&& forall|k1: int, k2: int|
            1 <= k1 < k2 < rc.len() ==> (#[trigger] rc[k1]).id < (#[trigger] rc[k2]).id
    })
    &&& (!over ==> {
        &&& forall|k: int| 1 <= k < rc.len() ==> !((#[trigger] rc[k]).ctype is Mine)
        &&& forall|k: int| 1 <= k < rc.len() ==> #[trigger] flood_justified(pre, rc, k)
        &&& forall|k: int, j: int|
            0 <= k < rc.len() && rc[k].ctype == CellType::Empty(0) && #[trigger] pre.neighbors(
                rc[k].id as int,
                j,
            ) && !pre.is_mine(j) ==> post.cells@[j].state is Revealed
    })
}

/// A reveal preserves the flood-fill closure: when every revealed zero
/// cell had its non-mine neighbours revealed before the call, the same
/// holds after it, because the flood reveals the neighbours of every
/// zero cell it uncovers, and a full disclosure reveals everything.
pub proof fn lemma_uncover_preserves_zero_closed(
    pre: BattleField,
    post: BattleField,
    rc: Seq<Cell>,
    over: bool,
    id: int,
)
    requires
        0 <= id < pre.total(),
        pre.cells@.len() == pre.total(),
        uncover_rel(pre, post, rc, over, id),
        pre.zero_closed(),
    ensures
        post.zero_closed(),
{
    assert forall|i: int, j: int|
        (0 <= i < post.total() && post.cells@[i].state is Revealed && post.cells@[i].ctype
            == CellType::Empty(0) && #[trigger] post.neighbors(i, j) && !post.is_mine(j)) implies
        post.cells@[j].state is Revealed by {
        assert(pre.neighbors(i, j));
        if over {
        } else {
            if snaps_have(rc, i) {
                let k = choose|k: int| 0 <= k < rc.len() && (#[trigger] rc[k]).id as int == i;
                assert(rc[k].ctype == CellType::Empty(0));
                assert(pre.neighbors(rc[k].id as int, j));
            } else {
                assert(post.cells@[i] == pre.cells@[i]);
            }
        }
    }
}

/// Revealing is idempotent: revealing a non-mine cell that is already
/// revealed, on a battlefield where the flood-fill closure holds (as it
/// does on every battlefield reached by construction and play), changes
/// nothing: the grid stays as it was, the flag budget stays as it was,
/// and the returned delta holds nothing but the unchanged target
/// snapshot. So a second reveal of the same cell returns the same grid
/// state that the first left behind.
pub proof fn lemma_uncover_idempotent(
    pre: BattleField,
    post: BattleField,
    rc: Seq<Cell>,
    id: int,
)
    requires
        pre.wf(),
        pre.budget_ok(),
        pre.zero_closed(),
        0 <= id < pre.total(),
        pre.cells@[id].state is Revealed,
        !(pre.cells@[id].ctype is Mine),
        uncover_rel(pre, post, rc, false, id),
    ensures
        rc.len() == 1,
        rc[0] == pre.cells@[id],
        post.cells@ == pre.cells@,
        post.flags_left == pre.flags_left,
        post.rows == pre.rows,
        post.cols == pre.cols,
        post.bombs == pre.bombs,
{
    if rc.len() >= 2 {
        assert(flood_justified(pre, rc, 1));
        let j = choose|j: int|
            0 <= j < 1 && (#[trigger] rc[j]).ctype == CellType::Empty(0) && pre.neighbors(
                rc[j].id as int,
                rc[1].id as int,
            );
        assert(rc[0].ctype == CellType::Empty(0));
        let i1 = rc[1].id as int;
        assert(pre.cells@[id].ctype == CellType::Empty(0));
        assert(!(pre.cells@[i1].ctype is Mine));
        assert(pre.neighbors(id, i1));
        assert(pre.cells@[i1].state is Revealed);
        assert(false);
    }
    assert forall|i: int| 0 <= i < pre.total() implies post.cells@[i] == pre.cells@[i] by {
        if snaps_have(rc, i) {
            let k = choose|k: int| 0 <= k < rc.len() && (#[trigger] rc[k]).id as int == i;
            assert(k == 0);
            assert(i == id);
        }
    }
    assert(post.cells@ =~= pre.cells@);
}

/// The flag budget follows the rules of play: starting from a grid with
/// two mines, a full budget of two flags and no cell flagged, flagging
/// two distinct hidden cells spends the budget down to zero; a third
/// attempt on a hidden cell is refused and changes nothing; and
/// unflagging any flagged cell restores one flag.
pub proof fn lemma_flag_budget(
    f0: BattleField,
    f1: BattleField,
    f2: BattleField,
    f3: BattleField,
    f4: BattleField,
    a: int,
    b: int,
    c: int,
    d: int,
    ra: Cell,
    rb: Cell,
    rc: Cell,
    rd: Cell,
)
    requires
        f0.wf(),
        f0.bombs == 2,
        f0.flags_left == 2,
        0 <= a < f0.total(),
        0 <= b < f0.total(),
        0 <= c < f0.total(),
        0 <= d < f0.total(),
        a != b,
        f0.cells@[a].state is Hidden,
        f0.cells@[b].state is Hidden,
        f2.cells@[c].state is Hidden,
        f3.cells@[d].state is Flagged,
        flag_rel(f0, f1, a, ra),
        flag_rel(f1, f2, b, rb),
        flag_rel(f2, f3, c, rc),
        flag_rel(f3, f4, d, rd),
    ensures
        f1.flags_left == 1,
        ra.state is Flagged,
        f2.flags_left == 0,
        rb.state is Flagged,
        f3.flags_left == 0,
        rc.state is Hidden,
        rc == f2.cells@[c],
        f4.flags_left == 1,
        rd.state is Hidden,
{
    assert(f1.cells@[b] == f0.cells@[b]);
}

/// Winning means disclosing exactly the safe cells: on a battlefield
/// where no revealed cell is a mine, the revealed count can never exceed
/// the number of non-mine cells, and it reaches that target exactly when
/// every non-mine cell stands revealed.
pub proof fn lemma_win_means_all_safe_revealed(bf: BattleField)
    requires
        bf.wf(),
        bf.mines_ok(),
        forall|i: int|
            0 <= i < bf.total() ==> ((#[trigger] bf.cells@[i]).state is Revealed ==> !(
            bf.cells@[i].ctype is Mine)),
    ensures
        count_revealed(bf.cells@) <= bf.total() - bf.bombs as int,
        count_revealed(bf.cells@) == bf.total() - bf.bombs as int <==> (forall|i: int|
            0 <= i < bf.total() ==> (!((#[trigger] bf.cells@[i]).ctype is Mine)
                ==> bf.cells@[i].state is Revealed)),
{
    crate::engine::counting::lemma_revealed_vs_mines(bf.cells@);
    if forall|i: int|
        0 <= i < bf.total() ==> (!((#[trigger] bf.cells@[i]).ctype is Mine) ==> bf.cells@[i].state
            is Revealed) {
        crate::engine::counting::lemma_count_revealed_complement(bf.cells@);
    }
}

/// An element of a worklist stays in it when the worklist is only
/// extended at the end.
pub proof fn lemma_stack_has_extend(s1: Seq<CellId>, s2: Seq<CellId>, j: int)
    requires
        stack_has(s1, j),
        s2.len() >= s1.len(),
        forall|k: int| 0 <= k < s1.len() ==> #[trigger] s2[k] == s1[k],
    ensures
        stack_has(s2, j),
{
    let k = choose|k: int| 0 <= k < s1.len() && (#[trigger] s1[k]) as int == j;
    assert(s2[k] as int == j);
}

/// How one flagging step relates the battlefield before the call, the
/// battlefield after it, and the returned cell snapshot: unflagging is
/// always allowed and refunds one flag, flagging a hidden cell spends one
/// flag and is refused when the budget is exhausted, and a revealed cell
/// is never touched. Everything but the addressed cell's state and the
/// flag counter stays as it was.
pub open spec fn flag_rel(pre: BattleField, post: BattleField, id: int, ret: Cell) -> bool {
    let c = pre.cells@[id];
    &&& post.rows == pre.rows
    &&& post.cols == pre.cols
    &&& post.bombs == pre.bombs
    &&& post.cells@.len() == pre.cells@.len()
    &&& forall|i: int| 0 <= i < pre.cells@.len() && i != id ==> post.cells@[i] == pre.cells@[i]
    &&& ret == post.cells@[id]
    &&& ret.id == c.id
    &&& ret.ctype == c.ctype
    &&& ret.position == c.position
    &&& (c.state is Flagged ==> ret.state is Hidden && post.flags_left == pre.flags_left + 1)
    &&& (c.state is Revealed ==> ret == c && post.flags_left == pre.flags_left)
    &&& (c.state is Hidden && pre.flags_left == 0 ==> ret == c && post.flags_left == 0)
    &&& (c.state is Hidden && pre.flags_left > 0 ==> ret.state is Flagged && post.flags_left
        == pre.flags_left - 1)
}

/// The main map of the battle.
pub struct BattleField {
    /// The cells of the grid, flat, in column-major order; the index of a
    /// cell is its id.
    pub cells: Vec<Cell>,
    /// Number of rows (the extent of the `y` axis).
    pub rows: u16,
    /// Number of columns (the extent of the `x` axis).
    pub cols: u16,
    /// How many flags the player may still set; starts at `bombs`.
    pub flags_left: u16,
    /// How many mines were placed on the map.
    pub bombs: u16,
}

/// What one reveal operation did: whether a mine went off, and the cells
/// whose state changed, as snapshots in the order they were uncovered.
pub struct Reveal {
    pub game_is_over: bool,
    pub cells: Vec<Cell>,
}

impl BattleField {
    /// Number of cells of the grid.
    pub open spec fn total(self) -> int {
        self.cols as int * self.rows as int
    }

    /// The flat index (and id) of the cell at column `x`, row `y`.
    pub open spec fn idx(self, x: int, y: int) -> int {
        x * self.rows as int + y
    }

    /// The column of the cell with flat index `i`.
    pub open spec fn xof(self, i: int) -> int {
        i / self.rows as int
    }

    /// The row of the cell with flat index `i`.
    pub open spec fn yof(self, i: int) -> int {
        i % self.rows as int
    }

    /// Whether column `x`, row `y` lies on the grid.
    pub open spec fn in_bounds(self, x: int, y: int) -> bool {
        &&& 0 <= x < self.cols as int
        &&& 0 <= y < self.rows as int
    }

    /// Structural well-formedness: the dimensions are small enough for the
    /// id and counter arithmetic, there is one cell per grid position, and
    /// ids equal indices.
    pub open spec fn wf(self) -> bool {
        &&& self.rows <= 0x7fff
        &&& self.cols <= 0x7fff
        &&& self.total() <= 0xffff
        &&& self.cells@.len() == self.total()
        &&& forall|i: int| 0 <= i < self.total() ==> (#[trigger] self.cells@[i]).id as int == i
    }

    /// Placement consistency: every cell's `position` field agrees with
    /// the column-major index of the cell.
    pub open spec fn placed(self) -> bool {
        forall|i: int|
            0 <= i < self.total() ==> (#[trigger] self.cells@[i]).position.x as int == self.xof(i)
                && self.cells@[i].position.y as int == self.yof(i)
    }

    /// Whether the cell with flat index `i` is a mine.
    pub open spec fn is_mine(self, i: int) -> bool {
        self.cells@[i].ctype is Mine
    }

    /// Whether column `x`, row `y` lies on the grid and holds a mine.
    pub open spec fn mine_at(self, x: int, y: int) -> bool {
        self.in_bounds(x, y) && self.is_mine(self.idx(x, y))
    }

    /// Whether the cells with flat indices `i` and `j` are neighbours on
    /// the grid.
    pub open spec fn neighbors(self, i: int, j: int) -> bool {
        &&& 0 <= i < self.total()
        &&& 0 <= j < self.total()
        &&& adjacent(self.xof(i), self.yof(i), self.xof(j), self.yof(j))
    }

    /// Number of mines among the up-to-eight neighbours of column `x`,
    /// row `y`.
    pub open spec fn adj_mines(self, x: int, y: int) -> int {
        (if self.mine_at(x - 1, y - 1) { 1int } else { 0int })
            + (if self.mine_at(x - 1, y) { 1int } else { 0int })
            + (if self.mine_at(x - 1, y + 1) { 1int } else { 0int })
            + (if self.mine_at(x, y - 1) { 1int } else { 0int })
            + (if self.mine_at(x, y + 1) { 1int } else { 0int })
            + (if self.mine_at(x + 1, y - 1) { 1int } else { 0int })
            + (if self.mine_at(x + 1, y) { 1int } else { 0int })
            + (if self.mine_at(x + 1, y + 1) { 1int } else { 0int })
    }

    /// Adjacency correctness: every empty cell carries exactly the number
    /// of mines among its neighbours.
    pub open spec fn counts_ok(self) -> bool {
        forall|i: int|
            0 <= i < self.total() ==> ((#[trigger] self.cells@[i]).ctype matches CellType::Empty(n)
                ==> n as int == self.adj_mines(self.xof(i), self.yof(i)))
    }

    /// Flag accounting: the remaining flag budget plus the number of
    /// currently flagged cells equals the number of mines.
    pub open spec fn budget_ok(self) -> bool {
        self.flags_left as int == self.bombs as int - count_flagged(self.cells@)
    }

    /// The `bombs` field counts the mines actually on the grid.
    pub open spec fn mines_ok(self) -> bool {
        self.bombs as int == count_mines(self.cells@)
    }

    /// Flood-fill closure: every revealed cell with adjacency count zero
    /// has all its non-mine neighbours revealed. Freshly built grids have
    /// no revealed cell, and every reveal restores the closure, so it holds
    /// throughout a game.
    pub open spec fn zero_closed(self) -> bool {
        forall|i: int, j: int|
            (0 <= i < self.total() && self.cells@[i].state is Revealed && self.cells@[i].ctype
                == CellType::Empty(0) && #[trigger] self.neighbors(i, j) && !self.is_mine(j))
                ==> self.cells@[j].state is Revealed
    }

    /// Grid coordinates within bounds round-trip through the flat index.
    pub proof fn lemma_idx_inverse(self, x: int, y: int)
        requires
            self.in_bounds(x, y),
        ensures
            0 <= self.idx(x, y) < self.total(),
            self.xof(self.idx(x, y)) == x,
            self.yof(self.idx(x, y)) == y,
    {
        let r = self.rows as int;
        let c = self.cols as int;
        let i = self.idx(x, y);
        lemma_fundamental_div_mod_converse(i, r, x, y);
        assert(x * r + y >= 0) by (nonlinear_arith)
            requires
                0 <= x,
                0 <= y,
                0 < r,
        ;
        assert(x * r + y < c * r) by (nonlinear_arith)
            requires
                0 <= x < c,
                0 <= y < r,
        ;
    }

    /// A flat index within range yields in-bounds coordinates that map
    /// back to the same index.
    pub proof fn lemma_idx_bounds(self, i: int)
        requires
            0 <= i < self.total(),
        ensures
            self.in_bounds(self.xof(i), self.yof(i)),
            self.idx(self.xof(i), self.yof(i)) == i,
    {
        let r = self.rows as int;
        let c = self.cols as int;
        assert(r > 0) by (nonlinear_arith)
            requires
                0 <= i < c * r,
                r >= 0,
        ;
        lemma_fundamental_div_mod(i, r);
        lemma_mod_division_less_than_divisor(i, r);
        assert(i < r * c) by (nonlinear_arith)
            requires
                i < c * r,
        ;
        lemma_multiply_divide_lt(i, r, c);
        assert(i / r >= 0) by (nonlinear_arith)
            requires
                0 <= i,
                0 < r,
        ;
        assert(self.idx(self.xof(i), self.yof(i)) == i) by {
            assert(i == r * (i / r) + i % r);
            assert(r * (i / r) == (i / r) * r) by (nonlinear_arith);
        }
    }

    /// No two distinct cells of a placement-consistent grid share a
    /// position: the matching cell of an in-bounds position is unique.
    pub proof fn lemma_position_unique(self, i: int, j: int)
        requires
            self.wf(),
            self.placed(),
            0 <= i < self.total(),
            0 <= j < self.total(),
            self.cells@[i].position == self.cells@[j].position,
        ensures
            i == j,
    {
        self.lemma_idx_bounds(i);
        self.lemma_idx_bounds(j);
    }

    /// Creates a battlefield of `cols` columns by `rows` rows with
    /// `bombs` mines placed on distinct cells, drawn uniformly without
    /// replacement from the grid, and with every empty cell carrying the
    /// exact count of mines among its neighbours. All cells start hidden
    /// and the flag budget starts at `bombs`.
    ///
    /// Construction demands `bombs <= rows * cols` and dimensions small
    /// enough for the id arithmetic; callers validate their input first.
    pub fn new(rows: usize, cols: usize, bombs: u16) -> (bf: BattleField)
        requires
            rows <= 0x7fff,
            cols <= 0x7fff,
            rows * cols <= 0xffff,
            bombs as int <= rows * cols,
        ensures
            bf.wf(),
            bf.placed(),
            bf.counts_ok(),
            bf.mines_ok(),
            bf.budget_ok(),
            bf.zero_closed(),
            bf.rows as int == rows,
            bf.cols as int == cols,
            bf.bombs == bombs,
            bf.flags_left == bombs,
            forall|i: int| 0 <= i < bf.total() ==> (#[trigger] bf.cells@[i]).state is Hidden,
            count_mines(bf.cells@) == bombs,
    {
        let rows16 = rows as u16;
        let cols16 = cols as u16;
        let total: usize = rows * cols;

        // Choose `bombs` distinct mine cells: each draw picks uniformly
        // one of the still-free cells.
        let mut mask: Vec<bool> = vec![false; total];
        proof {
            lemma_count_true_all_false(mask@);
        }
        let mut placed_n: u16 = 0;
        while placed_n < bombs
            invariant
                mask@.len() == total,
                total == rows * cols,
                total <= 0xffff,
                bombs as int <= total,
                placed_n <= bombs,
                count_true(mask@) == placed_n as int,
            decreases bombs as int - placed_n as int,
        {
            let remaining: u16 = (total as u16) - placed_n;
            let r = random_below(remaining);
            let pos = select_free(&mask, r);
            proof {
                lemma_count_true_update(mask@, pos as int, true);
            }
            mask[pos as usize] = true;
            placed_n = placed_n + 1;
        }

        // Build the cells: ids follow the column-major index, mines sit
        // where the mask says, and every empty cell counts the mines
        // among its neighbours in the mask.
        let mut cells: Vec<Cell> = Vec::new();
        let mut x: u16 = 0;
        while x < cols16
            invariant
                rows16 as int == rows,
                cols16 as int == cols,
                rows <= 0x7fff,
                cols <= 0x7fff,
                total == rows * cols,
                total <= 0xffff,
                mask@.len() == total,
                count_true(mask@) == bombs as int,
                0 <= x <= cols16,
                cells@.len() == x as int * rows as int,
                forall|k: int|
                    0 <= k < cells@.len() ==> {
                        let c = #[trigger] cells@[k];
                        &&& c.id as int == k
                        &&& c.state is Hidden
                        &&& (c.ctype is Mine <==> mask@[k])
                        &&& (c.ctype matches CellType::Empty(n) ==> n as int == mask_adj(
                            mask@,
                            rows as int,
                            cols as int,
                            k / rows as int,
                            k % rows as int,
                        ))
                        &&& c.position.x as int == k / rows as int
                        &&& c.position.y as int == k % rows as int
                    },
            decreases cols as int - x as int,
        {
            let mut y: u16 = 0;
            while y < rows16
                invariant
                    rows16 as int == rows,
                    cols16 as int == cols,
                    rows <= 0x7fff,
                    cols <= 0x7fff,
                    total == rows * cols,
                    total <= 0xffff,
                    mask@.len() == total,
                    count_true(mask@) == bombs as int,
                    0 <= x < cols16,
                    0 <= y <= rows16,
                    cells@.len() == x as int * rows as int + y as int,
                    forall|k: int|
                        0 <= k < cells@.len() ==> {
                            let c = #[trigger] cells@[k];
                            &&& c.id as int == k
                            &&& c.state is Hidden
                            &&& (c.ctype is Mine <==> mask@[k])
                            &&& (c.ctype matches CellType::Empty(n) ==> n as int == mask_adj(
                                mask@,
                                rows as int,
                                cols as int,
                                k / rows as int,
                                k % rows as int,
                            ))
                            &&& c.position.x as int == k / rows as int
                            &&& c.position.y as int == k % rows as int
                        },
                decreases rows as int - y as int,
            {
                proof {
                    lemma_grid_inverse(rows as int, cols as int, x as int, y as int);
                }
                let i: usize = (x as usize) * rows + (y as usize);
                let ctype = if mask[i] {
                    CellType::Mine
                } else {
                    CellType::Empty(adj_count_from_mask(&mask, rows16, cols16, x, y))
                };
                cells.push(
                    Cell {
                        id: i as u16,
                        ctype,
                        state: CellState::Hidden,
                        position: CellPosition { x: x as i16, y: y as i16 },
                    },
                );
                y = y + 1;
            }
            proof {
                assert((x as int + 1) * rows as int == x as int * rows as int + rows as int)
                    by (nonlinear_arith);
            }
            x = x + 1;
        }

        let bf = BattleField { cells, rows: rows16, cols: cols16, flags_left: bombs, bombs };
        proof {
            assert(cols as int * rows as int == rows as int * cols as int) by (nonlinear_arith);
            assert(bf.cells@.len() == bf.total());
            assert(mask@.len() == bf.total());
            lemma_count_mines_matches_mask(bf.cells@, mask@);
            lemma_count_all_hidden(bf.cells@);
            assert forall|i: int|
                0 <= i < bf.total() implies ((#[trigger] bf.cells@[i]).ctype
                matches CellType::Empty(n) ==> n as int == bf.adj_mines(
                bf.xof(i),
                bf.yof(i),
            )) by {
                lemma_adj_congruent(bf, mask@, bf.xof(i), bf.yof(i));
            }
        }
        bf
    }

    /// Creates a battlefield from an already laid out matrix of cells,
    /// one inner vector per column. The mine count and the flag budget
    /// are derived by counting the mines of the map. Useful wherever a
    /// deterministic layout is wanted in place of random placement.
    pub fn with_map(map: Vec<Vec<Cell>>) -> (bf: BattleField)
        requires
            map@.len() <= 0x7fff,
            map_rows(map@) <= 0x7fff,
            map@.len() * map_rows(map@) <= 0xffff,
            forall|x: int| 0 <= x < map@.len() ==> (#[trigger] map@[x])@.len() == map_rows(map@),
            forall|x: int, y: int|
                0 <= x < map@.len() && 0 <= y < map_rows(map@) ==> (#[trigger] map@[x]@[y]).id
                    as int == x * map_rows(map@) + y,
        ensures
            bf.wf(),
            bf.cols as int == map@.len(),
            bf.rows as int == map_rows(map@),
            forall|x: int, y: int|
                0 <= x < map@.len() && 0 <= y < map_rows(map@) ==> bf.cells@[x * map_rows(map@)
                    + y] == map@[x]@[y],
            bf.mines_ok(),
            bf.flags_left == bf.bombs,
            count_flagged(bf.cells@) == 0 ==> bf.budget_ok(),
            (forall|x: int, y: int|
                0 <= x < map@.len() && 0 <= y < map_rows(map@) ==> (#[trigger] map@[x]@[y]).position.x
                    as int == x && map@[x]@[y].position.y as int == y) ==> bf.placed(),
    {
        let cols_n: usize = map.len();
        let rows_n: usize = if cols_n == 0 {
            0
        } else {
            map[0].len()
        };
        let ghost rows_g: int = rows_n as int;

        let mut cells: Vec<Cell> = Vec::new();
        let mut x: usize = 0;
        while x < cols_n
            invariant
                cols_n == map@.len(),
                rows_g == map_rows(map@),
                rows_n as int == rows_g,
                cols_n <= 0x7fff,
                rows_n <= 0x7fff,
                cols_n * rows_n <= 0xffff,
                forall|u: int| 0 <= u < map@.len() ==> (#[trigger] map@[u])@.len() == rows_g,
                0 <= x <= cols_n,
                cells@.len() == x as int * rows_g,
                forall|u: int, v: int|
                    0 <= u < x as int && 0 <= v < rows_g ==> cells@[u * rows_g + v] == map@[u]@[v],
            decreases cols_n - x,
        {
            let column = &map[x];
            let mut y: usize = 0;
            while y < rows_n
                invariant
                    cols_n == map@.len(),
                    rows_g == map_rows(map@),
                    rows_n as int == rows_g,
                    cols_n <= 0x7fff,
                    rows_n <= 0x7fff,
                    cols_n * rows_n <= 0xffff,
                    forall|u: int| 0 <= u < map@.len() ==> (#[trigger] map@[u])@.len() == rows_g,
                    0 <= x < cols_n,
                    column == map@[x as int],
                    0 <= y <= rows_n,
                    cells@.len() == x as int * rows_g + y as int,
                    forall|u: int, v: int|
                        0 <= u < x as int && 0 <= v < rows_g ==> cells@[u * rows_g + v]
                            == map@[u]@[v],
                    forall|v: int| 0 <= v < y as int ==> cells@[x as int * rows_g + v] == map@[x as int]@[v],
                decreases rows_n - y,
            {
                cells.push(column[y]);
                proof {
                    assert forall|u: int, v: int|
                        0 <= u < x as int && 0 <= v < rows_g implies #[trigger] (u * rows_g + v)
                        < x as int * rows_g by {
                        assert(u * rows_g + v < x as int * rows_g) by (nonlinear_arith)
                            requires
                                0 <= u < x as int,
                                0 <= v < rows_g,
                        ;
                    }
                }
                y = y + 1;
            }
            proof {
                assert((x as int + 1) * rows_g == x as int * rows_g + rows_g) by (nonlinear_arith);
                assert forall|u: int, v: int|
                    0 <= u < x as int + 1 && 0 <= v < rows_g implies cells@[u * rows_g + v]
                    == map@[u]@[v] by {
                    if u < x as int {
                        assert(0 <= u * rows_g + v < (x as int) * rows_g) by (nonlinear_arith)
                            requires
                                0 <= u < x as int,
                                0 <= v < rows_g,
                        ;
                    }
                }
            }
            x = x + 1;
        }

        // Derive the mine count, and with it the flag budget.
        let mut bombs: u16 = 0;
        let mut i: usize = 0;
        while i < cells.len()
            invariant
                cells@.len() <= 0xffff,
                0 <= i <= cells@.len(),
                bombs as int == count_mines(cells@.subrange(0, i as int)),
            decreases cells@.len() - i,
        {
            proof {
                lemma_count_mines_prefix(cells@, i as int);
                lemma_count_mines_bounds(cells@.subrange(0, i as int));
            }
            if cells[i].ctype == CellType::Mine {
                bombs = bombs + 1;
            }
            i = i + 1;
        }
        proof {
            assert(cells@.subrange(0, cells@.len() as int) =~= cells@);
        }

        let bf = BattleField {
            cells,
            rows: rows_n as u16,
            cols: cols_n as u16,
            flags_left: bombs,
            bombs,
        };
        proof {
            assert(cols_n as int * rows_g == bf.total()) by (nonlinear_arith)
                requires
                    rows_g == bf.rows as int,
                    cols_n as int == bf.cols as int,
            ;
            assert forall|i2: int| 0 <= i2 < bf.total() implies (#[trigger] bf.cells@[i2]).id
                as int == i2 by {
                bf.lemma_idx_bounds(i2);
                assert(bf.cells@[bf.xof(i2) * rows_g + bf.yof(i2)] == map@[bf.xof(i2)]@[bf.yof(
                    i2,
                )]);
            }
            if forall|x2: int, y2: int|
                0 <= x2 < map@.len() && 0 <= y2 < map_rows(map@) ==> (
                #[trigger] map@[x2]@[y2]).position.x as int == x2 && map@[x2]@[y2].position.y
                    as int == y2 {
                assert forall|i2: int| 0 <= i2 < bf.total() implies (
                #[trigger] bf.cells@[i2]).position.x as int == bf.xof(i2)
                    && bf.cells@[i2].position.y as int == bf.yof(i2) by {
                    bf.lemma_idx_bounds(i2);
                    assert(bf.cells@[bf.xof(i2) * rows_g + bf.yof(i2)] == map@[bf.xof(i2)]@[bf.yof(
                        i2,
                    )]);
                }
            }
        }
        bf
    }

    /// Returns a snapshot of the cell with the given `id`.
    pub fn get(&self, id: CellId) -> (c: Cell)
        requires
            self.wf(),
            (id as int) < self.total(),
        ensures
            c == self.cells@[id as int],
    {
        self.cells[id as usize]
    }

    /// Returns a snapshot of the cell at the given position, or `None`
    /// when the position lies off the grid on either axis. This is a total
    /// function over all integer positions: flood-fill leans on it for its
    /// bounds checking.
    pub fn get_by_position(&self, position: CellPosition) -> (r: Option<Cell>)
        requires
            self.wf(),
        ensures
            self.in_bounds(position.x as int, position.y as int) ==> r == Some(
                self.cells@[self.idx(position.x as int, position.y as int)],
            ),
            !self.in_bounds(position.x as int, position.y as int) ==> r is None,
    {
        if position.x >= 0 && position.y >= 0 && (position.x as u16) < self.cols && (
        position.y as u16) < self.rows {
            proof {
                self.lemma_idx_inverse(position.x as int, position.y as int);
            }
            let i: usize = (position.x as usize) * (self.rows as usize) + (position.y as usize);
            Some(self.cells[i])
        } else {
            None
        }
    }

    /// Recomputes the remaining flag budget by walking the whole grid and
    /// counting the cells that still stand flagged.
    fn recount_flags(&self) -> (fl: u16)
        requires
            self.wf(),
            count_flagged(self.cells@) <= self.bombs as int,
        ensures
            fl as int == self.bombs as int - count_flagged(self.cells@),
    {
        let mut fl: u16 = self.bombs;
        let mut i: usize = 0;
        let n = self.cells.len();
        while i < n
            invariant
                self.wf(),
                count_flagged(self.cells@) <= self.bombs as int,
                n == self.cells@.len(),
                0 <= i <= n,
                fl as int == self.bombs as int - count_flagged(self.cells@.subrange(0, i as int)),
            decreases n - i,
        {
            proof {
                lemma_count_flagged_prefix(self.cells@, i as int);
                lemma_count_flagged_prefix_le(self.cells@, i as int + 1);
                lemma_count_flagged_bounds(self.cells@.subrange(0, i as int));
            }
            if self.cells[i].state == CellState::Flagged {
                fl = fl - 1;
            }
            i = i + 1;
        }
        proof {
            assert(self.cells@.subrange(0, n as int) =~= self.cells@);
        }
        fl
    }

    /// Counts the cells that stand revealed.
    pub(crate) fn revealed_count(&self) -> (n: u16)
        requires
            self.wf(),
        ensures
            n as int == count_revealed(self.cells@),
    {
        let mut n: u16 = 0;
        let mut i: usize = 0;
        let len = self.cells.len();
        while i < len
            invariant
                self.wf(),
                len == self.cells@.len(),
                0 <= i <= len,
                n as int == count_revealed(self.cells@.subrange(0, i as int)),
            decreases len - i,
        {
            proof {
                lemma_count_revealed_prefix(self.cells@, i as int);
                lemma_count_revealed_bounds(self.cells@.subrange(0, i as int));
            }
            if self.cells[i].state == CellState::Revealed {
                n = n + 1;
            }
            i = i + 1;
        }
        proof {
            assert(self.cells@.subrange(0, len as int) =~= self.cells@);
        }
        n
    }

    /// Pushes the ids of all in-bounds neighbours of the cell `from` onto
    /// the worklist, in the reverse of the flood's visiting order, so
    /// that popping yields the order of the original depth-first
    /// traversal.
    fn push_adjacent(&self, stack: &mut Vec<CellId>, from: CellId)
        requires
            self.wf(),
            self.placed(),
            (from as int) < self.total(),
        ensures
            final(stack)@.len() >= old(stack)@.len(),
            forall|k: int|
                0 <= k < old(stack)@.len() ==> #[trigger] final(stack)@[k] == old(stack)@[k],
            forall|k: int|
                old(stack)@.len() <= k < final(stack)@.len() ==> self.neighbors(
                    from as int,
                    (#[trigger] final(stack)@[k]) as int,
                ),
            forall|j: int| self.neighbors(from as int, j) ==> stack_has(final(stack)@, j),
    {
        let p = self.cells[from as usize].position;
        let ghost fx = self.xof(from as int);
        let ghost fy = self.yof(from as int);
        proof {
            self.lemma_idx_bounds(from as int);
        }
        self.push_if_in_bounds(stack, p.x + 1, p.y + 1);
        let ghost s1 = stack@;
        self.push_if_in_bounds(stack, p.x + 1, p.y);
        let ghost s2 = stack@;
        self.push_if_in_bounds(stack, p.x + 1, p.y - 1);
        let ghost s3 = stack@;
        self.push_if_in_bounds(stack, p.x, p.y + 1);
        let ghost s4 = stack@;
        self.push_if_in_bounds(stack, p.x, p.y - 1);
        let ghost s5 = stack@;
        self.push_if_in_bounds(stack, p.x - 1, p.y + 1);
        let ghost s6 = stack@;
        self.push_if_in_bounds(stack, p.x - 1, p.y);
        let ghost s7 = stack@;
        self.push_if_in_bounds(stack, p.x - 1, p.y - 1);
        proof {
            assert forall|j: int| self.neighbors(from as int, j) implies stack_has(
                stack@,
                j,
            ) by {
                self.lemma_idx_bounds(j);
                let jx = self.xof(j);
                let jy = self.yof(j);
                self.lemma_idx_inverse(jx, jy);
                assert(fx - 1 <= jx <= fx + 1 && fy - 1 <= jy <= fy + 1 && (jx != fx || jy
                    != fy));
                if jx == fx + 1 && jy == fy + 1 {
                    assert(s1.last() as int == j);
                    lemma_stack_has_extend(s1, stack@, j);
                } else if jx == fx + 1 && jy == fy {
                    assert(s2.last() as int == j);
                    lemma_stack_has_extend(s2, stack@, j);
                } else if jx == fx + 1 && jy == fy - 1 {
                    assert(s3.last() as int == j);
                    lemma_stack_has_extend(s3, stack@, j);
                } else if jx == fx && jy == fy + 1 {
                    assert(s4.last() as int == j);
                    lemma_stack_has_extend(s4, stack@, j);
                } else if jx == fx && jy == fy - 1 {
                    assert(s5.last() as int == j);
                    lemma_stack_has_extend(s5, stack@, j);
                } else if jx == fx - 1 && jy == fy + 1 {
                    assert(s6.last() as int == j);
                    lemma_stack_has_extend(s6, stack@, j);
                } else if jx == fx - 1 && jy == fy {
                    assert(s7.last() as int == j);
                    lemma_stack_has_extend(s7, stack@, j);
                } else {
                    assert(jx == fx - 1 && jy == fy - 1);
                    assert(stack@.last() as int == j);
                    lemma_stack_has_extend(stack@, stack@, j);
                }
            }
        }
    }

    /// Pushes the id of the cell at column `x`, row `y` onto the worklist
    /// when that position lies on the grid, and does nothing otherwise.
    fn push_if_in_bounds(&self, stack: &mut Vec<CellId>, x: i16, y: i16)
        requires
            self.wf(),
        ensures
            final(stack)@.len() >= old(stack)@.len(),
            forall|k: int|
                0 <= k < old(stack)@.len() ==> #[trigger] final(stack)@[k] == old(stack)@[k],
            self.in_bounds(x as int, y as int) ==> final(stack)@ == old(stack)@.push(
                self.idx(x as int, y as int) as CellId,
            ),
            !self.in_bounds(x as int, y as int) ==> final(stack)@ == old(stack)@,
            forall|k: int|
                old(stack)@.len() <= k < final(stack)@.len() ==> {
                    let j = (#[trigger] final(stack)@[k]) as int;
                    &&& 0 <= j < self.total()
                    &&& self.xof(j) == x as int
                    &&& self.yof(j) == y as int
                },
    {
        if x >= 0 && y >= 0 && (x as u16) < self.cols && (y as u16) < self.rows {
            proof {
                self.lemma_idx_inverse(x as int, y as int);
            }
            let id: u16 = (x as u16) * self.rows + (y as u16);
            stack.push(id);
        }
    }

    /// Reveals the cell with the given id and returns the affected cells
    /// in the order they were uncovered, the target first.
    ///
    /// When the target carries adjacency count zero, the reveal floods
    /// outward: every non-mine neighbour of a revealed zero cell is
    /// revealed in turn, in a fixed depth-first visiting order, and the
    /// flood stops at the first ring of cells with a nonzero count.
    /// Flagged cells met by the flood are revealed all the same, and the
    /// flag budget is recomputed afterwards. When the target is a mine,
    /// the whole field is disclosed and `game_is_over` is set. A target
    /// that is already revealed is not short-circuited: its snapshot is
    /// returned again and, when it is a zero cell, the flood still runs
    /// from it.
    pub fn uncover(&mut self, cell_id: CellId) -> (r: Reveal)
        requires
            old(self).wf(),
            old(self).placed(),
            (cell_id as int) < old(self).total(),
            count_flagged(old(self).cells@) <= old(self).bombs as int,
        ensures
            final(self).wf(),
            final(self).placed(),
            uncover_rel(*old(self), *final(self), r.cells@, r.game_is_over, cell_id as int),
            count_mines(final(self).cells@) == count_mines(old(self).cells@),
    {
        if self.cells[cell_id as usize].ctype == CellType::Mine {
            self.uncover_mine(cell_id)
        } else {
            self.uncover_flood(cell_id)
        }
    }

    /// The lose condition of a reveal: the target is a mine, so the whole
    /// field is swept and disclosed.
    #[verifier::loop_isolation(false)]
    #[verifier::rlimit(100)]
    #[verifier::spinoff_prover]
    fn uncover_mine(&mut self, cell_id: CellId) -> (r: Reveal)
        requires
            old(self).wf(),
            old(self).placed(),
            (cell_id as int) < old(self).total(),
            count_flagged(old(self).cells@) <= old(self).bombs as int,
            old(self).cells@[cell_id as int].ctype is Mine,
        ensures
            final(self).wf(),
            final(self).placed(),
            uncover_rel(*old(self), *final(self), r.cells@, r.game_is_over, cell_id as int),
            count_mines(final(self).cells@) == count_mines(old(self).cells@),
    {
        let idx0 = cell_id as usize;
        let mut acc: Vec<Cell> = Vec::new();
        let mut c0 = self.cells[idx0];
        c0.uncover();
        proof {
            lemma_count_flagged_update(self.cells@, idx0 as int, c0);
            lemma_count_revealed_update(self.cells@, idx0 as int, c0);
        }
        self.cells[idx0] = c0;
        acc.push(c0);
        {
            // Sweep the whole field and disclose it.
            let ghost mid = self.cells@;
            let n = self.cells.len();
            let mut i: usize = 0;
            while i < n
                invariant
                    self.cells@.len() == old(self).cells@.len(),
                    self.rows == old(self).rows,
                    self.cols == old(self).cols,
                    self.bombs == old(self).bombs,
                    self.flags_left == old(self).flags_left,
                    self.wf(),
                    self.placed(),
                    forall|j: int|
                        0 <= j < self.total() ==> (#[trigger] self.cells@[j]).id
                            == old(self).cells@[j].id && self.cells@[j].ctype
                            == old(self).cells@[j].ctype && self.cells@[j].position
                            == old(self).cells@[j].position,
                    0 <= i <= n,
                    acc@.len() >= 1,
                    acc@[0] == c0,
                    acc@[0].id as int == cell_id as int,
                    forall|k: int|
                        0 <= k < acc@.len() ==> 0 <= ((#[trigger] acc@[k]).id as int)
                            < self.total() && acc@[k] == self.cells@[acc@[k].id as int]
                            && acc@[k].state is Revealed,
                    forall|k: int|
                        1 <= k < acc@.len() ==> ((#[trigger] acc@[k]).id as int) < i as int && !(
                        old(self).cells@[acc@[k].id as int].state is Revealed) && acc@[k].id as int
                            != cell_id as int,
                    forall|k1: int, k2: int|
                        1 <= k1 < k2 < acc@.len() ==> (#[trigger] acc@[k1]).id < (
                        #[trigger] acc@[k2]).id,
                    forall|j: int|
                        0 <= j < i as int ==> (#[trigger] snaps_have(acc@, j) <==> (j
                            == cell_id as int || !(old(self).cells@[j].state is Revealed))),
                    forall|j: int|
                        i as int <= j < self.total() ==> (#[trigger] snaps_have(acc@, j) <==> j
                            == cell_id as int),
                    forall|j: int| 0 <= j < i as int ==> (#[trigger] self.cells@[j]).state is Revealed,
                    forall|j: int|
                        i as int <= j < self.total() ==> #[trigger] self.cells@[j] == mid[j],
                    forall|j: int|
                        0 <= j < self.total() && !snaps_have(acc@, j) ==> #[trigger] self.cells@[j]
                            == old(self).cells@[j],
                    count_flagged(self.cells@) <= count_flagged(old(self).cells@),
                decreases n - i,
            {
                let ghost acc0 = acc@;
                let c = self.cells[i];
                if c.state != CellState::Revealed {
                    let mut c2 = c;
                    c2.uncover();
                    proof {
                        lemma_count_flagged_update(self.cells@, i as int, c2);
                    }
                    self.cells[i] = c2;
                    acc.push(c2);
                    proof {
                        assert forall|j: int| #[trigger]
                            snaps_have(acc@, j) <==> (snaps_have(acc0, j) || j == i as int) by {
                            if snaps_have(acc@, j) {
                                let k = choose|k: int|
                                    0 <= k < acc@.len() && (#[trigger] acc@[k]).id as int == j;
                                if k < acc0.len() {
                                    assert(acc0[k].id as int == j);
                                }
                            }
                            if snaps_have(acc0, j) {
                                let k = choose|k: int|
                                    0 <= k < acc0.len() && (#[trigger] acc0[k]).id as int == j;
                                assert(acc@[k].id as int == j);
                            }
                            if j == i as int {
                                assert(acc@[acc@.len() - 1].id as int == j);
                            }
                        }
                    }
                } else {
                    proof {
                        if i as int == cell_id as int {
                            assert(snaps_have(acc@, i as int)) by {
                                assert(acc@[0].id as int == i as int);
                            }
                        }
                    }
                }
                i = i + 1;
            }
            let fl = self.recount_flags();
            self.flags_left = fl;
            proof {
                lemma_count_mines_pointwise(self.cells@, old(self).cells@);
            }
            Reveal { game_is_over: true, cells: acc }
        }
    }

    /// The flood of a reveal on a non-mine target: an explicit worklist
    /// that visits cells in the depth-first order of the recursive
    /// formulation.
    #[verifier::rlimit(100)]
    #[verifier::spinoff_prover]
    fn uncover_flood(&mut self, cell_id: CellId) -> (r: Reveal)
        requires
            old(self).wf(),
            old(self).placed(),
            (cell_id as int) < old(self).total(),
            count_flagged(old(self).cells@) <= old(self).bombs as int,
            !(old(self).cells@[cell_id as int].ctype is Mine),
        ensures
            final(self).wf(),
            final(self).placed(),
            uncover_rel(*old(self), *final(self), r.cells@, r.game_is_over, cell_id as int),
            count_mines(final(self).cells@) == count_mines(old(self).cells@),
    {
        let idx0 = cell_id as usize;
        let mut acc: Vec<Cell> = Vec::new();
        let mut c0 = self.cells[idx0];
        c0.uncover();
        proof {
            lemma_count_flagged_update(self.cells@, idx0 as int, c0);
            lemma_count_revealed_update(self.cells@, idx0 as int, c0);
        }
        self.cells[idx0] = c0;
        acc.push(c0);
        {
            let mut stack: Vec<CellId> = Vec::new();
            if c0.ctype == CellType::Empty(0) {
                self.push_adjacent(&mut stack, cell_id);
                proof {
                    assert forall|j: int|
                        old(self).neighbors(cell_id as int, j) implies stack_has(stack@, j) by {
                        assert(self.neighbors(cell_id as int, j));
                    }
                }
            }
            proof {
                lemma_count_revealed_bounds(self.cells@);
            }
            while stack.len() > 0
                invariant
                    old(self).wf(),
                    old(self).placed(),
                    0 <= (cell_id as int) < old(self).total(),
                    count_flagged(old(self).cells@) <= old(self).bombs as int,
                    !(old(self).cells@[cell_id as int].ctype is Mine),
                    acc@[0] == c0,
                    self.cells@.len() == old(self).cells@.len(),
                    self.rows == old(self).rows,
                    self.cols == old(self).cols,
                    self.bombs == old(self).bombs,
                    self.flags_left == old(self).flags_left,
                    self.wf(),
                    self.placed(),
                    forall|j: int|
                        0 <= j < self.total() ==> (#[trigger] self.cells@[j]).id
                            == old(self).cells@[j].id && self.cells@[j].ctype
                            == old(self).cells@[j].ctype && self.cells@[j].position
                            == old(self).cells@[j].position,
                    acc@.len() >= 1,
                    acc@[0] == c0,
                    acc@[0].id as int == cell_id as int,
                    forall|k: int|
                        0 <= k < acc@.len() ==> 0 <= ((#[trigger] acc@[k]).id as int)
                            < self.total() && acc@[k] == self.cells@[acc@[k].id as int]
                            && acc@[k].state is Revealed,
                    forall|k1: int, k2: int|
                        0 <= k1 < k2 < acc@.len() ==> (#[trigger] acc@[k1]).id != (
                        #[trigger] acc@[k2]).id,
                    forall|k: int|
                        1 <= k < acc@.len() ==> !(old(self).cells@[(#[trigger] acc@[k]).id as int].state
                            is Revealed) && !(acc@[k].ctype is Mine),
                    forall|j: int|
                        0 <= j < self.total() ==> ((#[trigger] self.cells@[j]).state is Revealed
                            <==> (old(self).cells@[j].state is Revealed || snaps_have(acc@, j))),
                    forall|j: int|
                        0 <= j < self.total() && !snaps_have(acc@, j) ==> #[trigger] self.cells@[j]
                            == old(self).cells@[j],
                    forall|k: int| 1 <= k < acc@.len() ==> #[trigger] flood_justified(
                        *old(self),
                        acc@,
                        k,
                    ),
                    forall|k: int|
                        0 <= k < stack@.len() ==> 0 <= ((#[trigger] stack@[k]) as int)
                            < self.total(),
                    forall|k: int|
                        0 <= k < stack@.len() ==> (self.cells@[(#[trigger] stack@[k]) as int].state
                            is Revealed || self.is_mine(stack@[k] as int) || exists|j: int|
                            0 <= j < acc@.len() && (#[trigger] acc@[j]).ctype == CellType::Empty(0)
                                && old(self).neighbors(acc@[j].id as int, stack@[k] as int)),
                    forall|k: int, j: int|
                        0 <= k < acc@.len() && acc@[k].ctype == CellType::Empty(0)
                            && #[trigger] old(self).neighbors(acc@[k].id as int, j) && !old(
                            self,
                        ).is_mine(j) ==> (self.cells@[j].state is Revealed || stack_has(
                            stack@,
                            j,
                        )),
                    count_flagged(self.cells@) <= count_flagged(old(self).cells@),
                    0 <= count_revealed(self.cells@) <= self.cells@.len(),
                decreases self.cells@.len() - count_revealed(self.cells@), stack@.len(),
            {
                let ghost stack0 = stack@;
                let ghost acc0 = acc@;
                let ghost cells0 = self.cells@;
                let cur = stack.pop().unwrap();
                let ghost stack1 = stack@;
                let cc = self.cells[cur as usize];
                let visited = cc.ctype != CellType::Mine && cc.state != CellState::Revealed;
                if visited {
                    let mut c2 = cc;
                    c2.uncover();
                    proof {
                        lemma_count_flagged_update(self.cells@, cur as int, c2);
                        lemma_count_revealed_update(self.cells@, cur as int, c2);
                    }
                    self.cells[cur as usize] = c2;
                    acc.push(c2);
                    proof {
                        lemma_count_revealed_bounds(self.cells@);
                        assert forall|j: int| #[trigger]
                            snaps_have(acc@, j) <==> (snaps_have(acc0, j) || j == cur as int) by {
                            if snaps_have(acc@, j) {
                                let k = choose|k: int|
                                    0 <= k < acc@.len() && (#[trigger] acc@[k]).id as int == j;
                                if k < acc0.len() {
                                    assert(acc0[k].id as int == j);
                                }
                            }
                            if snaps_have(acc0, j) {
                                let k = choose|k: int|
                                    0 <= k < acc0.len() && (#[trigger] acc0[k]).id as int == j;
                                assert(acc@[k].id as int == j);
                            }
                            if j == cur as int {
                                assert(acc@[acc@.len() - 1].id as int == j);
                            }
                        }
                        assert forall|k: int|
                            1 <= k < acc@.len() implies #[trigger] flood_justified(
                            *old(self),
                            acc@,
                            k,
                        ) by {
                            if k < acc0.len() {
                                assert(flood_justified(*old(self), acc0, k));
                                let j = choose|j: int|
                                    0 <= j < k && (#[trigger] acc0[j]).ctype == CellType::Empty(0)
                                        && old(self).neighbors(acc0[j].id as int, acc0[k].id as int);
                                assert(acc@[j] == acc0[j]);
                                assert(acc@[k] == acc0[k]);
                            } else {
                                assert(stack0[stack0.len() - 1] == cur);
                                assert(!(cells0[cur as int].state is Revealed));
                                assert(cells0[cur as int].ctype == old(self).cells@[cur as int].ctype);
                                let j = choose|j: int|
                                    0 <= j < acc0.len() && (#[trigger] acc0[j]).ctype
                                        == CellType::Empty(0) && old(self).neighbors(
                                        acc0[j].id as int,
                                        cur as int,
                                    );
                                assert(acc@[j] == acc0[j]);
                                assert(acc@[k].id as int == cur as int);
                            }
                        }
                    }
                    if c2.ctype == CellType::Empty(0) {
                        self.push_adjacent(&mut stack, cur);
                    }
                }
                proof {
                    // Every worklist entry keeps its justification: it is
                    // revealed, a mine, or a neighbour of a snapshot zero
                    // cell.
                    assert forall|k: int|
                        0 <= k < stack@.len() implies (self.cells@[(
                    #[trigger] stack@[k]) as int].state is Revealed || self.is_mine(
                        stack@[k] as int,
                    ) || exists|j: int|
                        0 <= j < acc@.len() && (#[trigger] acc@[j]).ctype == CellType::Empty(0)
                            && old(self).neighbors(acc@[j].id as int, stack@[k] as int)) by {
                        if k < stack1.len() {
                            assert(stack@[k] == stack0[k]);
                            if !(cells0[stack0[k] as int].state is Revealed) && !(
                            cells0[stack0[k] as int].ctype is Mine) {
                                let j = choose|j: int|
                                    0 <= j < acc0.len() && (#[trigger] acc0[j]).ctype
                                        == CellType::Empty(0) && old(self).neighbors(
                                        acc0[j].id as int,
                                        stack0[k] as int,
                                    );
                                assert(acc@[j] == acc0[j]);
                            }
                        } else {
                            assert(self.neighbors(cur as int, stack@[k] as int));
                            assert(acc@[acc@.len() - 1].ctype == CellType::Empty(0));
                            assert(acc@[acc@.len() - 1].id as int == cur as int);
                        }
                    }
                    // The flood frontier is maintained: every non-mine
                    // neighbour of a snapshot zero cell is revealed by now
                    // or still waits in the worklist.
                    assert forall|k: int, j: int|
                        (0 <= k < acc@.len() && acc@[k].ctype == CellType::Empty(0) && #[trigger] old(
                            self,
                        ).neighbors(acc@[k].id as int, j) && !old(self).is_mine(j)) implies (
                    self.cells@[j].state is Revealed || stack_has(stack@, j)) by {
                        if k < acc0.len() {
                            assert(acc@[k] == acc0[k]);
                            assert(cells0[j].state is Revealed || stack_has(stack0, j));
                            if cells0[j].state is Revealed {
                                assert(self.cells@[j].state is Revealed);
                            } else {
                                let k0 = choose|k0: int|
                                    0 <= k0 < stack0.len() && (#[trigger] stack0[k0]) as int == j;
                                if k0 < stack0.len() - 1 {
                                    assert(stack1[k0] as int == j);
                                    assert(stack@[k0] as int == j);
                                } else {
                                    assert(stack0[k0] == cur);
                                    if visited {
                                        assert(self.cells@[j].state is Revealed);
                                    } else {
                                        assert(cells0[cur as int].ctype
                                            == old(self).cells@[cur as int].ctype);
                                        assert(cells0[j].state is Revealed);
                                    }
                                }
                            }
                        } else {
                            assert(acc@[k].id as int == cur as int);
                            assert(self.neighbors(cur as int, j));
                        }
                    }
                }
            }
            proof {
                assert(forall|j: int| !stack_has(stack@, j));
                assert forall|k: int, j: int|
                    (0 <= k < acc@.len() && acc@[k].ctype == CellType::Empty(0) && #[trigger] old(
                        self,
                    ).neighbors(acc@[k].id as int, j) && !old(self).is_mine(j)) implies
                self.cells@[j].state is Revealed by {
                    assert(!stack_has(stack@, j));
                }
            }
            let fl = self.recount_flags();
            self.flags_left = fl;
            proof {
                lemma_count_mines_pointwise(self.cells@, old(self).cells@);
                assert(uncover_rel(*old(self), *self, acc@, false, cell_id as int));
            }
            Reveal { game_is_over: false, cells: acc }
        }
    }

    /// Flags or unflags the cell with the given id and returns a snapshot
    /// of it. A flagged cell is unflagged unconditionally, refunding one
    /// flag. A hidden cell is flagged only while the flag budget is not
    /// exhausted; otherwise it is returned unchanged. A revealed cell is
    /// never changed: revealing wins over flagging, not the other way
    /// round.
    pub fn flag(&mut self, cell_id: CellId) -> (cell: Cell)
        requires
            old(self).wf(),
            (cell_id as int) < old(self).total(),
            old(self).cells@[cell_id as int].state is Flagged ==> old(self).flags_left < 0xffff,
        ensures
            flag_rel(*old(self), *final(self), cell_id as int, cell),
            final(self).wf(),
            old(self).placed() ==> final(self).placed(),
            old(self).budget_ok() ==> final(self).budget_ok(),
            count_revealed(final(self).cells@) == count_revealed(old(self).cells@),
            forall|i: int|
                0 <= i < old(self).total() ==> ((#[trigger] final(self).cells@[i]).state
                    is Revealed <==> old(self).cells@[i].state is Revealed),
            forall|i: int|
                0 <= i < old(self).total() ==> (#[trigger] final(self).cells@[i]).ctype == old(
                    self,
                ).cells@[i].ctype,
    {
        let i = cell_id as usize;
        let c = self.cells[i];
        match c.state {
            CellState::Flagged => {
                let mut c2 = c;
                c2.flag();
                self.cells[i] = c2;
                self.flags_left = self.flags_left + 1;
                proof {
                    lemma_count_flagged_update(old(self).cells@, i as int, c2);
                    lemma_count_revealed_update(old(self).cells@, i as int, c2);
                }
                c2
            },
            CellState::Hidden => {
                if self.flags_left > 0 {
                    let mut c2 = c;
                    c2.flag();
                    self.cells[i] = c2;
                    self.flags_left = self.flags_left - 1;
                    proof {
                        lemma_count_flagged_update(old(self).cells@, i as int, c2);
                        lemma_count_revealed_update(old(self).cells@, i as int, c2);
                    }
                    c2
                } else {
                    c
                }
            },
            CellState::Revealed => c,
        }
    }

    /// Returns the whole grid as a matrix of cell snapshots, one inner
    /// vector per column, in the column-major order of construction.
    pub fn get_all(&self) -> (r: Vec<Vec<Cell>>)
        requires
            self.wf(),
        ensures
            r@.len() == self.cols as int,
            forall|x: int| 0 <= x < self.cols as int ==> (#[trigger] r@[x])@.len() == self.rows as int,
            forall|x: int, y: int|
                self.in_bounds(x, y) ==> (#[trigger] r@[x]@[y]) == self.cells@[self.idx(x, y)],
    {
        let mut r: Vec<Vec<Cell>> = Vec::new();
        let mut x: u16 = 0;
        while x < self.cols
            invariant
                self.wf(),
                0 <= x <= self.cols,
                r@.len() == x as int,
                forall|u: int| 0 <= u < x as int ==> (#[trigger] r@[u])@.len() == self.rows as int,
                forall|u: int, v: int|
                    0 <= u < x as int && 0 <= v < self.rows as int ==> (#[trigger] r@[u]@[v])
                        == self.cells@[self.idx(u, v)],
            decreases self.cols as int - x as int,
        {
            let mut column: Vec<Cell> = Vec::new();
            let mut y: u16 = 0;
            while y < self.rows
                invariant
                    self.wf(),
                    0 <= x < self.cols,
                    0 <= y <= self.rows,
                    column@.len() == y as int,
                    forall|v: int|
                        0 <= v < y as int ==> (#[trigger] column@[v]) == self.cells@[self.idx(
                            x as int,
                            v,
                        )],
                decreases self.rows as int - y as int,
            {
                proof {
                    self.lemma_idx_inverse(x as int, y as int);
                }
                let i: usize = (x as usize) * (self.rows as usize) + (y as usize);
                column.push(self.cells[i]);
                y = y + 1;
            }
            r.push(column);
            x = x + 1;
        }
        r
    }
}

} // verus!
