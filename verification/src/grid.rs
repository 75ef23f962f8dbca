//! The 4x4 board: sixteen cells in row-major order, each empty or
//! holding a power-of-two tile, and the move engine that slides and
//! merges the tiles line by line.

use vstd::prelude::*;
use vstd::pervasive::VecAdditionalExecFns;
use crate::types::{Direction, valid_tile};
use crate::line::{
    compacted, merged, moved_line, compact_line, merge_line,
    lemma_compacted_len, lemma_compacted_elements, lemma_merged_elements,
    lemma_moved_line_empty,
};

verus! {

/// A board: sixteen cells, each empty or a legal tile.
pub open spec fn grid_valid(g: Seq<Option<u32>>) -> bool {
    g.len() == 16 && forall|i: int| 0 <= i < 16 && #[trigger] g[i] is Some ==> valid_tile(g[i]->0)
}

/// Every tile of `g` is below `b`.
pub open spec fn all_tiles_lt(g: Seq<Option<u32>>, b: int) -> bool {
    forall|i: int| 0 <= i < 16 && #[trigger] g[i] is Some ==> g[i]->0 < b
}

/// Some cell of `g` is empty.
pub open spec fn has_empty(g: Seq<Option<u32>>) -> bool {
    exists|i: int| 0 <= i < 16 && #[trigger] g[i] is None
}

/// Some tile of `g` has reached `b`.
pub open spec fn has_tile_ge(g: Seq<Option<u32>>, b: int) -> bool {
    exists|i: int| 0 <= i < 16 && #[trigger] g[i] is Some && g[i]->0 >= b
}

/// The flat index of position `p` of line `li` when moving toward
/// `dir`. Lines run perpendicular to the move: for Left and Right a
/// line is a row, for Up and Down a column. Position 0 is the cell at
/// the edge the tiles slide toward.
pub open spec fn lidx(dir: Direction, li: int, p: int) -> int {
    match dir {
        Direction::Left => 4 * li + p,
        Direction::Right => 4 * li + 3 - p,
        Direction::Up => 4 * p + li,
        Direction::Down => 12 - 4 * p + li,
    }
}

/// The line that flat cell `i` belongs to, when moving toward `dir`.
pub open spec fn line_no(dir: Direction, i: int) -> int {
    match dir {
        Direction::Left => i / 4,
        Direction::Right => i / 4,
        Direction::Up => i % 4,
        Direction::Down => i % 4,
    }
}

/// The position of flat cell `i` within its line, when moving toward
/// `dir`.
pub open spec fn pos_no(dir: Direction, i: int) -> int {
    match dir {
        Direction::Left => i % 4,
        Direction::Right => 3 - i % 4,
        Direction::Up => i / 4,
        Direction::Down => 3 - i / 4,
    }
}

/// Line `li` of `g`, read from the moving edge outward.
pub open spec fn line_of(g: Seq<Option<u32>>, dir: Direction, li: int) -> Seq<Option<u32>> {
    Seq::new(4, |p: int| g[lidx(dir, li, p)])
}

/// Line and position numbers invert the flat index.
pub proof fn lemma_coords(dir: Direction, i: int)
    requires
        0 <= i < 16,
    ensures
        0 <= line_no(dir, i) < 4,
        0 <= pos_no(dir, i) < 4,
        lidx(dir, line_no(dir, i), pos_no(dir, i)) == i,
{
}

/// The flat index lands in the board and inverts back to its line
/// and position.
pub proof fn lemma_lidx(dir: Direction, li: int, p: int)
    requires
        0 <= li < 4,
        0 <= p < 4,
    ensures
        0 <= lidx(dir, li, p) < 16,
        line_no(dir, lidx(dir, li, p)) == li,
        pos_no(dir, lidx(dir, li, p)) == p,
{
}

/// The board after one full move toward `dir`: every line compacted,
/// merged, and compacted again.
pub open spec fn moved_grid(g: Seq<Option<u32>>, dir: Direction) -> Seq<Option<u32>> {
    Seq::new(16, |i: int| moved_line(line_of(g, dir, line_no(dir, i)))[pos_no(dir, i)])
}

/// The board. Pure storage: the sixteen cells in row-major order.
pub struct Grid {
    cells: Vec<Option<u32>>,
}

impl View for Grid {
    type V = Seq<Option<u32>>;

    closed spec fn view(&self) -> Seq<Option<u32>> {
        self.cells@
    }
}

impl Grid {
    /// Makes the empty board.
    pub fn new() -> (g: Grid)
        ensures
            g@.len() == 16,
            forall|i: int| 0 <= i < 16 ==> #[trigger] g@[i] is None,
            grid_valid(g@),
    {
        let mut cells: Vec<Option<u32>> = Vec::new();
        let mut i: usize = 0;
        while i < 16
            invariant
                cells@.len() == i,
                i <= 16,
                forall|j: int| 0 <= j < i ==> #[trigger] cells@[j] is None,
            decreases 16 - i,
        {
            cells.push(None);
            i += 1;
        }
        Grid { cells }
    }

    /// Reads the cell at `row`, `col`.
    pub fn get(&self, row: usize, col: usize) -> (r: Option<u32>)
        requires
            self@.len() == 16,
            row < 4,
            col < 4,
        ensures
            r == self@[4 * row + col],
    {
        self.cells[4 * row + col]
    }

    /// Writes the cell at `row`, `col`: a legal tile, or empty.
    pub fn set(&mut self, row: usize, col: usize, val: Option<u32>)
        requires
            old(self)@.len() == 16,
            row < 4,
            col < 4,
            val is Some ==> valid_tile(val->0),
        ensures
            final(self)@ == old(self)@.update(4 * row + col, val),
    {
        self.cells.set(4 * row + col, val);
    }

    /// Reads the cell at flat index `i`.
    pub fn cell(&self, i: usize) -> (r: Option<u32>)
        requires
            self@.len() == 16,
            i < 16,
        ensures
            r == self@[i as int],
    {
        self.cells[i]
    }

    /// Copies line `li`, read from the moving edge outward.
    fn read_line(&self, dir: &Direction, li: usize) -> (lv: Vec<Option<u32>>)
        requires
            self@.len() == 16,
            li < 4,
        ensures
            lv@ == line_of(self@, *dir, li as int),
    {
        let mut lv: Vec<Option<u32>> = Vec::new();
        lv.push(self.cells[line_index(dir, li, 0)]);
        lv.push(self.cells[line_index(dir, li, 1)]);
        lv.push(self.cells[line_index(dir, li, 2)]);
        lv.push(self.cells[line_index(dir, li, 3)]);
        proof {
            assert(lv@ =~= line_of(self@, *dir, li as int));
        }
        lv
    }

    /// Writes line `li` back, leaving every other line untouched.
    fn write_line(&mut self, dir: &Direction, li: usize, lv: &Vec<Option<u32>>)
        requires
            old(self)@.len() == 16,
            li < 4,
            lv@.len() == 4,
        ensures
            final(self)@.len() == 16,
            forall|p: int| 0 <= p < 4 ==> final(self)@[#[trigger] lidx(*dir, li as int, p)]
                == lv@[p],
            forall|i: int| 0 <= i < 16 && line_no(*dir, i) != li
                ==> final(self)@[i] == old(self)@[i],
    {
        let i0 = line_index(dir, li, 0);
        let i1 = line_index(dir, li, 1);
        let i2 = line_index(dir, li, 2);
        let i3 = line_index(dir, li, 3);
        self.cells.set(i0, lv[0]);
        self.cells.set(i1, lv[1]);
        self.cells.set(i2, lv[2]);
        self.cells.set(i3, lv[3]);
        proof {
            lemma_lidx(*dir, li as int, 0);
            lemma_lidx(*dir, li as int, 1);
            lemma_lidx(*dir, li as int, 2);
            lemma_lidx(*dir, li as int, 3);
        }
    }

    /// Compacts every line toward `dir`: tiles slide to the moving
    /// edge, gaps close, order within each line is kept.
    pub fn shift(&mut self, dir: &Direction)
        requires
            old(self)@.len() == 16,
        ensures
            final(self)@.len() == 16,
            forall|li: int| 0 <= li < 4 ==> #[trigger] line_of(final(self)@, *dir, li)
                == compacted(line_of(old(self)@, *dir, li)),
    {
        let ghost g0 = self@;
        let mut li: usize = 0;
        while li < 4
            invariant
                self@.len() == 16,
                li <= 4,
                g0.len() == 16,
                forall|l2: int, p: int| 0 <= l2 < li && 0 <= p < 4
                    ==> self@[#[trigger] lidx(*dir, l2, p)] == compacted(line_of(g0, *dir, l2))[p],
                forall|l2: int, p: int| li <= l2 < 4 && 0 <= p < 4
                    ==> self@[#[trigger] lidx(*dir, l2, p)] == g0[lidx(*dir, l2, p)],
            decreases 4 - li,
        {
            let mut lv = self.read_line(dir, li);
            proof {
                assert(lv@ =~= line_of(g0, *dir, li as int));
            }
            compact_line(&mut lv);
            proof {
                lemma_compacted_len(line_of(g0, *dir, li as int));
            }
            self.write_line(dir, li, &lv);
            proof {
                assert forall|l2: int, p: int| 0 <= l2 < li + 1 && 0 <= p < 4
                    implies self@[#[trigger] lidx(*dir, l2, p)]
                        == compacted(line_of(g0, *dir, l2))[p] by {
                    lemma_lidx(*dir, l2, p);
                }
                assert forall|l2: int, p: int| li + 1 <= l2 < 4 && 0 <= p < 4
                    implies self@[#[trigger] lidx(*dir, l2, p)] == g0[lidx(*dir, l2, p)] by {
                    lemma_lidx(*dir, l2, p);
                }
            }
            li += 1;
        }
        proof {
            assert forall|l: int| 0 <= l < 4 implies #[trigger] line_of(self@, *dir, l)
                == compacted(line_of(g0, *dir, l)) by {
                lemma_compacted_len(line_of(g0, *dir, l));
                assert(line_of(self@, *dir, l) =~= compacted(line_of(g0, *dir, l)));
            }
        }
    }

    /// Merges every line toward `dir`: in each line the edge-most
    /// adjacent equal pair combines toward the moving edge, each tile
    /// merging at most once.
    pub fn summarize(&mut self, dir: &Direction)
        requires
            old(self)@.len() == 16,
            forall|i: int| 0 <= i < 16 && #[trigger] old(self)@[i] is Some
                ==> 2 * old(self)@[i]->0 <= u32::MAX,
        ensures
            final(self)@.len() == 16,
            forall|li: int| 0 <= li < 4 ==> #[trigger] line_of(final(self)@, *dir, li)
                == merged(line_of(old(self)@, *dir, li)),
    {
        let ghost g0 = self@;
        let mut li: usize = 0;
        while li < 4
            invariant
                self@.len() == 16,
                li <= 4,
                g0.len() == 16,
                forall|i: int| 0 <= i < 16 && #[trigger] g0[i] is Some ==> 2 * g0[i]->0 <= u32::MAX,
                forall|l2: int, p: int| 0 <= l2 < li && 0 <= p < 4
                    ==> self@[#[trigger] lidx(*dir, l2, p)] == merged(line_of(g0, *dir, l2))[p],
                forall|l2: int, p: int| li <= l2 < 4 && 0 <= p < 4
                    ==> self@[#[trigger] lidx(*dir, l2, p)] == g0[lidx(*dir, l2, p)],
            decreases 4 - li,
        {
            let mut lv = self.read_line(dir, li);
            proof {
                assert(lv@ =~= line_of(g0, *dir, li as int));
                assert forall|p: int| 0 <= p < 4 && #[trigger] lv@[p] is Some
                    implies 2 * lv@[p]->0 <= u32::MAX by {
                    lemma_lidx(*dir, li as int, p);
                }
            }
            merge_line(&mut lv);
            proof {
                lemma_merged_elements(line_of(g0, *dir, li as int));
            }
            self.write_line(dir, li, &lv);
            proof {
                assert forall|l2: int, p: int| 0 <= l2 < li + 1 && 0 <= p < 4
                    implies self@[#[trigger] lidx(*dir, l2, p)]
                        == merged(line_of(g0, *dir, l2))[p] by {
                    lemma_lidx(*dir, l2, p);
                }
                assert forall|l2: int, p: int| li + 1 <= l2 < 4 && 0 <= p < 4
                    implies self@[#[trigger] lidx(*dir, l2, p)] == g0[lidx(*dir, l2, p)] by {
                    lemma_lidx(*dir, l2, p);
                }
            }
            li += 1;
        }
        proof {
            assert forall|l: int| 0 <= l < 4 implies #[trigger] line_of(self@, *dir, l)
                == merged(line_of(g0, *dir, l)) by {
                lemma_merged_elements(line_of(g0, *dir, l));
                assert(line_of(self@, *dir, l) =~= merged(line_of(g0, *dir, l)));
            }
        }
    }

    /// A copy of the cells.
    fn clone_cells(&self) -> (r: Vec<Option<u32>>)
        requires
            self@.len() == 16,
        ensures
            r@ == self@,
    {
        let mut r: Vec<Option<u32>> = Vec::new();
        let mut i: usize = 0;
        while i < 16
            invariant
                self@.len() == 16,
                i <= 16,
                r@.len() == i,
                forall|j: int| 0 <= j < i ==> #[trigger] r@[j] == self@[j],
            decreases 16 - i,
        {
            r.push(self.cells[i]);
            i += 1;
        }
        proof {
            assert(r@ =~= self@);
        }
        r
    }

    /// Whether the cells equal `other`.
    fn same_cells(&self, other: &Vec<Option<u32>>) -> (r: bool)
        requires
            self@.len() == 16,
            other@.len() == 16,
        ensures
            r <==> self@ == other@,
    {
        let mut i: usize = 0;
        let mut same = true;
        while i < 16
            invariant
                self@.len() == 16,
                other@.len() == 16,
                i <= 16,
                same <==> forall|j: int| 0 <= j < i ==> #[trigger] self@[j] == other@[j],
            decreases 16 - i,
        {
            let eq = match (self.cells[i], other[i]) {
                (None, None) => true,
                (Some(x), Some(y)) => x == y,
                _ => false,
            };
            if !eq {
                same = false;
            }
            i += 1;
        }
        proof {
            if same {
                assert(self@ =~= other@);
            }
        }
        same
    }

    /// One full move toward `dir`: compact, merge, compact again, on
    /// every line. Returns whether any cell changed.
    pub fn apply_move(&mut self, dir: &Direction) -> (changed: bool)
        requires
            old(self)@.len() == 16,
            forall|i: int| 0 <= i < 16 && #[trigger] old(self)@[i] is Some
                ==> 2 * old(self)@[i]->0 <= u32::MAX,
        ensures
            final(self)@ == moved_grid(old(self)@, *dir),
            changed <==> final(self)@ != old(self)@,
    {
        let ghost g0 = self@;
        let before = self.clone_cells();
        self.shift(dir);
        let ghost g1 = self@;
        proof {
            lemma_compacted_grid_elements(g0, g1, *dir);
        }
        self.summarize(dir);
        self.shift(dir);
        proof {
            let g3 = self@;
            assert forall|i: int| 0 <= i < 16 implies g3[i] == moved_grid(g0, *dir)[i] by {
                lemma_coords(*dir, i);
                let li = line_no(*dir, i);
                let p = pos_no(*dir, i);
                let s = line_of(g0, *dir, li);
                lemma_compacted_len(s);
                lemma_merged_elements(compacted(s));
                lemma_compacted_len(merged(compacted(s)));
                assert(g3[i] == line_of(g3, *dir, li)[p]);
            }
            assert(self@ =~= moved_grid(g0, *dir));
        }
        let unchanged = self.same_cells(&before);
        !unchanged
    }
}

/// Every tile of a moved board is a tile of the board before the
/// move, or the double of one.
pub proof fn lemma_moved_grid_elements(g: Seq<Option<u32>>, dir: Direction)
    requires
        g.len() == 16,
    ensures
        moved_grid(g, dir).len() == 16,
        forall|i: int| 0 <= i < 16 && #[trigger] moved_grid(g, dir)[i] is Some
            ==> exists|j: int| 0 <= j < 16 && g[j] is Some
                && (g[j] == moved_grid(g, dir)[i]
                    || moved_grid(g, dir)[i] == crate::line::dbl(g[j])),
{
    assert forall|i: int| 0 <= i < 16 && #[trigger] moved_grid(g, dir)[i] is Some
        implies exists|j: int| 0 <= j < 16 && g[j] is Some
            && (g[j] == moved_grid(g, dir)[i]
                || moved_grid(g, dir)[i] == crate::line::dbl(g[j])) by {
        lemma_coords(dir, i);
        let li = line_no(dir, i);
        let p = pos_no(dir, i);
        let s = line_of(g, dir, li);
        let c1 = compacted(s);
        let m = merged(c1);
        let c2 = compacted(m);
        lemma_compacted_len(s);
        lemma_merged_elements(c1);
        lemma_compacted_len(m);
        lemma_compacted_elements(m);
        lemma_compacted_elements(s);
        assert(moved_grid(g, dir)[i] == c2[p]);
        let q = choose|q: int| 0 <= q < 4 && m[q] == c2[p];
        let q2 = choose|q2: int| 0 <= q2 < 4 && c1[q2] is Some
            && (c1[q2] == m[q] || m[q] == crate::line::dbl(c1[q2]));
        let q3 = choose|q3: int| 0 <= q3 < 4 && s[q3] == c1[q2];
        lemma_lidx(dir, li, q3);
        assert(g[lidx(dir, li, q3)] == s[q3]);
    }
}

/// Moving a board of only empty cells, in any direction, leaves it
/// unchanged.
pub proof fn lemma_moved_grid_empty(g: Seq<Option<u32>>, dir: Direction)
    requires
        g.len() == 16,
        forall|i: int| 0 <= i < 16 ==> #[trigger] g[i] is None,
    ensures
        moved_grid(g, dir) == g,
{
    assert forall|i: int| 0 <= i < 16 implies #[trigger] moved_grid(g, dir)[i] == g[i] by {
        lemma_coords(dir, i);
        let li = line_no(dir, i);
        let p = pos_no(dir, i);
        let s = line_of(g, dir, li);
        assert forall|q: int| 0 <= q < 4 implies #[trigger] s[q] is None by {
            lemma_lidx(dir, li, q);
        }
        lemma_moved_line_empty(s);
        assert(moved_grid(g, dir)[i] == moved_line(s)[p]);
        assert(s[p] == g[i]);
    }
    assert(moved_grid(g, dir) =~= g);
}

/// A move keeps every tile a legal power of two.
pub proof fn lemma_moved_grid_valid(g: Seq<Option<u32>>, dir: Direction)
    requires
        grid_valid(g),
        forall|i: int| 0 <= i < 16 && #[trigger] g[i] is Some ==> 2 * g[i]->0 <= u32::MAX,
    ensures
        grid_valid(moved_grid(g, dir)),
{
    lemma_moved_grid_elements(g, dir);
    let g1 = moved_grid(g, dir);
    assert forall|i: int| 0 <= i < 16 && #[trigger] g1[i] is Some
        implies valid_tile(g1[i]->0) by {
        let j = choose|j: int| 0 <= j < 16 && g[j] is Some
            && (g[j] == g1[i] || g1[i] == crate::line::dbl(g[j]));
        if g1[i] == crate::line::dbl(g[j]) {
            crate::types::lemma_double_valid(g[j]->0);
        }
    }
}

/// A move at most doubles the largest tile: tiles below `b` stay
/// below `2 * b`.
pub proof fn lemma_moved_grid_bound(g: Seq<Option<u32>>, dir: Direction, b: int)
    requires
        g.len() == 16,
        all_tiles_lt(g, b),
        b <= 0x8000_0000,
    ensures
        all_tiles_lt(moved_grid(g, dir), 2 * b),
{
    lemma_moved_grid_elements(g, dir);
    let g1 = moved_grid(g, dir);
    assert forall|i: int| 0 <= i < 16 && #[trigger] g1[i] is Some
        implies g1[i]->0 < 2 * b by {
        let j = choose|j: int| 0 <= j < 16 && g[j] is Some
            && (g[j] == g1[i] || g1[i] == crate::line::dbl(g[j]));
        assert(g[j]->0 < b);
    }
}

/// Every tile of a board whose lines were all compacted is a tile of
/// the board before.
pub proof fn lemma_compacted_grid_elements(g0: Seq<Option<u32>>, g1: Seq<Option<u32>>, dir: Direction)
    requires
        g0.len() == 16,
        g1.len() == 16,
        forall|li: int| 0 <= li < 4 ==> #[trigger] line_of(g1, dir, li)
            == compacted(line_of(g0, dir, li)),
    ensures
        forall|i: int| 0 <= i < 16 && #[trigger] g1[i] is Some
            ==> exists|j: int| 0 <= j < 16 && g0[j] == g1[i],
{
    assert forall|i: int| 0 <= i < 16 && #[trigger] g1[i] is Some
        implies exists|j: int| 0 <= j < 16 && g0[j] == g1[i] by {
        lemma_coords(dir, i);
        let li = line_no(dir, i);
        let p = pos_no(dir, i);
        let s = line_of(g0, dir, li);
        lemma_compacted_len(s);
        lemma_compacted_elements(s);
        assert(g1[i] == line_of(g1, dir, li)[p]);
        let q = choose|q: int| 0 <= q < 4 && s[q] == compacted(s)[p];
        lemma_lidx(dir, li, q);
        assert(g0[lidx(dir, li, q)] == g1[i]);
    }
}

/// The flat index of position `p` of line `li` when moving toward
/// `dir`.
pub fn line_index(dir: &Direction, li: usize, p: usize) -> (r: usize)
    requires
        li < 4,
        p < 4,
    ensures
        r < 16,
        r as int == lidx(*dir, li as int, p as int),
{
    match dir {
        Direction::Left => 4 * li + p,
        Direction::Right => 4 * li + 3 - p,
        Direction::Up => 4 * p + li,
        Direction::Down => 12 - 4 * p + li,
    }
}

} // verus!
