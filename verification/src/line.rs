//! One line of four cells, seen from the moving edge.
//!
//! A move works line by line: position 0 is the cell at the edge the
//! tiles slide toward. A line is first compacted (tiles slide over
//! gaps, keeping their order), then merged (adjacent equal tiles
//! combine into one of double value, edge-most pair first, each tile
//! merging at most once per move), then compacted again.

use vstd::prelude::*;
use vstd::pervasive::VecAdditionalExecFns;

verus! {

/// The non-empty cells of `s` from position `i` on, in order.
pub open spec fn tiles_from(s: Seq<Option<u32>>, i: int) -> Seq<Option<u32>>
    decreases s.len() - i when 0 <= i <= s.len()
{
    if i < 0 || i >= s.len() {
        Seq::empty()
    } else if s[i] is Some {
        seq![s[i]] + tiles_from(s, i + 1)
    } else {
        tiles_from(s, i + 1)
    }
}

/// The non-empty cells of `s`, in order.
pub open spec fn tiles(s: Seq<Option<u32>>) -> Seq<Option<u32>> {
    tiles_from(s, 0)
}

/// `n` empty cells.
pub open spec fn nones(n: nat) -> Seq<Option<u32>> {
    Seq::new(n, |i: int| None)
}

/// `s` compacted: its tiles slid to the front, gaps closed, order kept.
pub open spec fn compacted(s: Seq<Option<u32>>) -> Seq<Option<u32>> {
    tiles(s) + nones((s.len() - tiles(s).len()) as nat)
}

/// Two cells that hold equal tiles.
pub open spec fn eq_tiles(a: Option<u32>, b: Option<u32>) -> bool {
    a is Some && b is Some && a->0 == b->0
}

/// The cell holding the doubled tile of `a`.
pub open spec fn dbl(a: Option<u32>) -> Option<u32> {
    Some((2 * a->0) as u32)
}

/// One merge pass over a line of four, from the moving edge outward:
/// the edge-most adjacent equal pair merges toward the edge, and a
/// tile that just merged is not considered again, so each tile merges
/// at most once per move.
pub open spec fn merged(s: Seq<Option<u32>>) -> Seq<Option<u32>>
    recommends s.len() == 4,
{
    if eq_tiles(s[0], s[1]) {
        if eq_tiles(s[2], s[3]) {
            seq![dbl(s[0]), None, dbl(s[2]), None]
        } else {
            seq![dbl(s[0]), None, s[2], s[3]]
        }
    } else if eq_tiles(s[1], s[2]) {
        seq![s[0], dbl(s[1]), None, s[3]]
    } else if eq_tiles(s[2], s[3]) {
        seq![s[0], s[1], dbl(s[2]), None]
    } else {
        s
    }
}

/// A full move on one line: compact, merge, compact again.
pub open spec fn moved_line(s: Seq<Option<u32>>) -> Seq<Option<u32>>
    recommends s.len() == 4,
{
    compacted(merged(compacted(s)))
}

/// There are no more tiles from `i` on than cells.
pub proof fn lemma_tiles_from_len(s: Seq<Option<u32>>, i: int)
    requires
        0 <= i <= s.len(),
    ensures
        tiles_from(s, i).len() <= s.len() - i,
    decreases s.len() - i,
{
    if i < s.len() {
        lemma_tiles_from_len(s, i + 1);
    }
}

/// Every tile listed from `i` on is a non-empty cell of `s` at or
/// after `i`.
pub proof fn lemma_tiles_from_elements(s: Seq<Option<u32>>, i: int)
    requires
        0 <= i <= s.len(),
    ensures
        forall|k: int|
            0 <= k < tiles_from(s, i).len() ==> tiles_from(s, i)[k] is Some
                && exists|j: int| i <= j < s.len() && s[j] == #[trigger] tiles_from(s, i)[k],
    decreases s.len() - i,
{
    if i < s.len() {
        lemma_tiles_from_elements(s, i + 1);
        let t = tiles_from(s, i);
        let rest = tiles_from(s, i + 1);
        if s[i] is Some {
            assert forall|k: int| 0 <= k < t.len() implies t[k] is Some
                && exists|j: int| i <= j < s.len() && s[j] == #[trigger] t[k] by {
                if k == 0 {
                    assert(s[i] == t[0]);
                } else {
                    assert(t[k] == rest[k - 1]);
                }
            }
        }
    }
}

/// A compacted line has the length of the line it came from.
pub proof fn lemma_compacted_len(s: Seq<Option<u32>>)
    ensures
        compacted(s).len() == s.len(),
{
    lemma_tiles_from_len(s, 0);
}

/// Every tile of a compacted line is a tile of the original line.
pub proof fn lemma_compacted_elements(s: Seq<Option<u32>>)
    ensures
        forall|p: int|
            0 <= p < compacted(s).len() && #[trigger] compacted(s)[p] is Some
                ==> exists|j: int| 0 <= j < s.len() && s[j] == compacted(s)[p],
{
    lemma_tiles_from_len(s, 0);
    lemma_tiles_from_elements(s, 0);
    assert forall|p: int|
        0 <= p < compacted(s).len() && #[trigger] compacted(s)[p] is Some
        implies exists|j: int| 0 <= j < s.len() && s[j] == compacted(s)[p] by {
        if p < tiles(s).len() {
            assert(compacted(s)[p] == tiles(s)[p]);
        } else {
            assert(compacted(s)[p] is None);
        }
    }
}

/// Every tile of a merged line is a tile of the line before the
/// merge, or the double of one.
pub proof fn lemma_merged_elements(s: Seq<Option<u32>>)
    requires
        s.len() == 4,
    ensures
        merged(s).len() == 4,
        forall|p: int|
            0 <= p < 4 && #[trigger] merged(s)[p] is Some ==> exists|j: int|
                0 <= j < 4 && s[j] is Some && (s[j] == merged(s)[p] || merged(s)[p] == dbl(s[j])),
{
    assert forall|p: int|
        0 <= p < 4 && #[trigger] merged(s)[p] is Some implies exists|j: int|
            0 <= j < 4 && s[j] is Some && (s[j] == merged(s)[p] || merged(s)[p] == dbl(s[j])) by {
        let m = merged(s);
        if eq_tiles(s[0], s[1]) {
            if eq_tiles(s[2], s[3]) {
                if p == 0 {
                    assert(s[0] is Some && m[0] == dbl(s[0]));
                } else if p == 2 {
                    assert(s[2] is Some && m[2] == dbl(s[2]));
                }
            } else {
                if p == 0 {
                    assert(s[0] is Some && m[0] == dbl(s[0]));
                } else {
                    assert(s[p] == m[p]);
                }
            }
        } else if eq_tiles(s[1], s[2]) {
            if p == 1 {
                assert(s[1] is Some && m[1] == dbl(s[1]));
            } else {
                assert(s[p] == m[p]);
            }
        } else if eq_tiles(s[2], s[3]) {
            if p == 2 {
                assert(s[2] is Some && m[2] == dbl(s[2]));
            } else {
                assert(s[p] == m[p]);
            }
        } else {
            assert(s[p] == m[p]);
        }
    }
}

/// A line of four empty cells moves to itself.
pub proof fn lemma_moved_line_empty(s: Seq<Option<u32>>)
    requires
        s.len() == 4,
        forall|p: int| 0 <= p < 4 ==> s[p] is None,
    ensures
        moved_line(s) == s,
{
    assert(tiles_from(s, 4) =~= Seq::empty());
    assert(tiles_from(s, 3) =~= Seq::empty());
    assert(tiles_from(s, 2) =~= Seq::empty());
    assert(tiles_from(s, 1) =~= Seq::empty());
    assert(tiles(s) =~= Seq::empty());
    assert(compacted(s) =~= s);
    assert(merged(s) == s);
    assert(moved_line(s) =~= s);
}

/// Whether `a` and `b` hold equal tiles.
pub fn tiles_equal(a: Option<u32>, b: Option<u32>) -> (r: bool)
    ensures
        r == eq_tiles(a, b),
{
    match (a, b) {
        (Some(x), Some(y)) => x == y,
        _ => false,
    }
}

/// Compacts a line of four in place: tiles slide to the front, gaps
/// close, order is kept.
pub fn compact_line(line: &mut Vec<Option<u32>>)
    requires
        old(line)@.len() == 4,
    ensures
        final(line)@ == compacted(old(line)@),
{
    let ghost s = line@;
    proof {
        lemma_tiles_from_len(s, 0);
    }
    let mut out: Vec<Option<u32>> = Vec::new();
    let mut i: usize = 0;
    while i < 4
        invariant
            line@ == s,
            s.len() == 4,
            0 <= i <= 4,
            out@.len() <= i,
            tiles(s) == out@ + tiles_from(s, i as int),
        decreases 4 - i,
    {
        let c = line[i];
        if c.is_some() {
            out.push(c);
            proof {
                assert(out@ + tiles_from(s, i + 1) =~= (out@.drop_last() + seq![s[i as int]])
                    + tiles_from(s, i + 1));
                assert((out@.drop_last() + seq![s[i as int]]) + tiles_from(s, i + 1)
                    =~= out@.drop_last() + (seq![s[i as int]] + tiles_from(s, i + 1)));
            }
        }
        i += 1;
    }
    proof {
        assert(tiles_from(s, 4) =~= Seq::empty());
        assert(out@ =~= tiles(s));
    }
    while out.len() < 4
        invariant
            tiles(s).len() <= out@.len() <= 4,
            out@ == tiles(s) + nones((out@.len() - tiles(s).len()) as nat),
        decreases 4 - out.len(),
    {
        out.push(None);
        proof {
            assert(out@ =~= tiles(s) + nones((out@.len() - tiles(s).len()) as nat));
        }
    }
    proof {
        assert(out@ =~= compacted(s));
    }
    *line = out;
}

/// Merges a line of four in place: the edge-most adjacent equal pair
/// combines toward the edge, each tile merging at most once.
pub fn merge_line(line: &mut Vec<Option<u32>>)
    requires
        old(line)@.len() == 4,
        forall|p: int|
            0 <= p < 4 && #[trigger] old(line)@[p] is Some ==> 2 * old(line)@[p]->0 <= u32::MAX,
    ensures
        final(line)@ == merged(old(line)@),
{
    let ghost s = line@;
    let a = line[0];
    let b = line[1];
    let c = line[2];
    let d = line[3];
    if tiles_equal(a, b) {
        line.set(0, Some(2 * a.unwrap()));
        line.set(1, None);
        if tiles_equal(c, d) {
            line.set(2, Some(2 * c.unwrap()));
            line.set(3, None);
        }
    } else if tiles_equal(b, c) {
        line.set(1, Some(2 * b.unwrap()));
        line.set(2, None);
    } else if tiles_equal(c, d) {
        line.set(2, Some(2 * c.unwrap()));
        line.set(3, None);
    }
    proof {
        assert(line@ =~= merged(s));
    }
}

} // verus!

