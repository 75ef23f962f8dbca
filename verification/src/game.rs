//! The turn state machine: it owns the board and the game status,
//! applies one validated move per turn, spawns a tile, and decides
//! win and loss.
//!
//! One turn: normalize the input line; on a bad line report an
//! incorrect move and change nothing; otherwise run the move engine,
//! spawn a tile (a full board means loss), and scan for a tile of
//! 2048 or more (win, which overrides a loss found in the same turn).

use vstd::prelude::*;
use crate::grid::{
    Grid, grid_valid, all_tiles_lt, has_empty, has_tile_ge, line_of, moved_grid,
    lemma_moved_grid_valid, lemma_moved_grid_bound,
};
use crate::input::{move_normalize, normalize_spec};
use crate::line::{compacted, merged};
use crate::rng::random_below;
use crate::types::{Direction, GameState, Message, SpawnResult, is_pow2};

verus! {

/// A game: the board and the overall status.
pub struct Game {
    pub field: Grid,
    pub state: GameState,
}

impl Game {
    /// A well-formed game: every tile is a legal power of two, and
    /// while the game is running no tile has reached 2048 yet (a
    /// turn that produces one ends the game at once).
    pub open spec fn wf(self) -> bool {
        &&& grid_valid(self.field@)
        &&& self.state is InGame ==> all_tiles_lt(self.field@, 2048)
    }

    /// Makes a fresh game: an empty board, running.
    pub fn build() -> (g: Game)
        ensures
            g.state is InGame,
            g.field@.len() == 16,
            forall|i: int| 0 <= i < 16 ==> #[trigger] g.field@[i] is None,
            g.wf(),
    {
        Game { field: Grid::new(), state: GameState::InGame }
    }

    /// Compacts every line of the board toward `dir`.
    pub fn shift(&mut self, dir: &Direction)
        requires
            old(self).field@.len() == 16,
        ensures
            final(self).state == old(self).state,
            final(self).field@.len() == 16,
            forall|li: int| 0 <= li < 4 ==> #[trigger] line_of(final(self).field@, *dir, li)
                == compacted(line_of(old(self).field@, *dir, li)),
    {
        self.field.shift(dir);
    }

    /// Merges every line of the board toward `dir`.
    pub fn summarize(&mut self, dir: &Direction)
        requires
            old(self).field@.len() == 16,
            forall|i: int| 0 <= i < 16 && #[trigger] old(self).field@[i] is Some
                ==> 2 * old(self).field@[i]->0 <= u32::MAX,
        ensures
            final(self).state == old(self).state,
            final(self).field@.len() == 16,
            forall|li: int| 0 <= li < 4 ==> #[trigger] line_of(final(self).field@, *dir, li)
                == merged(line_of(old(self).field@, *dir, li)),
    {
        self.field.summarize(dir);
    }

    /// One move attempt from a raw input line: a line that names no
    /// direction is rejected with an incorrect-move message and the
    /// game is left as it was; otherwise the move engine runs.
    pub fn make_move(&mut self, input: &String) -> (m: Option<Message>)
        requires
            old(self).field@.len() == 16,
            forall|i: int| 0 <= i < 16 && #[trigger] old(self).field@[i] is Some
                ==> 2 * old(self).field@[i]->0 <= u32::MAX,
        ensures
            final(self).state == old(self).state,
            normalize_spec(input@) is None ==> *final(self) == *old(self)
                && m == Some(Message::IncorrectMove),
            normalize_spec(input@) matches Some(d) ==> final(self).field@
                == moved_grid(old(self).field@, d) && m is None,
    {
        let dir = move_normalize(input);
        match dir {
            None => Some(Message::IncorrectMove),
            Some(d) => {
                self.field.apply_move(&d);
                None
            },
        }
    }

    /// Spawns one tile: a uniformly random empty cell receives a 2,
    /// or a 4 with one chance in ten. A board with no empty cell is
    /// left unchanged and the game is lost.
    pub fn spawn_number(&mut self) -> (r: SpawnResult)
        requires
            old(self).field@.len() == 16,
        ensures
            final(self).field@.len() == 16,
            r is GridFull <==> !has_empty(old(self).field@),
            !has_empty(old(self).field@) ==> final(self).field@ == old(self).field@
                && final(self).state is Loose,
            has_empty(old(self).field@) ==> final(self).state == old(self).state
                && exists|i: int| 0 <= i < 16 && #[trigger] old(self).field@[i] is None
                    && (final(self).field@ == old(self).field@.update(i, Some(2u32))
                        || final(self).field@ == old(self).field@.update(i, Some(4u32))),
            grid_valid(old(self).field@) ==> grid_valid(final(self).field@),
    {
        let ghost g0 = self.field@;
        let mut empty_cells: Vec<usize> = Vec::new();
        let mut i: usize = 0;
        while i < 16
            invariant
                self == old(self),
                g0 == self.field@,
                g0.len() == 16,
                i <= 16,
                forall|k: int| 0 <= k < empty_cells@.len()
                    ==> #[trigger] empty_cells@[k] < 16 && g0[empty_cells@[k] as int] is None,
                forall|j: int| 0 <= j < i && #[trigger] g0[j] is None
                    ==> empty_cells@.contains(j as usize),
            decreases 16 - i,
        {
            if self.field.cell(i).is_none() {
                let ghost before = empty_cells@;
                empty_cells.push(i);
                proof {
                    assert(empty_cells@ == before.push(i));
                    assert forall|j: int| 0 <= j < i + 1 && #[trigger] g0[j] is None
                        implies empty_cells@.contains(j as usize) by {
                        if j < i {
                            assert(before.contains(j as usize));
                            let k = choose|k: int|
                                0 <= k < before.len() && before[k] == j as usize;
                            assert(empty_cells@[k] == j as usize);
                        } else {
                            assert(empty_cells@[before.len() as int] == i);
                        }
                    }
                }
            }
            i += 1;
        }
        proof {
            assert(is_pow2(1));
            assert(is_pow2(2));
            assert(is_pow2(4));
        }
        if empty_cells.len() == 0 {
            proof {
                if has_empty(g0) {
                    let w = choose|w: int| 0 <= w < 16 && g0[w] is None;
                    assert(empty_cells@.contains(w as usize));
                }
            }
            self.state = GameState::Loose;
            SpawnResult::GridFull
        } else {
            let k = random_below(empty_cells.len());
            let cell_i = empty_cells[k];
            let d = random_below(10);
            let number: u32 = if d == 9 { 4 } else { 2 };
            self.field.set(cell_i / 4, cell_i % 4, Some(number));
            proof {
                assert(4 * (cell_i / 4) + cell_i % 4 == cell_i as int);
                assert(g0[cell_i as int] is None);
                assert(self.field@ == g0.update(cell_i as int, Some(number)));
                assert(has_empty(g0));
            }
            SpawnResult::Spawned
        }
    }

    /// One full turn from a raw input line: move, spawn, then decide.
    /// A rejected line changes nothing. A recognized direction always
    /// spawns, even when the move slid no tile. A full board after
    /// the spawn attempt loses the game; a tile of 2048 or more wins
    /// it, and a win found in the same turn as a loss overrides the
    /// loss.
    pub fn update(&mut self, input: &String) -> (m: Option<Message>)
        requires
            old(self).wf(),
            old(self).field@.len() == 16,
            old(self).state is InGame,
        ensures
            final(self).wf(),
            final(self).field@.len() == 16,
            normalize_spec(input@) is None ==> *final(self) == *old(self)
                && m == Some(Message::IncorrectMove),
            normalize_spec(input@) matches Some(dir) ==> ({
                let g1 = moved_grid(old(self).field@, dir);
                &&& !has_empty(g1) ==> final(self).field@ == g1
                &&& has_empty(g1) ==> exists|i: int| 0 <= i < 16 && #[trigger] g1[i] is None
                        && (final(self).field@ == g1.update(i, Some(2u32))
                            || final(self).field@ == g1.update(i, Some(4u32)))
                &&& has_tile_ge(final(self).field@, 2048) ==> final(self).state is Win
                        && m == Some(Message::Win)
                &&& !has_tile_ge(final(self).field@, 2048) && has_empty(g1)
                        ==> final(self).state is InGame && m is None
                &&& !has_tile_ge(final(self).field@, 2048) && !has_empty(g1)
                        ==> final(self).state is Loose && m == Some(Message::Loose)
            }),
    {
        let ghost g0 = self.field@;
        let first = self.make_move(input);
        match first {
            Some(msg) => Some(msg),
            None => {
                let ghost dir = normalize_spec(input@)->0;
                let ghost g1 = self.field@;
                proof {
                    assert(forall|i: int| 0 <= i < 16 && #[trigger] g0[i] is Some
                        ==> 2 * g0[i]->0 <= u32::MAX);
                    lemma_moved_grid_valid(g0, dir);
                    lemma_moved_grid_bound(g0, dir, 2048);
                }
                self.spawn_number();
                let ghost g2 = self.field@;
                let mut msg: Option<Message> = None;
                if self.state == GameState::Loose {
                    msg = Some(Message::Loose);
                }
                let ghost st1 = self.state;
                let ghost msg1 = msg;
                let mut max_num: u32 = 2;
                let mut i: usize = 0;
                while i < 16
                    invariant
                        self.field@ == g2,
                        self.state == st1,
                        msg == msg1,
                        g2.len() == 16,
                        i <= 16,
                        max_num >= 2,
                        forall|j: int| 0 <= j < i && #[trigger] g2[j] is Some
                            ==> g2[j]->0 <= max_num,
                        max_num > 2 ==> exists|j: int| 0 <= j < i && #[trigger] g2[j] is Some
                            && g2[j]->0 == max_num,
                    decreases 16 - i,
                {
                    match self.field.cell(i) {
                        Some(v) => {
                            if v > max_num {
                                max_num = v;
                            }
                        },
                        None => {},
                    }
                    i += 1;
                }
                if max_num >= 2048 {
                    msg = Some(Message::Win);
                    self.state = GameState::Win;
                } else {
                    proof {
                        assert(!has_tile_ge(g2, 2048));
                        assert(all_tiles_lt(g2, 2048));
                    }
                }
                msg
            },
        }
    }
}

} // verus!
