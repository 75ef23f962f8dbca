//! The plain value kinds of the game: move intents, the overall
//! game status, the per-turn message, and the spawner's outcome.

use vstd::prelude::*;

verus! {

/// A move intent: one of the four cardinal directions.
#[derive(Clone, Copy, Debug, PartialEq, Eq, Structural)]
pub enum Direction {
    Up,
    Left,
    Down,
    Right,
}

/// The overall status of a game. `Win` and `Loose` are terminal:
/// once reached, no further turns are accepted.
#[derive(Clone, Copy, Debug, PartialEq, Eq, Structural)]
pub enum GameState {
    Win,
    Loose,
    InGame,
}

/// The message a turn may produce for the player.
#[derive(Clone, Copy, Debug, PartialEq, Eq, Structural)]
pub enum Message {
    IncorrectMove,
    Win,
    Loose,
}

/// The outcome of one spawn attempt.
#[derive(Clone, Copy, Debug, PartialEq, Eq, Structural)]
pub enum SpawnResult {
    Spawned,
    GridFull,
}

/// Whether `n` is a power of two (1, 2, 4, ...).
pub open spec fn is_pow2(n: nat) -> bool
    decreases n,
{
    if n == 0 {
        false
    } else if n == 1 {
        true
    } else {
        n % 2 == 0 && is_pow2(n / 2)
    }
}

/// A legal tile value: a power of two that is at least 2.
pub open spec fn valid_tile(v: u32) -> bool {
    v >= 2 && is_pow2(v as nat)
}

/// Doubling keeps a tile value legal.
pub proof fn lemma_double_valid(v: u32)
    requires
        valid_tile(v),
        2 * v <= u32::MAX,
    ensures
        valid_tile((2 * v) as u32),
{
    assert(is_pow2((2 * v) as nat)) by {
        assert((2 * v) as nat % 2 == 0);
        assert((2 * v) as nat / 2 == v as nat);
    }
}

} // verus!
