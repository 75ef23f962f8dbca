use game2048::game::Game;
use game2048::input::move_normalize;
use game2048::types::{Direction, GameState, Message, SpawnResult};

fn row_major(game: &Game) -> Vec<Option<u32>> {
    let mut out = Vec::new();
    for r in 0..4 {
        for c in 0..4 {
            out.push(game.field.get(r, c));
        }
    }
    out
}

fn tile_count(game: &Game) -> usize {
    row_major(game).iter().filter(|c| c.is_some()).count()
}

#[test]
fn move_normalized() {
    assert_eq!(None, move_normalize(&"1".to_string()));
    assert_eq!(None, move_normalize(&"ss".to_string()));
    assert_eq!(None, move_normalize(&"a-".to_string()));
    assert_eq!(None, move_normalize(&"SDX12ef".to_string()));
    assert_eq!(Some(Direction::Up), move_normalize(&"W".to_string()));
    assert_eq!(Some(Direction::Left), move_normalize(&"a".to_string()));
    assert_eq!(Some(Direction::Down), move_normalize(&"s".to_string()));
    assert_eq!(Some(Direction::Right), move_normalize(&"D".to_string()));
}

#[test]
fn move_normalized_line_endings() {
    assert_eq!(Some(Direction::Up), move_normalize(&"w\n".to_string()));
    assert_eq!(Some(Direction::Up), move_normalize(&"w\r\n".to_string()));
    assert_eq!(Some(Direction::Down), move_normalize(&"S\r\n".to_string()));
    assert_eq!(None, move_normalize(&"".to_string()));
    assert_eq!(None, move_normalize(&"\n".to_string()));
    assert_eq!(None, move_normalize(&"\r\n".to_string()));
    assert_eq!(None, move_normalize(&"wa\n".to_string()));
    assert_eq!(None, move_normalize(&"w \n".to_string()));
}

#[test]
fn merge_prefers_the_moving_edge() {
    let mut game = Game::build();
    game.field.set(0, 0, Some(2));
    game.field.set(0, 1, Some(2));
    game.field.set(0, 2, Some(4));
    let changed = game.field.apply_move(&Direction::Left);
    assert!(changed);
    assert_eq!(game.field.get(0, 0), Some(4));
    assert_eq!(game.field.get(0, 1), Some(4));
    assert_eq!(game.field.get(0, 2), None);
    assert_eq!(game.field.get(0, 3), None);
}

#[test]
fn four_equal_tiles_merge_pairwise() {
    let mut game = Game::build();
    for c in 0..4 {
        game.field.set(0, c, Some(2));
    }
    game.shift(&Direction::Left);
    game.summarize(&Direction::Left);
    game.shift(&Direction::Left);
    assert_eq!(game.field.get(0, 0), Some(4));
    assert_eq!(game.field.get(0, 1), Some(4));
    assert_eq!(game.field.get(0, 2), None);
    assert_eq!(game.field.get(0, 3), None);
}

#[test]
fn moving_an_empty_board_changes_nothing() {
    for dir in [Direction::Up, Direction::Left, Direction::Down, Direction::Right] {
        let mut game = Game::build();
        let changed = game.field.apply_move(&dir);
        assert!(!changed);
        assert!(row_major(&game).iter().all(|c| c.is_none()));
    }
}

#[test]
fn single_tile_slides_to_the_far_edge() {
    let mut game = Game::build();
    game.field.set(0, 0, Some(2));
    let changed = game.field.apply_move(&Direction::Right);
    assert!(changed);
    assert_eq!(game.field.get(0, 3), Some(2));
    assert_eq!(tile_count(&game), 1);
}

#[test]
fn tiles_fall_and_merge_downward() {
    let mut game = Game::build();
    game.field.set(0, 1, Some(2));
    game.field.set(1, 2, Some(8));
    game.field.set(2, 2, Some(8));
    let changed = game.field.apply_move(&Direction::Down);
    assert!(changed);
    assert_eq!(game.field.get(3, 1), Some(2));
    assert_eq!(game.field.get(3, 2), Some(16));
    assert_eq!(tile_count(&game), 2);
}

#[test]
fn tiles_rise_upward() {
    let mut game = Game::build();
    game.field.set(3, 3, Some(32));
    let changed = game.field.apply_move(&Direction::Up);
    assert!(changed);
    assert_eq!(game.field.get(0, 3), Some(32));
    assert_eq!(tile_count(&game), 1);
}

#[test]
fn spawn_fills_exactly_one_empty_cell() {
    let mut game = Game::build();
    let r = game.spawn_number();
    assert_eq!(r, SpawnResult::Spawned);
    assert_eq!(tile_count(&game), 1);
    let v = row_major(&game).into_iter().flatten().next().unwrap();
    assert!(v == 2 || v == 4);
    assert_eq!(game.state, GameState::InGame);
}

#[test]
fn spawn_lands_in_the_only_free_cell() {
    // Fill all but one cell; the spawn may not touch an occupied one.
    let mut game = Game::build();
    let mut want = Vec::new();
    for r in 0..4 {
        for c in 0..4 {
            if (r, c) != (2, 1) {
                let v = 1u32 << (1 + 4 * r + c);
                game.field.set(r, c, Some(v));
                want.push(Some(v));
            } else {
                want.push(None);
            }
        }
    }
    let r = game.spawn_number();
    assert_eq!(r, SpawnResult::Spawned);
    let got = row_major(&game);
    for i in 0..16 {
        if want[i].is_some() {
            assert_eq!(got[i], want[i]);
        } else {
            let v = got[i].unwrap();
            assert!(v == 2 || v == 4);
        }
    }
    assert_eq!(game.state, GameState::InGame);
}

#[test]
fn spawn_on_a_full_board_loses() {
    let mut game = Game::build();
    for r in 0..4 {
        for c in 0..4 {
            game.field.set(r, c, Some(1u32 << (1 + 4 * r + c)));
        }
    }
    let before = row_major(&game);
    let r = game.spawn_number();
    assert_eq!(r, SpawnResult::GridFull);
    assert_eq!(game.state, GameState::Loose);
    assert_eq!(row_major(&game), before);
}

#[test]
fn merging_two_1024_tiles_wins_that_turn() {
    let mut game = Game::build();
    game.field.set(0, 0, Some(1024));
    game.field.set(1, 0, Some(1024));
    let msg = game.update(&"w\n".to_string());
    assert_eq!(msg, Some(Message::Win));
    assert_eq!(game.state, GameState::Win);
    assert_eq!(game.field.get(0, 0), Some(2048));
}

#[test]
fn rejected_input_changes_nothing() {
    let mut game = Game::build();
    game.field.set(3, 2, Some(8));
    let msg = game.update(&"x\n".to_string());
    assert_eq!(msg, Some(Message::IncorrectMove));
    assert_eq!(game.state, GameState::InGame);
    assert_eq!(tile_count(&game), 1);
    assert_eq!(game.field.get(3, 2), Some(8));
}

#[test]
fn a_no_op_move_still_spawns() {
    let mut game = Game::build();
    game.field.set(0, 0, Some(2));
    let msg = game.update(&"a\n".to_string());
    assert_eq!(msg, None);
    assert_eq!(game.state, GameState::InGame);
    assert_eq!(tile_count(&game), 2);
}

#[test]
fn an_immovable_full_board_loses_on_the_next_turn() {
    // A full checkerboard of 2s and 4s: no two adjacent tiles are
    // equal, so the move changes nothing, the spawn finds no room,
    // and the game is lost.
    let mut game = Game::build();
    for r in 0..4 {
        for c in 0..4 {
            game.field.set(r, c, Some(if (r + c) % 2 == 0 { 2 } else { 4 }));
        }
    }
    let before = row_major(&game);
    let msg = game.update(&"d\n".to_string());
    assert_eq!(msg, Some(Message::Loose));
    assert_eq!(game.state, GameState::Loose);
    assert_eq!(row_major(&game), before);
}

#[test]
fn update_keeps_running_on_an_ordinary_move() {
    let mut game = Game::build();
    game.field.set(1, 1, Some(2));
    game.field.set(1, 2, Some(2));
    let msg = game.update(&"a\r\n".to_string());
    assert_eq!(msg, None);
    assert_eq!(game.state, GameState::InGame);
    assert_eq!(game.field.get(1, 0), Some(4));
    assert_eq!(tile_count(&game), 2);
}
