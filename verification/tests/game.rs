use maze_hash::game::{Feedback, GameState, GameStatus, Key, StepReport};
use maze_hash::grid::{grid_cell, GRID_HEIGHT, GRID_WIDTH};
use maze_hash::maze::Direction;

fn solution() -> Vec<(Key, usize)> {
    vec![
        (Key::Left, 17),
        (Key::Down, 10),
        (Key::Right, 3),
        (Key::Down, 11),
        (Key::Left, 16),
        (Key::Up, 9),
        (Key::Left, 10),
        (Key::Down, 3),
        (Key::Left, 4),
        (Key::Up, 12),
        (Key::Left, 13),
        (Key::Up, 4),
    ]
}

#[test]
fn grid_landmarks() {
    assert_eq!(GRID_WIDTH, 101);
    assert_eq!(GRID_HEIGHT, 31);
    assert_eq!(grid_cell(100, 1), 'S');
    assert_eq!(grid_cell(43, 0), 'E');
    assert_eq!(grid_cell(0, 0), '1');
    assert_eq!(grid_cell(99, 1), '0');
    for x in 0..GRID_WIDTH {
        assert_eq!(grid_cell(x, 30), '1');
    }
}

#[test]
fn new_game_starts_on_the_start_cell() {
    let g = GameState::new();
    assert_eq!((g.pos_x, g.pos_y, g.turn, g.current_advance), (100, 1, 0, 0));
    assert_eq!(g.current_direction, Direction::NORTH);
    assert_eq!(g.result, "");
}

#[test]
fn blocked_moves_do_not_move() {
    let mut g = GameState::new();
    assert_eq!(g.game_step(Key::Up), StepReport { feedback: Feedback::Wall, status: GameStatus::Playing });
    assert_eq!(g.game_step(Key::Right), StepReport { feedback: Feedback::StopIt, status: GameStatus::Playing });
    assert_eq!(g.game_step(Key::Other), StepReport { feedback: Feedback::Nothing, status: GameStatus::Playing });
    assert_eq!((g.pos_x, g.pos_y, g.turn), (100, 1, 0));
}

#[test]
fn first_move_writes_a_turn() {
    let mut g = GameState::new();
    assert_eq!(g.game_step(Key::Left), StepReport { feedback: Feedback::Moved, status: GameStatus::Playing });
    assert_eq!((g.pos_x, g.pos_y, g.turn, g.current_advance), (99, 1, 1, 1));
    assert_eq!(g.current_direction, Direction::EAST);
    assert_eq!(g.result, "-2,1,");
    g.game_step(Key::Left);
    assert_eq!((g.pos_x, g.current_advance, g.turn), (98, 2, 1));
}

#[test]
fn escape_quits() {
    let mut g = GameState::new();
    assert_eq!(g.game_step(Key::Esc), StepReport { feedback: Feedback::Nothing, status: GameStatus::Quit });
}

#[test]
fn solving_the_maze_wins_and_reveals_the_record() {
    let mut g = GameState::new();
    let mut last = StepReport { feedback: Feedback::Nothing, status: GameStatus::Playing };
    for (key, n) in solution() {
        for _ in 0..n {
            assert_eq!(last.status, GameStatus::Playing);
            last = g.game_step(key);
        }
    }
    assert_eq!(last, StepReport { feedback: Feedback::Moved, status: GameStatus::Won });
    assert_eq!((g.pos_x, g.pos_y, g.turn, g.current_advance), (43, 0, 12, 3));
    assert_eq!(g.result, "-2,1,15,1,8,1,1,0,9,0,14,0,7,1,8,1,1,0,2,0,10,1,11,0,3,");
    assert_eq!(g.revealed_text(), "1,15,1,8,1,1,0,9,0,14,0,7,1,8,1,1,0,2,0,10,1,11,0,3,");
}

#[test]
fn too_many_turns_lose() {
    let mut g = GameState::new();
    // Left then right repeatedly: every move changes the heading.
    let mut status = GameStatus::Playing;
    let mut moves = 0;
    while status == GameStatus::Playing {
        let key = if moves % 2 == 0 { Key::Left } else { Key::Right };
        status = g.game_step(key).status;
        moves += 1;
    }
    assert_eq!(status, GameStatus::Lost);
    assert_eq!(g.turn, 13);
    assert_eq!(moves, 13);
}

#[test]
fn revealed_text_of_a_short_record_is_empty() {
    let g = GameState::new();
    assert_eq!(g.revealed_text(), "");
}
