//! The interactive maze: a state machine from the current state and a key press to the
//! next state and what to show.
//!
//! The player starts on the start cell and moves one cell per arrow key. Each straight run
//! is counted; when the heading changes, the run (minus two) and whether the turn was to
//! the right are written down, and the turn counter grows. Reaching the exit with at most
//! twelve turns wins and reveals what was written down.

use vstd::prelude::*;
use crate::grid::{grid_cell, grid_char, lemma_grid_shape};
use crate::maze::{Direction, SIZE_X, SIZE_Y};
use crate::path::{in_area, START_X, START_Y};
use crate::text::{decimal_text, push_char, push_decimal};

verus! {

/// Most turns a game may take before it is lost.
pub const MAX_TURNS: i32 = 12;

/// A key press, as the game sees it.
#[derive(PartialEq, Eq, Structural, Copy, Clone, Debug)]
pub enum Key {
    Up,
    Down,
    Left,
    Right,
    Esc,
    /// Any other key, or an event that is not a key.
    Other,
}

/// What a key press did to the player's position.
#[derive(PartialEq, Eq, Structural, Copy, Clone, Debug)]
pub enum Feedback {
    /// The key does not move the player.
    Nothing,
    /// The move would leave the grid ("Stop it").
    StopIt,
    /// The move runs into a wall.
    Wall,
    /// The player moved one cell.
    Moved,
}

/// Whether the game goes on after a key press.
#[derive(PartialEq, Eq, Structural, Copy, Clone, Debug)]
pub enum GameStatus {
    Playing,
    /// The player pressed Esc.
    Quit,
    /// More than `MAX_TURNS` turns were taken.
    Lost,
    /// The player reached the exit.
    Won,
}

/// The outcome of one key press.
#[derive(PartialEq, Eq, Structural, Copy, Clone, Debug)]
pub struct StepReport {
    pub feedback: Feedback,
    pub status: GameStatus,
}

/// The state of a game.
pub struct GameState {
    pub pos_x: i16,
    pub pos_y: i16,
    /// Number of heading changes so far.
    pub turn: i32,
    /// Length of the current straight run (as counted by the game).
    pub current_advance: i32,
    /// What has been written down so far.
    pub result: String,
    /// The heading label of the current run.
    pub current_direction: Direction,
}

/// The state of a game as mathematical values.
pub struct GameView {
    pub x: int,
    pub y: int,
    pub turn: int,
    pub advance: int,
    pub record: Seq<char>,
    pub dir: Direction,
}

impl View for GameState {
    type V = GameView;

    open spec fn view(&self) -> GameView {
        GameView {
            x: self.pos_x as int,
            y: self.pos_y as int,
            turn: self.turn as int,
            advance: self.current_advance as int,
            record: self.result@,
            dir: self.current_direction,
        }
    }
}

/// The state a game starts in: on the start cell, heading north, nothing written down.
pub open spec fn initial_view() -> GameView {
    GameView {
        x: START_X as int,
        y: START_Y as int,
        turn: 0,
        advance: 0,
        record: Seq::empty(),
        dir: Direction::NORTH,
    }
}

/// A state that a game in progress can be in: on a cell of the grid that is not a wall,
/// with at most `MAX_TURNS` turns, and a run length that the distance to the grid's edge
/// in the run's heading bounds.
pub open spec fn playable(s: GameView) -> bool {
    &&& 0 <= s.x <= SIZE_X
    &&& 0 <= s.y <= SIZE_Y
    &&& grid_char(s.x, s.y) != '1'
    &&& 0 <= s.turn <= MAX_TURNS
    &&& 0 <= s.advance
    &&& match s.dir {
        Direction::NORTH => s.advance + s.y <= SIZE_Y + 1,
        Direction::SOUTH => s.advance <= s.y + 1,
        Direction::WEST => s.advance <= s.x + 1,
        Direction::EAST => s.advance + s.x <= SIZE_X + 1,
    }
}

/// The heading label a run gets when it starts with `key`.
pub open spec fn key_heading(key: Key) -> Direction {
    match key {
        Key::Up => Direction::NORTH,
        Key::Down => Direction::SOUTH,
        Key::Right => Direction::WEST,
        _ => Direction::EAST,
    }
}

/// The heading whose run, when left with `key`, is written down as a right turn (`'1'`).
pub open spec fn right_turn_from(key: Key) -> Direction {
    match key {
        Key::Up => Direction::WEST,
        Key::Down => Direction::EAST,
        Key::Right => Direction::SOUTH,
        _ => Direction::NORTH,
    }
}

/// Column change for an arrow key.
pub open spec fn key_dx(key: Key) -> int {
    match key {
        Key::Right => 1,
        Key::Left => -1,
        _ => 0,
    }
}

/// Row change for an arrow key.
pub open spec fn key_dy(key: Key) -> int {
    match key {
        Key::Up => -1,
        Key::Down => 1,
        _ => 0,
    }
}

/// The key is an arrow key.
pub open spec fn is_arrow(key: Key) -> bool {
    key == Key::Up || key == Key::Down || key == Key::Left || key == Key::Right
}

/// The target of an arrow key is past the limit that the game checks for that key
/// (below row 0, past row `SIZE_X`, left of column 0, right of column `SIZE_X`).
pub open spec fn past_limit(key: Key, nx: int, ny: int) -> bool {
    match key {
        Key::Up => ny < 0,
        Key::Down => ny > SIZE_X,
        Key::Right => nx > SIZE_X,
        _ => nx < 0,
    }
}

/// The state and feedback after the position part of a key press.
pub open spec fn after_move(s: GameView, key: Key) -> (GameView, Feedback) {
    if !is_arrow(key) {
        (s, Feedback::Nothing)
    } else {
        let nx = s.x + key_dx(key);
        let ny = s.y + key_dy(key);
        if past_limit(key, nx, ny) {
            (s, Feedback::StopIt)
        } else if grid_char(nx, ny) == '1' {
            (s, Feedback::Wall)
        } else if s.dir == key_heading(key) {
            (GameView { x: nx, y: ny, advance: s.advance + 1, ..s }, Feedback::Moved)
        } else {
            let written = s.advance - 2;
            let flag = if s.dir == right_turn_from(key) {
                '1'
            } else {
                '0'
            };
            (
                GameView {
                    x: nx,
                    y: ny,
                    turn: s.turn + 1,
                    advance: 1,
                    record: s.record + decimal_text(written) + seq![',', flag, ','],
                    dir: key_heading(key),
                },
                Feedback::Moved,
            )
        }
    }
}

/// The state and report after a whole key press: the move, then Esc quits; more than
/// `MAX_TURNS` turns loses; standing on the exit wins, writing down the last run minus one.
pub open spec fn game_step_spec(s: GameView, key: Key) -> (GameView, StepReport) {
    let (m, feedback) = after_move(s, key);
    if key == Key::Esc {
        (m, StepReport { feedback, status: GameStatus::Quit })
    } else if m.turn > MAX_TURNS {
        (m, StepReport { feedback, status: GameStatus::Lost })
    } else if in_area(m.x, m.y) && grid_char(m.x, m.y) == 'E' {
        let last = m.advance - 1;
        (
            GameView { advance: last, record: m.record + decimal_text(last) + seq![','], ..m },
            StepReport { feedback, status: GameStatus::Won },
        )
    } else {
        (m, StepReport { feedback, status: GameStatus::Playing })
    }
}

/// What a won game reveals: the record without its first three characters.
pub open spec fn revealed(record: Seq<char>) -> Seq<char> {
    if record.len() >= 3 {
        record.skip(3)
    } else {
        Seq::empty()
    }
}

impl GameState {
    /// A new game, on the start cell.
    pub fn new() -> (g: GameState)
        ensures
            g@ == initial_view(),
            playable(g@),
    {
        proof {
            lemma_grid_shape();
        }
        GameState {
            pos_x: START_X,
            pos_y: START_Y,
            turn: 0,
            current_advance: 0,
            result: String::new(),
            current_direction: Direction::NORTH,
        }
    }

    /// Writes down the end of a run: `written`, a comma, the turn flag, a comma.
    fn record_turn(&mut self, written: i32, right_turn: bool)
        ensures
            final(self)@ == (GameView {
                record: old(self)@.record + decimal_text(written as int) + seq![
                    ',',
                    if right_turn { '1' } else { '0' },
                    ',',
                ],
                ..old(self)@
            }),
    {
        push_decimal(&mut self.result, written);
        push_char(&mut self.result, ',');
        push_char(&mut self.result, if right_turn { '1' } else { '0' });
        push_char(&mut self.result, ',');
        assert(self.result@ =~= old(self)@.record + decimal_text(written as int) + seq![
            ',',
            if right_turn { '1' } else { '0' },
            ',',
        ]);
    }

    /// Moves onto `(nx, ny)` with `key`: extends the run, or ends it and starts a new one.
    fn advance_to(&mut self, nx: i16, ny: i16, key: Key)
        requires
            is_arrow(key),
            playable(old(self)@),
            nx == old(self)@.x + key_dx(key),
            ny == old(self)@.y + key_dy(key),
            !past_limit(key, nx as int, ny as int),
            0 <= nx <= SIZE_X,
            0 <= ny <= SIZE_Y,
            grid_char(nx as int, ny as int) != '1',
        ensures
            (final(self)@, Feedback::Moved) == after_move(old(self)@, key),
    {
        let heading = match key {
            Key::Up => Direction::NORTH,
            Key::Down => Direction::SOUTH,
            Key::Right => Direction::WEST,
            _ => Direction::EAST,
        };
        let right_from = match key {
            Key::Up => Direction::WEST,
            Key::Down => Direction::EAST,
            Key::Right => Direction::SOUTH,
            _ => Direction::NORTH,
        };
        self.pos_x = nx;
        self.pos_y = ny;
        if self.current_direction == heading {
            self.current_advance += 1;
        } else {
            self.turn += 1;
            self.current_advance -= 2;
            let written = self.current_advance;
            self.record_turn(written, self.current_direction == right_from);
            self.current_advance = 1;
            self.current_direction = heading;
        }
    }

    /// Handles one key press: moves the player if the key is an arrow and the target cell
    /// is inside the limits and not a wall, then decides whether the game goes on.
    pub fn game_step(&mut self, key: Key) -> (r: StepReport)
        requires
            playable(old(self)@),
        ensures
            (final(self)@, r) == game_step_spec(old(self)@, key),
            r.status == GameStatus::Playing ==> playable(final(self)@),
    {
        proof {
            lemma_grid_shape();
        }
        let feedback = if key == Key::Up || key == Key::Down || key == Key::Left || key == Key::Right {
            let (nx, ny): (i16, i16) = match key {
                Key::Up => (self.pos_x, self.pos_y - 1),
                Key::Down => (self.pos_x, self.pos_y + 1),
                Key::Right => (self.pos_x + 1, self.pos_y),
                _ => (self.pos_x - 1, self.pos_y),
            };
            let beyond = match key {
                Key::Up => ny < 0,
                Key::Down => ny > SIZE_X as i16,
                Key::Right => nx > SIZE_X as i16,
                _ => nx < 0,
            };
            if beyond {
                Feedback::StopIt
            } else {
                proof {
                    assert(grid_char(self.pos_x as int, 30) == '1');
                }
                if grid_cell(nx as usize, ny as usize) == '1' {
                    Feedback::Wall
                } else {
                    self.advance_to(nx, ny, key);
                    Feedback::Moved
                }
            }
        } else {
            Feedback::Nothing
        };
        if key == Key::Esc {
            return StepReport { feedback, status: GameStatus::Quit };
        }
        if self.turn > MAX_TURNS {
            return StepReport { feedback, status: GameStatus::Lost };
        }
        if self.pos_y >= 0 && self.pos_y <= SIZE_Y as i16 && self.pos_x >= 0 && self.pos_x <= SIZE_X as i16 {
            if grid_cell(self.pos_x as usize, self.pos_y as usize) == 'E' {
                self.current_advance -= 1;
                push_decimal(&mut self.result, self.current_advance);
                let ghost before = self.result@;
                push_char(&mut self.result, ',');
                assert(self.result@ =~= before + seq![',']);
                return StepReport { feedback, status: GameStatus::Won };
            }
        }
        StepReport { feedback, status: GameStatus::Playing }
    }

    /// What a won game reveals: what was written down, without its first three characters.
    pub fn revealed_text(&self) -> (t: String)
        ensures
            t@ == revealed(self.result@),
    {
        let s = self.result.as_str();
        let n = s.unicode_len();
        if n >= 3 {
            s.substring_char(3, n).to_string()
        } else {
            String::new()
        }
    }
}

/// Over one key press: the turn counter never falls and grows by at most one; the player
/// moves one cell at most, and only when the feedback says so; what was written down is
/// only ever extended; Esc and nothing else quits; a loss comes with the thirteenth turn;
/// a win means standing on the exit.
pub proof fn lemma_game_step_laws(s: GameView, key: Key)
    requires
        playable(s),
    ensures
        ({
            let (t, r) = game_step_spec(s, key);
            &&& s.turn <= t.turn <= s.turn + 1
            &&& (if t.x >= s.x { t.x - s.x } else { s.x - t.x }) + (if t.y >= s.y { t.y - s.y } else { s.y - t.y }) <= 1
            &&& r.feedback != Feedback::Moved ==> t.x == s.x && t.y == s.y
            &&& s.record.len() <= t.record.len()
            &&& t.record.subrange(0, s.record.len() as int) == s.record
            &&& (r.status == GameStatus::Quit <==> key == Key::Esc)
            &&& r.status == GameStatus::Lost ==> t.turn == MAX_TURNS + 1
            &&& r.status == GameStatus::Won ==> grid_char(t.x, t.y) == 'E'
        }),
{
    let (m, f) = after_move(s, key);
    let (t, r) = game_step_spec(s, key);
    assert(m.record.subrange(0, s.record.len() as int) =~= s.record);
    assert(t.record.subrange(0, s.record.len() as int) =~= s.record);
}

/// A new game can be played: the start cell is open.
pub proof fn lemma_initial_playable()
    ensures
        playable(initial_view()),
{
    lemma_grid_shape();
}

/// A move that changes heading writes down the run it ends: the run length less two,
/// a comma, a flag, and a comma. The flag is `'1'` exactly when the run ended is the one
/// labelled West and the key is Up, labelled East and the key is Down, labelled South and
/// the key is Right, or labelled North and the key is Left; otherwise `'0'`. The new run is
/// labelled North for Up, South for Down, West for Right and East for Left, and the turn
/// count grows by one. A move in the current run's heading writes nothing and lengthens
/// the run by one.
pub proof fn lemma_turn_record(s: GameView, key: Key)
    requires
        key == Key::Up || key == Key::Down || key == Key::Left || key == Key::Right,
    ensures
        ({
            let (t, r) = game_step_spec(s, key);
            let heading = match key {
                Key::Up => Direction::NORTH,
                Key::Down => Direction::SOUTH,
                Key::Right => Direction::WEST,
                _ => Direction::EAST,
            };
            let flag = if (key == Key::Up && s.dir == Direction::WEST) || (key == Key::Down && s.dir == Direction::EAST)
                || (key == Key::Right && s.dir == Direction::SOUTH) || (key == Key::Left && s.dir == Direction::NORTH) {
                '1'
            } else {
                '0'
            };
            let written = decimal_text(s.advance - 2) + seq![',', flag, ','];
            &&& r.feedback == Feedback::Moved && s.dir != heading ==> {
                &&& t.dir == heading
                &&& t.turn == s.turn + 1
                &&& t.record.len() >= s.record.len() + written.len()
                &&& t.record.subrange(0, (s.record.len() + written.len()) as int) == s.record + written
            }
            &&& r.feedback == Feedback::Moved && s.dir == heading ==> {
                &&& t.dir == heading
                &&& t.turn == s.turn
                &&& t.record.subrange(0, s.record.len() as int) == s.record
                &&& r.status != GameStatus::Won ==> t.record == s.record && t.advance == s.advance + 1
            }
        }),
{
    let (m, f) = after_move(s, key);
    let (t, r) = game_step_spec(s, key);
    assert(t.record.subrange(0, m.record.len() as int) =~= m.record);
    assert(m.record.subrange(0, s.record.len() as int) =~= s.record);
    assert(t.record.subrange(0, s.record.len() as int) =~= s.record);
}

} // verus!
