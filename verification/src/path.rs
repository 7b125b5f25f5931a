//! Following a sequence of segments across the grid, cell by cell, from the start cell.

use vstd::prelude::*;
use crate::grid::{grid_cell, grid_char};
use crate::maze::{Direction, Rotation, Segment, segment_at, turn, turn_direction, heading_after, travelled, SIZE_X, SIZE_Y};

verus! {

/// Column of the start cell.
pub const START_X: i16 = 100;

/// Row of the start cell.
pub const START_Y: i16 = 1;

/// Why a walk stopped before its last segment.
#[derive(PartialEq, Eq, Structural, Copy, Clone, Debug)]
pub enum PathStop {
    /// The walk reached the exit cell.
    Exit,
    /// The walk ran into a wall.
    Wall,
    /// The walk left the grid.
    Void,
}

/// What a walk visited, and why it stopped (`None` when it went through every segment).
pub struct PathTrace {
    pub cells: Vec<(i16, i16)>,
    pub stop: Option<PathStop>,
}

/// Column change of one step in direction `d`.
pub open spec fn delta_x(d: Direction) -> int {
    match d {
        Direction::EAST => 1,
        Direction::WEST => -1,
        _ => 0,
    }
}

/// Row change of one step in direction `d`.
pub open spec fn delta_y(d: Direction) -> int {
    match d {
        Direction::NORTH => -1,
        Direction::SOUTH => 1,
        _ => 0,
    }
}

/// The cell lies in the drawing area.
pub open spec fn in_area(x: int, y: int) -> bool {
    0 <= y <= SIZE_Y && 0 <= x <= SIZE_X
}

/// What stepping onto cell `(x, y)` stops the walk for, if anything.
pub open spec fn stop_at(x: int, y: int) -> Option<PathStop> {
    if in_area(x, y) {
        if grid_char(x, y) == 'E' {
            Some(PathStop::Exit)
        } else if grid_char(x, y) == '1' {
            Some(PathStop::Wall)
        } else {
            None
        }
    } else {
        Some(PathStop::Void)
    }
}

/// The cells visited and the stop reason, walking segments `i..n` of `data` from cell
/// `(x, y)` with `j` cells of segment `i` already walked, facing `dir` at the start of
/// segment `i`. Each cell of a segment is a step in the turned heading; an empty segment
/// does not turn.
pub open spec fn walk(data: Seq<Segment>, n: nat, i: nat, j: nat, x: int, y: int, dir: Direction) -> (Seq<(int, int)>, Option<PathStop>)
    decreases n - i, segment_at(data, i as int).1 - j,
{
    if i >= n {
        (Seq::empty(), None)
    } else {
        let seg = segment_at(data, i as int);
        if j >= seg.1 {
            let next_dir = if seg.1 > 0 {
                turn(dir, seg.0)
            } else {
                dir
            };
            walk(data, n, i + 1, 0, x, y, next_dir)
        } else {
            let d = turn(dir, seg.0);
            let nx = x + delta_x(d);
            let ny = y + delta_y(d);
            match stop_at(nx, ny) {
                Some(s) => (seq![(nx, ny)], Some(s)),
                None => {
                    let rest = walk(data, n, i, j + 1, nx, ny, dir);
                    (seq![(nx, ny)] + rest.0, rest.1)
                },
            }
        }
    }
}

/// The cells of a trace as pairs of integers.
pub open spec fn cells_view(cells: Seq<(i16, i16)>) -> Seq<(int, int)> {
    cells.map_values(|p: (i16, i16)| (p.0 as int, p.1 as int))
}

/// Whether stepping onto `(x, y)` stops the walk; `x` and `y` lie one step at most outside
/// the drawing area.
fn stop_for(x: i16, y: i16) -> (s: Option<PathStop>)
    requires
        -1 <= x <= SIZE_X + 1,
        -1 <= y <= SIZE_Y + 1,
    ensures
        s == stop_at(x as int, y as int),
{
    if y >= 0 && y <= SIZE_Y as i16 && x >= 0 && x <= SIZE_X as i16 {
        let c = grid_cell(x as usize, y as usize);
        if c == 'E' {
            Some(PathStop::Exit)
        } else if c == '1' {
            Some(PathStop::Wall)
        } else {
            None
        }
    } else {
        Some(PathStop::Void)
    }
}

/// Walks the first `number_step` segments of `data` from the start cell, facing north,
/// one cell at a time; stops on the exit, on a wall, or outside the drawing area.
pub fn trace_path(number_step: usize, data: &Vec<Segment>) -> (t: PathTrace)
    ensures
        (cells_view(t.cells@), t.stop) == walk(data@, number_step as nat, 0, 0, START_X as int, START_Y as int, Direction::NORTH),
{
    let ghost total = walk(data@, number_step as nat, 0, 0, START_X as int, START_Y as int, Direction::NORTH);
    let mut cells: Vec<(i16, i16)> = Vec::new();
    let mut x: i16 = START_X;
    let mut y: i16 = START_Y;
    let mut current_direction = Direction::NORTH;
    let mut i: usize = 0;
    while i < number_step
        invariant
            i <= number_step,
            in_area(x as int, y as int),
            total == walk(data@, number_step as nat, 0, 0, START_X as int, START_Y as int, Direction::NORTH),
            total == (cells_view(cells@) + walk(data@, number_step as nat, i as nat, 0, x as int, y as int, current_direction).0,
                walk(data@, number_step as nat, i as nat, 0, x as int, y as int, current_direction).1),
        decreases number_step - i,
    {
        let (rotation, length): (Rotation, u16) = if i < data.len() {
            data[i]
        } else {
            (Rotation::LEFT, 0)
        };
        let next_direction = turn_direction(current_direction, rotation);
        let mut j: u16 = 0;
        while j < length
            invariant
                i < number_step,
                j <= length,
                (rotation, length) == segment_at(data@, i as int),
                next_direction == turn(current_direction, rotation),
                in_area(x as int, y as int),
                total == walk(data@, number_step as nat, 0, 0, START_X as int, START_Y as int, Direction::NORTH),
                total == (cells_view(cells@) + walk(data@, number_step as nat, i as nat, j as nat, x as int, y as int, current_direction).0,
                    walk(data@, number_step as nat, i as nat, j as nat, x as int, y as int, current_direction).1),
            decreases length - j,
        {
            let (nx, ny): (i16, i16) = match next_direction {
                Direction::NORTH => (x, y - 1),
                Direction::SOUTH => (x, y + 1),
                Direction::EAST => (x + 1, y),
                Direction::WEST => (x - 1, y),
            };
            let stop = stop_for(nx, ny);
            let ghost before = cells@;
            cells.push((nx, ny));
            assert(cells_view(cells@) =~= cells_view(before) + seq![(nx as int, ny as int)]);
            match stop {
                Some(s) => {
                    assert(walk(data@, number_step as nat, i as nat, j as nat, x as int, y as int, current_direction)
                        == (seq![(nx as int, ny as int)], Some(s)));
                    assert(total.0 =~= cells_view(cells@));
                    return PathTrace { cells, stop: Some(s) };
                },
                None => {},
            }
            x = nx;
            y = ny;
            j = j + 1;
        }
        if length > 0 {
            current_direction = next_direction;
        }
        i = i + 1;
    }
    PathTrace { cells, stop: None }
}

/// Two cells share a side.
pub open spec fn adjacent(a: (int, int), b: (int, int)) -> bool {
    (if a.0 >= b.0 { a.0 - b.0 } else { b.0 - a.0 }) + (if a.1 >= b.1 { a.1 - b.1 } else { b.1 - a.1 }) == 1
}

/// A walk moves one cell at a time, passes only over open cells, and when it stops, it
/// stops on the cell that stopped it.
pub proof fn lemma_walk_shape(data: Seq<Segment>, n: nat, i: nat, j: nat, x: int, y: int, dir: Direction)
    ensures
        ({
            let (cells, stop) = walk(data, n, i, j, x, y, dir);
            &&& forall|k: int| 0 <= k < cells.len() && (k < cells.len() - 1 || stop is None)
                ==> stop_at((#[trigger] cells[k]).0, cells[k].1) is None
            &&& stop is Some ==> cells.len() > 0 && stop_at(cells.last().0, cells.last().1) == stop
            &&& forall|k: int| 0 < k < cells.len() ==> adjacent(cells[k - 1], #[trigger] cells[k])
            &&& cells.len() > 0 ==> adjacent((x, y), cells[0])
        }),
    decreases n - i, segment_at(data, i as int).1 - j,
{
    if i < n {
        let seg = segment_at(data, i as int);
        if j >= seg.1 {
            let next_dir = if seg.1 > 0 {
                turn(dir, seg.0)
            } else {
                dir
            };
            lemma_walk_shape(data, n, i + 1, 0, x, y, next_dir);
        } else {
            let d = turn(dir, seg.0);
            let nx = x + delta_x(d);
            let ny = y + delta_y(d);
            if stop_at(nx, ny) is None {
                lemma_walk_shape(data, n, i, j + 1, nx, ny, dir);
                let rest = walk(data, n, i, j + 1, nx, ny, dir);
                let cells = seq![(nx, ny)] + rest.0;
                assert forall|k: int| 0 < k < cells.len() implies adjacent(cells[k - 1], #[trigger] cells[k]) by {
                    if k == 1 {
                        assert(cells[0] == (nx, ny));
                    } else {
                        assert(cells[k - 1] == rest.0[k - 2]);
                    }
                }
                assert forall|k: int| 0 <= k < cells.len() && (k < cells.len() - 1 || rest.1 is None)
                    implies stop_at((#[trigger] cells[k]).0, cells[k].1) is None by {
                    if k > 0 {
                        assert(cells[k] == rest.0[k - 1]);
                    }
                }
            }
        }
    }
}

/// A trace moves one cell at a time from the start cell, passes only over open cells of
/// the drawing area, and when it stops, it stops on the cell that stopped it.
pub proof fn lemma_trace_shape(data: Seq<Segment>, n: nat)
    ensures
        ({
            let (cells, stop) = walk(data, n, 0, 0, START_X as int, START_Y as int, Direction::NORTH);
            &&& forall|k: int| 0 <= k < cells.len() && (k < cells.len() - 1 || stop is None)
                ==> stop_at((#[trigger] cells[k]).0, cells[k].1) is None
            &&& stop is Some ==> cells.len() > 0 && stop_at(cells.last().0, cells.last().1) == stop
            &&& forall|k: int| 0 < k < cells.len() ==> adjacent(cells[k - 1], #[trigger] cells[k])
            &&& cells.len() > 0 ==> adjacent((START_X as int, START_Y as int), cells[0])
        }),
{
    lemma_walk_shape(data, n, 0, 0, START_X as int, START_Y as int, Direction::NORTH);
}

/// Net columns moved east over the first `n` segments, by the maze extents.
pub open spec fn shift_x(data: Seq<Segment>, n: nat) -> int {
    travelled(data, n, Direction::EAST) - travelled(data, n, Direction::WEST)
}

/// Net rows moved south over the first `n` segments, by the maze extents.
pub open spec fn shift_y(data: Seq<Segment>, n: nat) -> int {
    travelled(data, n, Direction::SOUTH) - travelled(data, n, Direction::NORTH)
}

/// Where a walk ends: its last cell, or where it started when it visits none.
pub open spec fn end_of(cells: Seq<(int, int)>, x: int, y: int) -> (int, int) {
    if cells.len() > 0 {
        cells.last()
    } else {
        (x, y)
    }
}

/// The steps already taken in segment `i`, as a column and a row offset.
pub open spec fn taken(data: Seq<Segment>, n: nat, i: nat, j: nat) -> (int, int) {
    if i < n {
        let d = heading_after(data, i + 1);
        (j * delta_x(d), j * delta_y(d))
    } else {
        (0, 0)
    }
}

/// One more segment moves the extents' net shift by its length in its heading.
proof fn lemma_shift_step(data: Seq<Segment>, k: nat)
    ensures
        shift_x(data, k + 1) == shift_x(data, k) + segment_at(data, k as int).1 * delta_x(heading_after(data, k + 1)),
        shift_y(data, k + 1) == shift_y(data, k) + segment_at(data, k as int).1 * delta_y(heading_after(data, k + 1)),
{
    let len = segment_at(data, k as int).1 as int;
    assert(len * 1 == len && len * -1 == -len && len * 0 == 0) by (nonlinear_arith);
}

/// A walk that goes through all its segments, each non-empty, ends at its start plus the
/// net shift that the maze extents give for the segments left.
proof fn lemma_walk_end(data: Seq<Segment>, n: nat, i: nat, j: nat, x: int, y: int)
    requires
        i <= n,
        i < n ==> j <= segment_at(data, i as int).1,
        forall|k: int| i <= k < n ==> (#[trigger] segment_at(data, k)).1 > 0,
        walk(data, n, i, j, x, y, heading_after(data, i)).1 is None,
    ensures
        end_of(walk(data, n, i, j, x, y, heading_after(data, i)).0, x, y) == (
            x + shift_x(data, n) - shift_x(data, i) - taken(data, n, i, j).0,
            y + shift_y(data, n) - shift_y(data, i) - taken(data, n, i, j).1,
        ),
    decreases n - i, segment_at(data, i as int).1 - j,
{
    let dir = heading_after(data, i);
    if i < n {
        let seg = segment_at(data, i as int);
        let d = heading_after(data, i + 1);
        assert(d == turn(dir, seg.0));
        lemma_shift_step(data, i);
        if j >= seg.1 {
            lemma_walk_end(data, n, i + 1, 0, x, y);
            assert(taken(data, n, i + 1, 0) == (0int, 0int)) by {
                if i + 1 < n {
                    assert(0 * delta_x(heading_after(data, i + 2)) == 0);
                    assert(0 * delta_y(heading_after(data, i + 2)) == 0);
                }
            }
        } else {
            let nx = x + delta_x(d);
            let ny = y + delta_y(d);
            lemma_walk_end(data, n, i, j + 1, nx, ny);
            let rest = walk(data, n, i, j + 1, nx, ny, dir);
            let cells = seq![(nx, ny)] + rest.0;
            assert(end_of(cells, x, y) == end_of(rest.0, nx, ny));
            assert((j + 1) * delta_x(d) == j * delta_x(d) + delta_x(d)) by (nonlinear_arith);
            assert((j + 1) * delta_y(d) == j * delta_y(d) + delta_y(d)) by (nonlinear_arith);
        }
    }
}

/// A walk that goes through all its segments, each non-empty, ends where the maze extents
/// put it: right minus left columns and down minus up rows from the start cell.
pub proof fn lemma_completed_walk_end(data: Seq<Segment>, n: nat)
    requires
        forall|k: int| 0 <= k < n ==> (#[trigger] segment_at(data, k)).1 > 0,
        walk(data, n, 0, 0, START_X as int, START_Y as int, Direction::NORTH).1 is None,
    ensures
        end_of(walk(data, n, 0, 0, START_X as int, START_Y as int, Direction::NORTH).0, START_X as int, START_Y as int) == (
            START_X + travelled(data, n, Direction::EAST) - travelled(data, n, Direction::WEST),
            START_Y + travelled(data, n, Direction::SOUTH) - travelled(data, n, Direction::NORTH),
        ),
{
    assert(heading_after(data, 0) == Direction::NORTH);
    lemma_walk_end(data, n, 0, 0, START_X as int, START_Y as int);
    assert(shift_x(data, 0) == 0 && shift_y(data, 0) == 0);
    if 0 < n {
        assert(0 * delta_x(heading_after(data, 1)) == 0);
        assert(0 * delta_y(heading_after(data, 1)) == 0);
    }
}

/// Stepping onto a cell stops a walk for what the grid holds there: inside columns
/// `0..=100` and rows `0..=30` (the bottom row included), at the exit on `'E'`, at a wall
/// on `'1'`, and not at all on any other character; outside them, in the void.
pub proof fn lemma_stop_by_grid(x: int, y: int)
    ensures
        0 <= x <= 100 && 0 <= y <= 30 && grid_char(x, y) == '1' ==> stop_at(x, y) == Some(PathStop::Wall),
        0 <= x <= 100 && 0 <= y <= 30 && grid_char(x, y) == 'E' ==> stop_at(x, y) == Some(PathStop::Exit),
        0 <= x <= 100 && 0 <= y <= 30 && grid_char(x, y) != '1' && grid_char(x, y) != 'E' ==> stop_at(x, y) is None,
        stop_at(x, y) == Some(PathStop::Void) <==> !(0 <= x <= 100 && 0 <= y <= 30),
{
}

/// Why a trace stops, read off its last cell: in the void exactly when that cell lies
/// outside columns `0..=100` and rows `0..=30`; at a wall exactly when it lies inside and
/// the grid holds `'1'` there; at the exit exactly when it lies inside on `'E'`. Every cell
/// walked before it lies inside, on neither a wall nor the exit.
pub proof fn lemma_trace_stop_reason(data: Seq<Segment>, n: nat)
    ensures
        ({
            let (cells, stop) = walk(data, n, 0, 0, START_X as int, START_Y as int, Direction::NORTH);
            &&& stop is Some ==> cells.len() > 0 && {
                let x = cells.last().0;
                let y = cells.last().1;
                &&& (stop == Some(PathStop::Void) <==> !(0 <= x <= 100 && 0 <= y <= 30))
                &&& (stop == Some(PathStop::Wall) <==> (0 <= x <= 100 && 0 <= y <= 30 && grid_char(x, y) == '1'))
                &&& (stop == Some(PathStop::Exit) <==> (0 <= x <= 100 && 0 <= y <= 30 && grid_char(x, y) == 'E'))
            }
            &&& forall|k: int| 0 <= k < cells.len() && (k < cells.len() - 1 || stop is None) ==> {
                let x = (#[trigger] cells[k]).0;
                let y = cells[k].1;
                &&& 0 <= x <= 100
                &&& 0 <= y <= 30
                &&& grid_char(x, y) != '1'
                &&& grid_char(x, y) != 'E'
            }
        }),
{
    lemma_trace_shape(data, n);
    let (cells, stop) = walk(data, n, 0, 0, START_X as int, START_Y as int, Direction::NORTH);
    assert forall|k: int| 0 <= k < cells.len() && (k < cells.len() - 1 || stop is None) implies {
        let x = (#[trigger] cells[k]).0;
        let y = cells[k].1;
        &&& 0 <= x <= 100
        &&& 0 <= y <= 30
        &&& grid_char(x, y) != '1'
        &&& grid_char(x, y) != 'E'
    } by {
        lemma_stop_by_grid(cells[k].0, cells[k].1);
    }
    if stop is Some {
        lemma_stop_by_grid(cells.last().0, cells.last().1);
    }
}

} // verus!
