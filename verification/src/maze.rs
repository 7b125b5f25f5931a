//! Headings, turns, and the extent of a maze drawn from a sequence of turns.

use vstd::prelude::*;

verus! {

/// Which way to turn at the start of a segment.
#[derive(PartialEq, Eq, Structural, Copy, Clone, Debug)]
pub enum Rotation {
    LEFT,
    RIGHT,
}

/// A compass heading.
#[derive(PartialEq, Eq, Structural, Copy, Clone, Debug)]
pub enum Direction {
    NORTH,
    SOUTH,
    EAST,
    WEST,
}

/// One segment of a maze path: a turn, then a number of cells.
pub type Segment = (Rotation, u16);

/// The heading after turning `r` from heading `d`.
pub open spec fn turn(d: Direction, r: Rotation) -> Direction {
    match r {
        Rotation::RIGHT => match d {
            Direction::NORTH => Direction::EAST,
            Direction::EAST => Direction::SOUTH,
            Direction::SOUTH => Direction::WEST,
            Direction::WEST => Direction::NORTH,
        },
        Rotation::LEFT => match d {
            Direction::NORTH => Direction::WEST,
            Direction::WEST => Direction::SOUTH,
            Direction::SOUTH => Direction::EAST,
            Direction::EAST => Direction::NORTH,
        },
    }
}

/// The other rotation.
pub open spec fn opposite(r: Rotation) -> Rotation {
    match r {
        Rotation::LEFT => Rotation::RIGHT,
        Rotation::RIGHT => Rotation::LEFT,
    }
}

/// Four turns the same way bring a heading back to where it started.
pub proof fn lemma_four_turns_identity(d: Direction, r: Rotation)
    ensures
        turn(turn(turn(turn(d, r), r), r), r) == d,
{
}

/// Turning one way and then the other leaves the heading unchanged.
pub proof fn lemma_turn_then_opposite(d: Direction, r: Rotation)
    ensures
        turn(turn(d, r), opposite(r)) == d,
{
}

/// Computes the heading after turning `rotation` from `direction`.
pub fn turn_direction(direction: Direction, rotation: Rotation) -> (d: Direction)
    ensures
        d == turn(direction, rotation),
{
    match rotation {
        Rotation::RIGHT => match direction {
            Direction::NORTH => Direction::EAST,
            Direction::EAST => Direction::SOUTH,
            Direction::SOUTH => Direction::WEST,
            Direction::WEST => Direction::NORTH,
        },
        Rotation::LEFT => match direction {
            Direction::NORTH => Direction::WEST,
            Direction::WEST => Direction::SOUTH,
            Direction::SOUTH => Direction::EAST,
            Direction::EAST => Direction::NORTH,
        },
    }
}

/// +1 for a right turn, -1 for a left turn.
pub fn get_direction_boost(rotation: Rotation) -> (b: i8)
    ensures
        b == (if rotation == Rotation::RIGHT { 1int } else { -1int }),
{
    if rotation == Rotation::RIGHT {
        1
    } else {
        -1
    }
}

impl Rotation {
    /// The name of the rotation, as printed: `LEFT` or `RIGHT`.
    pub fn label(&self) -> (s: String)
        ensures
            s@ == (match *self {
                Rotation::LEFT => "LEFT"@,
                Rotation::RIGHT => "RIGHT"@,
            }),
    {
        match self {
            Rotation::LEFT => "LEFT".to_string(),
            Rotation::RIGHT => "RIGHT".to_string(),
        }
    }
}

impl Direction {
    /// The name of the heading, as printed: `NORTH`, `SOUTH`, `EAST` or `WEST`.
    pub fn label(&self) -> (s: String)
        ensures
            s@ == (match *self {
                Direction::NORTH => "NORTH"@,
                Direction::SOUTH => "SOUTH"@,
                Direction::EAST => "EAST"@,
                Direction::WEST => "WEST"@,
            }),
    {
        match self {
            Direction::NORTH => "NORTH".to_string(),
            Direction::SOUTH => "SOUTH".to_string(),
            Direction::EAST => "EAST".to_string(),
            Direction::WEST => "WEST".to_string(),
        }
    }
}

/// Width of the drawing area, in cells.
pub const SIZE_X: u16 = 100;

/// Height of the drawing area, in cells.
pub const SIZE_Y: u16 = 30;

/// Segment `i` of `data`; past the end, an empty left turn.
pub open spec fn segment_at(data: Seq<Segment>, i: int) -> Segment {
    if 0 <= i < data.len() {
        data[i]
    } else {
        (Rotation::LEFT, 0u16)
    }
}

/// The heading after the first `n` segments, starting north; every segment turns.
pub open spec fn heading_after(data: Seq<Segment>, n: nat) -> Direction
    decreases n,
{
    if n == 0 {
        Direction::NORTH
    } else {
        turn(heading_after(data, (n - 1) as nat), segment_at(data, n - 1).0)
    }
}

/// The total length of the segments among the first `n` that head in direction `d`.
pub open spec fn travelled(data: Seq<Segment>, n: nat, d: Direction) -> nat
    decreases n,
{
    if n == 0 {
        0
    } else {
        travelled(data, (n - 1) as nat, d) + if heading_after(data, n) == d {
            segment_at(data, n - 1).1 as nat
        } else {
            0nat
        }
    }
}

/// The total length of the first `n` segments.
pub open spec fn total_length(data: Seq<Segment>, n: nat) -> nat
    decreases n,
{
    if n == 0 {
        0
    } else {
        total_length(data, (n - 1) as nat) + segment_at(data, n - 1).1 as nat
    }
}

/// No heading accumulates more than a `u16` holds over the first `n` segments.
pub open spec fn fits_in_u16(data: Seq<Segment>, n: nat) -> bool {
    &&& travelled(data, n, Direction::NORTH) <= u16::MAX
    &&& travelled(data, n, Direction::SOUTH) <= u16::MAX
    &&& travelled(data, n, Direction::EAST) <= u16::MAX
    &&& travelled(data, n, Direction::WEST) <= u16::MAX
}

/// How far a maze reaches in each direction.
#[derive(PartialEq, Eq, Structural, Copy, Clone, Debug)]
pub struct MazeBounds {
    pub up: u16,
    pub down: u16,
    pub left: u16,
    pub right: u16,
}

/// Why a sequence of segments is refused.
#[derive(PartialEq, Eq, Structural, Copy, Clone, Debug)]
pub enum MazeError {
    /// The maze is too wide for the drawing area; its bounds are attached.
    NotRenderable(MazeBounds),
}

/// The bounds reached by the first `n` segments of `data`.
pub open spec fn bounds_of(data: Seq<Segment>, n: nat) -> MazeBounds {
    MazeBounds {
        up: travelled(data, n, Direction::NORTH) as u16,
        down: travelled(data, n, Direction::SOUTH) as u16,
        left: travelled(data, n, Direction::WEST) as u16,
        right: travelled(data, n, Direction::EAST) as u16,
    }
}

/// A maze fits the drawing area when its width plus a margin of four stays below `SIZE_X`,
/// and its left part plus two stays below `SIZE_X - 2`.
pub open spec fn renderable(b: MazeBounds) -> bool {
    &&& b.left + 4 + b.right < SIZE_X
    &&& 2 + b.left < SIZE_X - 2
}

/// The length travelled in one heading only grows with more segments.
pub proof fn lemma_travelled_monotone(data: Seq<Segment>, k: nat, n: nat, d: Direction)
    requires
        k <= n,
    ensures
        travelled(data, k, d) <= travelled(data, n, d),
    decreases n - k,
{
    if k < n {
        lemma_travelled_monotone(data, k, (n - 1) as nat, d);
    }
}

/// The four extents of a maze add up to the total length of its segments.
pub proof fn lemma_extents_sum_to_total(data: Seq<Segment>, n: nat)
    ensures
        travelled(data, n, Direction::NORTH) + travelled(data, n, Direction::SOUTH)
            + travelled(data, n, Direction::EAST) + travelled(data, n, Direction::WEST)
            == total_length(data, n),
    decreases n,
{
    if n > 0 {
        lemma_extents_sum_to_total(data, (n - 1) as nat);
    }
}

/// Walks the first `number_step` segments from heading north, and sums the length
/// travelled in each direction; the maze is refused when it is too wide to draw.
pub fn calculate_maze(number_step: usize, data: &Vec<Segment>) -> (r: Result<MazeBounds, MazeError>)
    requires
        fits_in_u16(data@, number_step as nat),
    ensures
        renderable(bounds_of(data@, number_step as nat)) ==> r == Ok::<MazeBounds, MazeError>(
            bounds_of(data@, number_step as nat),
        ),
        !renderable(bounds_of(data@, number_step as nat)) ==> r == Err::<MazeBounds, MazeError>(
            MazeError::NotRenderable(bounds_of(data@, number_step as nat)),
        ),
        r is Ok <==> bounds_of(data@, number_step as nat).left + bounds_of(data@, number_step as nat).right < 96,
{
    let mut up: u16 = 0;
    let mut down: u16 = 0;
    let mut right: u16 = 0;
    let mut left: u16 = 0;
    let mut current_direction: Direction = Direction::NORTH;
    let ghost n = number_step as nat;
    for i in 0..number_step
        invariant
            fits_in_u16(data@, n),
            n == number_step,
            current_direction == heading_after(data@, i as nat),
            up == travelled(data@, i as nat, Direction::NORTH),
            down == travelled(data@, i as nat, Direction::SOUTH),
            right == travelled(data@, i as nat, Direction::EAST),
            left == travelled(data@, i as nat, Direction::WEST),
    {
        let (rotation, length): (Rotation, u16) = if i < data.len() {
            data[i]
        } else {
            (Rotation::LEFT, 0)
        };
        proof {
            lemma_travelled_monotone(data@, (i + 1) as nat, n, Direction::NORTH);
            lemma_travelled_monotone(data@, (i + 1) as nat, n, Direction::SOUTH);
            lemma_travelled_monotone(data@, (i + 1) as nat, n, Direction::EAST);
            lemma_travelled_monotone(data@, (i + 1) as nat, n, Direction::WEST);
        }
        if rotation == Rotation::RIGHT {
            if current_direction == Direction::NORTH {
                current_direction = Direction::EAST;
                right += length;
            } else if current_direction == Direction::SOUTH {
                current_direction = Direction::WEST;
                left += length;
            } else if current_direction == Direction::EAST {
                current_direction = Direction::SOUTH;
                down += length;
            } else if current_direction == Direction::WEST {
                current_direction = Direction::NORTH;
                up += length;
            }
        } else if rotation == Rotation::LEFT {
            if current_direction == Direction::NORTH {
                current_direction = Direction::WEST;
                left += length;
            } else if current_direction == Direction::SOUTH {
                current_direction = Direction::EAST;
                right += length;
            } else if current_direction == Direction::EAST {
                current_direction = Direction::NORTH;
                up += length;
            } else if current_direction == Direction::WEST {
                current_direction = Direction::SOUTH;
                down += length;
            }
        }
    }
    let bounds = MazeBounds { up, down, left, right };
    if left < SIZE_X && right < SIZE_X && left + 4 + right < SIZE_X && 2 + left < SIZE_X - 2 {
        Ok(bounds)
    } else {
        Err(MazeError::NotRenderable(bounds))
    }
}

/// When no segment is longer than `bound`, the total length of `n` segments is at most
/// `bound * n`, and so is the length travelled in any one heading.
pub proof fn lemma_travelled_bounded(data: Seq<Segment>, n: nat, bound: nat)
    requires
        forall|i: int| 0 <= i < n ==> (#[trigger] segment_at(data, i)).1 <= bound,
    ensures
        total_length(data, n) <= bound * n,
        travelled(data, n, Direction::NORTH) <= bound * n,
        travelled(data, n, Direction::SOUTH) <= bound * n,
        travelled(data, n, Direction::EAST) <= bound * n,
        travelled(data, n, Direction::WEST) <= bound * n,
    decreases n,
{
    if n > 0 {
        lemma_travelled_bounded(data, (n - 1) as nat, bound);
        assert(segment_at(data, n - 1).1 <= bound);
        assert(bound * (n - 1) + bound == bound * n) by (nonlinear_arith);
    }
    lemma_extents_sum_to_total(data, n);
}

/// Whether summing the first `number_step` segments by heading stays within `u16`, as
/// `calculate_maze` needs.
pub fn extents_fit(number_step: usize, data: &Vec<Segment>) -> (b: bool)
    ensures
        b == fits_in_u16(data@, number_step as nat),
{
    let mut up: u32 = 0;
    let mut down: u32 = 0;
    let mut right: u32 = 0;
    let mut left: u32 = 0;
    let mut heading = Direction::NORTH;
    let ghost n = number_step as nat;
    for i in 0..number_step
        invariant
            n == number_step,
            heading == heading_after(data@, i as nat),
            up == travelled(data@, i as nat, Direction::NORTH) <= u16::MAX,
            down == travelled(data@, i as nat, Direction::SOUTH) <= u16::MAX,
            right == travelled(data@, i as nat, Direction::EAST) <= u16::MAX,
            left == travelled(data@, i as nat, Direction::WEST) <= u16::MAX,
    {
        let (rotation, length): (Rotation, u16) = if i < data.len() {
            data[i]
        } else {
            (Rotation::LEFT, 0)
        };
        heading = turn_direction(heading, rotation);
        let total = match heading {
            Direction::NORTH => {
                up = up + length as u32;
                up
            },
            Direction::SOUTH => {
                down = down + length as u32;
                down
            },
            Direction::EAST => {
                right = right + length as u32;
                right
            },
            Direction::WEST => {
                left = left + length as u32;
                left
            },
        };
        if total > u16::MAX as u32 {
            proof {
                lemma_travelled_monotone(data@, (i + 1) as nat, n, heading);
            }
            return false;
        }
    }
    true
}

/// Only the width decides whether a maze can be drawn: it can exactly when its left and
/// right extents together stay below 96 columns (the 100 columns of the drawing area less
/// the margins), however far it reaches up and down.
pub proof fn lemma_renderable_by_width(b: MazeBounds)
    ensures
        renderable(b) <==> b.left + b.right < 96,
        b.left + b.right < 96 ==> forall|up: u16, down: u16| #[trigger] renderable(MazeBounds { up, down, ..b }),
{
}

} // verus!
