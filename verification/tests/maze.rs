use maze_hash::maze::{
    calculate_maze, extents_fit, get_direction_boost, turn_direction, Direction, MazeBounds, MazeError, Rotation,
};
use maze_hash::path::{trace_path, PathStop};
use maze_hash::sequence::{generate_segments, sequence_text};

use Direction::{EAST, NORTH, SOUTH, WEST};
use Rotation::{LEFT, RIGHT};

#[test]
fn direction_boost() {
    assert_eq!(get_direction_boost(RIGHT), 1);
    assert_eq!(get_direction_boost(LEFT), -1);
}

#[test]
fn turning() {
    assert_eq!(turn_direction(NORTH, RIGHT), EAST);
    assert_eq!(turn_direction(EAST, RIGHT), SOUTH);
    assert_eq!(turn_direction(SOUTH, RIGHT), WEST);
    assert_eq!(turn_direction(WEST, RIGHT), NORTH);
    assert_eq!(turn_direction(NORTH, LEFT), WEST);
    assert_eq!(turn_direction(WEST, LEFT), SOUTH);
    assert_eq!(turn_direction(SOUTH, LEFT), EAST);
    assert_eq!(turn_direction(EAST, LEFT), NORTH);
}

#[test]
fn four_turns_come_back_and_opposite_turns_cancel() {
    for d in [NORTH, SOUTH, EAST, WEST] {
        for r in [LEFT, RIGHT] {
            let mut e = d;
            for _ in 0..4 {
                e = turn_direction(e, r);
            }
            assert_eq!(e, d);
            let other = if r == LEFT { RIGHT } else { LEFT };
            assert_eq!(turn_direction(turn_direction(d, r), other), d);
        }
    }
}

#[test]
fn labels() {
    assert_eq!(LEFT.label(), "LEFT");
    assert_eq!(RIGHT.label(), "RIGHT");
    assert_eq!(NORTH.label(), "NORTH");
    assert_eq!(SOUTH.label(), "SOUTH");
    assert_eq!(EAST.label(), "EAST");
    assert_eq!(WEST.label(), "WEST");
}

#[test]
fn maze_bounds_of_a_small_path() {
    let data = vec![(RIGHT, 5), (LEFT, 3), (LEFT, 2), (LEFT, 7)];
    // north -> east 5, east -> north 3, north -> west 2, west -> south 7
    assert_eq!(
        calculate_maze(4, &data),
        Ok(MazeBounds { up: 3, down: 7, left: 2, right: 5 })
    );
    assert_eq!(calculate_maze(2, &data), Ok(MazeBounds { up: 3, down: 0, left: 0, right: 5 }));
    assert_eq!(calculate_maze(0, &data), Ok(MazeBounds { up: 0, down: 0, left: 0, right: 0 }));
}

#[test]
fn maze_steps_past_the_data_turn_left_on_the_spot() {
    let data = vec![(RIGHT, 5)];
    assert_eq!(calculate_maze(3, &data), Ok(MazeBounds { up: 0, down: 0, left: 0, right: 5 }));
}

#[test]
fn maze_too_wide_is_refused() {
    let data = vec![(RIGHT, 96)];
    assert_eq!(
        calculate_maze(1, &data),
        Err(MazeError::NotRenderable(MazeBounds { up: 0, down: 0, left: 0, right: 96 }))
    );
    let data = vec![(RIGHT, 95)];
    assert!(calculate_maze(1, &data).is_ok());
    let data = vec![(LEFT, 50), (RIGHT, 1), (RIGHT, 50)];
    assert_eq!(
        calculate_maze(3, &data),
        Err(MazeError::NotRenderable(MazeBounds { up: 1, down: 0, left: 50, right: 50 }))
    );
}

#[test]
fn maze_extents_add_up_to_the_total_length() {
    let data = generate_segments(42, 12);
    let b = calculate_maze(12, &data).unwrap_or_else(|MazeError::NotRenderable(b)| b);
    let total: u32 = data.iter().map(|s| s.1 as u32).sum();
    assert_eq!(b.up as u32 + b.down as u32 + b.left as u32 + b.right as u32, total);
}

/// The segments the original program draws, computed here with java_random directly.
fn drawn_directly(seed: u64, n: usize) -> Vec<(Rotation, u16)> {
    let mut r = java_random::Random::with_raw_seed(seed);
    let mut data = Vec::new();
    for _ in 0..n {
        let length: u16 = r.next_int_n(16) as u16;
        r.next_double();
        r.next_double();
        let rotation = r.next_boolean();
        data.push((if rotation { LEFT } else { RIGHT }, length + 2));
    }
    data
}

#[test]
fn generated_segments_match_java_random() {
    for seed in [0u64, 1, 42, 123456789, u64::MAX, 0xFFFF_FFFF_FFFF] {
        assert_eq!(generate_segments(seed, 12), drawn_directly(seed, 12));
    }
}

#[test]
fn generated_segments_exact() {
    assert_eq!(
        generate_segments(42, 12),
        vec![
            (LEFT, 2), (RIGHT, 5), (LEFT, 12), (RIGHT, 8), (LEFT, 11), (RIGHT, 4),
            (RIGHT, 8), (RIGHT, 6), (LEFT, 11), (RIGHT, 8), (RIGHT, 14), (RIGHT, 10),
        ]
    );
    assert_eq!(generate_segments(0, 3), vec![(RIGHT, 2), (LEFT, 3), (RIGHT, 16)]);
    assert!(generate_segments(7, 0).is_empty());
}

#[test]
fn generated_lengths_are_between_two_and_seventeen() {
    for seed in 0..200u64 {
        for (_, l) in generate_segments(seed, 12) {
            assert!((2..=17).contains(&l));
        }
    }
}

#[test]
fn sequence_text_as_printed() {
    assert_eq!(sequence_text(&generate_segments(0, 3)), "0,0,1,1,0,14,");
    assert_eq!(
        sequence_text(&generate_segments(42, 12)),
        "1,0,0,3,1,10,0,6,1,9,0,2,0,6,0,4,1,9,0,6,0,12,0,8,"
    );
    assert_eq!(sequence_text(&Vec::new()), "");
}

#[test]
fn trace_completes() {
    let t = trace_path(1, &vec![(LEFT, 2)]);
    assert_eq!(t.cells, vec![(99, 1), (98, 1)]);
    assert_eq!(t.stop, None);
}

#[test]
fn trace_leaves_the_grid() {
    let t = trace_path(1, &vec![(RIGHT, 3)]);
    assert_eq!(t.cells, vec![(101, 1)]);
    assert_eq!(t.stop, Some(PathStop::Void));
}

#[test]
fn trace_hits_a_wall() {
    let t = trace_path(2, &vec![(LEFT, 1), (RIGHT, 1)]);
    assert_eq!(t.cells, vec![(99, 1), (99, 0)]);
    assert_eq!(t.stop, Some(PathStop::Wall));
}

#[test]
fn trace_empty_segment_does_not_turn() {
    let t = trace_path(3, &vec![(LEFT, 1), (RIGHT, 0), (LEFT, 1)]);
    assert_eq!(t.cells, vec![(99, 1), (99, 2)]);
    assert_eq!(t.stop, Some(PathStop::Wall));
}

#[test]
fn completed_trace_ends_where_the_extents_say() {
    let data = vec![(LEFT, 17), (LEFT, 10)];
    let t = trace_path(2, &data);
    assert_eq!(t.stop, None);
    assert_eq!(t.cells.len(), 27);
    let b = calculate_maze(2, &data).unwrap();
    let end = *t.cells.last().unwrap();
    assert_eq!(end, (100 + b.right as i16 - b.left as i16, 1 + b.down as i16 - b.up as i16));
    assert_eq!(end, (83, 11));
}

#[test]
fn trace_reaches_the_exit() {
    // From the start, 17 left ... the exit sits at column 43 of row 0.
    let mut data = Vec::new();
    // build segments that walk the solution: each run is a turn plus a length
    data.push((LEFT, 17)); // north -> west
    data.push((LEFT, 10)); // west -> south
    data.push((LEFT, 3)); // south -> east
    data.push((RIGHT, 11)); // east -> south
    data.push((RIGHT, 16)); // south -> west
    data.push((RIGHT, 9)); // west -> north
    data.push((LEFT, 10)); // north -> west
    data.push((LEFT, 3)); // west -> south
    data.push((RIGHT, 4)); // south -> west
    data.push((RIGHT, 12)); // west -> north
    data.push((LEFT, 13)); // north -> west
    data.push((RIGHT, 4)); // west -> north
    let t = trace_path(12, &data);
    assert_eq!(t.stop, Some(PathStop::Exit));
    assert_eq!(*t.cells.last().unwrap(), (43, 0));
}

#[test]
fn extents_fit_checks_the_u16_sums() {
    assert!(extents_fit(12, &generate_segments(42, 12)));
    assert!(extents_fit(2, &vec![(RIGHT, 65535), (LEFT, 65535)]));
    assert!(!extents_fit(5, &vec![(RIGHT, 65535), (LEFT, 1), (LEFT, 1), (LEFT, 1), (LEFT, 1)]));
    assert!(extents_fit(4, &vec![(RIGHT, 65535), (LEFT, 1), (LEFT, 1), (LEFT, 1), (LEFT, 1)]));
}
