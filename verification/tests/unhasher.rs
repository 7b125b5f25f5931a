use maze_hash::hasher::lazy_hash;
use maze_hash::unhasher::{
    calculate_overflow_frequency, from_string_to_vec, lazy_unhasher, print_string, recursive_search,
    unhash_try,
};

#[test]
fn test_vec_from_string() {
    assert_eq!(from_string_to_vec("test"), vec![116, 101, 115, 116])
}

#[test]
fn test_string() {
    assert_eq!(print_string(&from_string_to_vec("test"), 2), "te")
}

#[test]
fn from_string_to_vec_gives_utf8_bytes() {
    assert_eq!(from_string_to_vec(""), Vec::<u8>::new());
    assert_eq!(from_string_to_vec("é"), vec![0xC3, 0xA9]);
}

#[test]
fn print_string_reads_bytes_as_latin1() {
    assert_eq!(print_string(&vec![0xE9, 0x41, 0x80], 3), "\u{e9}A\u{80}");
    assert_eq!(print_string(&vec![1, 2, 3], 0), "");
}

#[test]
fn print_string_round_trips_ascii() {
    let s = "Fg{maze}";
    assert_eq!(print_string(&from_string_to_vec(s), s.len() as u8), s);
}

#[test]
fn overflow_frequency_values() {
    assert_eq!(calculate_overflow_frequency(0), 0);
    assert_eq!(calculate_overflow_frequency(1), 0);
    assert_eq!(calculate_overflow_frequency(8), 0);
    assert_eq!(calculate_overflow_frequency(9), 11);
    assert_eq!(calculate_overflow_frequency(10), 519);
    assert_eq!(calculate_overflow_frequency(11), 24439);
}

#[test]
fn overflow_frequency_never_overflows_for_any_size() {
    for size in 0..=255u8 {
        let _ = calculate_overflow_frequency(size);
    }
}

#[test]
fn lazy_unhasher_finds_short_strings() {
    let mut found = Vec::new();
    assert!(lazy_unhasher(lazy_hash("Fg".to_string()), 1, 2, &mut found));
    assert_eq!(found, vec!["A".to_string(), "Fg".to_string(), "G8".to_string()]);

    let mut found = Vec::new();
    assert!(lazy_unhasher(lazy_hash("Fg{".to_string()), 1, 3, &mut found));
    assert_eq!(found, vec!["j", "A{", "BL", "Fg{", "FhL", "G8{", "G9L"]);
}

#[test]
fn lazy_unhasher_finds_the_original_string() {
    let mut found = Vec::new();
    assert!(lazy_unhasher(lazy_hash("hello".to_string()), 5, 5, &mut found));
    assert_eq!(found.len(), 16);
    assert_eq!(found[0], "hello");
    assert!(found.contains(&"hello".to_string()));
}

#[test]
fn lazy_unhasher_candidates_agree_in_the_low_byte() {
    let target = lazy_hash("xyz1".to_string());
    let mut found = Vec::new();
    assert!(lazy_unhasher(target, 1, 4, &mut found));
    assert_eq!(found.len(), 10);
    for c in &found {
        assert!(c.chars().all(|ch| (32..=128).contains(&(ch as u32))));
        assert_eq!(lazy_hash(c.clone()) % 256, target % 256);
    }
    assert!(found.contains(&"xyz1".to_string()));
}

#[test]
fn lazy_unhasher_stops_where_the_power_overflows() {
    // Sizes 25 to 31 need 47^24 or more, beyond a u128: the search stops at size 25.
    let mut found = Vec::new();
    assert!(!lazy_unhasher(7, 25, 25, &mut found));
    assert!(found.is_empty());
}

#[test]
fn lazy_unhasher_with_no_sizes_finds_nothing() {
    let mut found = Vec::new();
    assert!(lazy_unhasher(3393, 3, 2, &mut found));
    assert!(found.is_empty());
}

#[test]
fn recursive_search_last_position() {
    let mut buffer = vec![0u8; 1];
    let mut found = Vec::new();
    assert!(recursive_search(0, 65, 0, 0, &mut buffer, &mut found));
    assert_eq!(found, vec!["A".to_string()]);

    let mut found = Vec::new();
    assert!(recursive_search(0, 10, 0, 0, &mut buffer, &mut found));
    assert!(found.is_empty());
}

#[test]
fn recursive_search_past_thirty_positions_finds_nothing() {
    let mut buffer = vec![0u8; 40];
    let mut found = Vec::new();
    assert!(recursive_search(39, 12345, 0, 0, &mut buffer, &mut found));
    assert!(found.is_empty());
}

#[test]
fn recursive_search_leaves_the_last_string_in_the_buffer() {
    // 64 * 47 + 112 == 65 * 47 + 65 == 3120.
    let mut buffer = vec![0u8, 0];
    let mut found = Vec::new();
    assert!(recursive_search(1, 3120, 0, 0, &mut buffer, &mut found));
    assert_eq!(found, vec!["@p".to_string(), "AA".to_string()]);
    assert_eq!(buffer, vec![65u8, 65]);
}

#[test]
fn recursive_search_keeps_positions_past_the_string() {
    let mut buffer = vec![0u8, 0, 0, 9, 9];
    let mut found = Vec::new();
    assert!(recursive_search(1, 3120, 0, 0, &mut buffer, &mut found));
    assert_eq!(found, vec!["@p".to_string(), "AA".to_string()]);
    assert_eq!(buffer, vec![65u8, 65, 0, 9, 9]);
}

#[test]
fn recursive_search_keeps_positions_before_the_current_one() {
    let mut buffer = vec![70u8, 0, 0];
    let mut found = Vec::new();
    // With 'F' (70) at position 0 weighing 70 * 47 * 47, only the tail is searched.
    assert!(recursive_search(2, 70 * 47 * 47 + 3120, 1, 70 * 47 * 47, &mut buffer, &mut found));
    assert_eq!(found, vec!["F@p".to_string(), "FAA".to_string()]);
    assert_eq!(buffer, vec![70u8, 65, 65]);
}

#[test]
fn recursive_search_stops_at_a_short_buffer() {
    let mut buffer = vec![0u8; 1];
    let mut found = Vec::new();
    assert!(!recursive_search(1, 3120, 0, 0, &mut buffer, &mut found));
    assert!(found.is_empty());
    assert_eq!(buffer, vec![64u8]);
}

#[test]
fn recursive_search_past_thirty_positions_leaves_the_buffer() {
    let mut buffer = vec![9u8; 2];
    let mut found = Vec::new();
    assert!(recursive_search(39, 12345, 0, 0, &mut buffer, &mut found));
    assert!(found.is_empty());
    assert_eq!(buffer, vec![9u8; 2]);
}

#[test]
fn unhash_try_finds_exact_preimages() {
    let mut found = Vec::new();
    assert!(unhash_try(3120, 2, 0, &mut found));
    assert_eq!(found, vec!["@p".to_string(), "AA".to_string()]);
    for c in &found {
        assert_eq!(lazy_hash(c.clone()), 3120);
    }
}

#[test]
fn unhash_try_appends_to_what_was_found() {
    let mut found = vec!["x".to_string()];
    assert!(unhash_try(3120, 2, 0, &mut found));
    assert_eq!(found, vec!["x".to_string(), "@p".to_string(), "AA".to_string()]);
}

#[test]
fn unhash_try_stops_when_the_target_overflows() {
    let mut found = Vec::new();
    assert!(!unhash_try(u64::MAX, 2, 1, &mut found));
    assert!(found.is_empty());
}

#[test]
fn unhash_try_in_the_window_matches_the_hash() {
    // Size 9: the window is 32 * (1 + 47 + ... + 47^8) <= target < 256 * 47^8.
    let hash = lazy_hash("helloworl".to_string());
    let low: u64 = 32 * (0..9).map(|k| 47u64.pow(k)).sum::<u64>();
    let high: u64 = 256 * 47u64.pow(8);
    let mut tried = 0;
    for index in 0..=calculate_overflow_frequency(9) {
        let target = hash.wrapping_add((1u64 << 49).wrapping_mul(index));
        if target < low || target >= high || target < hash {
            continue;
        }
        tried += 1;
        let mut found = Vec::new();
        assert!(unhash_try(hash, 9, index, &mut found));
        for c in &found {
            assert_eq!(lazy_hash(c.clone()), hash);
        }
    }
    assert!(tried > 0);
}

#[test]
fn lazy_unhasher_matches_exactly_inside_the_window() {
    // 3120 lies in the window of two bytes (1536..12032) but not of one (32..256).
    let mut found = Vec::new();
    assert!(lazy_unhasher(3120, 1, 2, &mut found));
    assert_eq!(found, vec!["0".to_string(), "@p".to_string(), "AA".to_string()]);
    assert_eq!(lazy_hash("0".to_string()), 48);
    assert_eq!(lazy_hash("@p".to_string()), 3120);
    assert_eq!(lazy_hash("AA".to_string()), 3120);
}

#[test]
fn lazy_unhasher_reports_its_tries_in_order() {
    let hash = lazy_hash("hello".to_string());
    let mut whole = Vec::new();
    assert!(lazy_unhasher(hash, 1, 9, &mut whole));
    let mut by_tries = Vec::new();
    for size in 1..=9u8 {
        for index in 0..=calculate_overflow_frequency(size) {
            assert!(unhash_try(hash, size, index, &mut by_tries));
        }
    }
    assert_eq!(whole, by_tries);
    assert!(whole.contains(&"hello".to_string()));
}
