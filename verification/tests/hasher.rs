use maze_hash::hasher::{lazy_hash, HASH_MODULUS};

#[test]
fn test_hashing() {
    let hash: u64 = lazy_hash("Made_with_l0ve_in_Netherlands!".parse().unwrap());
    assert!(hash < (1 << 48), "The hash is not in the correct range");
}

#[test]
fn lazy_hash_of_empty_string_is_zero() {
    assert_eq!(lazy_hash(String::new()), 0);
}

#[test]
fn lazy_hash_exact_values() {
    assert_eq!(lazy_hash("ab".to_string()), 97 * 47 + 98);
    assert_eq!(lazy_hash("Fg".to_string()), 3393);
    assert_eq!(lazy_hash("Fg{".to_string()), 159594);
    assert_eq!(lazy_hash("xyz1".to_string()), 12731832);
}

#[test]
fn lazy_hash_reduces_modulo_2_pow_48() {
    let s = "Made_with_l0ve_in_Netherlands!";
    let mut expected: u128 = 0;
    for c in s.chars() {
        expected = (expected * 47 + (c as u8) as u128) % (1u128 << 48);
    }
    assert_eq!(lazy_hash(s.to_string()) as u128, expected);
    assert!(lazy_hash(s.to_string()) < HASH_MODULUS);
}

#[test]
fn lazy_hash_is_a_stream() {
    let whole = lazy_hash("hello!".to_string());
    let head = lazy_hash("hello".to_string());
    assert_eq!(whole, (head * 47 + b'!' as u64) % HASH_MODULUS);
}

#[test]
fn lazy_hash_uses_the_low_byte_of_each_char() {
    // U+0141 has low byte 0x41, as 'A' does.
    assert_eq!(lazy_hash("\u{141}".to_string()), lazy_hash("A".to_string()));
    assert_eq!(lazy_hash("x\n".to_string()), (120 * 47 + 10) as u64);
}
