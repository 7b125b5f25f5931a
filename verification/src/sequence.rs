//! The maze path drawn from a seed with Java's linear congruential generator.
//!
//! The generator's state is held here as a plain `u64` (its raw 48-bit seed); each draw is
//! made by `java_random` on a generator rebuilt from that state, and hands back the new state.

use vstd::prelude::*;
use crate::text::{decimal_text, push_char, push_decimal};
use crate::maze::{Rotation, Segment, segment_at, fits_in_u16, lemma_travelled_bounded};

verus! {

/// Multiplier of Java's generator.
pub const LCG_MULTIPLIER: u64 = 0x5DEECE66D;

/// Addend of Java's generator.
pub const LCG_ADDEND: u64 = 0xB;

/// The generator works modulo 2^48.
pub const LCG_MODULUS: u64 = 0x1_0000_0000_0000;

/// One step of the generator on its 48-bit state (any `u64` seed is first reduced).
#[verifier::opaque]
pub open spec fn lcg_next(state: int) -> int {
    (state * LCG_MULTIPLIER + LCG_ADDEND) % (LCG_MODULUS as int)
}

/// `n` is a positive power of two.
pub open spec fn is_power_of_two(n: int) -> bool
    decreases n,
{
    if n <= 0 {
        false
    } else if n == 1 {
        true
    } else {
        n % 2 == 0 && is_power_of_two(n / 2)
    }
}

/// `java_random::Random::next_int_n` on a generator whose raw seed is `state`.
/// Claimed, as its source shows for a power of two `n`: the generator steps once, and the
/// value is `n` times the top 31 bits of the new state, shifted right by 31. The new raw
/// seed (`get_raw_seed`, the low 48 bits) is handed back.
#[verifier::external_body]
fn java_next_int_n(state: u64, n: i32) -> (res: (i32, u64))
    requires
        is_power_of_two(n as int),
    ensures
        res.1 == lcg_next(state as int),
        res.0 == (n * (res.1 as int / 0x2_0000)) / 0x8000_0000,
{
    let mut generator = java_random::Random::with_raw_seed(state);
    let value = generator.next_int_n(n);
    (value, generator.get_raw_seed())
}

/// `java_random::Random::next_double` on a generator whose raw seed is `state`; the drawn
/// value is dropped. Claimed, as its source shows: the generator steps twice, and the new
/// raw seed is handed back.
#[verifier::external_body]
fn java_skip_double(state: u64) -> (next_state: u64)
    ensures
        next_state == lcg_next(lcg_next(state as int)),
{
    let mut generator = java_random::Random::with_raw_seed(state);
    let _ = generator.next_double();
    generator.get_raw_seed()
}

/// `java_random::Random::next_boolean` on a generator whose raw seed is `state`.
/// Claimed, as its source shows: the generator steps once and the value is the top bit of
/// the new 48-bit state; the new raw seed is handed back.
#[verifier::external_body]
fn java_next_boolean(state: u64) -> (res: (bool, u64))
    ensures
        res.1 == lcg_next(state as int),
        res.0 == (res.1 as int / 0x8000_0000_0000 != 0),
{
    let mut generator = java_random::Random::with_raw_seed(state);
    let value = generator.next_boolean();
    (value, generator.get_raw_seed())
}

/// A step of the generator lands in `0..2^48`.
pub proof fn lemma_lcg_range(state: int)
    ensures
        0 <= lcg_next(state) < LCG_MODULUS,
{
    reveal(lcg_next);
}

/// The state after `k` steps of the generator.
pub open spec fn lcg_steps(state: int, k: nat) -> int
    decreases k,
{
    if k == 0 {
        state
    } else {
        lcg_next(lcg_steps(state, (k - 1) as nat))
    }
}

/// The state after one segment is drawn: one step for the length, four for the two
/// skipped doubles, one for the turn.
pub open spec fn state_after_segment(state: int) -> int {
    lcg_steps(state, 6)
}

/// The generator's state after drawing `k` segments from `seed`.
pub open spec fn state_after(seed: int, k: nat) -> int
    decreases k,
{
    if k == 0 {
        seed
    } else {
        state_after_segment(state_after(seed, (k - 1) as nat))
    }
}

/// The segment drawn from `state`: a length in `0..16` plus two, and a left turn when the
/// drawn boolean is true.
pub open spec fn segment_from(state: int) -> Segment {
    let s1 = lcg_next(state);
    let length = (16 * (s1 / 0x2_0000)) / 0x8000_0000;
    let s4 = state_after_segment(state);
    let rotation = if s4 / 0x8000_0000_0000 != 0 {
        Rotation::LEFT
    } else {
        Rotation::RIGHT
    };
    (rotation, (length + 2) as u16)
}

/// The first `count` segments drawn from `seed`.
pub open spec fn generated_segments(seed: int, count: nat) -> Seq<Segment> {
    Seq::new(count, |i: int| segment_from(state_after(seed, i as nat)))
}

/// Draws `number_step` segments from a generator seeded raw with `seed`: for each, a
/// length `next_int_n(16) + 2`, two skipped doubles, and a left turn when `next_boolean`
/// is true.
pub fn generate_segments(seed: u64, number_step: usize) -> (data: Vec<Segment>)
    ensures
        data@ == generated_segments(seed as int, number_step as nat),
{
    let mut data: Vec<Segment> = Vec::new();
    let mut state: u64 = seed;
    proof {
        reveal_with_fuel(is_power_of_two, 6);
    }
    for i in 0..number_step
        invariant
            is_power_of_two(16),
            state == state_after(seed as int, i as nat),
            data@ == generated_segments(seed as int, i as nat),
    {
        let (value, s1) = java_next_int_n(state, 16);
        proof {
            lemma_lcg_range(state as int);
            assert(value < 16) by (nonlinear_arith)
                requires
                    value == (16 * (s1 as int / 0x2_0000)) / 0x8000_0000,
                    s1 < 0x1_0000_0000_0000,
            ;
            assert(value >= 0) by (nonlinear_arith)
                requires
                    value == (16 * (s1 as int / 0x2_0000)) / 0x8000_0000,
                    s1 >= 0,
            ;
        }
        let length: u16 = value as u16;
        let s2 = java_skip_double(s1);
        let s3 = java_skip_double(s2);
        let (flag, s4) = java_next_boolean(s3);
        let rotation = if flag {
            Rotation::LEFT
        } else {
            Rotation::RIGHT
        };
        assert(s4 == state_after_segment(state as int)) by {
            reveal_with_fuel(lcg_steps, 7);
        }
        let ghost prev = data@;
        data.push((rotation, length + 2));
        state = s4;
        assert(data@[i as int] == segment_from(state_after(seed as int, i as nat)));
        assert(data@ =~= generated_segments(seed as int, (i + 1) as nat)) by {
            assert forall|k: int| 0 <= k < i implies data@[k] == segment_from(
                state_after(seed as int, k as nat),
            ) by {
                assert(data@[k] == prev[k]);
            }
        }
    }
    data
}

/// Every drawn segment is between two and seventeen cells long.
pub proof fn lemma_generated_lengths(seed: int, count: nat)
    ensures
        forall|i: int|
            0 <= i < count ==> 2 <= (#[trigger] generated_segments(seed, count)[i]).1 <= 17,
{
    assert forall|i: int| 0 <= i < count implies 2 <= (#[trigger] generated_segments(
        seed,
        count,
    )[i]).1 <= 17 by {
        let s1 = lcg_next(state_after(seed, i as nat));
        lemma_lcg_range(state_after(seed, i as nat));
        assert(0 <= (16 * (s1 / 0x2_0000)) / 0x8000_0000 < 16) by (nonlinear_arith)
            requires
                0 <= s1 < 0x1_0000_0000_0000,
        ;
    }
}

/// Up to 3855 drawn segments never make `calculate_maze` overflow: no heading gathers more
/// than seventeen cells per segment.
pub proof fn lemma_generated_fits(seed: int, count: nat)
    requires
        count <= 3855,
    ensures
        fits_in_u16(generated_segments(seed, count), count),
{
    let data = generated_segments(seed, count);
    lemma_generated_lengths(seed, count);
    assert forall|i: int| 0 <= i < count implies (#[trigger] segment_at(data, i)).1 <= 17 by {
        assert(segment_at(data, i) == data[i]);
    }
    lemma_travelled_bounded(data, count, 17);
}

/// How one drawn segment is printed: `1` for a left turn and `0` for a right one, a comma,
/// the drawn length (the stored length minus two), a comma.
pub open spec fn segment_text(seg: Segment) -> Seq<char> {
    seq![if seg.0 == Rotation::LEFT { '1' } else { '0' }, ','] + decimal_text(seg.1 - 2) + seq![',']
}

/// How a drawn sequence is printed: each segment's text, one after the other.
pub open spec fn sequence_text_spec(data: Seq<Segment>) -> Seq<char>
    decreases data.len(),
{
    if data.len() == 0 {
        Seq::empty()
    } else {
        sequence_text_spec(data.drop_last()) + segment_text(data.last())
    }
}

/// The text of a drawn sequence, as printed while drawing it; every stored length is at
/// least two.
pub fn sequence_text(data: &Vec<Segment>) -> (t: String)
    requires
        forall|i: int| 0 <= i < data.len() ==> (#[trigger] data[i]).1 >= 2,
    ensures
        t@ == sequence_text_spec(data@),
{
    let mut t = String::new();
    for i in 0..data.len()
        invariant
            forall|k: int| 0 <= k < data.len() ==> (#[trigger] data[k]).1 >= 2,
            t@ == sequence_text_spec(data@.take(i as int)),
    {
        let (rotation, length) = data[i];
        let ghost before = t@;
        push_char(&mut t, if rotation == Rotation::LEFT { '1' } else { '0' });
        push_char(&mut t, ',');
        push_decimal(&mut t, (length - 2) as i32);
        push_char(&mut t, ',');
        assert(data@.take(i + 1).drop_last() =~= data@.take(i as int));
        assert(t@ =~= before + segment_text(data@[i as int]));
    }
    assert(data@.take(data.len() as int) =~= data@);
    t
}

} // verus!
