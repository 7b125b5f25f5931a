//! The "lazy" polynomial hash of a string.

use vstd::prelude::*;
use vstd::arithmetic::div_mod::lemma_small_mod;

verus! {

broadcast use vstd::string::group_string_axioms;

/// The hash is kept modulo this value (2^48).
pub const HASH_MODULUS: u64 = 0x1_0000_0000_0000;

/// One step of the hash: multiply by 47, add the low byte of the character, reduce.
pub open spec fn hash_step(h: int, c: char) -> int {
    (h * 47 + (c as u8)) % (HASH_MODULUS as int)
}

/// The hash of a sequence of characters, folding `hash_step` from the left.
pub open spec fn spec_lazy_hash(s: Seq<char>) -> int
    decreases s.len(),
{
    if s.len() == 0 {
        0
    } else {
        hash_step(spec_lazy_hash(s.drop_last()), s.last())
    }
}

proof fn lemma_reduce_wrapped(h: u64, b: u8)
    requires
        h < HASH_MODULUS,
    ensures
        (vstd::wrapping::u64_specs::wrapping_add(
            vstd::wrapping::u64_specs::wrapping_mul(h, 47),
            b as u64,
        ) as int) % (HASH_MODULUS as int) == (h * 47 + b) % (HASH_MODULUS as int),
{
    let w: int = 0x1_0000_0000_0000_0000;
    let m: int = HASH_MODULUS as int;
    let prod: int = h * 47;
    assert(prod < w);
    let wm = vstd::wrapping::u64_specs::wrapping_mul(h, 47);
    assert(wm as int == prod) by {
        lemma_small_mod(prod as nat, w as nat);
    }
    assert(prod + b < w);
}

/// Hashes `input`: for each character, `h = (h * 47 + (c as u8)) mod 2^48`.
pub fn lazy_hash(input: String) -> (h: u64)
    ensures
        h == spec_lazy_hash(input@),
        h < HASH_MODULUS,
{
    let mut h: u64 = 0;
    for c in it: input.as_str().chars()
        invariant
            h == spec_lazy_hash(it.seq().take(it.index() as int)),
            h < HASH_MODULUS,
            it.seq() == input@,
    {
        proof {
            lemma_reduce_wrapped(h, #[verifier::truncate] (c as u8));
        }
        h = h.wrapping_mul(47).wrapping_add((#[verifier::truncate] (c as u8)) as u64);
        h = h % HASH_MODULUS;
        assert(it.seq().take(it.index() + 1).drop_last() =~= it.seq().take(it.index() as int));
    }
    assert(input@.take(input@.len() as int) =~= input@);
    h
}

/// The hash is computed as a stream: one more character folds into the hash so far.
pub proof fn lemma_lazy_hash_push(s: Seq<char>, c: char)
    ensures
        spec_lazy_hash(s.push(c)) == hash_step(spec_lazy_hash(s), c),
        0 <= spec_lazy_hash(s.push(c)) < HASH_MODULUS,
{
    assert(s.push(c).drop_last() =~= s);
}

} // verus!
