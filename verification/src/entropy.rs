use bevy_rand::prelude::ChaCha8Rng;
use rand_core::RngCore;
use vstd::prelude::*;

verus! {

/// The generator `bevy_prng::ChaCha8Rng`, as `bevy_rand`'s prelude hands it
/// on: a value that is carried through, of which nothing is known.
#[verifier::external_type_specification]
#[verifier::external_body]
pub struct ExChaCha8Rng(ChaCha8Rng);

/// Draws the next 32 bits from the generator by `rand_core::RngCore::next_u32`.
/// Nothing is claimed of the value: every `u32` may come back, and two calls
/// may differ.
#[verifier::external_body]
pub(crate) fn next_draw(rng: &mut ChaCha8Rng) -> (raw: u32)
{
    rng.next_u32()
}

/// The bucket of `0..n` that a raw draw falls into when the 32-bit range is
/// cut into `n` equal parts: the floor of `raw / 2^32 * n`.
pub open spec fn spec_bucket(raw: u32, n: u32) -> int {
    (raw as int * n as int) / 0x1_0000_0000
}

/// A bucket of `0..n` is below `n`.
pub proof fn lemma_bucket_bounds(raw: u32, n: u32)
    ensures
        0 <= spec_bucket(raw, n),
        n > 0 ==> spec_bucket(raw, n) < n,
        n == 0 ==> spec_bucket(raw, n) == 0,
{
    assert(0 <= raw as int * n as int) by (nonlinear_arith);
    if n > 0 {
        assert(raw as int * n as int <= 0xffff_ffff * n as int) by (nonlinear_arith)
            requires
                raw as int <= 0xffff_ffff,
                n as int > 0,
        ;
    } else {
        assert(raw as int * n as int == 0) by (nonlinear_arith)
            requires
                n as int == 0,
        ;
    }
}

/// Maps a raw draw to a bucket of `0..n`.
pub fn bucket(raw: u32, n: u32) -> (k: u32)
    ensures
        k == spec_bucket(raw, n),
        n > 0 ==> k < n,
{
    proof {
        lemma_bucket_bounds(raw, n);
        assert(raw as int * n as int <= 0xffff_ffff * 0xffff_ffff) by (nonlinear_arith)
            requires
                0 <= raw as int <= 0xffff_ffff,
                0 <= n as int <= 0xffff_ffff,
        ;
    }
    let wide: u64 = raw as u64 * n as u64;
    (wide / 0x1_0000_0000u64) as u32
}

} // verus!
