//! Seeded pseudo-random sampling for population generation, and the
//! digit-sum seed derivation.

use rand::Rng;
use rand::SeedableRng;
use vstd::prelude::*;

verus! {

#[verifier::external_type_specification]
#[verifier::external_body]
pub struct ExStdRng(rand::rngs::StdRng);

/// A seeded pseudo-random source.  The seed is injected explicitly so that a
/// population can be regenerated reproducibly.
pub struct SimRng {
    rng: rand::rngs::StdRng,
}

impl SimRng {
    /// Relies on rand's `StdRng::seed_from_u64`: builds a generator
    /// deterministically seeded from the given word.
    #[verifier::external_body]
    pub(crate) fn from_seed(seed: u64) -> SimRng {
        SimRng { rng: rand::rngs::StdRng::seed_from_u64(seed) }
    }

    /// Relies on rand's `Rng::gen_range`: a sample from `lo..hi` lies in
    /// that half-open range.  The call panics on an empty range, which the
    /// precondition rules out; nothing else is promised of the sample.
    #[verifier::external_body]
    pub(crate) fn gen_range_i64(&mut self, lo: i64, hi: i64) -> (r: i64)
        requires
            lo < hi,
        ensures
            lo <= r < hi,
    {
        self.rng.gen_range(lo..hi)
    }
}

/// Sum of the decimal digit values in `s`, where a `.` (ASCII 46) counts as
/// zero.
pub open spec fn digit_sum(s: Seq<u8>) -> int
    decreases s.len(),
{
    if s.len() == 0 {
        0
    } else {
        digit_sum(s.drop_last()) + (if s.last() == 46 {
            0int
        } else {
            s.last() - 48
        })
    }
}

/// The digit sum of `s` is bounded by nine per byte.
proof fn lemma_digit_sum_bounds(s: Seq<u8>)
    requires
        forall|i: int| 0 <= i < s.len() ==> #[trigger] s[i] == 46 || 48 <= s[i] <= 57,
    ensures
        0 <= digit_sum(s) <= 9 * s.len(),
    decreases s.len(),
{
    if s.len() > 0 {
        lemma_digit_sum_bounds(s.drop_last());
    }
}

/// Derives a seed from the ASCII rendering of a clock reading: the decimal
/// digits are summed and the fraction point is skipped.  Every byte must be
/// a digit or the point.
pub fn seed_from_digits(text: &Vec<u8>) -> (seed: u64)
    requires
        text@.len() <= 0x10000000,
        forall|i: int| 0 <= i < text@.len() ==> #[trigger] text@[i] == 46 || 48 <= text@[i] <= 57,
    ensures
        seed == digit_sum(text@),
{
    let mut seed: u64 = 0;
    let n = text.len();
    for i in 0..n
        invariant
            n == text@.len() <= 0x10000000,
            forall|k: int| 0 <= k < text@.len() ==> #[trigger] text@[k] == 46 || 48 <= text@[k]
                <= 57,
            seed == digit_sum(text@.subrange(0, i as int)),
            seed <= 9 * i,
    {
        let b = text[i];
        if b != 46 {
            seed = seed + (b - 48) as u64;
        }
        proof {
            let pre = text@.subrange(0, i as int);
            let post = text@.subrange(0, i + 1);
            assert(post.drop_last() =~= pre);
            assert(post.last() == text@[i as int]);
        }
    }
    proof {
        assert(text@.subrange(0, n as int) =~= text@);
    }
    seed
}

} // verus!
