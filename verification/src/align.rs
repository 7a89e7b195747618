//! Sector-alignment arithmetic: distances to the next multiple of a sector
//! size. Every table and payload in the container begins on a 2048-byte
//! boundary, so the decoders skip forward by these distances between sections.

use vstd::prelude::*;
use vstd::arithmetic::div_mod::{lemma_fundamental_div_mod, lemma_mod_multiples_basic};

verus! {

/// Smallest multiple of `target` that is at least `n`.
pub open spec fn spec_next_multiple(n: int, target: int) -> int {
    if n % target == 0 {
        n
    } else {
        target * (n / target + 1)
    }
}

/// How many bytes separate `n` from the next multiple of `target`.
pub open spec fn spec_skip_len(n: int, target: int) -> int {
    spec_next_multiple(n, target) - n
}

/// The next multiple lies within one sector of `n`, is divisible by `target`,
/// and equals `n` rounded up past its remainder.
pub proof fn lemma_next_multiple_bounds(n: int, target: int)
    requires
        0 <= n,
        0 < target,
    ensures
        n <= spec_next_multiple(n, target) < n + target,
        spec_next_multiple(n, target) % target == 0,
        spec_next_multiple(n, target) == if n % target == 0 {
            n
        } else {
            n - n % target + target
        },
{
    lemma_fundamental_div_mod(n, target);
    if n % target == 0 {
        assert(spec_next_multiple(n, target) == n);
    } else {
        assert(target * (n / target + 1) == target * (n / target) + target) by (nonlinear_arith);
        assert(target * (n / target + 1) == n - n % target + target);
        assert(0 <= n % target < target);
        lemma_mod_multiples_basic(n / target + 1, target);
        assert((target * (n / target + 1)) % target == 0);
    }
}

/// Rounds `n` up to the next multiple of `target` (returns `n` itself when it
/// is already a multiple).
pub fn next_multiple(n: i32, target: i32) -> (r: i32)
    requires
        0 <= n,
        0 < target,
        n + target <= i32::MAX,
    ensures
        r == spec_next_multiple(n as int, target as int),
        r % target == 0,
        n <= r < n + target,
{
    proof {
        lemma_next_multiple_bounds(n as int, target as int);
    }
    if n % target == 0 {
        return n;
    }
    let prev = n / target;
    target * (prev + 1)
}

/// Number of padding bytes between position `current` and the next multiple
/// of `target`; zero when `current` is already aligned.
pub fn nm_to_skip(current: i32, target: i32) -> (r: i32)
    requires
        0 <= current,
        0 < target,
        current + target <= i32::MAX,
    ensures
        r == spec_skip_len(current as int, target as int),
        0 <= r < target,
        (current + r) % (target as int) == 0,
{
    proof {
        lemma_next_multiple_bounds(current as int, target as int);
    }
    next_multiple(current, target) - current
}

} // verus!
