//! How many shards to spread the tasks over that are modified while a snapshot is running.

use vstd::prelude::*;

verus! {

/// The least number of shards.
pub const MIN_SHARDS: usize = 4;

/// The largest number of shards.
pub const MAX_SHARDS: usize = 256;

/// `n` is the smallest power of two that is at least `bound`.
pub open spec fn smallest_power_of_two(n: int, bound: int) -> bool {
    &&& exists|e: nat| n == #[trigger] vstd::arithmetic::power2::pow2(e)
    &&& n >= bound
    &&& forall|e: nat| #[trigger]
        vstd::arithmetic::power2::pow2(e) >= bound ==> n <= vstd::arithmetic::power2::pow2(e)
}

/// `n` moved into the range from `low` to `high`.
pub open spec fn clamped(n: int, low: int, high: int) -> int {
    if n < low {
        low
    } else if n > high {
        high
    } else {
        n
    }
}

/// The number of workers that shards are made for: the given one, or else the parallelism that the
/// machine offers, or else the least number of shards.
pub open spec fn workers(num_workers: Option<usize>, available_parallelism: Option<usize>) -> int {
    match (num_workers, available_parallelism) {
        (Some(n), _) => n as int,
        (None, Some(n)) => n as int,
        (None, None) => MIN_SHARDS as int,
    }
}

/// Computes the shard count for the small map of tasks modified while a snapshot is running.
///
/// Tasks are not locked by shard, so one shard per worker, rounded up to a power of two, is enough
/// for this rare and short-lived path. `available_parallelism` is what the machine offers, where
/// that is known; it matters only if no number of workers is given.
pub fn compute_snapshot_shard_amount(
    num_workers: Option<usize>,
    small_preallocation: bool,
    available_parallelism: Option<usize>,
) -> (shards: usize)
    ensures
        small_preallocation ==> shards == MIN_SHARDS,
        !small_preallocation ==> smallest_power_of_two(
            shards as int,
            clamped(
                workers(num_workers, available_parallelism),
                MIN_SHARDS as int,
                MAX_SHARDS as int,
            ),
        ),
        MIN_SHARDS <= shards <= MAX_SHARDS,
{
    proof {
        vstd::arithmetic::power2::lemma2_to64();
        assert(vstd::arithmetic::power2::pow2(8) == MAX_SHARDS);
    }
    if small_preallocation {
        return MIN_SHARDS;
    }
    let wanted: usize = match num_workers {
        Some(n) => n,
        None => match available_parallelism {
            Some(n) => n,
            None => MIN_SHARDS,
        },
    };
    let bound: usize = if wanted < MIN_SHARDS {
        MIN_SHARDS
    } else if wanted > MAX_SHARDS {
        MAX_SHARDS
    } else {
        wanted
    };
    next_power_of_two(bound)
}

/// The smallest power of two that is at least `bound`.
fn next_power_of_two(bound: usize) -> (n: usize)
    requires
        bound <= 0x4000_0000,
    ensures
        smallest_power_of_two(n as int, bound as int),
{
    let mut n: usize = 1;
    let ghost mut e: nat = 0;
    proof {
        vstd::arithmetic::power2::lemma2_to64();
    }
    while n < bound
        invariant
            bound <= 0x4000_0000,
            n == vstd::arithmetic::power2::pow2(e),
            1 <= n,
            n < 2 * bound || n == 1,
            e == 0 || vstd::arithmetic::power2::pow2((e - 1) as nat) < bound,
        decreases 2 * bound - n,
    {
        proof {
            vstd::arithmetic::power2::lemma_pow2_unfold(e + 1);
            e = e + 1;
        }
        n = 2 * n;
    }
    proof {
        assert forall|f: nat| #[trigger] vstd::arithmetic::power2::pow2(f) >= bound implies n
            <= vstd::arithmetic::power2::pow2(f) by {
            if f < e {
                if f < e - 1 {
                    vstd::arithmetic::power2::lemma_pow2_strictly_increases(f, (e - 1) as nat);
                }
            } else if f > e {
                vstd::arithmetic::power2::lemma_pow2_strictly_increases(e, f);
            }
        }
    }
    n
}

} // verus!
