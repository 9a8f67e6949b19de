//! Calendar constants: month lengths and their running sums.
use vstd::prelude::*;

verus! {

/// Seconds in a (non leap-second) day.
pub const SECS_PER_DAY: i64 = 86400;
/// Year of the unix epoch.
pub const UNIX_DEFAULT_YEAR: i32 = 1970;
/// Month of the unix epoch.
pub const UNIX_DEFAULT_MONTH: u32 = 1;
/// Day of the unix epoch.
pub const UNIX_DEFAULT_DAY: u32 = 1;
/// Nanoseconds in a second.
pub const MAX_NS: i64 = 1_000_000_000;

/// Sum of the first `n` entries of `s`.
pub open spec fn prefix_sum(s: Seq<u32>, n: int) -> int
    decreases n,
{
    if n <= 0 {
        0
    } else {
        prefix_sum(s, n - 1) + s[n - 1]
    }
}

/// Running sums of twelve month lengths: entry `i` is the number of days
/// before month `i + 1`, entry 12 the length of the year.
pub fn cumsum_cal(input: &[u32; 12]) -> (out: [u32; 13])
    requires
        prefix_sum(input@, 12) <= u32::MAX,
    ensures
        forall|i: int| 0 <= i < 13 ==> #[trigger] out@[i] == prefix_sum(input@, i),
{
    let mut out = [0u32; 13];
    let mut i: usize = 1;
    proof {
        assert(out@[0] == 0);
    }
    while i < 13
        invariant
            1 <= i <= 13,
            out@.len() == 13,
            prefix_sum(input@, 12) <= u32::MAX,
            input@.len() == 12,
            forall|j: int| 0 <= j < i ==> #[trigger] out@[j] == prefix_sum(input@, j),
        decreases 13 - i,
    {
        proof {
            lemma_prefix_sum_monotone(input@, i as int, 12);
        }
        let v = out[i - 1] + input[i - 1];
        out[i] = v;
        i = i + 1;
    }
    out
}

/// Prefix sums of unsigned entries grow with the prefix.
pub proof fn lemma_prefix_sum_monotone(s: Seq<u32>, a: int, b: int)
    requires
        0 <= a <= b,
    ensures
        prefix_sum(s, a) <= prefix_sum(s, b),
    decreases b - a,
{
    if a < b {
        lemma_prefix_sum_monotone(s, a, b - 1);
    }
}

} // verus!
