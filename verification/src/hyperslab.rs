//! The elements that a hyperslab selects: `count` elements along each
//! dimension, from `start`, every `stride`; the last dimension varies
//! fastest.
use vstd::prelude::*;

verus! {

/// The number of elements of the hyperslab: the product of the counts.
pub open spec fn product(c: Seq<usize>) -> int
    decreases c.len(),
{
    if c.len() == 0 {
        1
    } else {
        product(c.drop_last()) * c.last()
    }
}

/// The position of the `k`-th element along each dimension, as digits of a
/// number whose last digit varies fastest.
pub open spec fn digits(k: int, c: Seq<usize>) -> Seq<int>
    decreases c.len(),
{
    if c.len() == 0 {
        Seq::empty()
    } else {
        digits(k / (c.last() as int), c.drop_last()).push(k % (c.last() as int))
    }
}

/// The index, along each dimension, of the `k`-th element of the hyperslab.
pub open spec fn coords(start: Seq<usize>, count: Seq<usize>, stride: Seq<isize>, k: int) -> Seq<int> {
    Seq::new(count.len(), |d: int| start[d] + digits(k, count)[d] * stride[d])
}

/// Indices as integers.
pub open spec fn idx_view(v: Seq<usize>) -> Seq<int> {
    v.map_values(|x: usize| x as int)
}

pub proof fn lemma_product_nonneg(c: Seq<usize>)
    ensures
        product(c) >= 0,
    decreases c.len(),
{
    if c.len() > 0 {
        lemma_product_nonneg(c.drop_last());
        let p = product(c.drop_last());
        let l = c.last() as int;
        assert(p * l >= 0) by (nonlinear_arith)
            requires
                p >= 0,
                l >= 0,
        ;
    }
}

/// The digits of a number below the product have one digit per dimension,
/// each below its count.
pub proof fn lemma_digits_bounds(k: int, c: Seq<usize>)
    requires
        0 <= k < product(c),
    ensures
        digits(k, c).len() == c.len(),
        forall|d: int| 0 <= d < c.len() ==> 0 <= #[trigger] digits(k, c)[d] < c[d],
    decreases c.len(),
{
    if c.len() > 0 {
        let l = c.last() as int;
        let p = product(c.drop_last());
        lemma_product_nonneg(c.drop_last());
        assert(l > 0) by (nonlinear_arith)
            requires
                0 <= k < p * l,
                p >= 0,
                l >= 0,
        ;
        assert(0 <= k / l < p) by (nonlinear_arith)
            requires
                0 <= k < p * l,
                l > 0,
        ;
        lemma_digits_bounds(k / l, c.drop_last());
        assert(0 <= k % l < l) by (nonlinear_arith)
            requires
                l > 0,
        ;
    }
}

/// Different numbers below the product have different digits.
pub proof fn lemma_digits_injective(k1: int, k2: int, c: Seq<usize>)
    requires
        0 <= k1 < product(c),
        0 <= k2 < product(c),
        digits(k1, c) == digits(k2, c),
    ensures
        k1 == k2,
    decreases c.len(),
{
    if c.len() > 0 {
        let l = c.last() as int;
        let p = product(c.drop_last());
        lemma_product_nonneg(c.drop_last());
        assert(l > 0) by (nonlinear_arith)
            requires
                0 <= k1 < p * l,
                p >= 0,
                l >= 0,
        ;
        assert(0 <= k1 / l < p && 0 <= k2 / l < p) by (nonlinear_arith)
            requires
                0 <= k1 < p * l,
                0 <= k2 < p * l,
                l > 0,
        ;
        let d1 = digits(k1, c);
        let d2 = digits(k2, c);
        assert(d1.drop_last() == digits(k1 / l, c.drop_last()));
        assert(d2.drop_last() == digits(k2 / l, c.drop_last()));
        assert(k1 % l == d1.last());
        assert(k2 % l == d2.last());
        lemma_digits_injective(k1 / l, k2 / l, c.drop_last());
        assert(k1 == (k1 / l) * l + k1 % l) by (nonlinear_arith)
            requires
                l > 0,
        ;
        assert(k2 == (k2 / l) * l + k2 % l) by (nonlinear_arith)
            requires
                l > 0,
        ;
    }
}

/// With positive strides, different elements of the hyperslab have different
/// indices.
pub proof fn lemma_coords_injective(
    start: Seq<usize>,
    count: Seq<usize>,
    stride: Seq<isize>,
    k1: int,
    k2: int,
)
    requires
        0 <= k1 < product(count),
        0 <= k2 < product(count),
        start.len() == count.len(),
        stride.len() == count.len(),
        forall|d: int| 0 <= d < stride.len() ==> #[trigger] stride[d] > 0,
        coords(start, count, stride, k1) == coords(start, count, stride, k2),
    ensures
        k1 == k2,
{
    lemma_digits_bounds(k1, count);
    lemma_digits_bounds(k2, count);
    let d1 = digits(k1, count);
    let d2 = digits(k2, count);
    assert forall|d: int| 0 <= d < count.len() implies d1[d] == d2[d] by {
        let a = coords(start, count, stride, k1)[d];
        let b = coords(start, count, stride, k2)[d];
        assert(a == start[d] + d1[d] * stride[d]);
        assert(b == start[d] + d2[d] * stride[d]);
        let s = stride[d] as int;
        let x = d1[d];
        let y = d2[d];
        assert(x == y) by (nonlinear_arith)
            requires
                x * s == y * s,
                s > 0,
        ;
    }
    assert(d1 =~= d2);
    lemma_digits_injective(k1, k2, count);
}

/// The indices of the `k`-th element of the hyperslab.
pub fn coords_of(start: &[usize], count: &[usize], stride: &[isize], lens: &[usize], k: usize) -> (r: Vec<usize>)
    requires
        start@.len() == count@.len(),
        stride@.len() == count@.len(),
        lens@.len() == count@.len(),
        0 <= k < product(count@),
        forall|d: int| 0 <= d < count@.len() ==> #[trigger] stride@[d] > 0,
        forall|d: int|
            0 <= d < count@.len() ==> start@[d] + (count@[d] - 1) * stride@[d] < #[trigger] lens@[d],
    ensures
        idx_view(r@) == coords(start@, count@, stride@, k as int),
{
    let n = count.len();
    let mut out: Vec<usize> = Vec::new();
    let mut i: usize = 0;
    while i < n
        invariant
            i <= n,
            n == count@.len(),
            out@.len() == i,
        decreases n - i,
    {
        out.push(0);
        i = i + 1;
    }
    proof {
        lemma_digits_bounds(k as int, count@);
    }
    let ghost all = digits(k as int, count@);
    let mut rem: usize = k;
    let mut m: usize = n;
    assert(count@.subrange(0, n as int) =~= count@);
    while m > 0
        invariant
            m <= n,
            n == count@.len(),
            start@.len() == n,
            stride@.len() == n,
            lens@.len() == n,
            out@.len() == n,
            all == digits(k as int, count@),
            all.len() == n,
            forall|d: int| 0 <= d < n ==> 0 <= #[trigger] all[d] < count@[d],
            forall|d: int| 0 <= d < n ==> #[trigger] stride@[d] > 0,
            forall|d: int| 0 <= d < n ==> start@[d] + (count@[d] - 1) * stride@[d] < #[trigger] lens@[d],
            digits(rem as int, count@.subrange(0, m as int)) == all.subrange(0, m as int),
            forall|d: int| m <= d < n ==> #[trigger] out@[d] as int == start@[d] + all[d] * stride@[d],
        decreases m,
    {
        let ghost pre = count@.subrange(0, m as int);
        let c = count[m - 1];
        proof {
            assert(pre.drop_last() =~= count@.subrange(0, m - 1));
            assert(pre.last() == c);
            assert(digits(rem as int, pre) == digits(rem as int / c as int, pre.drop_last()).push(rem as int % c as int));
            assert(all.subrange(0, m as int).last() == all[m - 1]);
            assert(all.subrange(0, m as int).drop_last() =~= all.subrange(0, m - 1));
        }
        let digit = rem % c;
        let ghost x = all[m - 1];
        let ghost s = stride@[m - 1] as int;
        let ghost cc = c as int;
        let ghost st = start@[m - 1] as int;
        let ghost ln = lens@[m - 1] as int;
        assert(x * s <= (cc - 1) * s) by (nonlinear_arith)
            requires
                0 <= x < cc,
                s > 0,
        ;
        assert(0 <= x * s) by (nonlinear_arith)
            requires
                0 <= x,
                s > 0,
        ;
        let step = digit * (stride[m - 1] as usize);
        out.set(m - 1, start[m - 1] + step);
        rem = rem / c;
        m = m - 1;
    }
    assert(out@.len() == n);
    assert(idx_view(out@) =~= coords(start@, count@, stride@, k as int));
    out
}

} // verus!
