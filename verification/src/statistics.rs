//! Mean and population standard deviation of a sequence of raw values.

use vstd::prelude::*;
use vstd::arithmetic::div_mod::lemma_fundamental_div_mod_converse;
use crate::fixed::{abs_wide, floor_sqrt, is_floor_sqrt, isqrt, lemma_floor_sqrt_unique, magnitude};

verus! {

/// The sum of the values of `s`.
pub open spec fn sum(s: Seq<i64>) -> int
    decreases s.len(),
{
    if s.len() == 0 {
        0
    } else {
        sum(s.drop_last()) + s.last()
    }
}

/// The arithmetic mean of a non-empty `s`, rounded down.
pub open spec fn mean_of(s: Seq<i64>) -> int {
    sum(s) / (s.len() as int)
}

/// The sum of the squared distances of the values of `s` from `center`.
pub open spec fn sum_sq_dev(s: Seq<i64>, center: int) -> int
    decreases s.len(),
{
    if s.len() == 0 {
        0
    } else {
        sum_sq_dev(s.drop_last(), center) + (s.last() - center) * (s.last() - center)
    }
}

/// The population variance of a non-empty `s` about its rounded mean: the
/// squared distances are divided by the count, and the quotient is rounded
/// down.
pub open spec fn variance_of(s: Seq<i64>) -> int {
    sum_sq_dev(s, mean_of(s)) / (s.len() as int)
}

/// The population standard deviation of a non-empty `s`, rounded down.
pub open spec fn std_deviation_of(s: Seq<i64>) -> int {
    floor_sqrt(variance_of(s))
}

/// The sum of `s` lies between its length times the least and the greatest
/// 64-bit value.
pub proof fn lemma_sum_bounds(s: Seq<i64>)
    ensures
        s.len() * i64::MIN <= sum(s) <= s.len() * i64::MAX,
    decreases s.len(),
{
    if s.len() > 0 {
        lemma_sum_bounds(s.drop_last());
        assert((s.len() - 1) * i64::MIN + i64::MIN == s.len() * i64::MIN) by (nonlinear_arith);
        assert((s.len() - 1) * i64::MAX + i64::MAX == s.len() * i64::MAX) by (nonlinear_arith);
    }
}

/// The rounded mean of a non-empty sequence is itself a 64-bit value.
pub proof fn lemma_mean_fits(s: Seq<i64>)
    requires
        s.len() > 0,
    ensures
        i64::MIN <= mean_of(s) <= i64::MAX,
{
    lemma_sum_bounds(s);
    let n = s.len() as int;
    let t = sum(s);
    assert(i64::MIN <= t / n <= i64::MAX) by (nonlinear_arith)
        requires
            n > 0,
            n * i64::MIN <= t <= n * i64::MAX,
    ;
}

/// Computes the arithmetic mean of `data`, rounded down; an empty input has
/// no mean.
pub fn mean(data: &Vec<i64>) -> (r: Option<i64>)
    ensures
        data@.len() == 0 <==> r is None,
        data@.len() > 0 ==> r == Some(mean_of(data@) as i64) && r->0 == mean_of(data@),
{
    let count: usize = data.len();
    if count == 0 {
        return None;
    }
    let mut total: i128 = 0;
    let mut i: usize = 0;
    while i < count
        invariant
            count == data@.len(),
            0 <= i <= count,
            total == sum(data@.take(i as int)),
        decreases count - i,
    {
        proof {
            lemma_sum_bounds(data@.take(i as int));
            assert(data@.take(i + 1).drop_last() =~= data@.take(i as int));
            assert(i * i64::MIN >= 0xffff_ffff_ffff_ffff * i64::MIN) by (nonlinear_arith)
                requires
                    0 <= i <= 0xffff_ffff_ffff_ffff,
            ;
            assert(i * i64::MAX <= 0xffff_ffff_ffff_ffff * i64::MAX) by (nonlinear_arith)
                requires
                    0 <= i <= 0xffff_ffff_ffff_ffff,
            ;
        }
        total = total + data[i] as i128;
        i = i + 1;
    }
    proof {
        assert(data@.take(count as int) =~= data@);
        lemma_sum_bounds(data@);
        lemma_mean_fits(data@);
        assert(count * i64::MIN >= 0xffff_ffff_ffff_ffff * i64::MIN) by (nonlinear_arith)
            requires
                0 <= count <= 0xffff_ffff_ffff_ffff,
        ;
        assert(count * i64::MAX <= 0xffff_ffff_ffff_ffff * i64::MAX) by (nonlinear_arith)
            requires
                0 <= count <= 0xffff_ffff_ffff_ffff,
        ;
    }
    let n: i128 = count as i128;
    if total >= 0 {
        Some((total / n) as i64)
    } else {
        let t: i128 = -total;
        let q: i128 = t / n;
        let rem: i128 = t % n;
        proof {
            assert(t == n * q + rem && 0 <= rem < n && q <= t) by (nonlinear_arith)
                requires
                    q == t / n,
                    rem == t % n,
                    n > 0,
                    t >= 0,
            ;
        }
        if rem == 0 {
            proof {
                assert(total == (-q) * n + 0) by (nonlinear_arith)
                    requires
                        t == n * q + rem,
                        rem == 0,
                        t == -total,
                ;
                lemma_fundamental_div_mod_converse(total as int, n as int, -q, 0);
            }
            Some((-q) as i64)
        } else {
            proof {
                assert(total == (-q - 1) * n + (n - rem)) by (nonlinear_arith)
                    requires
                        t == n * q + rem,
                        t == -total,
                ;
                lemma_fundamental_div_mod_converse(total as int, n as int, -q - 1, n - rem);
            }
            Some((-q - 1) as i64)
        }
    }
}

/// The largest squared distance between two 64-bit values.
pub open spec fn max_sq_dev() -> int {
    0xffff_ffff_ffff_ffffint * 0xffff_ffff_ffff_ffffint
}

/// The squared distances of `s` from a 64-bit `center` sum to at most the
/// length of `s` times the largest squared distance.
pub proof fn lemma_sum_sq_dev_bounds(s: Seq<i64>, center: i64)
    ensures
        0 <= sum_sq_dev(s, center as int) <= s.len() * max_sq_dev(),
    decreases s.len(),
{
    if s.len() > 0 {
        lemma_sum_sq_dev_bounds(s.drop_last(), center);
        let d = s.last() - center;
        assert(0 <= d * d <= max_sq_dev()) by (nonlinear_arith)
            requires
                -0xffff_ffff_ffff_ffff <= d <= 0xffff_ffff_ffff_ffff,
                max_sq_dev() == 0xffff_ffff_ffff_ffff * 0xffff_ffff_ffff_ffff,
        ;
        assert((s.len() - 1) * max_sq_dev() + max_sq_dev() == s.len() * max_sq_dev())
            by (nonlinear_arith);
    }
}

/// Computes the population standard deviation of `data`, rounded down; an
/// empty input has none. The squared distances are taken from the rounded
/// mean and divided by the count, not by one less.
pub fn std_deviation(data: &Vec<i64>) -> (r: Option<u64>)
    ensures
        data@.len() == 0 <==> r is None,
        data@.len() > 0 ==> r == Some(std_deviation_of(data@) as u64) && r->0
            == std_deviation_of(data@),
{
    let center: i64 = match mean(data) {
        None => {
            return None;
        },
        Some(m) => m,
    };
    let count: usize = data.len();
    let n: u128 = count as u128;
    let mut quot: u128 = 0;
    let mut rem: u128 = 0;
    let mut i: usize = 0;
    while i < count
        invariant
            count == data@.len(),
            n == count,
            0 <= i <= count,
            center == mean_of(data@),
            0 <= rem < n,
            quot * n + rem == sum_sq_dev(data@.take(i as int), center as int),
        decreases count - i,
    {
        let d: i128 = data[i] as i128 - center as i128;
        let a: u128 = abs_wide(d);
        proof {
            lemma_sum_sq_dev_bounds(data@.take(i as int), center);
            lemma_sum_sq_dev_bounds(data@.take(i + 1), center);
            assert(data@.take(i + 1).drop_last() =~= data@.take(i as int));
            assert(a * a == d * d && a * a <= max_sq_dev()) by (nonlinear_arith)
                requires
                    a == magnitude(d as int),
                    -0xffff_ffff_ffff_ffff <= d <= 0xffff_ffff_ffff_ffff,
                    max_sq_dev() == 0xffff_ffff_ffff_ffff * 0xffff_ffff_ffff_ffff,
            ;
            assert((i + 1) * max_sq_dev() <= n * max_sq_dev()) by (nonlinear_arith)
                requires
                    i + 1 <= n,
                    max_sq_dev() >= 0,
            ;
        }
        let sq: u128 = a * a;
        let step_quot: u128 = sq / n;
        let step_rem: u128 = sq % n;
        proof {
            let next = sum_sq_dev(data@.take(i + 1), center as int);
            assert(next == quot * n + rem + sq);
            assert(sq == n * step_quot + step_rem && 0 <= step_rem < n) by (nonlinear_arith)
                requires
                    step_quot == sq / n,
                    step_rem == sq % n,
                    n > 0,
            ;
            assert((quot + step_quot) * n + (rem + step_rem) == next) by (nonlinear_arith)
                requires
                    next == quot * n + rem + sq,
                    sq == n * step_quot + step_rem,
            ;
            assert(quot + step_quot + 1 <= max_sq_dev() || (quot + step_quot <= max_sq_dev() && rem
                + step_rem < n)) by (nonlinear_arith)
                requires
                    (quot + step_quot) * n + (rem + step_rem) == next,
                    next <= n * max_sq_dev(),
                    0 <= rem + step_rem,
                    n > 0,
            ;
        }
        quot = quot + step_quot;
        rem = rem + step_rem;
        if rem >= n {
            rem = rem - n;
            quot = quot + 1;
            assert(quot * n + rem == sum_sq_dev(data@.take(i + 1), center as int))
                by (nonlinear_arith)
                requires
                    (quot - 1) * n + (rem + n) == sum_sq_dev(data@.take(i + 1), center as int),
            ;
        }
        i = i + 1;
    }
    proof {
        assert(data@.take(count as int) =~= data@);
        lemma_fundamental_div_mod_converse(
            sum_sq_dev(data@, center as int),
            n as int,
            quot as int,
            rem as int,
        );
    }
    Some(isqrt(quot))
}

/// A sequence whose every value is `c` sums to its length times `c`, and its
/// squared distances from `c` sum to zero.
pub proof fn lemma_constant_sums(s: Seq<i64>, c: i64)
    requires
        forall|i: int| 0 <= i < s.len() ==> s[i] == c,
    ensures
        sum(s) == s.len() * c,
        sum_sq_dev(s, c as int) == 0,
    decreases s.len(),
{
    if s.len() > 0 {
        lemma_constant_sums(s.drop_last(), c);
        assert((s.len() - 1) * c + c == s.len() * c) by (nonlinear_arith);
        let d = s.last() - c;
        assert(d * d == 0) by (nonlinear_arith)
            requires
                d == 0,
        ;
    }
}

/// The population standard deviation of a non-empty constant sequence is
/// exactly zero, and its mean is the constant.
pub proof fn lemma_constant_has_no_deviation(s: Seq<i64>, c: i64)
    requires
        s.len() > 0,
        forall|i: int| 0 <= i < s.len() ==> s[i] == c,
    ensures
        mean_of(s) == c,
        variance_of(s) == 0,
        std_deviation_of(s) == 0,
{
    lemma_constant_sums(s, c);
    let n = s.len() as int;
    assert(sum(s) == c * n + 0) by (nonlinear_arith)
        requires
            sum(s) == n * c,
    ;
    lemma_fundamental_div_mod_converse(sum(s), n, c as int, 0);
    lemma_fundamental_div_mod_converse(0, n, 0, 0);
    assert(is_floor_sqrt(0, 0)) by (nonlinear_arith);
    lemma_floor_sqrt_unique(0, 0, floor_sqrt(0));
}

} // verus!
