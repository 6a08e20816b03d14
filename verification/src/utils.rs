//! Small numeric helpers: bounding a value, greatest common divisors, and the
//! choice of pairwise coprime delay lengths along a geometric progression.
use vstd::arithmetic::div_mod::{
    lemma_add_mod_noop, lemma_fundamental_div_mod, lemma_mod_self_0, lemma_mod_twice,
    lemma_mul_mod_noop_general, lemma_small_mod,
};
use vstd::prelude::*;
use vstd::std_specs::cmp::PartialOrdIs;
use vstd::std_specs::cmp::PartialOrdSpec;

verus! {

/// `v`, brought into the range from `lower_bound` to `higher_bound`: the lower
/// bound if `v` is below it, else the higher bound if `v` is above it, else
/// `v` itself.
pub open spec fn clamped<T: PartialOrd>(v: T, lower_bound: T, higher_bound: T) -> T {
    if v.is_lt(&lower_bound) {
        lower_bound
    } else if v.is_gt(&higher_bound) {
        higher_bound
    } else {
        v
    }
}

/// A range that a value is kept in, from `lowest` to `highest`.
#[derive(Clone, Copy, Debug)]
pub struct Bounds<T> {
    pub lowest: T,
    pub highest: T,
}

/// `stored` is `v` brought into `bounds`: it is `v` or one of the two bounds,
/// and for the types whose order is specified it is the lowest bound if `v`
/// is below it, else the highest bound if `v` is above it, else `v` itself.
pub open spec fn is_clamped<T: PartialOrd>(stored: T, v: T, bounds: Bounds<T>) -> bool {
    &&& stored == v || stored == bounds.lowest || stored == bounds.highest
    &&& T::obeys_partial_cmp_spec() ==> stored == clamped(v, bounds.lowest, bounds.highest)
}

/// `v`, brought into the range from `lower_bound` to `higher_bound`. Which of
/// the three it is can be told for the types whose order is specified; for
/// the others the result is still one of the three.
pub fn clamp<T>(v: T, lower_bound: T, higher_bound: T) -> (r: T) where T: PartialOrd
    ensures
        is_clamped(r, v, (Bounds { lowest: lower_bound, highest: higher_bound })),
{
    if v < lower_bound {
        lower_bound
    } else if v > higher_bound {
        higher_bound
    } else {
        v
    }
}

/// The greater of `a` and `b`; `b` where neither is greater.
pub fn max<T>(a: T, b: T) -> (r: T) where T: PartialOrd
    ensures
        r == a || r == b,
        T::obeys_partial_cmp_spec() ==> r == (if a.is_gt(&b) {
            a
        } else {
            b
        }),
{
    if a > b {
        a
    } else {
        b
    }
}

/// `d` divides `n`. Zero divides only zero.
pub open spec fn divides(d: nat, n: nat) -> bool {
    if d == 0 {
        n == 0
    } else {
        n % d == 0
    }
}

/// `d` divides both `a` and `b`.
pub open spec fn common_divisor(d: nat, a: nat, b: nat) -> bool {
    divides(d, a) && divides(d, b)
}

/// `g` is the greatest common divisor of `a` and `b`: a common divisor that
/// every common divisor divides.
pub open spec fn is_gcd(a: nat, b: nat, g: nat) -> bool {
    &&& common_divisor(g, a, b)
    &&& forall|d: nat| #[trigger] common_divisor(d, a, b) ==> divides(d, g)
}

/// `a` and `b` have no common divisor but one.
pub open spec fn are_coprime(a: nat, b: nat) -> bool {
    is_gcd(a, b, 1)
}

/// A divisor of a positive number is positive and no greater than it.
pub proof fn lemma_divisor_bounds(d: nat, n: nat)
    requires
        divides(d, n),
        n > 0,
    ensures
        1 <= d <= n,
{
    if d > n {
        lemma_small_mod(n, d);
    }
}

/// Two numbers have one greatest common divisor only.
pub proof fn lemma_gcd_unique(a: nat, b: nat, g: nat, h: nat)
    requires
        is_gcd(a, b, g),
        is_gcd(a, b, h),
    ensures
        g == h,
{
    assert(common_divisor(g, a, b) && common_divisor(h, a, b));
    assert(divides(g, h) && divides(h, g));
    if g > 0 && h > 0 {
        lemma_divisor_bounds(g, h);
        lemma_divisor_bounds(h, g);
    }
}

/// Every number divides zero, and every number divides itself.
pub proof fn lemma_divides_basics(d: nat)
    ensures
        divides(d, 0),
        divides(d, d),
{
    if d > 0 {
        lemma_small_mod(0, d);
        lemma_mod_self_0(d as int);
    }
}

/// The common divisors of `a` and `b` are those of `b` and the remainder of
/// `a` by `b`.
pub proof fn lemma_common_divisor_remainder(d: nat, a: nat, b: nat)
    requires
        b > 0,
    ensures
        common_divisor(d, a, b) == common_divisor(d, b, a % b),
{
    if d > 0 && divides(d, b) {
        let q = (a / b) as int;
        let r = (a % b) as int;
        let m = d as int;
        lemma_fundamental_div_mod(a as int, b as int);
        lemma_mul_mod_noop_general(b as int, q, m);
        assert((b * q) % m == 0) by {
            assert((b as int) % m == 0);
            assert(((b as int) % m) * q == 0) by (nonlinear_arith)
                requires
                    (b as int) % m == 0,
            ;
            lemma_small_mod(0, d);
        }
        lemma_add_mod_noop(b * q, r, m);
        lemma_mod_twice(r, m);
        lemma_small_mod(0, d);
        assert((a as int) % m == r % m);
    }
}

/// The greatest common divisor of `a` and `b`, by Euclid's algorithm. That of
/// zero and zero is zero.
pub fn gcd(a: u64, b: u64) -> (g: u64)
    ensures
        is_gcd(a as nat, b as nat, g as nat),
{
    let mut x: u64 = a;
    let mut y: u64 = b;
    if x < y {
        x = b;
        y = a;
    }
    while y != 0
        invariant
            forall|d: nat| #[trigger]
                common_divisor(d, a as nat, b as nat) == common_divisor(d, x as nat, y as nat),
        decreases y,
    {
        proof {
            assert forall|d: nat| #[trigger]
                common_divisor(d, a as nat, b as nat) == common_divisor(
                    d,
                    y as nat,
                    (x % y) as nat,
                ) by {
                lemma_common_divisor_remainder(d, x as nat, y as nat);
            }
        }
        let r: u64 = x % y;
        x = y;
        y = r;
    }
    proof {
        lemma_divides_basics(x as nat);
        assert(common_divisor(x as nat, x as nat, 0));
        assert forall|d: nat| #[trigger] common_divisor(d, a as nat, b as nat) implies divides(
            d,
            x as nat,
        ) by {
            assert(common_divisor(d, x as nat, y as nat));
        }
    }
    x
}

/// Whether `a` and `b` have no common divisor but one.
pub fn coprime(a: u64, b: u64) -> (r: bool)
    ensures
        r == are_coprime(a as nat, b as nat),
{
    let g: u64 = gcd(a, b);
    proof {
        if g != 1 && are_coprime(a as nat, b as nat) {
            lemma_gcd_unique(a as nat, b as nat, g as nat, 1);
        }
    }
    g == 1
}

/// `x` is coprime with every number of `series`.
pub open spec fn coprime_with_all(x: nat, series: Seq<u64>) -> bool {
    forall|i: int| 0 <= i < series.len() ==> are_coprime(#[trigger] series[i] as nat, x)
}

/// Whether `proposed` is coprime with every number of `series`.
pub fn coprime_with_series(proposed: u64, series: &[u64]) -> (r: bool)
    ensures
        r == coprime_with_all(proposed as nat, series@),
{
    let mut i: usize = 0;
    while i < series.len()
        invariant
            i <= series@.len(),
            forall|j: int| 0 <= j < i ==> are_coprime(#[trigger] series@[j] as nat, proposed as nat),
        decreases series@.len() - i,
    {
        if !coprime(series[i], proposed) {
            return false;
        }
        i += 1;
    }
    true
}

/// A ratio of two whole numbers, such as the growth of a progression.
#[derive(Clone, Copy, Debug, PartialEq, Eq, Structural)]
pub struct Ratio {
    pub numer: u64,
    pub denom: u64,
}

/// `value` times `factor`, cut down to a whole number.
pub open spec fn scaled(value: nat, factor: Ratio) -> nat {
    ((value * factor.numer) / (factor.denom as int)) as nat
}

/// `x` is the first number from `floor` upwards that is coprime with every
/// number of `series`.
pub open spec fn is_next_coprime(floor: nat, series: Seq<u64>, x: nat) -> bool {
    &&& floor <= x
    &&& coprime_with_all(x, series)
    &&& forall|y: nat| floor <= y < x ==> !#[trigger] coprime_with_all(y, series)
}

/// `s` begins with `start`, and each later number is the first one, from the
/// number before it times `factor` upwards, that is coprime with all the
/// numbers before it.
pub open spec fn is_progression(start: u64, factor: Ratio, s: Seq<u64>) -> bool {
    &&& s.len() > 0 ==> s[0] == start
    &&& forall|i: int|
        1 <= i < s.len() ==> factor.denom > 0 && is_next_coprime(
            scaled(s[i - 1] as nat, factor),
            s.take(i),
            (#[trigger] s[i]) as nat,
        )
}

/// Every two numbers of `s` at different places are coprime.
pub open spec fn pairwise_coprime(s: Seq<u64>) -> bool {
    forall|i: int, j: int|
        0 <= i < j < s.len() ==> are_coprime(#[trigger] s[i] as nat, #[trigger] s[j] as nat)
}

/// Each number of `s` is greater than the one before it.
pub open spec fn strictly_increasing(s: Seq<u64>) -> bool {
    forall|i: int, j: int| 0 <= i < j < s.len() ==> #[trigger] s[i] < #[trigger] s[j]
}

/// A progression stays one when it is cut short.
pub proof fn lemma_progression_prefix(start: u64, factor: Ratio, s: Seq<u64>, k: int)
    requires
        is_progression(start, factor, s),
        0 <= k <= s.len(),
    ensures
        is_progression(start, factor, s.take(k)),
{
    let p = s.take(k);
    assert forall|i: int| 1 <= i < p.len() implies factor.denom > 0 && is_next_coprime(
        scaled(p[i - 1] as nat, factor),
        p.take(i),
        (#[trigger] p[i]) as nat,
    ) by {
        assert(p.take(i) == s.take(i));
        assert(p[i] == s[i]);
    }
}

/// The start, the factor and the length determine a progression.
pub proof fn lemma_progression_unique(start: u64, factor: Ratio, s: Seq<u64>, t: Seq<u64>)
    requires
        is_progression(start, factor, s),
        is_progression(start, factor, t),
        s.len() == t.len(),
    ensures
        s == t,
    decreases s.len(),
{
    if s.len() >= 2 {
        let k = s.len() - 1;
        lemma_progression_prefix(start, factor, s, k);
        lemma_progression_prefix(start, factor, t, k);
        lemma_progression_unique(start, factor, s.take(k), t.take(k));
        assert(s[k - 1] == s.take(k)[k - 1]);
        assert(t[k - 1] == t.take(k)[k - 1]);
        let floor = scaled(s[k - 1] as nat, factor);
        assert(is_next_coprime(floor, s.take(k), s[k] as nat));
        assert(is_next_coprime(floor, s.take(k), t[k] as nat));
        assert(s[k] == t[k]);
        assert(s =~= s.take(k).push(s[k]));
        assert(t =~= t.take(k).push(t[k]));
    } else {
        assert(s =~= t);
    }
}

/// The numbers of a progression are pairwise coprime.
pub proof fn lemma_progression_coprime(start: u64, factor: Ratio, s: Seq<u64>)
    requires
        is_progression(start, factor, s),
    ensures
        pairwise_coprime(s),
{
    assert forall|i: int, j: int| 0 <= i < j < s.len() implies are_coprime(
        #[trigger] s[i] as nat,
        #[trigger] s[j] as nat,
    ) by {
        assert(coprime_with_all(s[j] as nat, s.take(j)));
        assert(s.take(j)[i] == s[i]);
    }
}

/// A number greater than one is not coprime with itself.
pub proof fn lemma_not_coprime_with_itself(a: nat)
    requires
        a >= 2,
    ensures
        !are_coprime(a, a),
{
    lemma_divides_basics(a);
    assert(common_divisor(a, a, a));
    lemma_small_mod(1, a);
}

/// Scaling by a factor of one or more does not make a number smaller.
pub proof fn lemma_scaled_grows(value: nat, factor: Ratio)
    requires
        factor.numer >= factor.denom > 0,
    ensures
        scaled(value, factor) >= value,
{
    let d = factor.denom as int;
    vstd::arithmetic::mul::lemma_mul_inequality(d, factor.numer as int, value as int);
    vstd::arithmetic::mul::lemma_mul_is_commutative(value as int, factor.numer as int);
    vstd::arithmetic::div_mod::lemma_div_is_ordered(d * value, value * factor.numer, d);
    vstd::arithmetic::div_mod::lemma_div_multiples_vanish(value as int, d);
}

/// A progression that starts at two or more and whose factor is one or more
/// is strictly increasing.
pub proof fn lemma_progression_increasing(start: u64, factor: Ratio, s: Seq<u64>)
    requires
        is_progression(start, factor, s),
        start >= 2,
        factor.numer >= factor.denom,
    ensures
        strictly_increasing(s),
        forall|i: int| 0 <= i < s.len() ==> #[trigger] s[i] >= 2,
    decreases s.len(),
{
    if s.len() >= 2 {
        let k = s.len() - 1;
        let p = s.take(k);
        lemma_progression_prefix(start, factor, s, k);
        lemma_progression_increasing(start, factor, p);
        assert(p[k - 1] == s[k - 1]);
        assert(is_next_coprime(scaled(s[k - 1] as nat, factor), s.take(k), s[k] as nat));
        assert(factor.denom > 0);
        lemma_scaled_grows(s[k - 1] as nat, factor);
        assert(are_coprime(p[k - 1] as nat, s[k] as nat));
        lemma_not_coprime_with_itself(s[k - 1] as nat);
        assert(s[k] > s[k - 1]);
        assert forall|i: int, j: int| 0 <= i < j < s.len() implies #[trigger] s[i] < #[trigger] s[j] by {
            assert(p[i] == s[i]);
            if j < k {
                assert(p[j] == s[j]);
            } else if i < k - 1 {
                assert(p[i] < p[k - 1]);
            }
        }
        assert forall|i: int| 0 <= i < s.len() implies #[trigger] s[i] >= 2 by {
            if i < k {
                assert(p[i] == s[i]);
            }
        }
    }
}

/// Only one is coprime with zero.
pub proof fn lemma_coprime_with_zero(x: nat)
    requires
        are_coprime(0, x),
    ensures
        x == 1,
{
    lemma_divides_basics(x);
    assert(common_divisor(x, 0, x));
    if x >= 2 {
        lemma_small_mod(1, x);
    }
}

/// Where no number can follow a progression, no longer progression exists.
proof fn lemma_progression_ends(start: u64, factor: Ratio, prefix: Seq<u64>, count: nat)
    requires
        is_progression(start, factor, prefix),
        1 <= prefix.len() < count,
        forall|x: u64|
            !(factor.denom > 0 && #[trigger] is_next_coprime(
                scaled(prefix.last() as nat, factor),
                prefix,
                x as nat,
            )),
    ensures
        forall|s: Seq<u64>| s.len() == count ==> !#[trigger] is_progression(start, factor, s),
{
    assert forall|s: Seq<u64>| s.len() == count implies !#[trigger] is_progression(
        start,
        factor,
        s,
    ) by {
        if is_progression(start, factor, s) {
            let k = prefix.len() as int;
            lemma_progression_prefix(start, factor, s, k);
            lemma_progression_unique(start, factor, s.take(k), prefix);
            assert(s[k - 1] == s.take(k)[k - 1]);
            assert(is_next_coprime(scaled(s[k - 1] as nat, factor), s.take(k), s[k] as nat));
            assert(factor.denom > 0);
            assert(is_next_coprime(scaled(prefix.last() as nat, factor), prefix, s[k] as nat));
        }
    }
}

/// `count` pairwise coprime numbers along a geometric progression: `start`,
/// and then each time the first number, from the one before it times `factor`
/// upwards, that is coprime with all the numbers chosen so far. `None` where
/// there is no such number that fits 64 bits (after a zero only a one can
/// follow) or the factor has a denominator of zero.
pub fn coprime_with_progression(start: u64, factor: Ratio, count: usize) -> (r: Option<Vec<u64>>)
    ensures
        match r {
            Some(series) => series@.len() == count && is_progression(start, factor, series@),
            None => forall|s: Seq<u64>|
                s.len() == count ==> !#[trigger] is_progression(start, factor, s),
        },
        r matches Some(series) ==> pairwise_coprime(series@),
        start >= 2 && factor.numer >= factor.denom ==> (r matches Some(series)
            ==> strictly_increasing(series@)),
{
    let mut series: Vec<u64> = Vec::with_capacity(count);
    if count == 0 {
        proof {
            lemma_progression_coprime(start, factor, series@);
        }
        return Some(series);
    }
    series.push(start);
    let mut has_zero: bool = start == 0;
    while series.len() < count
        invariant
            1 <= series@.len() <= count,
            is_progression(start, factor, series@),
            has_zero == (exists|i: int| 0 <= i < series@.len() && series@[i] == 0),
        decreases count - series@.len(),
    {
        if factor.denom == 0 {
            proof {
                lemma_progression_ends(start, factor, series@, count as nat);
            }
            return None;
        }
        let last: u64 = series[series.len() - 1];
        assert(last * factor.numer <= u128::MAX) by (nonlinear_arith)
            requires
                last <= u64::MAX,
                factor.numer <= u64::MAX,
        ;
        let wide: u128 = (last as u128) * (factor.numer as u128) / (factor.denom as u128);
        let ghost floor = scaled(last as nat, factor);
        assert(wide == floor);
        if wide > u64::MAX as u128 {
            proof {
                lemma_progression_ends(start, factor, series@, count as nat);
            }
            return None;
        }
        let mut current: u64 = wide as u64;
        if has_zero && current >= 2 {
            proof {
                let at = choose|i: int| 0 <= i < series@.len() && series@[i] == 0;
                assert forall|x: u64|
                    !(factor.denom > 0 && #[trigger] is_next_coprime(
                        scaled(series@.last() as nat, factor),
                        series@,
                        x as nat,
                    )) by {
                    if coprime_with_all(x as nat, series@) {
                        assert(are_coprime(series@[at] as nat, x as nat));
                        lemma_coprime_with_zero(x as nat);
                    }
                }
                lemma_progression_ends(start, factor, series@, count as nat);
            }
            return None;
        }
        while !coprime_with_series(current, series.as_slice())
            invariant
                floor <= current,
                forall|y: nat| floor <= y < current ==> !#[trigger] coprime_with_all(y, series@),
                1 <= series@.len() < count,
                is_progression(start, factor, series@),
                floor == scaled(series@.last() as nat, factor),
                factor.denom > 0,
            decreases u64::MAX - current,
        {
            if current == u64::MAX {
                proof {
                    lemma_progression_ends(start, factor, series@, count as nat);
                }
                return None;
            }
            current += 1;
        }
        let ghost before = series@;
        series.push(current);
        if current == 0 {
            has_zero = true;
        }
        proof {
            if exists|i: int| 0 <= i < before.len() && before[i] == 0 {
                let at = choose|i: int| 0 <= i < before.len() && before[i] == 0;
                assert(series@[at] == 0);
            }
            if current == 0 {
                assert(series@[before.len() as int] == 0);
            }
            if exists|i: int| 0 <= i < series@.len() && series@[i] == 0 {
                let at = choose|i: int| 0 <= i < series@.len() && series@[i] == 0;
                if at < before.len() {
                    assert(before[at] == 0);
                }
            }
            assert(series@.take(before.len() as int) == before);
            assert forall|i: int| 1 <= i < series@.len() implies factor.denom > 0
                && is_next_coprime(
                scaled(series@[i - 1] as nat, factor),
                series@.take(i),
                (#[trigger] series@[i]) as nat,
            ) by {
                if i < before.len() {
                    assert(series@.take(i) == before.take(i));
                    assert(series@[i] == before[i]);
                }
            }
        }
    }
    proof {
        lemma_progression_coprime(start, factor, series@);
        if start >= 2 && factor.numer >= factor.denom {
            lemma_progression_increasing(start, factor, series@);
        }
    }
    Some(series)
}

} // verus!
