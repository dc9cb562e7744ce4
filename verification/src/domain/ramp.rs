//! A ramp stays between its targets.
use crate::domain::load::{
    greatest_target, greatest_target_is_greatest, held64, load_from, nearest, progress, ramp,
    rounded, scaled_down, scaled_up, shifted, stage_clients, stage_ms, times, to_whole, total_secs,
    total_secs_grows, Dyadic, LoadStage,
};
use vstd::arithmetic::power2::{
    lemma2_to64, lemma_pow2_adds, lemma_pow2_pos, lemma_pow2_unfold, pow2,
};
use vstd::prelude::*;

verus! {

/// The part of an exponent that is above zero.
spec fn above(e: int) -> nat {
    if e >= 0 {
        e as nat
    } else {
        0
    }
}

/// The part of an exponent that is below zero.
spec fn below(e: int) -> nat {
    if e >= 0 {
        0
    } else {
        (-e) as nat
    }
}

/// Two to a power, as a number that may be multiplied with any other.
spec fn two(k: nat) -> int {
    pow2(k) as int
}

proof fn two_sums(a: nat, b: nat)
    ensures
        two(a + b) == two(a) * two(b),
        two(a) > 0,
        two(b) > 0,
        two(a + b) > 0,
{
    lemma_pow2_adds(a, b);
    lemma_pow2_pos(a);
    lemma_pow2_pos(b);
    lemma_pow2_pos(a + b);
}

proof fn one_times(n: int)
    ensures
        n * two(0) == n,
{
    lemma2_to64();
    assert(n * two(0) == n) by (nonlinear_arith)
        requires
            two(0) == 1,
    ;
}

proof fn up_shape(num: int, den: int, e: int) -> (c: nat)
    requires
        num > 0,
        den > 0,
    ensures
        scaled_up(num, den, e) == (num * two(c), e - c),
        num * two(c) >= den * 0x10_0000_0000_0000,
        c > 0 ==> num * two(c) < den * 0x20_0000_0000_0000,
    decreases den * 0x20_0000_0000_0000 - num,
{
    one_times(num);
    one_times(2 * num);
    if num >= den * 0x10_0000_0000_0000 {
        0
    } else {
        let c = up_shape(2 * num, den, e - 1);
        lemma_pow2_unfold(c + 1);
        assert((2 * num) * two(c) == num * two(c + 1)) by (nonlinear_arith)
            requires
                two(c + 1) == 2 * two(c),
        ;
        c + 1
    }
}

proof fn down_shape(num: int, den: int, e: int) -> (k: nat)
    requires
        den > 0,
        num >= den * 0x10_0000_0000_0000,
    ensures
        scaled_down(num, den, e) == (den * two(k), e + k),
        den * two(k) * 0x10_0000_0000_0000 <= num < den * two(k) * 0x20_0000_0000_0000,
        num < den * 0x20_0000_0000_0000 ==> k == 0,
    decreases num - den,
{
    one_times(den);
    if num < den * 0x20_0000_0000_0000 {
        0
    } else {
        let k = down_shape(num, 2 * den, e + 1);
        lemma_pow2_unfold(k + 1);
        assert((2 * den) * two(k) == den * two(k + 1)) by (nonlinear_arith)
            requires
                two(k + 1) == 2 * two(k),
        ;
        k + 1
    }
}

/// What a rounded ratio is: the whole number nearest to the ratio, scaled to 53 digits.
proof fn rounded_shape(num: int, den: int)
    requires
        num > 0,
        den > 0,
    ensures
        ({
            let r = rounded(num, den);
            let n = num * two(below(r.e));
            let d = den * two(above(r.e));
            &&& r.m == nearest(n, d)
            &&& d > 0
            &&& d * 0x10_0000_0000_0000 <= n < d * 0x20_0000_0000_0000
            &&& r.m >= 0x10_0000_0000_0000
            &&& r.m <= 0x20_0000_0000_0000
        }),
{
    let c = up_shape(num, den, 0);
    let n = num * two(c);
    let k = down_shape(n, den, -(c as int));
    let d = den * two(k);
    let r = rounded(num, den);
    assert(r.m == nearest(n, d) && r.e == k - c);
    if c > 0 {
        assert(k == 0);
    }
    assert(below(r.e) == c && above(r.e) == k);
    lemma_pow2_pos(k);
    assert(d > 0) by (nonlinear_arith)
        requires
            d == den * two(k),
            den > 0,
            two(k) > 0,
    ;
    nearest_is_within(n, d, 0x10_0000_0000_0000, 0x20_0000_0000_0000);
}

/// Rounding to a whole number does not pass a whole number.
proof fn nearest_is_within(n: int, d: int, low: int, high: int)
    requires
        d > 0,
    ensures
        d * low <= n ==> low <= nearest(n, d),
        n <= d * high ==> nearest(n, d) <= high,
{
    let q = n / d;
    let r = n % d;
    assert(n == q * d + r && 0 <= r < d) by (nonlinear_arith)
        requires
            d > 0,
            q == n / d,
            r == n % d,
    ;
    if d * low <= n {
        assert(low <= q) by (nonlinear_arith)
            requires
                d * low <= n,
                n == q * d + r,
                0 <= r < d,
                d > 0,
        ;
    }
    if n <= d * high {
        assert(q <= high && (q == high ==> r == 0)) by (nonlinear_arith)
            requires
                n <= d * high,
                n == q * d + r,
                0 <= r < d,
                d > 0,
        ;
    }
}

proof fn nearest_grows(a: int, b: int, d: int)
    requires
        d > 0,
        a <= b,
    ensures
        nearest(a, d) <= nearest(b, d),
{
    let qa = a / d;
    let ra = a % d;
    let qb = b / d;
    let rb = b % d;
    assert(a == qa * d + ra && 0 <= ra < d && b == qb * d + rb && 0 <= rb < d) by (nonlinear_arith)
        requires
            d > 0,
            qa == a / d,
            ra == a % d,
            qb == b / d,
            rb == b % d,
    ;
    assert(qa <= qb && (qa == qb ==> ra <= rb)) by (nonlinear_arith)
        requires
            a <= b,
            a == qa * d + ra,
            b == qb * d + rb,
            0 <= ra < d,
            0 <= rb < d,
            d > 0,
    ;
}

/// A ratio that is at most `w * 2^s / 2^t` is so after rounding.
proof fn rounding_keeps_upper(num: int, den: int, w: int, s: nat, t: nat)
    requires
        num > 0,
        den > 0,
        0 < w < 0x20_0000_0000_0000,
        num * two(t) <= den * w * two(s),
    ensures
        rounded(num, den).m * two(above(rounded(num, den).e) + t) <= w * two(
            s + below(rounded(num, den).e),
        ),
{
    rounded_shape(num, den);
    let r = rounded(num, den);
    let c = below(r.e);
    let k = above(r.e);
    let n = num * two(c);
    let d = den * two(k);
    two_sums(k, t);
    two_sums(s, c);
    let left = k + t;
    let right = s + c;
    assert(n * two(left) <= d * (w * two(right))) by (nonlinear_arith)
        requires
            n == num * two(c),
            d == den * two(k),
            two(left) == two(k) * two(t),
            two(right) == two(s) * two(c),
            num * two(t) <= den * w * two(s),
            two(c) > 0,
            two(k) > 0,
    ;
    if right >= left {
        let more = (right - left) as nat;
        two_sums(left, more);
        let whole = w * two(more);
        assert(n <= d * whole) by (nonlinear_arith)
            requires
                n * two(left) <= d * (w * two(right)),
                two(right) == two(left) * two(more),
                whole == w * two(more),
                two(left) > 0,
        ;
        nearest_is_within(n, d, 0, whole);
        assert(r.m * two(left) <= w * two(right)) by (nonlinear_arith)
            requires
                r.m <= whole,
                whole == w * two(more),
                two(right) == two(left) * two(more),
                two(left) > 0,
        ;
    } else {
        let more = (left - right) as nat;
        two_sums(right, more);
        lemma_pow2_unfold(more);
        lemma_pow2_pos((more - 1) as nat);
        assert(two(more) >= 2);
        assert(false) by (nonlinear_arith)
            requires
                n * two(left) <= d * (w * two(right)),
                two(left) == two(right) * two(more),
                two(right) > 0,
                two(more) >= 2,
                d * 0x10_0000_0000_0000 <= n,
                d > 0,
                0 < w < 0x20_0000_0000_0000,
        {
            let p = two(right);
            assert(n * two(more) * p == n * two(left));
            assert(d * w * p == d * (w * p));
            assert(n * two(more) <= d * w);
            assert(n * two(more) >= n * 2) by (nonlinear_arith)
                requires
                    two(more) >= 2,
                    n >= 0,
            ;
            assert(d * w < d * 0x20_0000_0000_0000);
        }
    }
}

/// A ratio that is at least `w * 2^s / 2^t` is so after rounding.
proof fn rounding_keeps_lower(num: int, den: int, w: int, s: nat, t: nat)
    requires
        num > 0,
        den > 0,
        0 < w < 0x20_0000_0000_0000,
        num * two(t) >= den * w * two(s),
    ensures
        rounded(num, den).m * two(above(rounded(num, den).e) + t) >= w * two(
            s + below(rounded(num, den).e),
        ),
{
    rounded_shape(num, den);
    let r = rounded(num, den);
    let c = below(r.e);
    let k = above(r.e);
    let n = num * two(c);
    let d = den * two(k);
    two_sums(k, t);
    two_sums(s, c);
    let left = k + t;
    let right = s + c;
    assert(n * two(left) >= d * (w * two(right))) by (nonlinear_arith)
        requires
            n == num * two(c),
            d == den * two(k),
            two(left) == two(k) * two(t),
            two(right) == two(s) * two(c),
            num * two(t) >= den * w * two(s),
            two(c) > 0,
            two(k) > 0,
    ;
    if right >= left {
        let more = (right - left) as nat;
        two_sums(left, more);
        let whole = w * two(more);
        assert(n >= d * whole) by (nonlinear_arith)
            requires
                n * two(left) >= d * (w * two(right)),
                two(right) == two(left) * two(more),
                whole == w * two(more),
                two(left) > 0,
        ;
        nearest_is_within(n, d, whole, 0);
        assert(r.m * two(left) >= w * two(right)) by (nonlinear_arith)
            requires
                r.m >= whole,
                whole == w * two(more),
                two(right) == two(left) * two(more),
                two(left) > 0,
        ;
    } else {
        let more = (left - right) as nat;
        two_sums(right, more);
        lemma_pow2_unfold(more);
        lemma_pow2_pos((more - 1) as nat);
        assert(two(more) >= 2);
        assert(r.m * two(more) >= r.m * 2) by (nonlinear_arith)
            requires
                two(more) >= 2,
                r.m >= 0,
        ;
        assert(r.m * two(left) >= w * two(right)) by (nonlinear_arith)
            requires
                r.m * two(more) >= w,
                two(left) == two(right) * two(more),
                two(right) > 0,
        ;
    }
}

/// A greater whole number is not less after rounding.
proof fn rounding_grows(a: int, b: int)
    requires
        0 < a <= b,
    ensures
        rounded(a, 1).m * two(above(rounded(a, 1).e) + below(rounded(b, 1).e)) <= rounded(b, 1).m
            * two(above(rounded(b, 1).e) + below(rounded(a, 1).e)),
{
    rounded_shape(a, 1);
    rounded_shape(b, 1);
    let x = rounded(a, 1);
    let y = rounded(b, 1);
    let unit = 0x10_0000_0000_0000int;
    two_sums(above(x.e), below(y.e));
    two_sums(above(y.e), below(x.e));
    assert(1 * two(above(x.e)) == two(above(x.e)));
    assert(1 * two(above(y.e)) == two(above(y.e)));
    let left = above(x.e) + below(y.e);
    let right = above(y.e) + below(x.e);
    assert(left - right == x.e - y.e);
    if x.e == y.e {
        assert(a * two(below(x.e)) <= b * two(below(x.e))) by (nonlinear_arith)
            requires
                a <= b,
                two(below(x.e)) > 0,
        ;
        nearest_grows(a * two(below(x.e)), b * two(below(x.e)), two(above(x.e)));
        assert(x.m * two(left) <= y.m * two(right)) by (nonlinear_arith)
            requires
                x.m <= y.m,
                two(left) == two(right),
                two(left) > 0,
        ;
    } else if x.e < y.e {
        let more = (right - left) as nat;
        two_sums(left, more);
        lemma_pow2_unfold(more);
        lemma_pow2_pos((more - 1) as nat);
        assert(two(more) >= 2);
        assert(x.m * two(left) <= y.m * two(right)) by (nonlinear_arith)
            requires
                x.m <= 2 * unit,
                y.m >= unit,
                unit > 0,
                two(right) == two(left) * two(more),
                two(more) >= 2,
                two(left) > 0,
        {
            assert(y.m * two(more) >= unit * 2) by (nonlinear_arith)
                requires
                    y.m >= unit,
                    unit > 0,
                    two(more) >= 2,
            ;
            assert(y.m * two(right) == y.m * two(more) * two(left));
        }
    } else {
        let more = (left - right) as nat;
        two_sums(right, more);
        lemma_pow2_unfold(more);
        lemma_pow2_pos((more - 1) as nat);
        assert(two(more) >= 2);
        let p = two(above(x.e)) * two(below(y.e));
        let q = two(above(y.e)) * two(below(x.e));
        assert(p * unit <= a * (two(below(x.e)) * two(below(y.e)))) by (nonlinear_arith)
            requires
                two(above(x.e)) * unit <= a * two(below(x.e)),
                p == two(above(x.e)) * two(below(y.e)),
                two(below(y.e)) > 0,
        ;
        assert(b * (two(below(x.e)) * two(below(y.e))) < q * (2 * unit)) by (nonlinear_arith)
            requires
                b * two(below(y.e)) < two(above(y.e)) * (2 * unit),
                q == two(above(y.e)) * two(below(x.e)),
                two(below(x.e)) > 0,
        ;
        assert(a * (two(below(x.e)) * two(below(y.e))) <= b * (two(below(x.e)) * two(below(y.e))))
            by (nonlinear_arith)
            requires
                a <= b,
                two(below(x.e)) > 0,
                two(below(y.e)) > 0,
        ;
        assert(p >= 2 * q) by (nonlinear_arith)
            requires
                p == q * two(more),
                two(more) >= 2,
                q > 0,
        ;
    }
}

/// A power of two on both sides of a bound is taken away.
proof fn bound_is_reduced(m: int, left: nat, w: int, right: nat)
    requires
        m * two(left) <= w * two(right),
        0 < w < m,
    ensures
        left < right,
        m <= w * two((right - left) as nat),
{
    if right <= left {
        let more = (left - right) as nat;
        two_sums(right, more);
        assert(false) by (nonlinear_arith)
            requires
                m * two(left) <= w * two(right),
                two(left) == two(right) * two(more),
                two(right) > 0,
                two(more) > 0,
                0 < w < m,
        {
            assert(m * two(more) * two(right) <= w * two(right));
            assert(m * two(more) <= w);
            assert(m * two(more) >= m) by (nonlinear_arith)
                requires
                    two(more) > 0,
                    m > 0,
            ;
        }
    } else {
        let more = (right - left) as nat;
        two_sums(left, more);
        assert(m <= w * two(more)) by (nonlinear_arith)
            requires
                m * two(left) <= w * two(right),
                two(right) == two(left) * two(more),
                two(left) > 0,
        ;
    }
}

proof fn lower_bound_is_reduced(m: int, left: nat, w: int, right: nat)
    requires
        m * two(left) >= w * two(right),
        left < right,
    ensures
        m >= w * two((right - left) as nat),
{
    let more = (right - left) as nat;
    two_sums(left, more);
    assert(m >= w * two(more)) by (nonlinear_arith)
        requires
            m * two(left) >= w * two(right),
            two(right) == two(left) * two(more),
            two(left) > 0,
    ;
}

/// Within the duration of a ramp its progress is positive and at most one.
proof fn progress_is_at_most_one(elapsed: int, duration: int)
    requires
        0 < elapsed <= duration,
    ensures
        ({
            let x = progress(elapsed, duration);
            &&& x.e < 0
            &&& 0 < x.m <= two((-x.e) as nat)
        }),
{
    let a = rounded(elapsed, 1);
    let d = rounded(duration, 1);
    rounded_shape(elapsed, 1);
    rounded_shape(duration, 1);
    rounding_grows(elapsed, duration);
    let t = above(a.e) + below(d.e);
    let s = above(d.e) + below(a.e);
    assert(d.m * 1 * two(s) == d.m * two(s)) by (nonlinear_arith);
    rounding_keeps_upper(a.m, d.m, 1, s, t);
    rounded_shape(a.m, d.m);
    let q = rounded(a.m, d.m);
    bound_is_reduced(q.m, above(q.e) + t, 1, s + below(q.e));
    let x = progress(elapsed, duration);
    assert((s + below(q.e)) - (above(q.e) + t) == -x.e);
}

/// Within the duration of a ramp its change is positive and at most the whole change.
proof fn change_is_at_most_whole(change: int, elapsed: int, duration: int)
    requires
        0 < change <= u32::MAX,
        0 < elapsed <= duration,
    ensures
        ({
            let y = times(change, progress(elapsed, duration));
            &&& y.e < 0
            &&& 0 < y.m <= change * two((-y.e) as nat)
        }),
{
    let x = progress(elapsed, duration);
    progress_is_at_most_one(elapsed, duration);
    let j = (-x.e) as nat;
    let num = change * x.m;
    assert(0 < num <= change * two(j)) by (nonlinear_arith)
        requires
            num == change * x.m,
            0 < x.m <= two(j),
            change > 0,
    ;
    one_times(num);
    assert(1 * change * two(j) == change * two(j)) by (nonlinear_arith);
    rounding_keeps_upper(num, 1, change, j, 0);
    rounded_shape(num, 1);
    let p = rounded(num, 1);
    bound_is_reduced(p.m, above(p.e) + 0, change, j + below(p.e));
    let y = times(change, x);
    assert((j + below(p.e)) - (above(p.e) + 0) == -y.e);
}

/// A sum between two numbers of clients is rounded to a number between them.
proof fn sums_are_rounded_between(sum: int, j: nat, low: int, high: int)
    requires
        0 < sum,
        0 <= low <= high <= u32::MAX,
        low * two(j) <= sum <= high * two(j),
    ensures
        ({
            let s = rounded(sum, 1);
            low <= to_whole(Dyadic { m: s.m, e: s.e - j }) <= high
        }),
{
    let s = rounded(sum, 1);
    rounded_shape(sum, 1);
    lemma_pow2_pos(j);
    assert(high > 0) by (nonlinear_arith)
        requires
            0 < sum <= high * two(j),
            two(j) > 0,
    ;
    one_times(sum);
    assert(1 * high * two(j) == high * two(j)) by (nonlinear_arith);
    assert(1 * low * two(j) == low * two(j)) by (nonlinear_arith);
    rounding_keeps_upper(sum, 1, high, j, 0);
    bound_is_reduced(s.m, above(s.e) + 0, high, j + below(s.e));
    let t = ((j + below(s.e)) - (above(s.e) + 0)) as nat;
    assert(s.e - j == -t);
    assert(low * two(t) <= s.m) by {
        if low > 0 {
            rounding_keeps_lower(sum, 1, low, j, 0);
            lower_bound_is_reduced(s.m, above(s.e) + 0, low, j + below(s.e));
        } else {
            assert(low * two(t) == 0) by (nonlinear_arith)
                requires
                    low == 0,
            ;
        }
    }
    lemma_pow2_unfold(t);
    lemma_pow2_pos((t - 1) as nat);
    let h = two((t - 1) as nat);
    let one = two(t);
    let whole = (s.m + h) / one;
    assert(low <= whole <= high) by (nonlinear_arith)
        requires
            one == 2 * h,
            h > 0,
            low * one <= s.m <= high * one,
            whole == (s.m + h) / one,
    ;
}

/// Within its duration a ramp stays between the target before it and its own.
pub proof fn ramps_stay_between_their_targets(from: u32, to: u32, elapsed: int, duration: int)
    requires
        0 <= elapsed <= duration,
    ensures
        from <= to ==> from <= ramp(from as int, to as int, elapsed, duration) <= to,
        to <= from ==> to <= ramp(from as int, to as int, elapsed, duration) <= from,
{
    if elapsed > 0 && from != to {
        let change = if to > from {
            to - from
        } else {
            from - to
        };
        let y = times(change, progress(elapsed, duration));
        change_is_at_most_whole(change, elapsed, duration);
        let j = (-y.e) as nat;
        let sum = shifted(from as int, y, to < from);
        let low = if to > from {
            from as int
        } else {
            to as int
        };
        let high = if to > from {
            to as int
        } else {
            from as int
        };
        assert(low * two(j) <= sum.m <= high * two(j)) by (nonlinear_arith)
            requires
                0 < y.m <= change * two(j),
                to > from ==> low == from && high == to && change == to - from && sum.m == from
                    * two(j) + y.m,
                to < from ==> low == to && high == from && change == from - to && sum.m == from
                    * two(j) - y.m,
                from != to,
        ;
        if sum.m <= 0 {
            lemma_pow2_pos(j);
            assert(low == 0) by (nonlinear_arith)
                requires
                    low * two(j) <= 0,
                    two(j) > 0,
                    low >= 0,
            ;
        } else {
            sums_are_rounded_between(sum.m, j, low, high);
        }
    }
}

/// The load of a stage is at most the greater of its target and the one before it.
proof fn stages_stay_below(stage: LoadStage, previous: u32, elapsed: int, greatest: int)
    requires
        0 <= elapsed <= stage_ms(stage),
        previous <= greatest,
        stage.target_virtual_clients <= greatest,
    ensures
        0 <= stage_clients(stage, previous as int, elapsed) <= greatest,
{
    ramps_stay_between_their_targets(
        previous,
        stage.target_virtual_clients,
        elapsed,
        stage_ms(stage),
    );
}

proof fn loads_from_stay_below(stages: Seq<LoadStage>, i: int, previous: u32, elapsed: int)
    requires
        0 <= i < stages.len(),
        total_secs(stages, stages.len() as int) * 1000 <= u64::MAX,
        total_secs(stages, i) * 1000 <= elapsed <= total_secs(stages, stages.len() as int) * 1000,
        previous <= greatest_target(stages, stages.len() as int),
    ensures
        0 <= load_from(stages, i, total_secs(stages, i) * 1000, previous as int, elapsed).1
            <= greatest_target(stages, stages.len() as int),
    decreases stages.len() - i,
{
    let n = stages.len() as int;
    let stage = stages[i];
    greatest_target_is_greatest(stages, n);
    total_secs_grows(stages, 0, i);
    total_secs_grows(stages, i + 1, n);
    let start = total_secs(stages, i) * 1000;
    assert(total_secs(stages, i + 1) == total_secs(stages, i) + stage.duration_secs);
    assert(held64(start + stage_ms(stage)) == total_secs(stages, i + 1) * 1000);
    if i + 1 >= n || elapsed < held64(start + stage_ms(stage)) {
        stages_stay_below(stage, previous, elapsed - start, greatest_target(stages, n));
    } else {
        loads_from_stay_below(stages, i + 1, stage.target_virtual_clients, elapsed);
    }
}

/// As long as the stages take, the load is at most the greatest target. A ramp at the end that
/// goes on after its time may pass it.
pub proof fn loads_stay_below_the_greatest_target(stages: Seq<LoadStage>, elapsed: int)
    requires
        stages.len() > 0,
        total_secs(stages, stages.len() as int) * 1000 <= u64::MAX,
        0 <= elapsed <= total_secs(stages, stages.len() as int) * 1000,
    ensures
        0 <= load_from(stages, 0, 0, 0, elapsed).1 <= greatest_target(stages, stages.len() as int),
{
    greatest_target_is_greatest(stages, stages.len() as int);
    loads_from_stay_below(stages, 0, 0, elapsed);
}

} // verus!
