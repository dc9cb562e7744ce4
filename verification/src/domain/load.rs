//! The load of a scenario over time.
use crate::num::power_of_two;
use crate::text::copy;
use vstd::arithmetic::power2::pow2;
use vstd::prelude::*;

verus! {

/// How the number of virtual clients changes during a stage.
#[derive(Debug, Clone, Copy, PartialEq, Eq, Structural)]
pub enum LoadStageMode {
    /// From the target of the stage before to the target of this one.
    Ramp,
    /// At the target of this stage throughout.
    Hold,
}

/// A stage of a scenario's load.
#[derive(Debug, Clone)]
pub struct LoadStage {
    pub name: String,
    pub mode: LoadStageMode,
    pub duration_secs: u64,
    pub target_virtual_clients: u32,
    pub include_in_results: bool,
}

impl Default for LoadStage {
    fn default() -> (r: LoadStage)
        ensures
            r.name@ == "Hold"@,
            r.mode == LoadStageMode::Hold,
            r.duration_secs == 10,
            r.target_virtual_clients == 1,
            r.include_in_results,
    {
        LoadStage {
            name: copy("Hold"),
            mode: LoadStageMode::Hold,
            duration_secs: 10,
            target_virtual_clients: 1,
            include_in_results: true,
        }
    }
}

/// The seconds that the first `n` stages take.
pub open spec fn total_secs(stages: Seq<LoadStage>, n: int) -> int
    decreases n,
{
    if n <= 0 {
        0
    } else {
        total_secs(stages, n - 1) + stages[n - 1].duration_secs
    }
}

/// The greatest target among the first `n` stages.
pub open spec fn greatest_target(stages: Seq<LoadStage>, n: int) -> int
    decreases n,
{
    if n <= 0 {
        0
    } else if stages[n - 1].target_virtual_clients > greatest_target(stages, n - 1) {
        stages[n - 1].target_virtual_clients as int
    } else {
        greatest_target(stages, n - 1)
    }
}

pub proof fn total_secs_grows(stages: Seq<LoadStage>, n: int, m: int)
    requires
        0 <= n <= m <= stages.len(),
    ensures
        0 <= total_secs(stages, n) <= total_secs(stages, m),
    decreases m,
{
    if n < m {
        total_secs_grows(stages, n, m - 1);
    } else if n > 0 {
        total_secs_grows(stages, n - 1, n - 1);
    }
}

/// No stage has a target above the greatest one, and one of them has it.
pub proof fn greatest_target_is_greatest(stages: Seq<LoadStage>, n: int)
    requires
        0 < n <= stages.len(),
    ensures
        forall|i: int|
            0 <= i < n ==> (#[trigger] stages[i]).target_virtual_clients <= greatest_target(
                stages,
                n,
            ),
        exists|i: int|
            0 <= i < n && (#[trigger] stages[i]).target_virtual_clients == greatest_target(
                stages,
                n,
            ),
    decreases n,
{
    if n > 1 {
        greatest_target_is_greatest(stages, n - 1);
    }
    let last = stages[n - 1].target_virtual_clients as int;
    assert(last <= greatest_target(stages, n));
    if last >= greatest_target(stages, n - 1) {
        assert(last == greatest_target(stages, n));
        assert(0 <= n - 1 < n && stages[n - 1].target_virtual_clients == greatest_target(
            stages,
            n,
        ));
    } else {
        let i = choose|i: int|
            0 <= i < n - 1 && (#[trigger] stages[i]).target_virtual_clients == greatest_target(
                stages,
                n - 1,
            );
        assert(0 <= i < n && stages[i].target_virtual_clients == greatest_target(stages, n));
    }
}

/// The seconds that all stages take.
pub fn stages_secs(stages: &Vec<LoadStage>) -> (r: u64)
    requires
        total_secs(stages@, stages@.len() as int) <= u64::MAX,
    ensures
        r == total_secs(stages@, stages@.len() as int),
{
    let mut sum: u64 = 0;
    let mut i: usize = 0;
    while i < stages.len()
        invariant
            i <= stages@.len(),
            sum == total_secs(stages@, i as int),
            total_secs(stages@, stages@.len() as int) <= u64::MAX,
        decreases stages@.len() - i,
    {
        proof {
            total_secs_grows(stages@, i + 1, stages@.len() as int);
        }
        sum = sum + stages[i].duration_secs;
        i += 1;
    }
    sum
}

/// The greatest target among all stages.
pub fn stages_target(stages: &Vec<LoadStage>) -> (r: u32)
    ensures
        r == greatest_target(stages@, stages@.len() as int),
{
    let mut greatest: u32 = 0;
    let mut i: usize = 0;
    while i < stages.len()
        invariant
            i <= stages@.len(),
            greatest == greatest_target(stages@, i as int),
        decreases stages@.len() - i,
    {
        if stages[i].target_virtual_clients > greatest {
            greatest = stages[i].target_virtual_clients;
        }
        i += 1;
    }
    greatest
}

/// A number `m * 2^e`.
#[verifier::ext_equal]
pub struct Dyadic {
    pub m: int,
    pub e: int,
}

/// Doubles `num`, and takes one from `e` for it, until `num / den` has 53 digits in base two.
pub open spec fn scaled_up(num: int, den: int, e: int) -> (int, int)
    decreases den * 0x20_0000_0000_0000 - num,
{
    if num <= 0 || num >= den * 0x10_0000_0000_0000 {
        (num, e)
    } else {
        scaled_up(2 * num, den, e - 1)
    }
}

/// Doubles `den`, and adds one to `e` for it, until `num / den` has no more than 53 digits in
/// base two.
pub open spec fn scaled_down(num: int, den: int, e: int) -> (int, int)
    decreases num - den,
{
    if den <= 0 || num < den * 0x20_0000_0000_0000 {
        (den, e)
    } else {
        scaled_down(num, 2 * den, e + 1)
    }
}

/// The whole number nearest to `num / den`; of two, the even one.
pub open spec fn nearest(num: int, den: int) -> int {
    let q = num / den;
    let r = num % den;
    if 2 * r > den || (2 * r == den && q % 2 == 1) {
        q + 1
    } else {
        q
    }
}

/// The number with 53 significant binary digits that is nearest to `num / den`, as arithmetic
/// in double precision rounds it.
pub open spec fn rounded(num: int, den: int) -> Dyadic {
    let up = scaled_up(num, den, 0);
    let down = scaled_down(up.0, den, up.1);
    Dyadic { m: nearest(up.0, down.0), e: down.1 }
}

/// The whole number nearest to `m * 2^e`; of two, the greater one.
pub open spec fn to_whole(x: Dyadic) -> int {
    if x.e >= 0 {
        x.m * pow2(x.e as nat)
    } else {
        (x.m + pow2((-x.e - 1) as nat)) / (pow2((-x.e) as nat) as int)
    }
}

/// `elapsed / duration` in double precision; both numbers are rounded first.
pub open spec fn progress(elapsed: int, duration: int) -> Dyadic {
    let a = rounded(elapsed, 1);
    let d = rounded(duration, 1);
    let q = rounded(a.m, d.m);
    Dyadic { m: q.m, e: q.e + a.e - d.e }
}

/// `change` times a number in double precision.
pub open spec fn times(change: int, x: Dyadic) -> Dyadic {
    let p = rounded(change * x.m, 1);
    Dyadic { m: p.m, e: p.e + x.e }
}

/// `from`, increased or decreased by a number, as a multiple of a power of two.
pub open spec fn shifted(from: int, x: Dyadic, down: bool) -> Dyadic {
    let (base, amount, e) = if x.e >= 0 {
        (from, x.m * pow2(x.e as nat), 0)
    } else {
        (from * pow2((-x.e) as nat), x.m, x.e)
    };
    Dyadic {
        m: if down {
            base - amount
        } else {
            base + amount
        },
        e,
    }
}

/// How many virtual clients are due after `elapsed` of the `duration` of a ramp between two
/// targets. The result is that of arithmetic in double precision, rounded to a whole number and
/// held within 32 bits. Beyond its duration a ramp goes on.
pub open spec fn ramp(from: int, to: int, elapsed: int, duration: int) -> int {
    if elapsed == 0 || from == to {
        from
    } else {
        let change = if to > from {
            to - from
        } else {
            from - to
        };
        let sum = shifted(from, times(change, progress(elapsed, duration)), to < from);
        if sum.m <= 0 {
            0
        } else {
            let s = rounded(sum.m, 1);
            let whole = to_whole(Dyadic { m: s.m, e: s.e + sum.e });
            if whole > u32::MAX {
                u32::MAX as int
            } else {
                whole
            }
        }
    }
}

/// The number with 53 significant binary digits that is nearest to `num / den`.
pub fn round_ratio(num: u128, den: u64) -> (r: (u64, i128))
    requires
        0 < num < 0x100_0000_0000_0000_0000_0000_0000_0000,
        0 < den <= 0x20_0000_0000_0000,
    ensures
        r.0 == rounded(num as int, den as int).m,
        r.1 == rounded(num as int, den as int).e,
        0x10_0000_0000_0000 <= r.0 <= 0x20_0000_0000_0000,
        -0x1000_0000_0000_0000_0000_0000_0000_0000 < r.1
            < 0x1000_0000_0000_0000_0000_0000_0000_0000,
{
    let mut n: u128 = num;
    let mut e: i128 = 0;
    let low: u128 = den as u128 * 0x10_0000_0000_0000;
    while n < low
        invariant
            0 < n < 0x100_0000_0000_0000_0000_0000_0000_0000,
            0 < den <= 0x20_0000_0000_0000,
            low == den * 0x10_0000_0000_0000,
            -n < e <= 0,
            scaled_up(num as int, den as int, 0) == scaled_up(n as int, den as int, e as int),
        decreases 2 * low - n,
    {
        n = n * 2;
        e = e - 1;
    }
    let mut d: u128 = den as u128;
    let ghost start = e as int;
    while n / d >= 0x20_0000_0000_0000
        invariant
            0 < d,
            low <= n < 0x100_0000_0000_0000_0000_0000_0000_0000,
            -0x100_0000_0000_0000_0000_0000_0000_0000 < start <= 0,
            start <= e <= d,
            d * 0x10_0000_0000_0000 <= n,
            scaled_down(n as int, den as int, start) == scaled_down(n as int, d as int, e as int),
        decreases n - d,
    {
        assert(n / d >= 0x20_0000_0000_0000 ==> n >= d * 0x20_0000_0000_0000) by (nonlinear_arith)
            requires
                d > 0,
        ;
        d = d * 2;
        e = e + 1;
    }
    assert(n < d * 0x20_0000_0000_0000) by (nonlinear_arith)
        requires
            n / d < 0x20_0000_0000_0000,
            d > 0,
    ;
    let q: u128 = n / d;
    let rest: u128 = n % d;
    assert(q >= 0x10_0000_0000_0000) by (nonlinear_arith)
        requires
            q == n / d,
            d > 0,
            d * 0x10_0000_0000_0000 <= n,
    ;
    assert(rest < d);
    let m: u128 = if 2 * rest > d || (2 * rest == d && q % 2 == 1) {
        q + 1
    } else {
        q
    };
    (m as u64, e)
}

proof fn scaled_down_shape(num: int, den: int, e: int)
    requires
        0 <= e,
        den == pow2(e as nat),
        den * 0x10_0000_0000_0000 <= num,
    ensures
        ({
            let (d, k) = scaled_down(num, den, e);
            &&& 0 <= k
            &&& d == pow2(k as nat)
            &&& d * 0x10_0000_0000_0000 <= num < d * 0x20_0000_0000_0000
        }),
    decreases num - den,
{
    vstd::arithmetic::power2::lemma_pow2_pos(e as nat);
    if num >= den * 0x20_0000_0000_0000 {
        vstd::arithmetic::power2::lemma_pow2_unfold((e + 1) as nat);
        scaled_down_shape(num, 2 * den, e + 1);
    }
}

/// A whole number of at least 53 binary digits is rounded to a multiple of the least power of two
/// that leaves 53 digits, by at most half of it.
pub proof fn rounded_whole(num: int)
    requires
        0x10_0000_0000_0000 <= num,
    ensures
        rounded(num, 1).e >= 0,
        rounded(num, 1).m >= 0x10_0000_0000_0000,
        pow2(rounded(num, 1).e as nat) * 0x10_0000_0000_0000 <= num,
        -(pow2(rounded(num, 1).e as nat) as int) <= 2 * (rounded(num, 1).m * pow2(
            rounded(num, 1).e as nat,
        ) - num) <= pow2(rounded(num, 1).e as nat),
{
    vstd::arithmetic::power2::lemma2_to64();
    scaled_down_shape(num, 1, 0);
    let (d, e) = scaled_down(num, 1, 0);
    vstd::arithmetic::power2::lemma_pow2_pos(e as nat);
    assert(scaled_up(num, 1, 0) == (num, 0int));
    let q = num / d;
    let r = num % d;
    assert(num == q * d + r && 0 <= r < d) by (nonlinear_arith)
        requires
            d > 0,
            q == num / d,
            r == num % d,
    ;
    assert(q >= 0x10_0000_0000_0000) by (nonlinear_arith)
        requires
            d * 0x10_0000_0000_0000 <= num,
            num == q * d + r,
            0 <= r < d,
            d > 0,
    ;
    let m = nearest(num, d);
    assert((q + 1) * d == q * d + d) by (nonlinear_arith);
}

/// A change that is tiny against one client leaves the number of clients as it is.
proof fn tiny_change(from: int, x: Dyadic, down: bool)
    requires
        0 <= from <= u32::MAX,
        0 <= x.m <= 0x20_0000_0000_0000,
        from == 0 ==> x.m >= 0x10_0000_0000_0000,
        x.e < -80,
        down ==> from > 0,
    ensures
        ({
            let sum = shifted(from, x, down);
            let s = rounded(sum.m, 1);
            &&& sum.m > 0
            &&& to_whole(Dyadic { m: s.m, e: s.e + sum.e }) == from
        }),
{
    let k = -x.e;
    let big = pow2(k as nat) as int;
    vstd::arithmetic::power2::lemma2_to64();
    vstd::arithmetic::power2::lemma2_to64_rest();
    vstd::arithmetic::power2::lemma_pow2_adds(40, 40);
    assert(0x100_0000_0000 * 0x100_0000_0000 == 0x1_0000_0000_0000_0000_0000) by (nonlinear_arith);
    vstd::arithmetic::power2::lemma_pow2_strictly_increases(80, k as nat);
    assert(big > 0x1_0000_0000_0000_0000_0000);
    let sum = shifted(from, x, down);
    let num = sum.m;
    let base = from * big;
    assert(from >= 1 ==> base >= big) by (nonlinear_arith)
        requires
            base == from * big,
            big > 0,
            from >= 0,
    ;
    assert(base <= 0xffff_ffff * big) by (nonlinear_arith)
        requires
            base == from * big,
            big > 0,
            0 <= from <= 0xffff_ffff,
    ;
    assert(from == 0 ==> base == 0) by (nonlinear_arith)
        requires
            base == from * big,
    ;
    assert(num >= 0x10_0000_0000_0000);
    rounded_whole(num);
    let s = rounded(num, 1);
    let p = pow2(s.e as nat) as int;
    vstd::arithmetic::power2::lemma_pow2_pos(s.e as nat);
    let v = s.m * p;
    assert(2 * (v - num) <= p && -p <= 2 * (v - num));
    assert(p * 0x10_0000_0000_0000 <= num);
    assert(p < big);
    if s.e >= k {
        if s.e > k {
            vstd::arithmetic::power2::lemma_pow2_strictly_increases(k as nat, s.e as nat);
        }
        assert(false);
    }
    let t = k - s.e;
    let h = pow2((t - 1) as nat) as int;
    let whole = pow2(t as nat) as int;
    vstd::arithmetic::power2::lemma_pow2_pos((t - 1) as nat);
    vstd::arithmetic::power2::lemma_pow2_unfold(t as nat);
    vstd::arithmetic::power2::lemma_pow2_adds(t as nat, s.e as nat);
    assert(big == whole * p);
    assert(2 * v >= 2 * base - big && 2 * v < 2 * base + big);
    assert(2 * s.m >= 2 * (from * whole) - whole && 2 * s.m < 2 * (from * whole) + whole)
        by (nonlinear_arith)
        requires
            v == s.m * p,
            base == from * big,
            big == whole * p,
            p > 0,
            2 * v >= 2 * base - big,
            2 * v < 2 * base + big,
    ;
    assert((s.m + h) / whole == from) by (nonlinear_arith)
        requires
            whole == 2 * h,
            h > 0,
            2 * s.m >= 2 * (from * whole) - whole,
            2 * s.m < 2 * (from * whole) + whole,
    ;
}

/// How many virtual clients are due after `elapsed` of the `duration` of a ramp.
pub fn ramp_clients(from: u32, to: u32, elapsed: u64, duration: u64) -> (r: u32)
    requires
        duration > 0,
    ensures
        r == ramp(from as int, to as int, elapsed as int, duration as int),
{
    if elapsed == 0 || from == to {
        return from;
    }
    let down: bool = to < from;
    let change: u32 = if down {
        from - to
    } else {
        to - from
    };
    let a = round_ratio(elapsed as u128, 1);
    let d = round_ratio(duration as u128, 1);
    let q = round_ratio(a.0 as u128, d.0);
    let q_e: i128 = q.1 + a.1 - d.1;
    assert(change * q.0 <= 0xffff_ffff * 0x20_0000_0000_0000 && change * q.0 > 0)
        by (nonlinear_arith)
        requires
            0 < change <= 0xffff_ffff,
            0 < q.0 <= 0x20_0000_0000_0000,
    ;
    let x = round_ratio(change as u128 * q.0 as u128, 1);
    let x_e: i128 = x.1 + q_e;
    let ghost product = Dyadic { m: x.0 as int, e: x_e as int };
    assert(product == times(change as int, progress(elapsed as int, duration as int)));
    let ghost sum = shifted(from as int, product, down);
    if x_e < -80 {
        proof {
            tiny_change(from as int, product, down);
        }
        return from;
    }
    proof {
        vstd::arithmetic::power2::lemma2_to64();
        vstd::arithmetic::power2::lemma2_to64_rest();
    }
    let num: u128;
    let num_e: i128;
    if x_e >= 0 {
        let shift: u32 = if x_e > 60 {
            60
        } else {
            x_e as u32
        };
        let power_x: u128 = power_of_two(shift);
        proof {
            if shift < 60 {
                vstd::arithmetic::power2::lemma_pow2_strictly_increases(shift as nat, 60);
            }
            assert(0 < power_x <= 0x1000_0000_0000_0000) by {
                vstd::arithmetic::power2::lemma_pow2_pos(shift as nat);
            }
            if x_e > 60 {
                vstd::arithmetic::power2::lemma_pow2_strictly_increases(60, x_e as nat);
            }
            assert(x.0 * power_x <= 0x20_0000_0000_0000 * 0x1000_0000_0000_0000) by (nonlinear_arith)
                requires
                    x.0 <= 0x20_0000_0000_0000,
                    0 < power_x <= 0x1000_0000_0000_0000,
            ;
            assert(x.0 * power_x >= 0x10_0000_0000_0000) by (nonlinear_arith)
                requires
                    x.0 >= 0x10_0000_0000_0000,
                    0 < power_x,
            ;
            let full = pow2(x_e as nat) as int;
            assert(x.0 * full >= x.0 * power_x) by (nonlinear_arith)
                requires
                    full >= power_x,
                    x.0 >= 0,
            ;
        }
        let amount: u128 = x.0 as u128 * power_x;
        if down {
            return 0;
        }
        if x_e > 60 {
            proof {
                rounded_whole(sum.m);
                whole_is_great(rounded(sum.m, 1));
            }
            return u32::MAX;
        }
        num = from as u128 + amount;
        num_e = 0;
    } else {
        let k: u32 = (-x_e) as u32;
        let power_k: u128 = power_of_two(k);
        proof {
            vstd::arithmetic::power2::lemma_pow2_adds(40, 40);
            assert(0x100_0000_0000 * 0x100_0000_0000 == 0x1_0000_0000_0000_0000_0000)
                by (nonlinear_arith);
            if k < 80 {
                vstd::arithmetic::power2::lemma_pow2_strictly_increases(k as nat, 80);
            }
            vstd::arithmetic::power2::lemma_pow2_pos(k as nat);
            assert(from * power_k <= 0xffff_ffff * 0x1_0000_0000_0000_0000_0000) by (nonlinear_arith)
                requires
                    from <= 0xffff_ffff,
                    0 < power_k <= 0x1_0000_0000_0000_0000_0000,
            ;
        }
        let base: u128 = from as u128 * power_k;
        if down {
            if base <= x.0 as u128 {
                return 0;
            }
            num = base - x.0 as u128;
        } else {
            num = base + x.0 as u128;
        }
        num_e = x_e;
    }
    assert(num == sum.m && num_e == sum.e);
    let s = round_ratio(num, 1);
    let s_e: i128 = s.1 + num_e;
    if s_e >= 0 {
        proof {
            whole_is_great(Dyadic { m: s.0 as int, e: s_e as int });
        }
        return u32::MAX;
    }
    if s_e < -60 {
        proof {
            let t = -s_e;
            vstd::arithmetic::power2::lemma_pow2_unfold(t as nat);
            if t - 1 > 60 {
                vstd::arithmetic::power2::lemma_pow2_strictly_increases(60, (t - 1) as nat);
            }
            let h = pow2((t - 1) as nat) as int;
            assert((s.0 + h) / (2 * h) == 0) by (nonlinear_arith)
                requires
                    0 <= s.0 < h,
            ;
        }
        return 0;
    }
    let t: u32 = (-s_e) as u32;
    let half: u128 = power_of_two(t - 1);
    let unit: u128 = power_of_two(t);
    proof {
        vstd::arithmetic::power2::lemma_pow2_pos(t as nat);
        if t - 1 < 60 {
            vstd::arithmetic::power2::lemma_pow2_strictly_increases((t - 1) as nat, 60);
        }
    }
    let whole: u128 = (s.0 as u128 + half) / unit;
    if whole > 0xffff_ffff {
        u32::MAX
    } else {
        whole as u32
    }
}

proof fn whole_is_great(x: Dyadic)
    requires
        x.e >= 0,
        x.m >= 0x10_0000_0000_0000,
    ensures
        to_whole(x) > u32::MAX,
{
    vstd::arithmetic::power2::lemma_pow2_pos(x.e as nat);
    let p = pow2(x.e as nat) as int;
    assert(x.m * p >= x.m) by (nonlinear_arith)
        requires
            p >= 1,
            x.m >= 0,
    ;
}

/// A number held within 64 bits.
pub open spec fn held64(n: int) -> int {
    if n > u64::MAX {
        u64::MAX as int
    } else {
        n
    }
}

/// How long a stage takes, in milliseconds.
pub open spec fn stage_ms(stage: LoadStage) -> int {
    held64(stage.duration_secs * 1000)
}

/// How many virtual clients a stage wants `elapsed` milliseconds after its start, where the
/// stage before it ended at `previous`.
pub open spec fn stage_clients(stage: LoadStage, previous: int, elapsed: int) -> int {
    match stage.mode {
        LoadStageMode::Ramp if stage_ms(stage) > 0 => ramp(
            previous,
            stage.target_virtual_clients as int,
            elapsed,
            stage_ms(stage),
        ),
        _ => stage.target_virtual_clients as int,
    }
}

/// The load `elapsed` milliseconds after the start of a run, among the stages from `i` on, of
/// which the first starts at `start`: the stage, how many virtual clients it wants and whether
/// it counts in the results. After its end the last stage goes on.
pub open spec fn load_from(
    stages: Seq<LoadStage>,
    i: int,
    start: int,
    previous: int,
    elapsed: int,
) -> (int, int, bool)
    decreases stages.len() - i,
{
    let stage = stages[i];
    let end = held64(start + stage_ms(stage));
    if i + 1 >= stages.len() || elapsed < end {
        let since = if elapsed > start {
            elapsed - start
        } else {
            0
        };
        (i, stage_clients(stage, previous, since), stage.include_in_results)
    } else {
        load_from(stages, i + 1, end, stage.target_virtual_clients as int, elapsed)
    }
}

/// The load `elapsed_ms` milliseconds after the start of a run.
pub fn stage_load(stages: &Vec<LoadStage>, elapsed_ms: u64) -> (r: (usize, u32, bool))
    requires
        stages@.len() > 0,
    ensures
        (r.0 as int, r.1 as int, r.2) == load_from(stages@, 0, 0, 0, elapsed_ms as int),
        r.0 < stages@.len(),
{
    let mut start_ms: u64 = 0;
    let mut previous: u32 = 0;
    let mut i: usize = 0;
    loop
        invariant
            i < stages@.len(),
            load_from(stages@, 0, 0, 0, elapsed_ms as int) == load_from(
                stages@,
                i as int,
                start_ms as int,
                previous as int,
                elapsed_ms as int,
            ),
        decreases stages@.len() - i,
    {
        let stage = &stages[i];
        let wide: u128 = stage.duration_secs as u128 * 1000;
        let duration_ms: u64 = if wide > u64::MAX as u128 {
            u64::MAX
        } else {
            wide as u64
        };
        let end_ms: u64 = start_ms.saturating_add(duration_ms);
        if elapsed_ms < end_ms || i == stages.len() - 1 {
            let target: u32 = match stage.mode {
                LoadStageMode::Hold => stage.target_virtual_clients,
                LoadStageMode::Ramp => if duration_ms > 0 {
                    ramp_clients(
                        previous,
                        stage.target_virtual_clients,
                        elapsed_ms.saturating_sub(start_ms),
                        duration_ms,
                    )
                } else {
                    stage.target_virtual_clients
                },
            };
            return (i, target, stage.include_in_results);
        }
        start_ms = end_ms;
        previous = stage.target_virtual_clients;
        i += 1;
    }
}

proof fn scaled_up_from_one(d: int, i: int)
    requires
        d > 0,
        0 <= i <= 52,
    ensures
        scaled_up(d * pow2(i as nat), d, -i) == (d * 0x10_0000_0000_0000, -52int),
    decreases 52 - i,
{
    vstd::arithmetic::power2::lemma2_to64();
    vstd::arithmetic::power2::lemma2_to64_rest();
    vstd::arithmetic::power2::lemma_pow2_pos(i as nat);
    let p = pow2(i as nat) as int;
    assert(d * p > 0) by (nonlinear_arith)
        requires
            d > 0,
            p > 0,
    ;
    if i < 52 {
        vstd::arithmetic::power2::lemma_pow2_strictly_increases(i as nat, 52);
        vstd::arithmetic::power2::lemma_pow2_unfold((i + 1) as nat);
        assert(d * p < d * 0x10_0000_0000_0000) by (nonlinear_arith)
            requires
                d > 0,
                p < 0x10_0000_0000_0000,
        ;
        assert(2 * (d * p) == d * (2 * p)) by (nonlinear_arith);
        scaled_up_from_one(d, i + 1);
    }
}

proof fn rounded_is_positive(num: int)
    requires
        0 < num,
    ensures
        rounded(num, 1).m > 0,
{
    let up = scaled_up(num, 1, 0);
    scaled_up_reaches(num, 0);
    let down = scaled_down(up.0, 1, up.1);
    scaled_down_keeps(up.0, 1, up.1);
    let q = up.0 / down.0;
    assert(q >= 1) by (nonlinear_arith)
        requires
            q == up.0 / down.0,
            0 < down.0 <= up.0,
    ;
}

proof fn scaled_up_reaches(num: int, e: int)
    requires
        0 < num,
    ensures
        scaled_up(num, 1, e).0 >= 0x10_0000_0000_0000,
    decreases 0x20_0000_0000_0000 - num,
{
    if num < 0x10_0000_0000_0000 {
        scaled_up_reaches(2 * num, e - 1);
    }
}

proof fn scaled_down_keeps(num: int, den: int, e: int)
    requires
        0 < den <= num,
    ensures
        0 < scaled_down(num, den, e).0 <= num,
    decreases num - den,
{
    if num >= den * 0x20_0000_0000_0000 {
        scaled_down_keeps(num, 2 * den, e + 1);
    }
}

proof fn scaled_up_shape(num: int, e: int) -> (c: int)
    requires
        0 < num < 0x20_0000_0000_0000,
    ensures
        0 <= c,
        scaled_up(num, 1, e) == (num * pow2(c as nat), e - c),
        0x10_0000_0000_0000 <= num * pow2(c as nat) < 0x20_0000_0000_0000,
    decreases 0x20_0000_0000_0000 - num,
{
    vstd::arithmetic::power2::lemma2_to64();
    if num < 0x10_0000_0000_0000 {
        let c = scaled_up_shape(2 * num, e - 1);
        vstd::arithmetic::power2::lemma_pow2_unfold((c + 1) as nat);
        let p = pow2(c as nat) as int;
        assert((2 * num) * p == num * (2 * p)) by (nonlinear_arith);
        let next = c + 1;
        assert(pow2(next as nat) == 2 * p);
        assert(num * pow2(next as nat) == (2 * num) * p);
        next
    } else {
        assert(num * pow2(0) == num);
        0
    }
}

/// A number of few binary digits is rounded to itself.
proof fn few_digits_are_exact(w: int, a: int)
    requires
        0 < w < 0x2_0000_0000,
        0 <= a,
    ensures
        rounded(w * pow2(a as nat), 1).e < a || a == 0,
        rounded(w * pow2(a as nat), 1).e <= a,
        rounded(w * pow2(a as nat), 1).m == w * pow2(
            (a - rounded(w * pow2(a as nat), 1).e) as nat,
        ),
{
    vstd::arithmetic::power2::lemma2_to64();
    vstd::arithmetic::power2::lemma_pow2_pos(a as nat);
    let p = pow2(a as nat) as int;
    let num = w * p;
    assert(num > 0) by (nonlinear_arith)
        requires
            num == w * p,
            w > 0,
            p > 0,
    ;
    if num < 0x20_0000_0000_0000 {
        let c = scaled_up_shape(num, 0);
        vstd::arithmetic::power2::lemma_pow2_adds(a as nat, c as nat);
        let q = pow2(c as nat) as int;
        assert(num * q == w * (p * q)) by (nonlinear_arith)
            requires
                num == w * p,
        ;
    } else {
        scaled_down_shape(num, 1, 0);
        let (d, k) = scaled_down(num, 1, 0);
        assert(w * p <= 0x1_ffff_ffff * p) by (nonlinear_arith)
            requires
                w <= 0x1_ffff_ffff,
                p > 0,
        ;
        assert(d < p);
        if k >= a {
            if k > a {
                vstd::arithmetic::power2::lemma_pow2_strictly_increases(a as nat, k as nat);
            }
            assert(false);
        }
        vstd::arithmetic::power2::lemma_pow2_adds((a - k) as nat, k as nat);
        vstd::arithmetic::power2::lemma_pow2_pos(k as nat);
        let q = pow2((a - k) as nat) as int;
        assert(num == (w * q) * d) by (nonlinear_arith)
            requires
                num == w * p,
                p == q * d,
        ;
        vstd::arithmetic::div_mod::lemma_fundamental_div_mod_converse(num, d, w * q, 0);
    }
}

/// A ramp starts at the target before it and ends at its own.
pub proof fn ramp_meets_its_ends(from: u32, to: u32, duration: u64)
    requires
        duration > 0,
    ensures
        ramp(from as int, to as int, 0, duration as int) == from,
        ramp(from as int, to as int, duration as int, duration as int) == to,
{
    vstd::arithmetic::power2::lemma2_to64();
    vstd::arithmetic::power2::lemma2_to64_rest();
    if from != to {
        let a = rounded(duration as int, 1);
        rounded_is_positive(duration as int);
        scaled_up_from_one(a.m, 0);
        assert(a.m * pow2(0) == a.m);
        let unit = 0x10_0000_0000_0000int;
        let up = a.m * unit;
        assert(scaled_up(a.m, a.m, 0) == (up, -52int));
        assert(scaled_down(up, a.m, -52) == (a.m, -52int));
        assert(up / a.m == unit && up % a.m == 0) by (nonlinear_arith)
            requires
                up == a.m * unit,
                a.m > 0,
        ;
        assert(rounded(a.m, a.m) == Dyadic { m: unit, e: -52 });
        let one = progress(duration as int, duration as int);
        assert(one == Dyadic { m: unit, e: -52 });
        let change = if to > from {
            to - from
        } else {
            from - to
        };
        let product = times(change, one);
        few_digits_are_exact(change, 52);
        let p = rounded(change * unit, 1);
        let k = 52 - p.e;
        vstd::arithmetic::power2::lemma_pow2_pos(k as nat);
        let big = pow2(k as nat) as int;
        assert(product == Dyadic { m: change * big, e: -k });
        let sum = shifted(from as int, product, to < from);
        assert(sum.m == to * big) by (nonlinear_arith)
            requires
                sum.m == if to < from {
                    from * big - change * big
                } else {
                    from * big + change * big
                },
                change == if to > from {
                    to - from
                } else {
                    from - to
                },
        ;
        if to == 0 {
            assert(sum.m == 0) by (nonlinear_arith)
                requires
                    sum.m == to * big,
                    to == 0,
            ;
        } else {
            assert(sum.m > 0) by (nonlinear_arith)
                requires
                    sum.m == to * big,
                    to > 0,
                    big > 0,
            ;
            few_digits_are_exact(to as int, k);
            let s = rounded(sum.m, 1);
            let t = k - s.e;
            vstd::arithmetic::power2::lemma_pow2_unfold(t as nat);
            vstd::arithmetic::power2::lemma_pow2_pos((t - 1) as nat);
            let h = pow2((t - 1) as nat) as int;
            let one_whole = pow2(t as nat) as int;
            assert((to * one_whole + h) / one_whole == to) by (nonlinear_arith)
                requires
                    one_whole == 2 * h,
                    h > 0,
            ;
        }
    }
}

proof fn scaling_starts_anywhere(num: int, e: int, f: int)
    requires
        num > 0,
    ensures
        scaled_up(num, 1, e).0 == scaled_up(num, 1, f).0,
        scaled_up(num, 1, e).1 - e == scaled_up(num, 1, f).1 - f,
    decreases 0x20_0000_0000_0000 - num,
{
    if num < 0x10_0000_0000_0000 {
        scaling_starts_anywhere(2 * num, e - 1, f - 1);
    }
}

proof fn twice_is_one_digit_more(n: int)
    requires
        0 < n < 0x10_0000_0000_0000,
    ensures
        rounded(2 * n, 1) == (Dyadic { m: rounded(n, 1).m, e: rounded(n, 1).e + 1 }),
{
    scaling_starts_anywhere(2 * n, -1, 0);
    let c = scaled_up_shape(n, 0);
    let once = scaled_up(n, 1, 0);
    let twice = scaled_up(2 * n, 1, 0);
    assert(once == scaled_up(2 * n, 1, -1));
    assert(once.0 == twice.0 && once.1 + 1 == twice.1);
    assert(scaled_down(once.0, 1, once.1) == (1int, once.1));
    assert(scaled_down(twice.0, 1, twice.1) == (1int, twice.1));
}

/// At half its time a ramp is half done: there are as many clients as half of what it starts with
/// and half of its target are together, and one more for a half that is left.
pub proof fn ramps_are_half_done_at_half_time(from: u32, to: u32, half: int)
    requires
        0 < half < 0x10_0000_0000_0000,
    ensures
        ramp(from as int, to as int, half, 2 * half) == (from + to + 1) / 2,
{
    vstd::arithmetic::power2::lemma2_to64();
    vstd::arithmetic::power2::lemma2_to64_rest();
    if from != to {
        let a = rounded(half, 1);
        twice_is_one_digit_more(half);
        rounded_is_positive(half);
        scaled_up_from_one(a.m, 0);
        assert(a.m * pow2(0) == a.m);
        let unit = 0x10_0000_0000_0000int;
        let up = a.m * unit;
        assert(scaled_up(a.m, a.m, 0) == (up, -52int));
        assert(scaled_down(up, a.m, -52) == (a.m, -52int));
        assert(up / a.m == unit && up % a.m == 0) by (nonlinear_arith)
            requires
                up == a.m * unit,
                a.m > 0,
        ;
        assert(rounded(a.m, a.m) == Dyadic { m: unit, e: -52 });
        let part = progress(half, 2 * half);
        assert(part == Dyadic { m: unit, e: -53 });
        let change = if to > from {
            to - from
        } else {
            from - to
        };
        let product = times(change, part);
        few_digits_are_exact(change, 52);
        let p = rounded(change * unit, 1);
        let k = 52 - p.e;
        vstd::arithmetic::power2::lemma_pow2_pos(k as nat);
        vstd::arithmetic::power2::lemma_pow2_unfold((k + 1) as nat);
        let big = pow2(k as nat) as int;
        assert(product == Dyadic { m: change * big, e: -k - 1 });
        let sum = shifted(from as int, product, to < from);
        let double = pow2((k + 1) as nat) as int;
        let w = from + to;
        assert(double == 2 * big);
        assert(sum.m == if to < from {
            from * double - change * big
        } else {
            from * double + change * big
        });
        assert(sum.m == w * big) by (nonlinear_arith)
            requires
                sum.m == if to < from {
                    from * double - change * big
                } else {
                    from * double + change * big
                },
                double == 2 * big,
                w == from + to,
                change == if to > from {
                    to - from
                } else {
                    from - to
                },
        ;
        assert(sum.m > 0) by (nonlinear_arith)
            requires
                sum.m == w * big,
                w > 0,
                big > 0,
        ;
        few_digits_are_exact(w, k);
        let s = rounded(sum.m, 1);
        let t = k - s.e;
        vstd::arithmetic::power2::lemma_pow2_unfold((t + 1) as nat);
        vstd::arithmetic::power2::lemma_pow2_pos(t as nat);
        let h = pow2(t as nat) as int;
        let whole = pow2((t + 1) as nat) as int;
        let result = (w * h + h) / whole;
        assert(result == (w + 1) / 2) by {
            let q = (w + 1) / 2;
            let r = (w + 1) % 2;
            assert(w * h + h == q * whole + r * h) by (nonlinear_arith)
                requires
                    w + 1 == 2 * q + r,
                    whole == 2 * h,
            ;
            assert(0 <= r * h < whole) by (nonlinear_arith)
                requires
                    0 <= r < 2,
                    whole == 2 * h,
                    h > 0,
            ;
            vstd::arithmetic::div_mod::lemma_fundamental_div_mod_converse(
                w * h + h,
                whole,
                q,
                r * h,
            );
        }
        assert(to_whole(Dyadic { m: s.m, e: s.e - k - 1 }) == result);
    }
}

} // verus!
