//! Exact media times: a tick count in a rational time base.
use vstd::prelude::*;

use crate::model::Frame;

verus! {

/// A rational unit of time, `numerator / denominator` seconds per tick.
#[derive(Debug, Clone, Copy, PartialEq, Eq, Structural)]
pub struct TimeBase {
    pub numerator: i64,
    pub denominator: i64,
}

impl TimeBase {
    /// A time base, or `None` when the denominator is zero.
    pub fn new(numerator: i64, denominator: i64) -> (time_base: Option<Self>)
        ensures
            time_base == (if denominator != 0 {
                Some(TimeBase { numerator, denominator })
            } else {
                None
            }),
    {
        if denominator != 0 {
            Some(TimeBase { numerator, denominator })
        } else {
            None
        }
    }
}

/// A point or span of media time: `ticks` counted in `time_base`.
#[derive(Debug, Clone, Copy, PartialEq, Eq, Structural)]
pub struct MediaTime {
    pub ticks: i64,
    pub time_base: TimeBase,
}

impl MediaTime {
    pub fn new(ticks: i64, time_base: TimeBase) -> (time: Self)
        ensures
            time == (MediaTime { ticks, time_base }),
    {
        MediaTime { ticks, time_base }
    }
}

/// Presentation time and duration of a decoded frame, where the source knows them.
#[derive(Debug, Clone, Copy, PartialEq, Eq, Structural)]
pub struct FrameTiming {
    pub presentation_time: Option<MediaTime>,
    pub duration: Option<MediaTime>,
}

impl Default for FrameTiming {
    fn default() -> (timing: Self)
        ensures
            timing.presentation_time is None,
            timing.duration is None,
    {
        FrameTiming { presentation_time: None, duration: None }
    }
}

/// A decoded frame together with its timing.
#[derive(Debug, Clone, PartialEq)]
pub struct FrameWithTiming {
    pub frame: Frame,
    pub timing: FrameTiming,
}

pub open spec fn in_i128(x: int) -> bool {
    i128::MIN <= x <= i128::MAX
}

pub open spec fn in_i64(x: int) -> bool {
    i64::MIN <= x <= i64::MAX
}

pub open spec fn abs_int(x: int) -> int {
    if x < 0 {
        -x
    } else {
        x
    }
}

/// Integer division rounding toward zero, as Rust's `/` on signed integers.
pub open spec fn trunc_div(a: int, b: int) -> int {
    let q = abs_int(a) / abs_int(b);
    if (a >= 0) == (b > 0) {
        q
    } else {
        -q
    }
}

/// The remainder that goes with `trunc_div`, as Rust's `%` on signed integers.
pub open spec fn trunc_rem(a: int, b: int) -> int {
    a - b * trunc_div(a, b)
}

/// Ticks advance forward in time: numerator and denominator share a sign and neither is zero.
pub open spec fn positive_time_base(time_base: TimeBase) -> bool {
    (time_base.numerator > 0 && time_base.denominator > 0) || (time_base.numerator < 0
        && time_base.denominator < 0)
}

pub fn is_positive_time_base(time_base: TimeBase) -> (positive: bool)
    ensures
        positive == positive_time_base(time_base),
{
    (time_base.numerator > 0 && time_base.denominator > 0) || (time_base.numerator < 0
        && time_base.denominator < 0)
}

/// `value` expressed in ticks of `target`, when that is a whole number of ticks that
/// fits in `i64` and the intermediate product fits in `i128`.
pub open spec fn convert_ticks_spec(value: MediaTime, target: TimeBase) -> Option<i64> {
    let n = value.ticks * value.time_base.numerator * target.denominator;
    let d = value.time_base.denominator * target.numerator;
    if !in_i128(n) || d == 0 || trunc_rem(n, d) != 0 {
        None
    } else if !in_i64(trunc_div(n, d)) {
        None
    } else {
        Some(trunc_div(n, d) as i64)
    }
}

proof fn lemma_product_of_i64(a: int, b: int)
    requires
        in_i64(a),
        in_i64(b),
    ensures
        -0x4000_0000_0000_0000_0000_0000_0000_0000 < a * b <= 0x4000_0000_0000_0000_0000_0000_0000_0000,
{
    assert(-0x8000_0000_0000_0000 <= a < 0x8000_0000_0000_0000);
    assert(-0x8000_0000_0000_0000 <= b < 0x8000_0000_0000_0000);
    assert(-0x4000_0000_0000_0000_0000_0000_0000_0000 < a * b <= 0x4000_0000_0000_0000_0000_0000_0000_0000) by (nonlinear_arith)
        requires
            -0x8000_0000_0000_0000 <= a < 0x8000_0000_0000_0000,
            -0x8000_0000_0000_0000 <= b < 0x8000_0000_0000_0000,
    ;
}

/// Truncating division and remainder of an `i128` by a positive divisor.
fn div_rem_i128(n: i128, d: i128) -> (qr: (i128, i128))
    requires
        d > 0,
    ensures
        qr.0 == trunc_div(n as int, d as int),
        qr.1 == trunc_rem(n as int, d as int),
{
    let q = n / d;
    let r = n % d;
    proof {
        if n >= 0 {
            vstd::arithmetic::div_mod::lemma_fundamental_div_mod(n as int, d as int);
        } else {
            let m = -n;
            vstd::arithmetic::div_mod::lemma_fundamental_div_mod(m, d as int);
            assert(q == -(m / (d as int)));
            assert(r == -(m % (d as int)));
            assert(d * (-(m / (d as int))) == -(d * (m / (d as int)))) by (nonlinear_arith);
        }
    }
    (q, r)
}

/// `value` in ticks of `target`, when exact.
pub fn convert_ticks(value: MediaTime, target: TimeBase) -> (ticks: Option<i64>)
    ensures
        ticks == convert_ticks_spec(value, target),
{
    proof {
        lemma_product_of_i64(value.ticks as int, value.time_base.numerator as int);
        lemma_product_of_i64(value.time_base.denominator as int, target.numerator as int);
    }
    let partial: i128 = (value.ticks as i128) * (value.time_base.numerator as i128);
    let numerator = match partial.checked_mul(target.denominator as i128) {
        Some(n) => n,
        None => return None,
    };
    let denominator: i128 = (value.time_base.denominator as i128) * (target.numerator as i128);
    if denominator == 0 {
        return None;
    }
    if denominator == -1 {
        // Every integer is divisible by -1; the quotient is the negated numerator.
        proof {
            let n = numerator as int;
            assert(abs_int(n) / 1 == abs_int(n));
            assert(trunc_div(n, -1) == -n);
            assert((-1) * (-n) == n) by (nonlinear_arith);
            assert(trunc_rem(n, -1) == 0);
        }
        if numerator == i128::MIN || -numerator < i64::MIN as i128 || -numerator > i64::MAX as i128 {
            return None;
        }
        return Some((-numerator) as i64);
    }
    let (quotient, remainder) = if denominator > 0 {
        div_rem_i128(numerator, denominator)
    } else {
        let (q, r) = div_rem_i128(numerator, -denominator);
        proof {
            assert(abs_int(numerator as int) / abs_int(denominator as int) <= abs_int(
                numerator as int,
            ) / 2) by (nonlinear_arith)
                requires
                    abs_int(denominator as int) >= 2,
                    abs_int(numerator as int) >= 0,
            ;
        }
        proof {
            let nn = numerator as int;
            let dd = denominator as int;
            assert(trunc_div(nn, dd) == -trunc_div(nn, -dd));
            assert(dd * (-q) == (-dd) * q) by (nonlinear_arith);
        }
        (-q, r)
    };
    if remainder != 0 {
        return None;
    }
    if quotient < i64::MIN as i128 || quotient > i64::MAX as i128 {
        return None;
    }
    Some(quotient as i64)
}

/// A media time as a fraction with a positive denominator.
pub open spec fn media_time_fraction_spec(value: MediaTime) -> (int, int) {
    let n = value.ticks * value.time_base.numerator;
    let d = value.time_base.denominator as int;
    if d < 0 {
        (-n, -d)
    } else {
        (n, d)
    }
}

pub fn media_time_fraction(value: MediaTime) -> (fraction: Option<(i128, i128)>)
    ensures
        fraction matches Some(f) && f.0 == media_time_fraction_spec(value).0 && f.1
            == media_time_fraction_spec(value).1,
{
    proof {
        lemma_product_of_i64(value.ticks as int, value.time_base.numerator as int);
    }
    let mut numerator: i128 = (value.ticks as i128) * (value.time_base.numerator as i128);
    let mut denominator: i128 = value.time_base.denominator as i128;
    if denominator < 0 {
        numerator = -numerator;
        denominator = -denominator;
    }
    Some((numerator, denominator))
}

/// Euclid's greatest common divisor of two non-negative integers.
pub open spec fn euclid_gcd(a: int, b: int) -> int
    decreases b,
    when b >= 0
{
    if b <= 0 {
        a
    } else {
        euclid_gcd(b, a % b)
    }
}

/// The greatest common divisor of the magnitudes, and at least 1.
pub open spec fn common_divisor(a: int, b: int) -> int {
    let g = euclid_gcd(abs_int(a), abs_int(b));
    if g < 1 {
        1
    } else {
        g
    }
}

proof fn lemma_euclid_gcd_bounds(a: int, b: int)
    requires
        a >= 0,
        b >= 0,
    ensures
        0 <= euclid_gcd(a, b) <= if a > b {
            a
        } else {
            b
        },
    decreases b,
{
    if b > 0 {
        assert(0 <= a % b < b);
        lemma_euclid_gcd_bounds(b, a % b);
    }
}

pub fn greatest_common_divisor(left: i128, right: i128) -> (divisor: i128)
    requires
        left != i128::MIN,
        right != i128::MIN,
    ensures
        divisor == common_divisor(left as int, right as int),
{
    let mut a: i128 = if left < 0 {
        -left
    } else {
        left
    };
    let mut b: i128 = if right < 0 {
        -right
    } else {
        right
    };
    let ghost target = euclid_gcd(abs_int(left as int), abs_int(right as int));
    while b != 0
        invariant
            a >= 0,
            b >= 0,
            euclid_gcd(a as int, b as int) == target,
        decreases b,
    {
        let remainder = a % b;
        a = b;
        b = remainder;
    }
    if a < 1 {
        1
    } else {
        a
    }
}

/// The exact sum of two media times as a reduced fraction of a second, when
/// every intermediate value fits in `i128` and the result fits in `i64`.
pub open spec fn add_media_times_exact_spec(left: MediaTime, right: MediaTime) -> Option<MediaTime> {
    let (ln, ld) = media_time_fraction_spec(left);
    let (rn, rd) = media_time_fraction_spec(right);
    let n = ln * rd + rn * ld;
    let d = ld * rd;
    if !in_i128(ln * rd) || !in_i128(rn * ld) || !in_i128(n) || !in_i128(d) {
        None
    } else {
        let g = common_divisor(n, d);
        let reduced_n = trunc_div(n, g);
        let reduced_d = trunc_div(d, g);
        if !in_i64(reduced_n) || !in_i64(reduced_d) || reduced_d == 0 {
            None
        } else {
            Some(
                MediaTime {
                    ticks: reduced_n as i64,
                    time_base: TimeBase { numerator: 1, denominator: reduced_d as i64 },
                },
            )
        }
    }
}

fn add_media_times_exact(left: MediaTime, right: MediaTime) -> (sum: Option<MediaTime>)
    requires
        positive_time_base(left.time_base),
        positive_time_base(right.time_base),
        right.ticks > 0,
    ensures
        sum == add_media_times_exact_spec(left, right),
{
    let (left_numerator, left_denominator) = match media_time_fraction(left) {
        Some(f) => f,
        None => return None,
    };
    let (right_numerator, right_denominator) = match media_time_fraction(right) {
        Some(f) => f,
        None => return None,
    };
    proof {
        assert(right_numerator > 0) by (nonlinear_arith)
            requires
                right.ticks > 0,
                right_numerator == (if right.time_base.denominator < 0 {
                    -(right.ticks * right.time_base.numerator)
                } else {
                    right.ticks * right.time_base.numerator
                }),
                right.time_base.numerator > 0 && right.time_base.denominator > 0
                    || right.time_base.numerator < 0 && right.time_base.denominator < 0,
        ;
        assert(left_denominator >= 1);
        assert(right_denominator >= 1);
    }
    let first = match left_numerator.checked_mul(right_denominator) {
        Some(v) => v,
        None => return None,
    };
    let second = match right_numerator.checked_mul(left_denominator) {
        Some(v) => v,
        None => return None,
    };
    let numerator = match first.checked_add(second) {
        Some(v) => v,
        None => return None,
    };
    let denominator = match left_denominator.checked_mul(right_denominator) {
        Some(v) => v,
        None => return None,
    };
    proof {
        assert(second > 0) by (nonlinear_arith)
            requires
                second == right_numerator * left_denominator,
                right_numerator > 0,
                left_denominator >= 1,
        ;
        assert(denominator >= 1) by (nonlinear_arith)
            requires
                denominator == left_denominator * right_denominator,
                left_denominator >= 1,
                right_denominator >= 1,
        ;
    }
    let divisor = greatest_common_divisor(numerator, denominator);
    proof {
        lemma_euclid_gcd_bounds(abs_int(numerator as int), abs_int(denominator as int));
    }
    let (reduced_numerator, _) = div_rem_i128(numerator, divisor);
    let (reduced_denominator, _) = div_rem_i128(denominator, divisor);
    if reduced_numerator < i64::MIN as i128 || reduced_numerator > i64::MAX as i128 {
        return None;
    }
    if reduced_denominator < i64::MIN as i128 || reduced_denominator > i64::MAX as i128 {
        return None;
    }
    let time_base = match TimeBase::new(1, reduced_denominator as i64) {
        Some(tb) => tb,
        None => return None,
    };
    Some(MediaTime::new(reduced_numerator as i64, time_base))
}

/// The time at which a frame ends, when its presentation time and duration are
/// known, the duration is not negative and both time bases run forward: the sum
/// in the presentation time base when the duration is a whole number of its
/// ticks, and otherwise the exact sum as a reduced fraction.
pub open spec fn exact_frame_end_time_spec(timing: FrameTiming) -> Option<MediaTime> {
    match (timing.presentation_time, timing.duration) {
        (Some(presentation), Some(duration)) => {
            if duration.ticks < 0 || !positive_time_base(presentation.time_base)
                || !positive_time_base(duration.time_base) {
                None
            } else {
                match convert_ticks_spec(duration, presentation.time_base) {
                    Some(duration_ticks) if in_i64(presentation.ticks + duration_ticks) => Some(
                        MediaTime {
                            ticks: (presentation.ticks + duration_ticks) as i64,
                            time_base: presentation.time_base,
                        },
                    ),
                    _ => add_media_times_exact_spec(presentation, duration),
                }
            }
        },
        _ => None,
    }
}

pub fn exact_frame_end_time(timing: &FrameTiming) -> (end: Option<MediaTime>)
    ensures
        end == exact_frame_end_time_spec(*timing),
{
    let presentation = match timing.presentation_time {
        Some(p) => p,
        None => return None,
    };
    let duration = match timing.duration {
        Some(d) => d,
        None => return None,
    };
    if duration.ticks < 0 || !is_positive_time_base(presentation.time_base)
        || !is_positive_time_base(duration.time_base) {
        return None;
    }
    if let Some(duration_ticks) = convert_ticks(duration, presentation.time_base) {
        if let Some(ticks) = presentation.ticks.checked_add(duration_ticks) {
            return Some(MediaTime::new(ticks, presentation.time_base));
        }
    }
    proof {
        // A zero duration always converts and adds without overflow, so the
        // duration here is positive.
        if duration.ticks == 0 {
            assert(duration.ticks * duration.time_base.numerator * presentation.time_base.denominator
                == 0) by (nonlinear_arith)
                requires
                    duration.ticks == 0,
            ;
            assert(duration.time_base.denominator * presentation.time_base.numerator != 0)
                by (nonlinear_arith)
                requires
                    duration.time_base.denominator != 0,
                    presentation.time_base.numerator != 0,
            ;
            assert(trunc_div(0, duration.time_base.denominator * presentation.time_base.numerator)
                == 0);
        }
    }
    add_media_times_exact(presentation, duration)
}

/// The value of a media time is `ticks * numerator / denominator` seconds; it is
/// held here as that numerator and denominator.
pub open spec fn seconds_numerator(time: MediaTime) -> int {
    time.ticks * time.time_base.numerator
}

pub open spec fn seconds_denominator(time: MediaTime) -> int {
    time.time_base.denominator as int
}

/// `sum` stands for the same number of seconds as `left` and `right` together
/// (the fractions compared by cross-multiplication).
pub open spec fn is_exact_sum(left: MediaTime, right: MediaTime, sum: MediaTime) -> bool {
    seconds_numerator(sum) * (seconds_denominator(left) * seconds_denominator(right)) == (
    seconds_numerator(left) * seconds_denominator(right) + seconds_numerator(right)
        * seconds_denominator(left)) * seconds_denominator(sum)
}

/// `x` is a whole multiple of `g`.
pub open spec fn is_multiple_of(x: int, g: int) -> bool {
    exists|k: int| x == #[trigger] (g * k)
}

proof fn lemma_euclid_gcd_divides(a: int, b: int)
    requires
        a >= 0,
        b >= 0,
    ensures
        is_multiple_of(a, euclid_gcd(a, b)),
        is_multiple_of(b, euclid_gcd(a, b)),
    decreases b,
{
    let g = euclid_gcd(a, b);
    if b == 0 {
        assert(a == g * 1);
        assert(b == g * 0);
    } else {
        lemma_euclid_gcd_divides(b, a % b);
        let k1 = choose|k: int| b == #[trigger] (g * k);
        let k2 = choose|k: int| a % b == #[trigger] (g * k);
        vstd::arithmetic::div_mod::lemma_fundamental_div_mod(a, b);
        assert(a == g * (k1 * (a / b) + k2)) by (nonlinear_arith)
            requires
                a == b * (a / b) + a % b,
                b == g * k1,
                a % b == g * k2,
        ;
    }
}

proof fn lemma_common_divisor_divides(a: int, b: int)
    ensures
        common_divisor(a, b) >= 1,
        is_multiple_of(a, common_divisor(a, b)),
        is_multiple_of(b, common_divisor(a, b)),
{
    let g = euclid_gcd(abs_int(a), abs_int(b));
    lemma_euclid_gcd_divides(abs_int(a), abs_int(b));
    if g < 1 {
        assert(a == 1 * a);
        assert(b == 1 * b);
    } else {
        let ka = choose|k: int| abs_int(a) == #[trigger] (g * k);
        let kb = choose|k: int| abs_int(b) == #[trigger] (g * k);
        if a < 0 {
            assert(a == g * (-ka)) by (nonlinear_arith)
                requires
                    -a == g * ka,
            ;
        } else {
            assert(a == g * ka);
        }
        if b < 0 {
            assert(b == g * (-kb)) by (nonlinear_arith)
                requires
                    -b == g * kb,
            ;
        } else {
            assert(b == g * kb);
        }
    }
}

/// Dividing an exact multiple gives back the factor.
proof fn lemma_trunc_div_exact(x: int, g: int, k: int)
    requires
        g > 0,
        x == g * k,
    ensures
        trunc_div(x, g) == k,
        trunc_rem(x, g) == 0,
{
    if k >= 0 {
        assert(x >= 0) by (nonlinear_arith)
            requires
                g > 0,
                k >= 0,
                x == g * k,
        ;
        vstd::arithmetic::div_mod::lemma_div_multiples_vanish(k, g);
    } else {
        assert(x < 0) by (nonlinear_arith)
            requires
                g > 0,
                k < 0,
                x == g * k,
        ;
        assert(-x == g * (-k)) by (nonlinear_arith)
            requires
                x == g * k,
        ;
        vstd::arithmetic::div_mod::lemma_div_multiples_vanish(-k, g);
    }
}

/// Law: a duration converted to another time base stands for the same time.
pub proof fn law_converted_ticks_are_exact(value: MediaTime, target: TimeBase)
    requires
        convert_ticks_spec(value, target) is Some,
    ensures
        ({
            let q = convert_ticks_spec(value, target)->0;
            q * target.numerator * value.time_base.denominator == value.ticks
                * value.time_base.numerator * target.denominator
        }),
{
    let q = convert_ticks_spec(value, target)->0;
    let n = value.ticks * value.time_base.numerator * target.denominator;
    let d = value.time_base.denominator * target.numerator;
    assert(n == d * trunc_div(n, d));
    assert(q * target.numerator * value.time_base.denominator == d * q) by (nonlinear_arith)
        requires
            d == value.time_base.denominator * target.numerator,
    ;
}

proof fn lemma_fraction_sign(time: MediaTime)
    ensures
        media_time_fraction_spec(time).0 * seconds_denominator(time) == seconds_numerator(time)
            * media_time_fraction_spec(time).1,
        seconds_denominator(time) != 0 ==> media_time_fraction_spec(time).1 > 0,
{
    let n = seconds_numerator(time);
    let d = seconds_denominator(time);
    if d < 0 {
        assert((-n) * d == n * (-d)) by (nonlinear_arith);
    } else {
        assert(n * d == n * d);
    }
}

proof fn lemma_sum_over_common_denominator(
    ln: int,
    ld: int,
    rn: int,
    rd: int,
    a: int,
    b: int,
    c: int,
    e: int,
)
    requires
        (ln == a && ld == b) || (ln == -a && ld == -b),
        (rn == c && rd == e) || (rn == -c && rd == -e),
    ensures
        (ln * rd + rn * ld) * (b * e) == (a * e + c * b) * (ld * rd),
{
    if ln == a && ld == b {
        if rn == c && rd == e {
            assert((a * e + c * b) * (b * e) == (a * e + c * b) * (b * e));
        } else {
            assert((a * (-e) + (-c) * b) * (b * e) == (a * e + c * b) * (b * (-e)))
                by (nonlinear_arith);
        }
    } else {
        if rn == c && rd == e {
            assert(((-a) * e + c * (-b)) * (b * e) == (a * e + c * b) * ((-b) * e))
                by (nonlinear_arith);
        } else {
            assert(((-a) * (-e) + (-c) * (-b)) * (b * e) == (a * e + c * b) * ((-b) * (-e)))
                by (nonlinear_arith);
        }
    }
}

/// Law: the end time of a frame is exactly its presentation time plus its duration.
pub proof fn law_frame_end_time_is_exact(timing: FrameTiming)
    requires
        exact_frame_end_time_spec(timing) is Some,
    ensures
        is_exact_sum(
            timing.presentation_time->0,
            timing.duration->0,
            exact_frame_end_time_spec(timing)->0,
        ),
{
    let p = timing.presentation_time->0;
    let dur = timing.duration->0;
    let end = exact_frame_end_time_spec(timing)->0;
    let pt = p.ticks as int;
    let ptn = p.time_base.numerator as int;
    let ptd = p.time_base.denominator as int;
    let dt = dur.ticks as int;
    let dn = dur.time_base.numerator as int;
    let dd = dur.time_base.denominator as int;
    match convert_ticks_spec(dur, p.time_base) {
        Some(q) if in_i64(pt + q) => {
            law_converted_ticks_are_exact(dur, p.time_base);
            assert(end.ticks == pt + q);
            assert((pt + q) * ptn * (ptd * dd) == (pt * ptn * dd + dt * dn * ptd) * ptd)
                by (nonlinear_arith)
                requires
                    q * ptn * dd == dt * dn * ptd,
            ;
        },
        _ => {
            let (ln, ld) = media_time_fraction_spec(p);
            let (rn, rd) = media_time_fraction_spec(dur);
            let n = ln * rd + rn * ld;
            let d = ld * rd;
            let g = common_divisor(n, d);
            lemma_common_divisor_divides(n, d);
            let kn = choose|k: int| n == #[trigger] (g * k);
            let kd = choose|k: int| d == #[trigger] (g * k);
            lemma_trunc_div_exact(n, g, kn);
            lemma_trunc_div_exact(d, g, kd);
            assert(end.ticks == kn);
            assert(end.time_base.denominator == kd);
            lemma_fraction_sign(p);
            lemma_fraction_sign(dur);
            // With S and D the sum over the common denominator, n * D == S * d.
            let big_s = pt * ptn * dd + dt * dn * ptd;
            let big_d = ptd * dd;
            lemma_sum_over_common_denominator(ln, ld, rn, rd, pt * ptn, ptd, dt * dn, dd);
            assert(n * big_d == big_s * d);
            assert(g * (kn * big_d) == g * (big_s * kd)) by (nonlinear_arith)
                requires
                    n == g * kn,
                    d == g * kd,
                    n * big_d == big_s * d,
            ;
            vstd::arithmetic::mul::lemma_mul_equality_converse(g, kn * big_d, big_s * kd);
            assert(kn * 1 * big_d == big_s * kd);
        },
    }
}

} // verus!
