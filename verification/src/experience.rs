use vstd::prelude::*;
use vstd::arithmetic::power::pow;
use vstd::arithmetic::div_mod::lemma_fundamental_div_mod;
use vstd::arithmetic::div_mod::lemma_fundamental_div_mod_converse_div;
use vstd::arithmetic::div_mod::lemma_div_is_ordered;
use vstd::arithmetic::div_mod::lemma_div_pos_is_pos;
use crate::arith::lemma_pow_constants;
use crate::arith::div_floor;
use crate::WorkoutData;

verus! {

/// Largest magnitude (in hundredths) each workout metric may have; it keeps
/// every intermediate product of the fixed-point evaluation inside 128 bits.
pub const MAX_METRIC_HUNDREDTHS: i64 = 100_000_000_000;

/// 11^10, the numerator of the exact value of 1.1^10.
const POW11_10: i128 = 25937424601;

/// 10^15, used to bring the push-up term onto the common denominator 10^49.
const E15: i128 = 1_000_000_000_000_000;

/// 10^24 and 10^25: the two stages of the division by 10^49.
const E24: u128 = 1_000_000_000_000_000_000_000_000;

const E25: u128 = 10_000_000_000_000_000_000_000_000;

/// The three digit groups of 11^50 = Q50 * 10^49 + S50 * 10^25 + T50,
/// with 0 <= S50 < 10^24 and 0 <= T50 < 10^25.
const Q50: i128 = 1173;

const S50: i128 = 908528796953165066664959;

const T50: i128 = 9035831993898213898723001;

/// A derived experience score, held exactly in hundredths: the score floor
/// rounded to two decimal digits is `hundredths / 100`. By construction one
/// hundred times the score is always a whole number.
#[derive(Clone, Copy, Debug, PartialEq, Eq, Structural)]
pub struct ExperienceValue {
    pub hundredths: i64,
}

/// One hundred times the experience score of a workout, as an exact integer.
///
/// A metric `m` held in hundredths contributes `(m/100) * 50 * 1.1^bias`
/// experience: bias 1 for sit-ups (whole counts, so exactly `55 * s`),
/// bias 10 for push-ups and bias 50 for distance, with 1.1^k = 11^k / 10^k.
/// The sum is rounded toward negative infinity at the second decimal digit,
/// which is the single division by 10^49 below.
pub open spec fn exp_hundredths(s: int, p: int, d: int) -> int {
    5500 * s + (5 * p * pow(11, 10) * pow(10, 40) + 5 * d * pow(11, 50)) / pow(10, 49)
}

/// Whether one metric, in hundredths, is small enough for evaluation.
pub open spec fn metric_in_range(m: int) -> bool {
    -(MAX_METRIC_HUNDREDTHS as int) <= m <= MAX_METRIC_HUNDREDTHS as int
}

/// Whether every metric of a workout is small enough for evaluation.
pub open spec fn workout_in_range(data: WorkoutData) -> bool {
    &&& metric_in_range(data.situps as int)
    &&& metric_in_range(data.pushups_hundredths as int)
    &&& metric_in_range(data.run_distance_hundredths as int)
}

/// Maps a workout record to its experience score, in hundredths: each metric
/// is scaled by 50, biased by its power of 1.1, and the sum is floor-rounded
/// to two decimal digits. Exact over the rationals; no error conditions.
pub fn compute_experience(data: &WorkoutData) -> (r: ExperienceValue)
    requires
        workout_in_range(*data),
    ensures
        r.hundredths == exp_hundredths(
            data.situps as int,
            data.pushups_hundredths as int,
            data.run_distance_hundredths as int,
        ),
{
    let s: i128 = data.situps as i128;
    let p: i128 = data.pushups_hundredths as i128;
    let d: i128 = data.run_distance_hundredths as i128;
    let a: i128 = 5 * p * POW11_10 * E15 + 5 * d * S50;
    let b: i128 = 5 * d * T50;
    let f1: i128 = div_floor(b, E25);
    proof {
        lemma_fundamental_div_mod(b as int, E25 as int);
    }
    let x: i128 = a + f1;
    let f2: i128 = div_floor(x, E24);
    proof {
        lemma_fundamental_div_mod(x as int, E24 as int);
    }
    let total: i128 = 5500 * s + 5 * d * Q50 + f2;
    proof {
        let si: int = data.situps as int;
        let pi: int = data.pushups_hundredths as int;
        let di: int = data.run_distance_hundredths as int;
        lemma_pow_constants();
        let e15: int = 1_000_000_000_000_000;
        let e24: int = 1_000_000_000_000_000_000_000_000;
        let e25: int = 10_000_000_000_000_000_000_000_000;
        let e40: int = pow(10, 40);
        let e49: int = pow(10, 49);
        let c10: int = 25937424601;
        let l50: int = pow(11, 50);
        let qd: int = 1173;
        let sd: int = 908528796953165066664959;
        let td: int = 9035831993898213898723001;
        assert(l50 == qd * e49 + sd * e25 + td);
        assert(e40 == e15 * e25);
        assert(e49 == e24 * e25);
        let big_a: int = 5 * pi * c10 * e15 + 5 * di * sd;
        let big_b: int = 5 * di * td;
        let g: int = 5 * di * qd;
        let n: int = 5 * pi * c10 * e40 + 5 * di * l50;
        assert(5 * di * l50 == g * e49 + (5 * di * sd) * e25 + big_b) by (nonlinear_arith)
            requires
                l50 == qd * e49 + sd * e25 + td,
                big_b == 5 * di * td,
                g == 5 * di * qd,
        ;
        assert(5 * pi * c10 * e40 == (5 * pi * c10 * e15) * e25) by (nonlinear_arith)
            requires
                e40 == e15 * e25,
        ;
        assert(big_a * e25 == (5 * pi * c10 * e15) * e25 + (5 * di * sd) * e25) by (nonlinear_arith)
            requires
                big_a == 5 * pi * c10 * e15 + 5 * di * sd,
        ;
        assert(n == g * e49 + big_a * e25 + big_b);
        let b_r: int = big_b - f1 * e25;
        assert(0 <= b_r < e25);
        let x_r: int = x as int - f2 * e24;
        assert(0 <= x_r < e24);
        assert(n == (g + f2) * e49 + (x_r * e25 + b_r)) by (nonlinear_arith)
            requires
                n == g * e49 + big_a * e25 + big_b,
                big_b == f1 * e25 + b_r,
                x as int == big_a + f1,
                x as int == f2 * e24 + x_r,
                e49 == e24 * e25,
        ;
        assert(0 <= x_r * e25 + b_r < e49) by (nonlinear_arith)
            requires
                0 <= b_r < e25,
                0 <= x_r < e24,
                e49 == e24 * e25,
        ;
        lemma_fundamental_div_mod_converse_div(n, e49, g + f2, x_r * e25 + b_r);
        assert(exp_hundredths(si, pi, di) == 5500 * si + n / e49);
        assert(total as int == exp_hundredths(si, pi, di));
    }
    ExperienceValue { hundredths: total as i64 }
}

/// A non-negative workout never scores below zero, so its level resolution
/// cannot leave the logarithm's domain.
pub proof fn lemma_experience_nonneg(s: int, p: int, d: int)
    requires
        0 <= s,
        0 <= p,
        0 <= d,
    ensures
        exp_hundredths(s, p, d) >= 0,
{
    lemma_pow_constants();
    let n: int = 5 * p * pow(11, 10) * pow(10, 40) + 5 * d * pow(11, 50);
    assert(n >= 0) by (nonlinear_arith)
        requires
            p >= 0,
            d >= 0,
            n == 5 * p * pow(11, 10) * pow(10, 40) + 5 * d * pow(11, 50),
            pow(11, 10) > 0,
            pow(10, 40) > 0,
            pow(11, 50) > 0,
    ;
    lemma_div_pos_is_pos(n, pow(10, 49));
}

/// With push-ups and distance held fixed, more sit-ups never lower the
/// experience score of a non-negative workout.
pub proof fn lemma_experience_monotone_in_situps(s1: int, s2: int, p: int, d: int)
    requires
        0 <= s1 <= s2,
        0 <= p,
        0 <= d,
    ensures
        exp_hundredths(s1, p, d) <= exp_hundredths(s2, p, d),
{
}

/// With sit-ups and distance held fixed, more push-ups never lower the
/// experience score of a non-negative workout.
pub proof fn lemma_experience_monotone_in_pushups(s: int, p1: int, p2: int, d: int)
    requires
        0 <= s,
        0 <= p1 <= p2,
        0 <= d,
    ensures
        exp_hundredths(s, p1, d) <= exp_hundredths(s, p2, d),
{
    lemma_pow_constants();
    let n1: int = 5 * p1 * pow(11, 10) * pow(10, 40) + 5 * d * pow(11, 50);
    let n2: int = 5 * p2 * pow(11, 10) * pow(10, 40) + 5 * d * pow(11, 50);
    assert(n1 <= n2) by (nonlinear_arith)
        requires
            p1 <= p2,
            n1 == 5 * p1 * pow(11, 10) * pow(10, 40) + 5 * d * pow(11, 50),
            n2 == 5 * p2 * pow(11, 10) * pow(10, 40) + 5 * d * pow(11, 50),
            pow(11, 10) > 0,
            pow(10, 40) > 0,
    ;
    lemma_div_is_ordered(n1, n2, pow(10, 49));
}

/// With sit-ups and push-ups held fixed, more distance never lowers the
/// experience score of a non-negative workout.
pub proof fn lemma_experience_monotone_in_distance(s: int, p: int, d1: int, d2: int)
    requires
        0 <= s,
        0 <= p,
        0 <= d1 <= d2,
    ensures
        exp_hundredths(s, p, d1) <= exp_hundredths(s, p, d2),
{
    lemma_pow_constants();
    let n1: int = 5 * p * pow(11, 10) * pow(10, 40) + 5 * d1 * pow(11, 50);
    let n2: int = 5 * p * pow(11, 10) * pow(10, 40) + 5 * d2 * pow(11, 50);
    assert(n1 <= n2) by (nonlinear_arith)
        requires
            d1 <= d2,
            n1 == 5 * p * pow(11, 10) * pow(10, 40) + 5 * d1 * pow(11, 50),
            n2 == 5 * p * pow(11, 10) * pow(10, 40) + 5 * d2 * pow(11, 50),
            pow(11, 50) > 0,
    ;
    lemma_div_is_ordered(n1, n2, pow(10, 49));
}

} // verus!
