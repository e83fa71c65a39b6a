use vstd::prelude::*;
use vstd::arithmetic::power::pow;
use vstd::arithmetic::power::lemma_pow_adds;
use vstd::arithmetic::power::lemma_pow_positive;
use vstd::arithmetic::power::lemma_pow_increases;
use vstd::arithmetic::div_mod::lemma_fundamental_div_mod_converse_div;
use vstd::arithmetic::div_mod::lemma_div_multiples_vanish_quotient;
use crate::arith::lemma_level_pow_constants;
use crate::experience::ExperienceValue;

verus! {

/// The experience lies outside the domain of the logarithmic level
/// inversion: `exp / 1000 + 1` is not positive, so `log_1.75` of it is
/// undefined. Raised exactly when the score is -1000 or below.
#[derive(Clone, Copy, Debug, PartialEq, Eq, Structural)]
pub struct InputDomainError {}

/// A resolved progression level together with the width of its level band
/// (the experience gap between this level's threshold and the next one's),
/// floor-rounded to two decimals and held in hundredths.
#[derive(Clone, Copy, Debug, PartialEq, Eq, Structural)]
pub struct LevelResult {
    pub level: i32,
    pub remaining_hundredths: i64,
}

/// Whether a score of `e` hundredths reaches level `l`, that is whether
/// `1.75^l <= e/100000 + 1`, written with 1.75 = 7/4 as an exact integer
/// inequality. The level of `e` is the greatest `l` that `e` reaches.
pub open spec fn reaches_level(e: int, l: int) -> bool {
    if l >= 0 {
        100000 * pow(7, l as nat) <= (e + 100000) * pow(4, l as nat)
    } else {
        100000 * pow(4, (-l) as nat) <= (e + 100000) * pow(7, (-l) as nat)
    }
}

/// The width of level band `l` in hundredths: the experience required for
/// level `l + 1` minus the experience required for level `l`, which is
/// `1000 * (1.75^(l+1) - 1.75^l) = 750 * 1.75^l`, floor-rounded to two
/// decimals.
pub open spec fn band_width_hundredths(l: int) -> int {
    if l >= 0 {
        75000 * pow(7, l as nat) / pow(4, l as nat)
    } else {
        75000 * pow(4, (-l) as nat) / pow(7, (-l) as nat)
    }
}

/// A score that reaches some level reaches every level below it.
pub proof fn lemma_reaches_step_down(e: int, l: int)
    requires
        e + 100000 >= 1,
        reaches_level(e, l + 1),
    ensures
        reaches_level(e, l),
{
    let x = e + 100000;
    if l >= 0 {
        lemma_pow_adds(7, l as nat, 1);
        lemma_pow_adds(4, l as nat, 1);
        vstd::arithmetic::power::lemma_pow1(7);
        vstd::arithmetic::power::lemma_pow1(4);
        lemma_pow_positive(7, l as nat);
        lemma_pow_positive(4, l as nat);
        assert(100000 * pow(7, l as nat) <= x * pow(4, l as nat)) by (nonlinear_arith)
            requires
                100000 * (pow(7, l as nat) * 7) <= x * (pow(4, l as nat) * 4),
                x >= 1,
                pow(7, l as nat) > 0,
                pow(4, l as nat) > 0,
        ;
    } else if l == -1 {
        assert(pow(7, 0) == 1 && pow(4, 0) == 1) by {
            vstd::arithmetic::power::lemma_pow0(7);
            vstd::arithmetic::power::lemma_pow0(4);
        }
        vstd::arithmetic::power::lemma_pow1(7);
        vstd::arithmetic::power::lemma_pow1(4);
        assert(100000 <= x);
        assert(100000 * pow(4, 1) <= x * pow(7, 1));
    } else {
        let k = (-l) as nat;
        assert(k >= 2);
        assert((-(l + 1)) as nat == (k - 1) as nat);
        lemma_pow_adds(7, (k - 1) as nat, 1);
        lemma_pow_adds(4, (k - 1) as nat, 1);
        lemma_pow_positive(7, (k - 1) as nat);
        lemma_pow_positive(4, (k - 1) as nat);
        vstd::arithmetic::power::lemma_pow1(7);
        vstd::arithmetic::power::lemma_pow1(4);
        assert(100000 * pow(4, k) <= x * pow(7, k)) by (nonlinear_arith)
            requires
                100000 * pow(4, (k - 1) as nat) <= x * pow(7, (k - 1) as nat),
                pow(4, k) == pow(4, (k - 1) as nat) * 4,
                pow(7, k) == pow(7, (k - 1) as nat) * 7,
                x >= 1,
                pow(7, (k - 1) as nat) > 0,
                pow(4, (k - 1) as nat) > 0,
        ;
    }
}

/// Reaching levels is downward closed: whatever reaches `l2` reaches every
/// `l1 <= l2`.
pub proof fn lemma_reaches_antitone(e: int, l1: int, l2: int)
    requires
        e + 100000 >= 1,
        l1 <= l2,
        reaches_level(e, l2),
    ensures
        reaches_level(e, l1),
    decreases l2 - l1,
{
    if l1 < l2 {
        lemma_reaches_step_down(e, l2 - 1);
        lemma_reaches_antitone(e, l1, l2 - 1);
    }
}

/// No score an `i64` can hold in hundredths reaches level 60.
pub proof fn lemma_level_upper_bound(e: int, l: int)
    requires
        e + 100000 >= 1,
        e <= i64::MAX,
        reaches_level(e, l),
    ensures
        l <= 59,
{
    if l >= 60 {
        lemma_reaches_antitone(e, 60, l);
        lemma_level_pow_constants();
        assert(100000 * pow(7, 60) <= (e + 100000) * pow(4, 60));
        assert(false);
    }
}

/// Every score above the domain edge reaches level -21.
pub proof fn lemma_reaches_neg21(e: int)
    requires
        e + 100000 >= 1,
    ensures
        reaches_level(e, -21),
{
    lemma_level_pow_constants();
    assert(100000 * pow(4, 21) <= (e + 100000) * pow(7, 21));
}

/// The two clauses `resolve_level` establishes pin the level down: only one
/// integer both reaches and has an unreached successor.
pub proof fn lemma_level_unique(e: int, l1: int, l2: int)
    requires
        e + 100000 >= 1,
        reaches_level(e, l1),
        !reaches_level(e, l1 + 1),
        reaches_level(e, l2),
        !reaches_level(e, l2 + 1),
    ensures
        l1 == l2,
{
    if l1 < l2 {
        lemma_reaches_antitone(e, l1 + 1, l2);
        assert(false);
    }
    if l2 < l1 {
        lemma_reaches_antitone(e, l2 + 1, l1);
        assert(false);
    }
}

/// The loop test over the maintained quotient-remainder pair agrees with
/// `reaches_level`: with `100000 * 7^l == q * d + r`, `0 <= r < d`,
/// `d == 4^l`, reaching level `l` means `q` (rounded up) is at most
/// `e + 100000`.
proof fn lemma_reaches_test(e: int, l: int, q: int, r: int, d: int)
    requires
        l >= 0,
        d == pow(4, l as nat),
        q * d + r == 100000 * pow(7, l as nat),
        0 <= r < d,
    ensures
        reaches_level(e, l) <==> q + (if r > 0 { 1int } else { 0int }) <= e + 100000,
{
    let x = e + 100000;
    lemma_pow_positive(4, l as nat);
    if r > 0 {
        assert((q * d + r <= x * d) <==> (q + 1 <= x)) by (nonlinear_arith)
            requires
                0 < r < d,
        ;
    } else {
        assert((q * d + r <= x * d) <==> (q <= x)) by (nonlinear_arith)
            requires
                r == 0,
                d > 0,
        ;
    }
}

/// Maps an experience score (hundredths) to its progression level and the
/// width of that level's band. The level is the floor of
/// `log_1.75(exp/1000 + 1)`, characterized exactly: it is reached, and the
/// next level is not. Scores of -1000 or below lie outside the logarithm's
/// domain and are rejected.
pub fn resolve_level(exp: ExperienceValue) -> (res: Result<LevelResult, InputDomainError>)
    ensures
        res is Err <==> exp.hundredths <= -100000,
        res matches Ok(lr) ==> {
            &&& reaches_level(exp.hundredths as int, lr.level as int)
            &&& !reaches_level(exp.hundredths as int, lr.level as int + 1)
            &&& lr.remaining_hundredths == band_width_hundredths(lr.level as int)
        },
{
    let e = exp.hundredths;
    if e <= -100000 {
        return Err(InputDomainError {});
    }
    let x: u128 = (e as i128 + 100000) as u128;
    if e >= 0 {
        let mut q: u128 = 100000;
        let mut r: u128 = 0;
        let mut d: u128 = 1;
        let mut lvl: i32 = 0;
        proof {
            assert(pow(7, 0) == 1 && pow(4, 0) == 1) by {
                vstd::arithmetic::power::lemma_pow0(7);
                vstd::arithmetic::power::lemma_pow0(4);
            }
            assert(reaches_level(e as int, 0));
        }
        loop
            invariant
                0 <= lvl <= 59,
                e == exp.hundredths,
                e >= 0,
                e <= i64::MAX,
                x == e + 100000,
                d == pow(4, lvl as nat),
                q * d + r == 100000 * pow(7, lvl as nat),
                r < d,
                q <= x,
                reaches_level(e as int, lvl as int),
            decreases 59 - lvl,
        {
            proof {
                lemma_level_pow_constants();
                lemma_pow_increases(4, lvl as nat, 60);
                lemma_pow_positive(4, lvl as nat);
                lemma_pow_positive(7, lvl as nat);
            }
            let t: u128 = 7 * r;
            let s: u128 = t / d;
            let tm: u128 = t % d;
            proof {
                vstd::arithmetic::div_mod::lemma_fundamental_div_mod(t as int, d as int);
                assert(s <= 6) by (nonlinear_arith)
                    requires
                        d * s + tm == t,
                        t == 7 * r,
                        r < d,
                        0 < d,
                        0 <= tm,
                        0 <= s,
                ;
            }
            let a2: u128 = 7 * q + s;
            let q2: u128 = a2 / 4;
            let b2: u128 = a2 % 4;
            proof {
                assert(b2 * d <= 3 * d) by (nonlinear_arith)
                    requires
                        b2 <= 3,
                        d >= 0,
                ;
            }
            let r2: u128 = b2 * d + tm;
            let d2: u128 = 4 * d;
            proof {
                lemma_pow_adds(7, lvl as nat, 1);
                lemma_pow_adds(4, lvl as nat, 1);
                vstd::arithmetic::power::lemma_pow1(7);
                vstd::arithmetic::power::lemma_pow1(4);
                assert(q2 * d2 + r2 == 100000 * pow(7, (lvl + 1) as nat)
                    && r2 < d2) by (nonlinear_arith)
                    requires
                        q * d + r == 100000 * pow(7, lvl as nat),
                        pow(7, (lvl + 1) as nat) == pow(7, lvl as nat) * 7,
                        d * s + tm == 7 * r,
                        tm < d,
                        a2 == 7 * q + s,
                        a2 == q2 * 4 + b2,
                        b2 < 4,
                        r2 == b2 * d + tm,
                        d2 == 4 * d,
                        0 < d,
                ;
                assert(d2 == pow(4, (lvl + 1) as nat));
                lemma_reaches_test(e as int, lvl as int + 1, q2 as int, r2 as int, d2 as int);
            }
            let step_up: bool = if r2 > 0 {
                q2 < x
            } else {
                q2 <= x
            };
            if step_up {
                proof {
                    assert(reaches_level(e as int, lvl as int + 1));
                    lemma_level_upper_bound(e as int, lvl as int + 1);
                    assert(q2 * d2 + r2 <= x * d2) by (nonlinear_arith)
                        requires
                            q2 + (if r2 > 0 { 1int } else { 0int }) <= x,
                            0 <= r2 < d2,
                            0 < d2,
                    ;
                    assert(q2 <= x);
                }
                q = q2;
                r = r2;
                d = d2;
                lvl = lvl + 1;
            } else {
                proof {
                    assert(!reaches_level(e as int, lvl as int + 1));
                }
                let u: u128 = 3 * r / d;
                let v: u128 = 3 * r % d;
                let a3: u128 = 3 * q + u;
                let g: u128 = a3 / 4;
                let w: u128 = a3 % 4;
                proof {
                    vstd::arithmetic::div_mod::lemma_fundamental_div_mod((3 * r) as int, d as int);
                    assert(u <= 2) by (nonlinear_arith)
                        requires
                            d * u + v == 3 * r,
                            r < d,
                            0 < d,
                            0 <= v,
                            0 <= u,
                    ;
                    let n3: int = 3 * (100000 * pow(7, lvl as nat));
                    assert(n3 == g * (4 * d) + (w * d + v) && 0 <= w * d + v < 4 * d)
                        by (nonlinear_arith)
                        requires
                            q * d + r == 100000 * pow(7, lvl as nat),
                            n3 == 3 * (100000 * pow(7, lvl as nat)),
                            d * u + v == 3 * r,
                            v < d,
                            a3 == 3 * q + u,
                            a3 == g * 4 + w,
                            w < 4,
                            0 < d,
                    ;
                    lemma_fundamental_div_mod_converse_div(
                        n3,
                        4 * d as int,
                        g as int,
                        w as int * d as int + v as int,
                    );
                    lemma_pow_positive(7, lvl as nat);
                    lemma_div_multiples_vanish_quotient(
                        4,
                        75000 * pow(7, lvl as nat),
                        pow(4, lvl as nat) as int,
                    );
                    assert(4 * (75000 * pow(7, lvl as nat)) == n3);
                    assert(4 * pow(4, lvl as nat) == 4 * d);
                    assert(g == band_width_hundredths(lvl as int));
                    assert(g * 4 + w == 3 * q + u);
                    assert(g as int <= (3 * (x as int) + 2) / 4);
                }
                return Ok(LevelResult { level: lvl, remaining_hundredths: g as i64 });
            }
        }
    } else {
        let mut k: u32 = 1;
        let mut pow4: u128 = 4;
        let mut pow7: u128 = 7;
        proof {
            vstd::arithmetic::power::lemma_pow1(7);
            vstd::arithmetic::power::lemma_pow1(4);
            assert(pow(7, 0) == 1 && pow(4, 0) == 1) by {
                vstd::arithmetic::power::lemma_pow0(7);
                vstd::arithmetic::power::lemma_pow0(4);
            }
            assert(!reaches_level(e as int, 0));
        }
        loop
            invariant
                1 <= k <= 21,
                e == exp.hundredths,
                -100000 < e < 0,
                x == e + 100000,
                pow4 == pow(4, k as nat),
                pow7 == pow(7, k as nat),
                !reaches_level(e as int, -(k as int) + 1),
            decreases 21 - k,
        {
            proof {
                lemma_level_pow_constants();
                lemma_pow_increases(4, k as nat, 21);
                lemma_pow_increases(7, k as nat, 21);
                lemma_pow_positive(4, k as nat);
                lemma_pow_positive(7, k as nat);
                assert(x * pow7 <= 100000 * 558545864083284007) by (nonlinear_arith)
                    requires
                        0 <= x <= 100000,
                        0 <= pow7 <= 558545864083284007,
                ;
            }
            if 100000 * pow4 <= x * pow7 {
                proof {
                    assert(reaches_level(e as int, -(k as int)));
                }
                let rem: u128 = 75000 * pow4 / pow7;
                proof {
                    assert(rem == band_width_hundredths(-(k as int)));
                    vstd::arithmetic::div_mod::lemma_fundamental_div_mod(
                        (75000 * pow4) as int,
                        pow7 as int,
                    );
                    assert(rem <= 75000 * pow4) by (nonlinear_arith)
                        requires
                            rem == (75000 * pow4) as int / pow7 as int,
                            pow7 >= 1,
                            pow4 >= 0,
                    ;
                }
                return Ok(
                    LevelResult { level: -(k as i32), remaining_hundredths: rem as i64 },
                );
            } else {
                proof {
                    assert(!reaches_level(e as int, -(k as int)));
                    if k == 21 {
                        lemma_reaches_neg21(e as int);
                        assert(false);
                    }
                }
                k = k + 1;
                pow4 = 4 * pow4;
                pow7 = 7 * pow7;
                proof {
                    lemma_pow_adds(4, (k - 1) as nat, 1);
                    lemma_pow_adds(7, (k - 1) as nat, 1);
                    vstd::arithmetic::power::lemma_pow1(7);
                    vstd::arithmetic::power::lemma_pow1(4);
                }
            }
        }
    }
}

} // verus!
