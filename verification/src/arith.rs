use vstd::prelude::*;
use vstd::arithmetic::power::pow;
use vstd::arithmetic::power::lemma_pow1;
use vstd::arithmetic::power::lemma_pow_adds;
use vstd::arithmetic::div_mod::lemma_fundamental_div_mod;
use vstd::arithmetic::div_mod::lemma_fundamental_div_mod_converse_div;

verus! {

/// Ground values of the powers that the experience and level formulas use.
/// Each is proved by repeated squaring from `pow`'s definition.
pub proof fn lemma_pow_constants()
    ensures
        pow(11, 10) == 25937424601,
        pow(11, 50) == 11739085287969531650666649599035831993898213898723001,
        pow(10, 15) == 1000000000000000,
        pow(10, 24) == 1000000000000000000000000,
        pow(10, 25) == 10000000000000000000000000,
        pow(10, 40) == 10000000000000000000000000000000000000000,
        pow(10, 49) == 10000000000000000000000000000000000000000000000000,
{
    lemma_pow1(11);
    assert(pow(11, 1) == 11);
    lemma_pow_adds(11, 1, 1);
    assert(pow(11, 2) == 121);
    lemma_pow_adds(11, 2, 2);
    assert(pow(11, 4) == 14641);
    lemma_pow_adds(11, 4, 1);
    assert(pow(11, 5) == 161051);
    lemma_pow_adds(11, 5, 5);
    assert(pow(11, 10) == 25937424601);
    lemma_pow_adds(11, 10, 10);
    assert(pow(11, 20) == 672749994932560009201);
    lemma_pow_adds(11, 20, 20);
    assert(pow(11, 40) == 452592555681759518058893560348969204658401);
    lemma_pow_adds(11, 40, 10);
    assert(pow(11, 50) == 11739085287969531650666649599035831993898213898723001);
    lemma_pow1(10);
    assert(pow(10, 1) == 10);
    lemma_pow_adds(10, 1, 1);
    assert(pow(10, 2) == 100);
    lemma_pow_adds(10, 2, 2);
    assert(pow(10, 4) == 10000);
    lemma_pow_adds(10, 4, 1);
    assert(pow(10, 5) == 100000);
    lemma_pow_adds(10, 5, 5);
    lemma_pow_adds(10, 10, 5);
    assert(pow(10, 15) == 1000000000000000);
    lemma_pow_adds(10, 10, 10);
    lemma_pow_adds(10, 20, 4);
    assert(pow(10, 24) == 1000000000000000000000000);
    lemma_pow_adds(10, 20, 5);
    assert(pow(10, 25) == 10000000000000000000000000);
    lemma_pow_adds(10, 20, 20);
    assert(pow(10, 40) == 10000000000000000000000000000000000000000);
    lemma_pow_adds(10, 40, 4);
    lemma_pow_adds(10, 44, 5);
    assert(pow(10, 49) == 10000000000000000000000000000000000000000000000000);
}

/// Ground values of the powers of 7 and 4 that bound the level search.
pub proof fn lemma_level_pow_constants()
    ensures
        pow(7, 21) == 558545864083284007,
        pow(4, 21) == 4398046511104,
        pow(7, 60) == 508021860739623365322188197652216501772434524836001,
        pow(4, 60) == 1329227995784915872903807060280344576,
{
    lemma_pow1(7);
    assert(pow(7, 1) == 7);
    lemma_pow_adds(7, 1, 1);
    assert(pow(7, 2) == 49);
    lemma_pow_adds(7, 2, 2);
    assert(pow(7, 4) == 2401);
    lemma_pow_adds(7, 4, 1);
    assert(pow(7, 5) == 16807);
    lemma_pow_adds(7, 5, 5);
    assert(pow(7, 10) == 282475249);
    lemma_pow_adds(7, 10, 10);
    assert(pow(7, 20) == 79792266297612001);
    lemma_pow_adds(7, 20, 1);
    assert(pow(7, 21) == 558545864083284007);
    lemma_pow_adds(7, 20, 20);
    assert(pow(7, 40) == 6366805760909027985741435139224001);
    lemma_pow_adds(7, 40, 20);
    assert(pow(7, 60) == 508021860739623365322188197652216501772434524836001);
    lemma_pow1(4);
    assert(pow(4, 1) == 4);
    lemma_pow_adds(4, 1, 1);
    assert(pow(4, 2) == 16);
    lemma_pow_adds(4, 2, 2);
    assert(pow(4, 4) == 256);
    lemma_pow_adds(4, 4, 1);
    assert(pow(4, 5) == 1024);
    lemma_pow_adds(4, 5, 5);
    assert(pow(4, 10) == 1048576);
    lemma_pow_adds(4, 10, 10);
    assert(pow(4, 20) == 1099511627776);
    lemma_pow_adds(4, 20, 1);
    assert(pow(4, 21) == 4398046511104);
    lemma_pow_adds(4, 20, 20);
    assert(pow(4, 40) == 1208925819614629174706176);
    lemma_pow_adds(4, 40, 20);
    assert(pow(4, 60) == 1329227995784915872903807060280344576);
}

/// Quotient of `n` by `d`, rounded toward negative infinity, matching the
/// mathematical integer division `n / d` of the specification language.
pub fn div_floor(n: i128, d: u128) -> (q: i128)
    requires
        0 < d,
        n > i128::MIN,
    ensures
        q == n as int / d as int,
{
    if n >= 0 {
        let nn: u128 = n as u128;
        let qq: u128 = nn / d;
        proof {
            lemma_fundamental_div_mod(nn as int, d as int);
        }
        qq as i128
    } else {
        let nn: u128 = (-n) as u128;
        let qq: u128 = nn / d;
        let rr: u128 = nn % d;
        proof {
            lemma_fundamental_div_mod(nn as int, d as int);
        }
        if rr == 0 {
            proof {
                assert(n as int == (-(qq as int)) * d as int + 0) by (nonlinear_arith)
                    requires
                        nn == d * qq + rr,
                        rr == 0,
                        n as int == -(nn as int),
                ;
                lemma_fundamental_div_mod_converse_div(
                    n as int,
                    d as int,
                    -(qq as int),
                    0,
                );
            }
            -(qq as i128)
        } else {
            proof {
                assert(n as int == (-(qq as int) - 1) * d as int + (d - rr)) by (nonlinear_arith)
                    requires
                        nn == d * qq + rr,
                        n as int == -(nn as int),
                        d > 0,
                ;
                lemma_fundamental_div_mod_converse_div(
                    n as int,
                    d as int,
                    -(qq as int) - 1,
                    d as int - rr as int,
                );
            }
            -(qq as i128) - 1
        }
    }
}

} // verus!
