use vstd::prelude::*;

use vstd::arithmetic::div_mod::{
    lemma_fundamental_div_mod, lemma_mod_multiples_vanish, lemma_div_multiples_vanish,
};

verus! {

/// Greatest common divisor, by Euclid's recursion.
pub open spec fn spec_gcd(a: nat, b: nat) -> nat
    decreases b,
{
    if b > 0 {
        spec_gcd(b, a % b)
    } else {
        a
    }
}

/// Least common multiple of two numbers that are not both zero.
pub open spec fn spec_lcm(a: nat, b: nat) -> nat {
    (a * b / spec_gcd(a, b)) as nat
}

pub fn gcd(a: usize, b: usize) -> (r: usize)
    ensures
        r == spec_gcd(a as nat, b as nat),
    decreases b,
{
    if b > 0 {
        gcd(b, a % b)
    } else {
        a
    }
}

pub fn lcm(a: usize, b: usize) -> (r: usize)
    requires
        a > 0 || b > 0,
        a * b <= usize::MAX,
    ensures
        r == spec_lcm(a as nat, b as nat),
{
    proof {
        lemma_gcd_divides(a as nat, b as nat);
        assert(a * b >= 0) by (nonlinear_arith);
    }
    let g = gcd(a, b);
    (a * b) / g
}

proof fn lemma_divides_combination(g: int, b: int, q: int, r: int)
    requires
        g > 0,
        b % g == 0,
        r % g == 0,
    ensures
        (b * q + r) % g == 0,
{
    lemma_fundamental_div_mod(b, g);
    lemma_fundamental_div_mod(r, g);
    let kb = b / g;
    let kr = r / g;
    assert(b * q + r == g * (kb * q + kr) + 0) by (nonlinear_arith)
        requires
            b == g * kb + 0,
            r == g * kr + 0,
    ;
    lemma_mod_multiples_vanish(kb * q + kr, 0, g);
}

/// The greatest common divisor is zero only for two zeros, and otherwise
/// divides both numbers.
pub proof fn lemma_gcd_divides(a: nat, b: nat)
    ensures
        (spec_gcd(a, b) == 0) == (a == 0 && b == 0),
        spec_gcd(a, b) > 0 ==> a % spec_gcd(a, b) == 0 && b % spec_gcd(a, b) == 0,
    decreases b,
{
    if b > 0 {
        let r = a % b;
        lemma_gcd_divides(b, r);
        let g = spec_gcd(b, r);
        lemma_fundamental_div_mod(a as int, b as int);
        lemma_divides_combination(g as int, b as int, (a / b) as int, r as int);
        assert(a == b * (a / b) + r);
    } else {
        if a > 0 {
            lemma_mod_multiples_vanish(1, 0, a as int);
            lemma_mod_multiples_vanish(0, 0, a as int);
        }
    }
}

/// Every common divisor of two numbers divides their greatest common
/// divisor: it is the greatest.
pub proof fn lemma_gcd_greatest(a: nat, b: nat, d: nat)
    requires
        d > 0,
        a % d == 0,
        b % d == 0,
    ensures
        spec_gcd(a, b) % d == 0,
    decreases b,
{
    if b > 0 {
        let r = a % b;
        lemma_fundamental_div_mod(a as int, b as int);
        lemma_fundamental_div_mod(a as int, d as int);
        lemma_fundamental_div_mod(b as int, d as int);
        let q = a / b;
        let x = a / d;
        let y = b / d;
        assert(r == d * (x - q * y)) by (nonlinear_arith)
            requires
                a == b * q + r,
                a == d * x + 0,
                b == d * y + 0,
        ;
        assert(x - q * y >= 0) by (nonlinear_arith)
            requires
                r == d * (x - q * y),
                r >= 0,
                d > 0,
        ;
        lemma_mod_multiples_vanish(x - q * y, 0, d as int);
        assert((d * (x - q * y) + 0) % (d as int) == 0);
        lemma_gcd_greatest(b, r, d);
    }
}

/// The greatest common divisor times the least common multiple of two
/// numbers, not both zero, is their product.
pub proof fn lemma_gcd_times_lcm(a: nat, b: nat)
    requires
        a > 0 || b > 0,
    ensures
        spec_gcd(a, b) * spec_lcm(a, b) == a * b,
{
    lemma_gcd_divides(a, b);
    let g = spec_gcd(a, b) as int;
    lemma_fundamental_div_mod(a as int, g);
    let k = a as int / g;
    assert(a * b == g * (k * b)) by (nonlinear_arith)
        requires
            a == g * k + 0,
    ;
    lemma_div_multiples_vanish(k * b, g);
    assert(k * b >= 0) by (nonlinear_arith)
        requires
            a == g * k + 0,
            a >= 0,
            b >= 0,
            g > 0,
    ;
    assert(spec_lcm(a, b) == k * b);
    assert(g * (k * b) == a * b);
}

/// The least common multiple of two positive numbers is a positive multiple of both.
pub proof fn lemma_lcm_is_common_multiple(a: nat, b: nat)
    requires
        a > 0,
        b > 0,
    ensures
        spec_lcm(a, b) > 0,
        spec_lcm(a, b) % a == 0,
        spec_lcm(a, b) % b == 0,
{
    lemma_gcd_divides(a, b);
    let g = spec_gcd(a, b) as int;
    lemma_fundamental_div_mod(a as int, g);
    lemma_fundamental_div_mod(b as int, g);
    let ka = a as int / g;
    let kb = b as int / g;
    assert(a * b == g * (a * kb)) by (nonlinear_arith)
        requires
            b == g * kb + 0,
    ;
    lemma_div_multiples_vanish(a * kb, g);
    assert(a * kb == b * ka) by (nonlinear_arith)
        requires
            b == g * kb + 0,
            a == g * ka + 0,
    ;
    assert(kb > 0) by (nonlinear_arith)
        requires
            b == g * kb + 0,
            b > 0,
            g > 0,
    ;
    assert(a * kb > 0) by (nonlinear_arith)
        requires
            a > 0,
            kb > 0,
    ;
    lemma_mod_multiples_vanish(kb, 0, a as int);
    lemma_mod_multiples_vanish(ka, 0, b as int);
}

} // verus!
