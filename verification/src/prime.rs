//! The field modulus is prime. A number `d` with `1 < d` and `d * d <= p`
//! that divided `p` would see the powers of an element of order `2^32`
//! modulo `p` stay pairwise distinct modulo `d`, which is more residues
//! than `d` has. So no such `d` exists, and a product of two nonzero
//! field elements is nonzero: the constraint `b * (b - 1) = 0` holds only
//! of the bits 0 and 1.

use vstd::prelude::*;
use vstd::arithmetic::power::{lemma_pow1, lemma_pow_adds, lemma_pow_mod_noop, lemma_pow_multiplies, lemma1_pow, pow};
use vstd::arithmetic::power2::{lemma2_to64, lemma2_to64_rest, lemma_pow2_adds, lemma_pow2_pos, lemma_pow2_strictly_increases, lemma_pow2_unfold, pow2};
use vstd::arithmetic::div_mod::{lemma_fundamental_div_mod, lemma_mod_bound, lemma_mod_mod, lemma_mod_multiples_basic, lemma_mod_multiples_vanish, lemma_mul_mod_noop, lemma_mul_mod_noop_right, lemma_small_mod};
use vstd::arithmetic::mul::lemma_mul_is_associative;
use vstd::relations::injective_on;
use vstd::set_lib::{lemma_int_range, lemma_len_subset, lemma_map_size, set_int_range};
use crate::field::{mul_spec, sub_spec, MODULUS};

verus! {

/// An element of multiplicative order `2^32` modulo `p`.
pub open spec fn root_of_unity() -> int {
    1753635133440165772
}

/// `x` squared `j` times, each time reduced modulo `p`.
pub open spec fn square_iter(x: int, j: nat) -> int
    decreases j,
{
    if j == 0 {
        x
    } else {
        let y = square_iter(x, (j - 1) as nat);
        (y * y) % (MODULUS as int)
    }
}

/// Squaring the root of unity 31 times gives `-1`.
proof fn lemma_root_half_order()
    ensures
        square_iter(root_of_unity(), 31) == MODULUS - 1,
{
    let c = root_of_unity();
    let p = MODULUS as int;
    assert(square_iter(c, 0) == c);
    assert(square_iter(c, 1) == 4614640910117430873) by {
        assert(1753635133440165772 * 1753635133440165772 == p * 166708887468903991 + 4614640910117430873);
        lemma_mod_multiples_vanish(166708887468903991, 4614640910117430873, p);
        lemma_small_mod(4614640910117430873, p as nat);
    }
    assert(square_iter(c, 2) == 9123114210336311365) by {
        assert(4614640910117430873 * 4614640910117430873 == p * 1154399424049971884 + 9123114210336311365);
        lemma_mod_multiples_vanish(1154399424049971884, 9123114210336311365, p);
        lemma_small_mod(9123114210336311365, p as nat);
    }
    assert(square_iter(c, 3) == 16116352524544190054) by {
        assert(9123114210336311365 * 9123114210336311365 == p * 4511973093009996851 + 16116352524544190054);
        lemma_mod_multiples_vanish(4511973093009996851, 16116352524544190054, p);
        lemma_small_mod(16116352524544190054, p as nat);
    }
    assert(square_iter(c, 4) == 6414415596519834757) by {
        assert(16116352524544190054 * 16116352524544190054 == p * 14080361158478670879 + 6414415596519834757);
        lemma_mod_multiples_vanish(14080361158478670879, 6414415596519834757, p);
        lemma_small_mod(6414415596519834757, p as nat);
    }
    assert(square_iter(c, 5) == 1213594585890690845) by {
        assert(6414415596519834757 * 6414415596519834757 == p * 2230460144622294524 + 1213594585890690845);
        lemma_mod_multiples_vanish(2230460144622294524, 1213594585890690845, p);
        lemma_small_mod(1213594585890690845, p as nat);
    }
    assert(square_iter(c, 6) == 17096174751763063430) by {
        assert(1213594585890690845 * 1213594585890690845 == p * 79841288704448195 + 17096174751763063430);
        lemma_mod_multiples_vanish(79841288704448195, 17096174751763063430, p);
        lemma_small_mod(17096174751763063430, p as nat);
    }
    assert(square_iter(c, 7) == 5456943929260765144) by {
        assert(17096174751763063430 * 17096174751763063430 == p * 15844486704156700236 + 5456943929260765144);
        lemma_mod_multiples_vanish(15844486704156700236, 5456943929260765144, p);
        lemma_small_mod(5456943929260765144, p as nat);
    }
    assert(square_iter(c, 8) == 9713644485405565297) by {
        assert(5456943929260765144 * 5456943929260765144 == p * 1614281465338340559 + 9713644485405565297);
        lemma_mod_multiples_vanish(1614281465338340559, 9713644485405565297, p);
        lemma_small_mod(9713644485405565297, p as nat);
    }
    assert(square_iter(c, 9) == 16905767614792059275) by {
        assert(9713644485405565297 * 9713644485405565297 == p * 5114988793349933654 + 16905767614792059275);
        lemma_mod_multiples_vanish(5114988793349933654, 16905767614792059275, p);
        lemma_small_mod(16905767614792059275, p as nat);
    }
    assert(square_iter(c, 10) == 5416168637041100469) by {
        assert(16905767614792059275 * 16905767614792059275 == p * 15493518941330557636 + 5416168637041100469);
        lemma_mod_multiples_vanish(15493518941330557636, 5416168637041100469, p);
        lemma_small_mod(5416168637041100469, p as nat);
    }
    assert(square_iter(c, 11) == 17654865857378133588) by {
        assert(5416168637041100469 * 5416168637041100469 == p * 1590247178281506213 + 17654865857378133588);
        lemma_mod_multiples_vanish(1590247178281506213, 17654865857378133588, p);
        lemma_small_mod(17654865857378133588, p as nat);
    }
    assert(square_iter(c, 12) == 3511170319078647661) by {
        assert(17654865857378133588 * 17654865857378133588 == p * 16896981237942002723 + 3511170319078647661);
        lemma_mod_multiples_vanish(16896981237942002723, 3511170319078647661, p);
        lemma_small_mod(3511170319078647661, p as nat);
    }
    assert(square_iter(c, 13) == 18146160046829613826) by {
        assert(3511170319078647661 * 3511170319078647661 == p * 668319404399374695 + 18146160046829613826);
        lemma_mod_multiples_vanish(668319404399374695, 18146160046829613826, p);
        lemma_small_mod(18146160046829613826, p as nat);
    }
    assert(square_iter(c, 14) == 9306717745644682924) by {
        assert(18146160046829613826 * 18146160046829613826 == p * 17850473948468743512 + 9306717745644682924);
        lemma_mod_multiples_vanish(17850473948468743512, 9306717745644682924, p);
        lemma_small_mod(9306717745644682924, p as nat);
    }
    assert(square_iter(c, 15) == 12380578893860276750) by {
        assert(9306717745644682924 * 9306717745644682924 == p * 4695408299218975106 + 12380578893860276750);
        lemma_mod_multiples_vanish(4695408299218975106, 12380578893860276750, p);
        lemma_small_mod(12380578893860276750, p as nat);
    }
    assert(square_iter(c, 16) == 6115771955107415310) by {
        assert(12380578893860276750 * 12380578893860276750 == p * 8309256808156222390 + 6115771955107415310);
        lemma_mod_multiples_vanish(8309256808156222390, 6115771955107415310, p);
        lemma_small_mod(6115771955107415310, p as nat);
    }
    assert(square_iter(c, 17) == 17776499369601055404) by {
        assert(6115771955107415310 * 6115771955107415310 == p * 2027602620068516376 + 17776499369601055404);
        lemma_mod_multiples_vanish(2027602620068516376, 17776499369601055404, p);
        lemma_small_mod(17776499369601055404, p as nat);
    }
    assert(square_iter(c, 18) == 16207902636198568418) by {
        assert(17776499369601055404 * 17776499369601055404 == p * 17130607366173278638 + 16207902636198568418);
        lemma_mod_multiples_vanish(17130607366173278638, 16207902636198568418, p);
        lemma_small_mod(16207902636198568418, p as nat);
    }
    assert(square_iter(c, 19) == 1532612707718625687) by {
        assert(16207902636198568418 * 16207902636198568418 == p * 14240784545824149997 + 1532612707718625687);
        lemma_mod_multiples_vanish(14240784545824149997, 1532612707718625687, p);
        lemma_small_mod(1532612707718625687, p as nat);
    }
    assert(square_iter(c, 20) == 17492915097719143606) by {
        assert(1532612707718625687 * 1532612707718625687 == p * 127334216977357403 + 17492915097719143606);
        lemma_mod_multiples_vanish(127334216977357403, 17492915097719143606, p);
        lemma_small_mod(17492915097719143606, p as nat);
    }
    assert(square_iter(c, 21) == 455906449640507599) by {
        assert(17492915097719143606 * 17492915097719143606 == p * 16588405924890216597 + 455906449640507599);
        lemma_mod_multiples_vanish(16588405924890216597, 455906449640507599, p);
        lemma_small_mod(455906449640507599, p as nat);
    }
    assert(square_iter(c, 22) == 11353340290879379826) by {
        assert(455906449640507599 * 455906449640507599 == p * 11267608529812975 + 11353340290879379826);
        lemma_mod_multiples_vanish(11267608529812975, 11353340290879379826, p);
        lemma_small_mod(11353340290879379826, p as nat);
    }
    assert(square_iter(c, 23) == 1803076106186727246) by {
        assert(11353340290879379826 * 11353340290879379826 == p * 6987592784692205430 + 1803076106186727246);
        lemma_mod_multiples_vanish(6987592784692205430, 1803076106186727246, p);
        lemma_small_mod(1803076106186727246, p as nat);
    }
    assert(square_iter(c, 24) == 13797081185216407910) by {
        assert(1803076106186727246 * 1803076106186727246 == p * 176241586724885086 + 13797081185216407910);
        lemma_mod_multiples_vanish(176241586724885086, 13797081185216407910, p);
        lemma_small_mod(13797081185216407910, p as nat);
    }
    assert(square_iter(c, 25) == 17870292113338400769) by {
        assert(13797081185216407910 * 13797081185216407910 == p * 10319406422896923811 + 17870292113338400769);
        lemma_mod_multiples_vanish(10319406422896923811, 17870292113338400769, p);
        lemma_small_mod(17870292113338400769, p as nat);
    }
    assert(square_iter(c, 26) == 549755813888) by {
        assert(17870292113338400769 * 17870292113338400769 == p * 17311854006015885313 + 549755813888);
        lemma_mod_multiples_vanish(17311854006015885313, 549755813888, p);
        lemma_small_mod(549755813888, p as nat);
    }
    assert(square_iter(c, 27) == 70368744161280) by {
        assert(549755813888 * 549755813888 == p * 16384 + 70368744161280);
        lemma_mod_multiples_vanish(16384, 70368744161280, p);
        lemma_small_mod(70368744161280, p as nat);
    }
    assert(square_iter(c, 28) == 17293822564807737345) by {
        assert(70368744161280 * 70368744161280 == p * 268435455 + 17293822564807737345);
        lemma_mod_multiples_vanish(268435455, 17293822564807737345, p);
        lemma_small_mod(17293822564807737345, p as nat);
    }
    assert(square_iter(c, 29) == 18446744069397807105) by {
        assert(17293822564807737345 * 17293822564807737345 == p * 16212958654255595520 + 18446744069397807105);
        lemma_mod_multiples_vanish(16212958654255595520, 18446744069397807105, p);
        lemma_small_mod(18446744069397807105, p as nat);
    }
    assert(square_iter(c, 30) == 281474976710656) by {
        assert(18446744069397807105 * 18446744069397807105 == p * 18446744069381029889 + 281474976710656);
        lemma_mod_multiples_vanish(18446744069381029889, 281474976710656, p);
        lemma_small_mod(281474976710656, p as nat);
    }
    assert(square_iter(c, 31) == 18446744069414584320) by {
        assert(281474976710656 * 281474976710656 == p * 4294967296 + 18446744069414584320);
        lemma_mod_multiples_vanish(4294967296, 18446744069414584320, p);
        lemma_small_mod(18446744069414584320, p as nat);
    }
}

/// Reducing modulo `p` and then modulo a divisor `d` of `p` is reducing
/// modulo `d`: repeated squaring modulo `p` agrees with the power
/// `x^(2^j)` modulo `d`.
proof fn lemma_square_iter_mod(x: int, j: nat, d: int)
    requires
        1 < d,
        (MODULUS as int) % d == 0,
    ensures
        square_iter(x, j) % d == pow(x, pow2(j)) % d,
    decreases j,
{
    let p = MODULUS as int;
    if j == 0 {
        lemma_pow1(x);
        assert(pow2(0) == 1) by {
            lemma2_to64();
        }
    } else {
        let m = (j - 1) as nat;
        lemma_square_iter_mod(x, m, d);
        let y = square_iter(x, m);
        let z = pow(x, pow2(m));
        let k = p / d;
        lemma_fundamental_div_mod(p, d);
        assert(p == d * k);
        assert(k > 0) by (nonlinear_arith)
            requires
                p == d * k,
                p > 0,
                d > 0,
        ;
        lemma_mod_mod(y * y, d, k);
        assert(square_iter(x, j) == (y * y) % p);
        lemma_mul_mod_noop(y, y, d);
        lemma_mul_mod_noop(z, z, d);
        lemma_pow2_unfold(j);
        lemma_pow_adds(x, pow2(m), pow2(m));
        assert(pow2(m) + pow2(m) == pow2(j));
    }
}

/// A residue `y = -1` modulo `d` has odd powers `-1` and even powers `1`.
proof fn lemma_minus_one_powers(y: int, u: nat, d: int)
    requires
        1 < d,
        y % d == d - 1,
    ensures
        pow(y, u) % d == (if u % 2 == 1 { d - 1 } else { 1 }),
    decreases u,
{
    if u == 0 {
        reveal(pow);
        lemma_small_mod(1, d as nat);
    } else {
        lemma_minus_one_powers(y, (u - 1) as nat, d);
        let w = pow(y, (u - 1) as nat);
        assert(pow(y, u) == y * w) by {
            reveal(pow);
        }
        lemma_mul_mod_noop(y, w, d);
        if (u - 1) % 2 == 1 {
            assert((d - 1) * (d - 1) == d * (d - 2) + 1) by (nonlinear_arith);
            lemma_mod_multiples_vanish(d - 2, 1, d);
            lemma_small_mod(1, d as nat);
        } else {
            assert((d - 1) * 1 == d - 1);
            lemma_small_mod((d - 1) as nat, d as nat);
        }
    }
}

/// A positive number is a power of two times an odd number.
proof fn lemma_two_adic(g: nat) -> (r: (nat, nat))
    requires
        g > 0,
    ensures
        g == pow2(r.0) * r.1,
        r.1 % 2 == 1,
    decreases g,
{
    if g % 2 == 1 {
        lemma2_to64();
        (0, g)
    } else {
        let (t, u) = lemma_two_adic(g / 2);
        lemma_pow2_unfold(t + 1);
        assert(pow2(t + 1) * u == 2 * (pow2(t) * u)) by {
            lemma_mul_is_associative(2, pow2(t) as int, u as int);
        }
        ((t + 1) as nat, u)
    }
}

/// Powers of `c` below `2^32` that agree modulo `d` differ by a power
/// that is 1 modulo `d`.
proof fn lemma_cancel(c: int, i: nat, j: nat, d: int)
    requires
        1 < d,
        i < j <= pow2(32),
        pow(c, i) % d == pow(c, j) % d,
        pow(c, pow2(32)) % d == 1,
    ensures
        pow(c, (j - i) as nat) % d == 1,
{
    let n = pow2(32);
    let g = (j - i) as nat;
    let a = pow(c, (n - i) as nat);
    let pi = pow(c, i);
    let pg = pow(c, g);
    let pj = pow(c, j);
    lemma_pow_adds(c, i, g);
    assert(pj == pi * pg);
    lemma_pow_adds(c, (n - i) as nat, i);
    assert(pow(c, n) == a * pi);
    lemma_mul_is_associative(a, pi, pg);
    lemma_mul_mod_noop_right(a, pj, d);
    lemma_mul_mod_noop_right(a, pi, d);
    assert((a * pj) % d == (a * pi) % d);
    lemma_mul_mod_noop(a * pi, pg, d);
    lemma_small_mod(1, d as nat);
    assert(((a * pi) % d) * (pg % d) == pg % d);
    lemma_mod_bound(pg, d);
    lemma_small_mod((pg % d) as nat, d as nat);
}

/// A power `c^g` with `0 < g < 2^32` is not 1 modulo `d` when `c^(2^31)`
/// is `-1` modulo `d > 2`: write `g = 2^t * u` with `u` odd; raising
/// `c^g` to `2^(31 - t)` gives `c^(2^31 * u) = (-1)^u = -1`.
proof fn lemma_no_short_order(c: int, g: nat, d: int)
    requires
        2 < d,
        0 < g < pow2(32),
        pow(c, pow2(31)) % d == d - 1,
    ensures
        pow(c, g) % d != 1,
{
    if pow(c, g) % d == 1 {
        lemma_short_order_contradiction(c, g, d);
    }
}

proof fn lemma_short_order_contradiction(c: int, g: nat, d: int)
    requires
        2 < d,
        0 < g < pow2(32),
        pow(c, pow2(31)) % d == d - 1,
        pow(c, g) % d == 1,
    ensures
        pow(c, g) % d != 1,
{
    let (t, u) = lemma_two_adic(g);
    lemma2_to64();
    lemma2_to64_rest();
    if t >= 32 {
        if t > 32 {
            lemma_pow2_strictly_increases(32, t);
        }
        assert(pow2(t) * u >= pow2(t)) by (nonlinear_arith)
            requires
                u >= 1,
                pow2(t) > 0,
        ;
        assert(false);
    }
    let e = (31 - t) as nat;
    lemma_pow2_adds(t, e);
    assert(t + e == 31);
    assert(g * pow2(e) == pow2(31) * u) by {
        lemma_mul_is_associative(pow2(t) as int, u as int, pow2(e) as int);
        lemma_mul_is_associative(pow2(t) as int, pow2(e) as int, u as int);
    }
    lemma_pow_multiplies(c, g, pow2(e));
    lemma_pow_multiplies(c, pow2(31), u);
    lemma_pow_mod_noop(pow(c, g), pow2(e), d);
    lemma1_pow(pow2(e));
    lemma_small_mod(1, d as nat);
    lemma_pow_mod_noop(pow(c, pow2(31)), u, d);
    lemma_mod_bound(pow(c, pow2(31)), d);
    lemma_small_mod((d - 1) as nat, d as nat);
    lemma_minus_one_powers(d - 1, u, d);
}

/// No number `d` with `1 < d` and `d * d <= p` divides `p`.
proof fn lemma_no_small_factor(d: int)
    requires
        1 < d,
        d * d <= MODULUS,
    ensures
        (MODULUS as int) % d != 0,
{
    let p = MODULUS as int;
    if p % d == 0 {
        lemma2_to64();
        lemma2_to64_rest();
        let n = pow2(32);
        if d == 2 {
            assert(p % 2 == 1);
        }
        let c = root_of_unity();
        lemma_root_half_order();
        lemma_square_iter_mod(c, 31, d);
        let k = p / d;
        lemma_fundamental_div_mod(p, d);
        lemma_mod_multiples_vanish(k - 1, d - 1, d);
        assert(p - 1 == d * (k - 1) + (d - 1)) by (nonlinear_arith)
            requires
                p == d * k + 0,
        ;
        lemma_small_mod((d - 1) as nat, d as nat);
        assert(pow(c, pow2(31)) % d == d - 1);
        lemma_pow_adds(c, pow2(31), pow2(31));
        assert(pow2(31) + pow2(31) == n);
        lemma_mul_mod_noop(pow(c, pow2(31)), pow(c, pow2(31)), d);
        assert((d - 1) * (d - 1) == d * (d - 2) + 1) by (nonlinear_arith);
        lemma_mod_multiples_vanish(d - 2, 1, d);
        lemma_small_mod(1, d as nat);
        assert(pow(c, n) % d == 1);
        let f = |i: int| pow(c, i as nat) % d;
        let xs = set_int_range(0, n as int);
        assert forall|i1: int, i2: int| xs.contains(i1) && xs.contains(i2) && #[trigger] f(i1) == #[trigger] f(i2) implies i1 == i2 by {
            if i1 < i2 {
                lemma_cancel(c, i1 as nat, i2 as nat, d);
                lemma_no_short_order(c, (i2 - i1) as nat, d);
            } else if i2 < i1 {
                lemma_cancel(c, i2 as nat, i1 as nat, d);
                lemma_no_short_order(c, (i1 - i2) as nat, d);
            }
        }
        assert(injective_on(f, xs));
        lemma_int_range(0, n as int);
        lemma_int_range(0, d);
        let ys = xs.map(f);
        lemma_map_size(xs, ys, f);
        assert forall|y: int| ys.contains(y) implies set_int_range(0, d).contains(y) by {
            let i = choose|i: int| xs.contains(i) && f(i) == y;
            lemma_mod_bound(pow(c, i as nat), d);
        }
        lemma_len_subset(ys, set_int_range(0, d));
        assert(d >= n);
        assert(d * d >= n * n) by (nonlinear_arith)
            requires
                d >= n,
                n > 0,
        ;
        assert(false);
    }
}

/// No number strictly between 1 and `p` divides `p`: `p` is prime.
pub proof fn lemma_modulus_prime(a: int)
    requires
        1 < a < MODULUS,
    ensures
        (MODULUS as int) % a != 0,
{
    let p = MODULUS as int;
    if a * a <= p {
        lemma_no_small_factor(a);
    } else if p % a == 0 {
        let e = p / a;
        lemma_fundamental_div_mod(p, a);
        assert(p == a * e);
        assert(1 < e && e * e < p) by (nonlinear_arith)
            requires
                p == a * e,
                a * a > p,
                1 < a < p,
        ;
        lemma_no_small_factor(e);
        lemma_mod_multiples_basic(a, e);
        assert(a * e == e * a) by (nonlinear_arith);
    }
}

/// If `p` divides `a * b` with `0 < a < p`, it divides `b`.
proof fn lemma_prime_divides(a: int, b: int)
    requires
        0 < a < MODULUS,
        (a * b) % (MODULUS as int) == 0,
    ensures
        b % (MODULUS as int) == 0,
    decreases a,
{
    let p = MODULUS as int;
    if a == 1 {
        assert(a * b == b) by (nonlinear_arith)
            requires
                a == 1,
        ;
    } else {
        lemma_modulus_prime(a);
        let q = p / a;
        let r = p % a;
        lemma_fundamental_div_mod(p, a);
        lemma_mod_bound(p, a);
        let k = (a * b) / p;
        lemma_fundamental_div_mod(a * b, p);
        assert(r * b == (b - q * k) * p) by (nonlinear_arith)
            requires
                p == a * q + r,
                a * b == p * k + 0,
        ;
        lemma_mod_multiples_basic(b - q * k, p);
        lemma_prime_divides(r, b);
    }
}

/// A field element `b` with `b * (b - 1) = 0` is a bit.
pub proof fn lemma_field_bit(b: u64)
    requires
        b < MODULUS,
        mul_spec(b, sub_spec(b, 1u64)) == 0,
    ensures
        b <= 1,
{
    let p = MODULUS as int;
    if b >= 2 {
        lemma_small_mod((b - 1) as nat, p as nat);
        assert(sub_spec(b, 1u64) == b - 1);
        let x: int = b * (b - 1);
        lemma_mod_bound(x, p);
        assert(x % p == 0);
        lemma_prime_divides(b as int, (b - 1) as int);
        lemma_small_mod((b - 1) as nat, p as nat);
    }
}

} // verus!
