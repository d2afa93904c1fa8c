//! Range-check segments: a value is written as `len` bits, most significant
//! first, next to the Horner accumulator of the bits written so far. The
//! accumulator at the last row of a segment is the value itself when it
//! has at most `len` bits.

use vstd::prelude::*;
use crate::field::{add_spec, fadd, reduce, sub_spec, MODULUS};
use vstd::arithmetic::power2::{lemma2_to64, lemma2_to64_rest, lemma_pow2_strictly_increases, lemma_pow2_unfold, pow2};

verus! {

/// The low `len` bits of `v`.
pub open spec fn low_bits(v: u64, len: nat) -> u64 {
    if len >= 64 {
        v
    } else {
        v & (((1u64 << (len as u64)) - 1) as u64)
    }
}

/// Bit `p` of a segment of `len` bits (most significant first).
pub open spec fn seg_bit(v: u64, len: nat, p: nat) -> u64 {
    (v >> ((len - 1 - p) as u64)) & 1
}

/// The accumulator after the bits `0..=p` of a segment.
pub open spec fn seg_acc(v: u64, len: nat, p: nat) -> u64 {
    low_bits(v, len) >> ((len - 1 - p) as u64)
}

/// The `len` low bits of `value`, most significant first.
pub fn value_to_bits_be(value: u64, len: usize) -> (bits: Vec<bool>)
    requires
        1 <= len <= 64,
    ensures
        bits.len() == len,
        forall|p: int| 0 <= p < len ==> (#[trigger] bits[p]) == (seg_bit(value, len as nat, p as nat) == 1),
{
    let mut bits: Vec<bool> = Vec::new();
    let mut p: usize = 0;
    while p < len
        invariant
            p <= len,
            1 <= len <= 64,
            bits.len() == p,
            forall|q: int| 0 <= q < p ==> (#[trigger] bits[q]) == (seg_bit(value, len as nat, q as nat) == 1),
        decreases len - p,
    {
        let shift: u64 = (len - 1 - p) as u64;
        bits.push((value >> shift) & 1 == 1);
        p = p + 1;
    }
    bits
}

pub(crate) proof fn lemma_acc_step(v: u64, len: u64, p: u64)
    requires
        1 <= p < len <= 64,
    ensures
        seg_acc(v, len as nat, p as nat) as int == 2 * seg_acc(v, len as nat, (p - 1) as nat) + seg_bit(
            v,
            len as nat,
            p as nat,
        ),
{
    let k: u64 = (len - 1 - p) as u64;
    let w = low_bits(v, len as nat);
    assert(w >> k == ((w >> (k + 1)) << 1u64) + ((w >> k) & 1u64)) by (bit_vector)
        requires
            k < 63,
    ;
    assert((w >> (k + 1)) < 0x8000_0000_0000_0000u64) by (bit_vector)
        requires
            k < 63,
    ;
    assert(((w >> (k + 1)) << 1u64) == 2 * (w >> (k + 1))) by (bit_vector)
        requires
            (w >> (k + 1)) < 0x8000_0000_0000_0000u64,
    ;
    if len >= 64 {
        assert(w == v);
    } else {
        assert(((v & (((1u64 << len) - 1) as u64)) >> k) & 1u64 == (v >> k) & 1u64) by (bit_vector)
            requires
                k < len,
                len < 64,
        ;
    }
}

pub(crate) proof fn lemma_acc_first(v: u64, len: u64)
    requires
        1 <= len <= 64,
    ensures
        seg_acc(v, len as nat, 0) == seg_bit(v, len as nat, 0),
{
    let k: u64 = (len - 1) as u64;
    if len >= 64 {
        assert(v >> 63u64 == (v >> 63u64) & 1u64) by (bit_vector);
    } else {
        assert((v & (((1u64 << len) - 1) as u64)) >> k == (v >> k) & 1u64) by (bit_vector)
            requires
                k + 1 == len,
                len < 64,
        ;
    }
}

/// The bit and accumulator columns of the segments of `values`, each of
/// `len` rows, back to back from row 0; the rows after them hold zero.
/// The accumulator is a field element.
pub fn segment_columns(values: &Vec<u64>, len: usize, total: usize) -> (r: (Vec<u64>, Vec<u64>))
    requires
        1 <= len <= 64,
        values.len() * len <= total,
        total < 0x1_0000_0000,
    ensures
        r.0.len() == total,
        r.1.len() == total,
        forall|s: int, p: int|
            0 <= s < values.len() && 0 <= p < len ==> #[trigger] r.0[s * len + p] == seg_bit(
                values[s],
                len as nat,
                p as nat,
            ),
        forall|s: int, p: int|
            0 <= s < values.len() && 0 <= p < len ==> #[trigger] r.1[s * len + p] == reduce(
                seg_acc(values[s], len as nat, p as nat) as int,
            ),
        forall|q: int| values.len() * len <= q < total ==> #[trigger] r.0[q] == 0,
        forall|q: int| values.len() * len <= q < total ==> #[trigger] r.1[q] == 0,
        forall|q: int| 0 <= q < total ==> #[trigger] r.0[q] < 2,
        forall|q: int| 0 <= q < total ==> #[trigger] r.1[q] < MODULUS,
{
    let mut bit_col: Vec<u64> = Vec::new();
    let mut acc_col: Vec<u64> = Vec::new();
    let n = values.len();
    let mut s: usize = 0;
    proof {
        assert(n * len <= total);
    }
    while s < n
        invariant
            s <= n,
            n == values.len(),
            1 <= len <= 64,
            n * len <= total,
            total < 0x1_0000_0000,
            bit_col.len() == s * len,
            acc_col.len() == s * len,
            forall|ss: int, p: int|
                0 <= ss < s && 0 <= p < len ==> #[trigger] bit_col[ss * len + p] == seg_bit(
                    values[ss],
                    len as nat,
                    p as nat,
                ),
            forall|ss: int, p: int|
                0 <= ss < s && 0 <= p < len ==> #[trigger] acc_col[ss * len + p] == reduce(
                    seg_acc(values[ss], len as nat, p as nat) as int,
                ),
            forall|q: int| 0 <= q < bit_col.len() ==> #[trigger] bit_col[q] < 2,
            forall|q: int| 0 <= q < acc_col.len() ==> #[trigger] acc_col[q] < MODULUS,
        decreases n - s,
    {
        proof {
            assert((s + 1) * len <= n * len) by (nonlinear_arith)
                requires
                    s + 1 <= n,
            ;
            assert((s + 1) * len == s * len + len) by (nonlinear_arith);
        }
        let v = values[s];
        let bits = value_to_bits_be(v, len);
        let mut acc: u64 = 0;
        let mut p: usize = 0;
        let base: usize = s * len;
        let ghost prev_bits = bit_col@;
        let ghost prev_accs = acc_col@;
        while p < len
            invariant
                p <= len,
                1 <= len <= 64,
                base == s * len,
                s < n,
                n == values.len(),
                v == values[s as int],
                bits.len() == len,
                forall|q: int| 0 <= q < len ==> (#[trigger] bits[q]) == (seg_bit(v, len as nat, q as nat) == 1),
                bit_col.len() == base + p,
                acc_col.len() == base + p,
                base + len < 0x1_0000_0000,
                p > 0 ==> acc == reduce(seg_acc(v, len as nat, (p - 1) as nat) as int),
                acc < MODULUS,
                forall|q: int| 0 <= q < base ==> #[trigger] bit_col[q] == prev_bits[q],
                forall|q: int| 0 <= q < base ==> #[trigger] acc_col[q] == prev_accs[q],
                forall|q: int| 0 <= q < p ==> #[trigger] bit_col[base + q] == seg_bit(v, len as nat, q as nat),
                forall|q: int|
                    0 <= q < p ==> #[trigger] acc_col[base + q] == reduce(seg_acc(v, len as nat, q as nat) as int),
                forall|q: int| 0 <= q < bit_col.len() ==> #[trigger] bit_col[q] < 2,
                forall|q: int| 0 <= q < acc_col.len() ==> #[trigger] acc_col[q] < MODULUS,
            decreases len - p,
        {
            let bit: u64 = if bits[p] { 1 } else { 0 };
            proof {
                let sh: u64 = (len - 1 - p) as u64;
                assert((v >> sh) & 1u64 <= 1) by (bit_vector);
                assert(bit == seg_bit(v, len as nat, p as nat));
            }
            if p == 0 {
                proof {
                    lemma_acc_first(v, len as u64);
                }
                acc = bit;
            } else {
                proof {
                    lemma_acc_step(v, len as u64, p as u64);
                    let prev = seg_acc(v, len as nat, (p - 1) as nat) as int;
                    vstd::arithmetic::div_mod::lemma_add_mod_noop(prev, prev, 0xFFFF_FFFF_0000_0001int);
                    vstd::arithmetic::div_mod::lemma_add_mod_noop(prev + prev, bit as int, 0xFFFF_FFFF_0000_0001int);
                    vstd::arithmetic::div_mod::lemma_small_mod(bit as nat, 0xFFFF_FFFF_0000_0001nat);
                    vstd::arithmetic::div_mod::lemma_mod_twice(prev + prev, 0xFFFF_FFFF_0000_0001int);
                }
                let twice = fadd(acc, acc);
                acc = fadd(twice, bit);
            }
            bit_col.push(bit);
            acc_col.push(acc);
            p = p + 1;
        }
        proof {
            assert forall|ss: int, pp: int|
                0 <= ss < s + 1 && 0 <= pp < len implies #[trigger] bit_col[ss * len + pp] == seg_bit(
                values[ss],
                len as nat,
                pp as nat,
            ) by {
                if ss == s {
                    assert(ss * len + pp == base + pp);
                } else {
                    assert(ss * len + pp < s * len) by (nonlinear_arith)
                        requires
                            0 <= ss < s,
                            0 <= pp < len,
                    ;
                }
            }
            assert forall|ss: int, pp: int|
                0 <= ss < s + 1 && 0 <= pp < len implies #[trigger] acc_col[ss * len + pp] == reduce(
                seg_acc(values[ss], len as nat, pp as nat) as int,
            ) by {
                if ss == s {
                    assert(ss * len + pp == base + pp);
                } else {
                    assert(ss * len + pp < s * len) by (nonlinear_arith)
                        requires
                            0 <= ss < s,
                            0 <= pp < len,
                    ;
                }
            }
        }
        s = s + 1;
    }
    let filled: usize = n * len;
    let mut q: usize = filled;
    let ghost done_bits = bit_col@;
    let ghost done_accs = acc_col@;
    while q < total
        invariant
            filled <= q <= total,
            filled == n * len,
            n == values.len(),
            bit_col.len() == q,
            acc_col.len() == q,
            forall|qq: int| 0 <= qq < filled ==> #[trigger] bit_col[qq] == done_bits[qq],
            forall|qq: int| 0 <= qq < filled ==> #[trigger] acc_col[qq] == done_accs[qq],
            forall|qq: int| filled <= qq < q ==> #[trigger] bit_col[qq] == 0,
            forall|qq: int| filled <= qq < q ==> #[trigger] acc_col[qq] == 0,
            forall|qq: int| 0 <= qq < bit_col.len() ==> #[trigger] bit_col[qq] < 2,
            forall|qq: int| 0 <= qq < acc_col.len() ==> #[trigger] acc_col[qq] < MODULUS,
        decreases total - q,
    {
        bit_col.push(0);
        acc_col.push(0);
        q = q + 1;
    }
    assert forall|ss: int, p: int|
        0 <= ss < n && 0 <= p < len implies #[trigger] bit_col[ss * len + p] == seg_bit(
        values[ss],
        len as nat,
        p as nat,
    ) by {
        assert(ss * len + p < n * len) by (nonlinear_arith)
            requires
                0 <= ss < n,
                0 <= p < len,
        ;
    }
    assert forall|ss: int, p: int|
        0 <= ss < n && 0 <= p < len implies #[trigger] acc_col[ss * len + p] == reduce(
        seg_acc(values[ss], len as nat, p as nat) as int,
    ) by {
        assert(ss * len + p < n * len) by (nonlinear_arith)
            requires
                0 <= ss < n,
                0 <= p < len,
        ;
    }
    (bit_col, acc_col)
}


/// The accumulator at the last row of a 64-row segment is the value, and
/// the segment's first bit is its top bit: it is zero exactly when the
/// value has at most 63 bits, which is what the first-bit constraint
/// demands.
pub proof fn lemma_segment_reconstructs(v: u64)
    ensures
        seg_acc(v, 64, 63) == v,
        seg_bit(v, 64, 0) == 0 <==> v < 0x8000_0000_0000_0000,
{
    assert(v >> 0u64 == v) by (bit_vector);
    assert((v >> 63u64) & 1u64 == 0 <==> v < 0x8000_0000_0000_0000u64) by (bit_vector);
}

/// The solvency check. For a balance and an amount that both pass the
/// 63-bit range check, the new balance `balance - amount` (in the field)
/// passes it too when the amount is covered, and wraps to a value of 64
/// bits, which fails it, when the amount exceeds the balance by at most
/// `p - 2^63`.
pub proof fn lemma_debit_in_range(balance: u64, amount: u64)
    requires
        balance < 0x8000_0000_0000_0000,
        amount < 0x8000_0000_0000_0000,
    ensures
        amount <= balance ==> sub_spec(balance, amount) == balance - amount,
        amount <= balance ==> sub_spec(balance, amount) < 0x8000_0000_0000_0000,
        balance < amount && amount - balance <= MODULUS - 0x8000_0000_0000_0000 ==> sub_spec(balance, amount)
            >= 0x8000_0000_0000_0000,
{
    let p: int = MODULUS as int;
    if amount <= balance {
        assert(0 <= balance - amount < p);
        vstd::arithmetic::div_mod::lemma_small_mod((balance - amount) as nat, p as nat);
    } else {
        let d: int = amount - balance;
        assert(0 < p - d < p);
        vstd::arithmetic::div_mod::lemma_mod_add_multiples_vanish(balance - amount, p);
        vstd::arithmetic::div_mod::lemma_small_mod((p - d) as nat, p as nat);
    }
}

/// A value below `2^63` in a segment of 64 rows: its bits are bits, the
/// first is zero, the accumulator stays at most the value, takes one bit
/// per row, and ends on the value.
pub proof fn lemma_wide_segment(v: u64, q: nat)
    requires
        v < 0x8000_0000_0000_0000,
        q < 64,
    ensures
        seg_bit(v, 64, q) <= 1,
        seg_bit(v, 64, 0) == 0,
        seg_acc(v, 64, 0) == 0,
        seg_acc(v, 64, q) <= v,
        seg_acc(v, 64, 63) == v,
        q >= 1 ==> seg_acc(v, 64, q) as int == 2 * seg_acc(v, 64, (q - 1) as nat) + seg_bit(v, 64, q),
{
    let k: u64 = (63 - q) as u64;
    assert((v >> k) & 1u64 <= 1u64) by (bit_vector);
    assert(v >> k <= v) by (bit_vector);
    assert((v >> 63u64) & 1u64 == 0u64) by (bit_vector)
        requires
            v < 0x8000_0000_0000_0000u64,
    ;
    assert(v >> 0u64 == v) by (bit_vector);
    lemma_acc_first(v, 64);
    if q >= 1 {
        lemma_acc_step(v, 64, q as u64);
    }
}

/// The accumulator of a segment of `len` rows that the range-check
/// constraints accept, after `n` further rows: below `2^n`, since it starts
/// at zero and each row doubles it and adds a bit.
proof fn lemma_accepted_prefix(bits: Seq<u64>, accs: Seq<u64>, s: int, len: int, n: nat)
    requires
        0 <= s,
        1 <= len <= 64,
        n < len,
        s + len <= bits.len(),
        s + len <= accs.len(),
        forall|i: int| s <= i < s + len ==> #[trigger] bits[i] <= 1,
        accs[s] == 0,
        forall|i: int|
            s <= i < s + len - 1 ==> #[trigger] accs[i + 1] == add_spec(add_spec(accs[i], accs[i]), bits[i + 1]),
    ensures
        accs[s + n] < pow2(n),
    decreases n,
{
    lemma2_to64();
    lemma2_to64_rest();
    if n > 0 {
        let m: nat = (n - 1) as nat;
        lemma_accepted_prefix(bits, accs, s, len, m);
        let a = accs[s + m];
        let b = bits[s + m + 1];
        assert(accs[s + m + 1] == add_spec(add_spec(a, a), b));
        lemma_pow2_unfold(n);
        if m < 62 {
            lemma_pow2_strictly_increases(m, 62);
        }
        assert(a + a < 0x8000_0000_0000_0000);
        vstd::arithmetic::div_mod::lemma_small_mod((a + a) as nat, MODULUS as nat);
        assert(add_spec(a, a) == a + a);
        vstd::arithmetic::div_mod::lemma_small_mod((a + a + b) as nat, MODULUS as nat);
        assert(s + n == s + m + 1);
    }
}

/// A segment of `len` rows that the range-check constraints accept (its
/// accumulator starts at zero, every bit is 0 or 1, and each row doubles
/// the accumulator and adds the row's bit) ends on a value below
/// `2^(len - 1)`.
pub proof fn lemma_accepted_run(bits: Seq<u64>, accs: Seq<u64>, s: int, len: int)
    requires
        0 <= s,
        1 <= len <= 64,
        s + len <= bits.len(),
        s + len <= accs.len(),
        forall|i: int| s <= i < s + len ==> #[trigger] bits[i] <= 1,
        accs[s] == 0,
        forall|i: int|
            s <= i < s + len - 1 ==> #[trigger] accs[i + 1] == add_spec(add_spec(accs[i], accs[i]), bits[i + 1]),
    ensures
        accs[s + len - 1] < pow2((len - 1) as nat),
{
    lemma_accepted_prefix(bits, accs, s, len, (len - 1) as nat);
}

/// A segment of 64 rows that the range-check constraints accept ends on a
/// value below `2^63`.
pub proof fn lemma_accepted_segment(bits: Seq<u64>, accs: Seq<u64>, s: int)
    requires
        0 <= s,
        s + 64 <= bits.len(),
        s + 64 <= accs.len(),
        forall|i: int| s <= i < s + 64 ==> #[trigger] bits[i] <= 1,
        accs[s] == 0,
        forall|i: int|
            s <= i < s + 63 ==> #[trigger] accs[i + 1] == add_spec(add_spec(accs[i], accs[i]), bits[i + 1]),
    ensures
        accs[s + 63] < 0x8000_0000_0000_0000,
{
    lemma2_to64_rest();
    lemma_accepted_run(bits, accs, s, 64);
}

/// A field difference `a - b` that passes the range check (it is below
/// `2^63`) did not wrap, when `b` is at most `p - 2^63`: then `b <= a`, and
/// the difference is the plain one. (A larger `b` can wrap into range.)
pub proof fn lemma_checked_difference(a: u64, b: u64)
    requires
        a < MODULUS,
        b <= MODULUS - 0x8000_0000_0000_0000,
        sub_spec(a, b) < 0x8000_0000_0000_0000,
    ensures
        b <= a,
        sub_spec(a, b) == a - b,
{
    let p: int = MODULUS as int;
    if a < b {
        let x: int = a - b;
        vstd::arithmetic::div_mod::lemma_mod_add_multiples_vanish(x, p);
        vstd::arithmetic::div_mod::lemma_small_mod((p + x) as nat, p as nat);
        assert(x % p == p + x);
        assert(sub_spec(a, b) == (x % p) as u64);
        assert(false);
    } else {
        vstd::arithmetic::div_mod::lemma_small_mod((a - b) as nat, p as nat);
    }
}

/// A field gap `a - b - 1` that passes the range check (it is below
/// `2^63`) says `b < a`, when `b` is below `p - 2^63`; the gap is then the
/// plain one. (A larger `b` can wrap into range.)
pub proof fn lemma_checked_gap(a: u64, b: u64)
    requires
        a < MODULUS,
        b < MODULUS - 0x8000_0000_0000_0000,
        sub_spec(sub_spec(a, b), 1) < 0x8000_0000_0000_0000,
    ensures
        b < a,
        sub_spec(sub_spec(a, b), 1) == a - b - 1,
{
    let p: int = MODULUS as int;
    if a > b {
        vstd::arithmetic::div_mod::lemma_small_mod((a - b) as nat, p as nat);
        vstd::arithmetic::div_mod::lemma_small_mod((a - b - 1) as nat, p as nat);
    } else {
        let x: int = a - b;
        if a == b {
            vstd::arithmetic::div_mod::lemma_small_mod(0, p as nat);
            assert(sub_spec(a, b) == 0);
        } else {
            vstd::arithmetic::div_mod::lemma_mod_add_multiples_vanish(x, p);
            vstd::arithmetic::div_mod::lemma_small_mod((p + x) as nat, p as nat);
            assert(x % p == p + x);
            assert(sub_spec(a, b) == (p + x) as u64);
        }
        let y: int = sub_spec(a, b) as int;
        assert(y == 0 || y >= 0x8000_0000_0000_0001);
        if y == 0 {
            vstd::arithmetic::div_mod::lemma_mod_add_multiples_vanish(-1, p);
            vstd::arithmetic::div_mod::lemma_small_mod((p - 1) as nat, p as nat);
            assert((y - 1) % p == p - 1);
        } else {
            vstd::arithmetic::div_mod::lemma_small_mod((y - 1) as nat, p as nat);
        }
        assert(false);
    }
}

} // verus!
