//! Transition constraints over the base field. A constraint is a residual
//! computed from the current row, the next row and the periodic values of
//! the step; an execution trace satisfies the AIR when every residual is
//! zero on every step. This module holds what the circuits share: the
//! S-box and the residuals of a Rescue round on a hash lane, and the facts
//! that turn a zero residual into an equation between cells.

use vstd::prelude::*;
use crate::field::{add_spec, all_canonical, fadd, fmul, fsub, mul_spec, reduce, sub_spec, MODULUS};
use crate::rescue::{inv_mds, mds, rescue_ark1, rescue_ark2, rescue_inv_mds, rescue_mds, rescue_round_result, rounds, STATE_WIDTH};

verus! {

/// The S-box of Rescue-Prime: `x^7`, as `x^4 * x^2 * x`.
pub open spec fn sbox_spec(x: u64) -> u64 {
    let x2 = mul_spec(x, x);
    let x4 = mul_spec(x2, x2);
    mul_spec(mul_spec(x4, x2), x)
}

pub fn sbox(x: u64) -> (r: u64)
    requires
        x < MODULUS,
    ensures
        r == sbox_spec(x),
        r < MODULUS,
{
    let x2 = fmul(x, x);
    let x4 = fmul(x2, x2);
    fmul(fmul(x4, x2), x)
}

/// `sum_{j < n} MDS[i][j] * sbox(cur[off + j])`, added in order of `j`.
pub open spec fn mds_sbox_sum(cur: Seq<u64>, off: int, i: int, n: nat) -> u64
    decreases n,
{
    if n == 0 {
        0
    } else {
        add_spec(
            mds_sbox_sum(cur, off, i, (n - 1) as nat),
            mul_spec(rescue_mds(i as nat, (n - 1) as nat), sbox_spec(cur[off + n - 1])),
        )
    }
}

/// `sum_{j < n} INV_MDS[i][j] * (next[off + j] - per[p_ark2 + j])`, added
/// in order of `j`.
pub open spec fn inv_mds_sum(next: Seq<u64>, per: Seq<u64>, off: int, p_ark2: int, i: int, n: nat) -> u64
    decreases n,
{
    if n == 0 {
        0
    } else {
        add_spec(
            inv_mds_sum(next, per, off, p_ark2, i, (n - 1) as nat),
            mul_spec(rescue_inv_mds(i as nat, (n - 1) as nat), sub_spec(next[off + n - 1], per[p_ark2 + n - 1])),
        )
    }
}

/// The residual of element `i` of a Rescue round on the lane at `off`:
/// `flag * (sbox(INV_MDS * (next - ark2))[i] - (MDS * sbox(cur) + ark1)[i])`.
/// It is zero on a round row exactly when the round's forward half and
/// backward half meet.
pub open spec fn round_residual(cur: Seq<u64>, next: Seq<u64>, per: Seq<u64>, off: int, p_flag: int, p_ark1: int, p_ark2: int, i: int) -> u64 {
    let a = add_spec(mds_sbox_sum(cur, off, i, 12), per[p_ark1 + i]);
    let b = inv_mds_sum(next, per, off, p_ark2, i, 12);
    mul_spec(per[p_flag], sub_spec(sbox_spec(b), a))
}

/// The twelve round residuals of the lane at `off`.
pub open spec fn round_residuals_spec(cur: Seq<u64>, next: Seq<u64>, per: Seq<u64>, off: int, p_flag: int, p_ark1: int, p_ark2: int) -> Seq<u64> {
    Seq::new(12, |i: int| round_residual(cur, next, per, off, p_flag, p_ark1, p_ark2, i))
}

/// Evaluates the twelve round residuals of the lane at `off`.
pub fn round_residuals(
    cur: &Vec<u64>,
    next: &Vec<u64>,
    per: &Vec<u64>,
    off: usize,
    p_flag: usize,
    p_ark1: usize,
    p_ark2: usize,
) -> (r: Vec<u64>)
    requires
        off + STATE_WIDTH <= cur.len(),
        off + STATE_WIDTH <= next.len(),
        p_flag < per.len(),
        p_ark1 + STATE_WIDTH <= per.len(),
        p_ark2 + STATE_WIDTH <= per.len(),
        all_canonical(cur@),
        all_canonical(next@),
        all_canonical(per@),
    ensures
        r@ == round_residuals_spec(cur@, next@, per@, off as int, p_flag as int, p_ark1 as int, p_ark2 as int),
        all_canonical(r@),
{
    let mut r: Vec<u64> = Vec::new();
    let mut i: usize = 0;
    while i < STATE_WIDTH
        invariant
            i <= STATE_WIDTH,
            off + STATE_WIDTH <= cur.len(),
            off + STATE_WIDTH <= next.len(),
            p_flag < per.len(),
            p_ark1 + STATE_WIDTH <= per.len(),
            p_ark2 + STATE_WIDTH <= per.len(),
            all_canonical(cur@),
            all_canonical(next@),
            all_canonical(per@),
            r@ == round_residuals_spec(cur@, next@, per@, off as int, p_flag as int, p_ark1 as int, p_ark2 as int).take(i as int),
            all_canonical(r@),
        decreases STATE_WIDTH - i,
    {
        let mut acc: u64 = 0;
        let mut j: usize = 0;
        while j < STATE_WIDTH
            invariant
                j <= STATE_WIDTH,
                i < STATE_WIDTH,
                off + STATE_WIDTH <= cur.len(),
                all_canonical(cur@),
                acc == mds_sbox_sum(cur@, off as int, i as int, j as nat),
                acc < MODULUS,
            decreases STATE_WIDTH - j,
        {
            acc = fadd(acc, fmul(mds(i, j), sbox(cur[off + j])));
            j = j + 1;
        }
        let a = fadd(acc, per[p_ark1 + i]);
        let mut bcc: u64 = 0;
        let mut j: usize = 0;
        while j < STATE_WIDTH
            invariant
                j <= STATE_WIDTH,
                i < STATE_WIDTH,
                off + STATE_WIDTH <= next.len(),
                p_ark2 + STATE_WIDTH <= per.len(),
                all_canonical(next@),
                all_canonical(per@),
                bcc == inv_mds_sum(next@, per@, off as int, p_ark2 as int, i as int, j as nat),
                bcc < MODULUS,
            decreases STATE_WIDTH - j,
        {
            bcc = fadd(bcc, fmul(inv_mds(i, j), fsub(next[off + j], per[p_ark2 + j])));
            j = j + 1;
        }
        let v = fmul(per[p_flag], fsub(sbox(bcc), a));
        r.push(v);
        proof {
            assert(r@ =~= round_residuals_spec(cur@, next@, per@, off as int, p_flag as int, p_ark1 as int, p_ark2 as int).take(i + 1));
        }
        i = i + 1;
    }
    proof {
        assert(r@ =~= round_residuals_spec(cur@, next@, per@, off as int, p_flag as int, p_ark1 as int, p_ark2 as int));
    }
    r
}

/// A zero difference of two field elements is an equality.
pub proof fn lemma_sub_zero(a: u64, b: u64)
    requires
        a < MODULUS,
        b < MODULUS,
        sub_spec(a, b) == 0,
    ensures
        a == b,
{
    let p: int = MODULUS as int;
    if a >= b {
        vstd::arithmetic::div_mod::lemma_small_mod((a - b) as nat, p as nat);
    } else {
        vstd::arithmetic::div_mod::lemma_mod_add_multiples_vanish(a - b, p);
        vstd::arithmetic::div_mod::lemma_small_mod((p + a - b) as nat, p as nat);
    }
}

/// A residual `sel * d` with the selector on is `d`.
pub proof fn lemma_selected(d: u64)
    requires
        d < MODULUS,
    ensures
        mul_spec(1, d) == d,
{
    vstd::arithmetic::div_mod::lemma_small_mod(d as nat, MODULUS as nat);
}

/// Field results are canonical.
pub proof fn lemma_reduce_canonical(x: int)
    ensures
        reduce(x) < MODULUS,
{
    vstd::arithmetic::div_mod::lemma_mod_bound(x, MODULUS as int);
}

/// A debit and a credit of the same amount keep the sum of two balances.
pub proof fn lemma_transfer_balances(debited: u64, credited: u64, amount: u64)
    ensures
        add_spec(sub_spec(debited, amount), add_spec(credited, amount)) == add_spec(debited, credited),
{
    let p: int = MODULUS as int;
    vstd::arithmetic::div_mod::lemma_add_mod_noop(debited - amount, credited + amount, p);
    lemma_reduce_canonical(debited - amount);
    lemma_reduce_canonical(credited + amount);
    vstd::arithmetic::div_mod::lemma_mod_bound(debited - amount, p);
    vstd::arithmetic::div_mod::lemma_mod_bound(credited + amount, p);
}

/// A residual `sel * (x - y)` that is zero with its selector on says
/// `x == y`.
pub proof fn lemma_selected_equal(sel: u64, x: u64, y: u64)
    requires
        sel == 1,
        x < MODULUS,
        y < MODULUS,
        mul_spec(sel, sub_spec(x, y)) == 0,
    ensures
        x == y,
{
    lemma_reduce_canonical(x - y);
    lemma_selected(sub_spec(x, y));
    lemma_sub_zero(x, y);
}

/// A residual `x - y` that is zero says `x == y`.
pub proof fn lemma_equal(x: u64, y: u64)
    requires
        x < MODULUS,
        y < MODULUS,
        sub_spec(x, y) == 0,
    ensures
        x == y,
{
    lemma_sub_zero(x, y);
}

/// A zero residual `sel * ((1 - bit) * left + bit * right)` with its
/// selector on and a boolean bit says that the element the bit picks is
/// zero.
pub proof fn lemma_picked_zero(sel: u64, bit: u64, left: u64, right: u64)
    requires
        sel == 1,
        bit == 0 || bit == 1,
        left < MODULUS,
        right < MODULUS,
        mul_spec(sel, add_spec(mul_spec(sub_spec(1u64, bit), left), mul_spec(bit, right))) == 0,
    ensures
        bit == 0 ==> left == 0,
        bit == 1 ==> right == 0,
{
    let p: nat = MODULUS as nat;
    vstd::arithmetic::div_mod::lemma_small_mod(0, p);
    vstd::arithmetic::div_mod::lemma_small_mod(1, p);
    vstd::arithmetic::div_mod::lemma_small_mod(left as nat, p);
    vstd::arithmetic::div_mod::lemma_small_mod(right as nat, p);
    if bit == 0 {
        assert(sub_spec(1u64, bit) == 1);
        assert(1u64 * left == left);
        assert(mul_spec(1u64, left) == left);
        assert(0u64 * right == 0);
        assert(mul_spec(0u64, right) == 0);
        assert(add_spec(left, 0u64) == left);
        assert(mul_spec(1u64, left) == left);
    } else {
        assert(sub_spec(1u64, bit) == 0);
        assert(0u64 * left == 0);
        assert(mul_spec(0u64, left) == 0);
        assert(1u64 * right == right);
        assert(mul_spec(1u64, right) == right);
        assert(add_spec(0u64, right) == right);
    }
}

/// The second round constants of round `k`, as a sequence.
pub open spec fn ark2_row(k: nat) -> Seq<u64> {
    Seq::new(12, |j: int| rescue_ark2(k, j as nat))
}

/// A Rescue round from `old` to `new` in round `k`, seen from its middle:
/// the backward half of `new`, `sbox(INV_MDS * (new - ARK2))`, meets the
/// forward half of `old`, `MDS * sbox(old) + ARK1`, element by element.
pub open spec fn round_relation(old: Seq<u64>, new: Seq<u64>, k: nat) -> bool {
    forall|i: int|
        0 <= i < 12 ==> #[trigger] sbox_spec(inv_mds_sum(new, ark2_row(k), 0, 0, i, 12)) == add_spec(
            mds_sbox_sum(old, 0, i, 12),
            rescue_ark1(k, i as nat),
        )
}

/// Every round of the permutation started from `start` meets in the middle.
pub open spec fn rounds_hold(start: Seq<u64>) -> bool {
    forall|k: nat| k < 7 ==> #[trigger] round_relation(rounds(start, k), rescue_round_result(rounds(start, k), k), k)
}

proof fn lemma_mds_sum_agree(a: Seq<u64>, oa: int, b: Seq<u64>, ob: int, i: int, n: nat)
    requires
        forall|j: int| 0 <= j < n ==> #[trigger] a[oa + j] == b[ob + j],
    ensures
        mds_sbox_sum(a, oa, i, n) == mds_sbox_sum(b, ob, i, n),
    decreases n,
{
    if n > 0 {
        lemma_mds_sum_agree(a, oa, b, ob, i, (n - 1) as nat);
        assert(a[oa + (n - 1)] == b[ob + (n - 1)]);
    }
}

proof fn lemma_inv_mds_sum_agree(a: Seq<u64>, pa: Seq<u64>, oa: int, qa: int, b: Seq<u64>, pb: Seq<u64>, ob: int, qb: int, i: int, n: nat)
    requires
        forall|j: int| 0 <= j < n ==> #[trigger] a[oa + j] == b[ob + j],
        forall|j: int| 0 <= j < n ==> #[trigger] pa[qa + j] == pb[qb + j],
    ensures
        inv_mds_sum(a, pa, oa, qa, i, n) == inv_mds_sum(b, pb, ob, qb, i, n),
    decreases n,
{
    if n > 0 {
        lemma_inv_mds_sum_agree(a, pa, oa, qa, b, pb, ob, qb, i, (n - 1) as nat);
        assert(a[oa + (n - 1)] == b[ob + (n - 1)]);
        assert(pa[qa + (n - 1)] == pb[qb + (n - 1)]);
    }
}

/// On a step where the lane at `off` goes from round `k` of a permutation
/// to round `k + 1`, with the round flag on and the round constants of
/// round `k` in the periodic values, the twelve round residuals are zero.
pub proof fn lemma_round_residuals_vanish(
    cur: Seq<u64>,
    next: Seq<u64>,
    per: Seq<u64>,
    off: int,
    p_flag: int,
    p_ark1: int,
    p_ark2: int,
    start: Seq<u64>,
    k: nat,
)
    requires
        k < 7,
        rounds_hold(start),
        forall|j: int| 0 <= j < 12 ==> #[trigger] cur[off + j] == rounds(start, k)[j],
        forall|j: int| 0 <= j < 12 ==> #[trigger] next[off + j] == rescue_round_result(rounds(start, k), k)[j],
        per[p_flag] == 1,
        forall|j: int| 0 <= j < 12 ==> #[trigger] per[p_ark1 + j] == rescue_ark1(k, j as nat),
        forall|j: int| 0 <= j < 12 ==> #[trigger] per[p_ark2 + j] == rescue_ark2(k, j as nat),
    ensures
        forall|i: int| 0 <= i < 12 ==> #[trigger] round_residual(cur, next, per, off, p_flag, p_ark1, p_ark2, i) == 0,
{
    let old = rounds(start, k);
    let new = rescue_round_result(old, k);
    assert(round_relation(old, new, k));
    assert forall|i: int| 0 <= i < 12 implies #[trigger] round_residual(cur, next, per, off, p_flag, p_ark1, p_ark2, i) == 0 by {
        assert forall|j: int| 0 <= j < 12 implies #[trigger] cur[off + j] == old[0 + j] by {
            assert(cur[off + j] == old[j]);
        }
        lemma_mds_sum_agree(cur, off, old, 0, i, 12);
        assert forall|j: int| 0 <= j < 12 implies #[trigger] next[off + j] == new[0 + j] by {
            assert(next[off + j] == new[j]);
        }
        assert forall|j: int| 0 <= j < 12 implies #[trigger] per[p_ark2 + j] == ark2_row(k)[0 + j] by {
            assert(per[p_ark2 + j] == rescue_ark2(k, j as nat));
        }
        lemma_inv_mds_sum_agree(next, per, off, p_ark2, new, ark2_row(k), 0, 0, i, 12);
        assert(per[p_ark1 + i] == rescue_ark1(k, i as nat));
        vstd::arithmetic::div_mod::lemma_small_mod(0, MODULUS as nat);
        assert(1u64 * 0u64 == 0);
    }
}

/// With the round flag off, the round residuals are zero.
pub proof fn lemma_round_residuals_idle(cur: Seq<u64>, next: Seq<u64>, per: Seq<u64>, off: int, p_flag: int, p_ark1: int, p_ark2: int)
    requires
        per[p_flag] == 0,
    ensures
        forall|i: int| 0 <= i < 12 ==> #[trigger] round_residual(cur, next, per, off, p_flag, p_ark1, p_ark2, i) == 0,
{
    vstd::arithmetic::div_mod::lemma_small_mod(0, MODULUS as nat);
    assert forall|i: int| 0 <= i < 12 implies #[trigger] round_residual(cur, next, per, off, p_flag, p_ark1, p_ark2, i) == 0 by {
        let b = inv_mds_sum(next, per, off, p_ark2, i, 12);
        let a = add_spec(mds_sbox_sum(cur, off, i, 12), per[p_ark1 + i]);
        assert(0u64 * sub_spec(sbox_spec(b), a) == 0);
    }
}

} // verus!
