//! Opening of a pending commitment of the second form: knowledge of
//! `(receiver_id, salt, refund_id, delta)` such that
//!
//! ```text
//! C2 = H(C1(receiver_id, salt, amount), H(refund_id, [delta, 0, 0, 0]))
//! ```
//!
//! with `C2` and the amount public and everything else private. Four
//! chained compressions on one lane (32 rows): the envelope `X` first,
//! then a reseed that starts `C1` from the receiver and the salt while `X`
//! is captured in four carried columns, then the amount, then `X` again.

use vstd::prelude::*;
use crate::boundary::{push_run, run};
use crate::circuit_refund::{refund_commitment_v2_spec, refund_envelope_spec, RefundPublicInputs};
use crate::circuit_send::pending_commitment_spec;
use crate::constraints::{round_residuals, round_residuals_spec};
use crate::field::{MODULUS, add_spec, all_canonical, fadd, felt, fmul, fsub, mul_spec, reduce, sub_spec};
use crate::lane::{cycle_digest, lane_value, lemma_append_link, lemma_fresh_link, lemma_lane_digest_row, program_columns, Link};
use crate::periodic::{ark_spec, hash_flag_spec, push_row_selector, round_columns, selector_spec};
use crate::rescue::{as_digest, as_digest_spec, digest_arr, lemma_digest_arr, lemma_merge_arr, merge_arr, merge_state, merge_state_of, native_merge, Digest};
use crate::trace::{columns_shape, constant_column, row_of};
use crate::constraints::{lemma_round_residuals_idle, lemma_round_residuals_vanish, rounds_hold};
use crate::lane::cycle_start;

verus! {

pub const CYCLE_LENGTH: usize = 8;
/// Four compressions: `X`, the inner digest, `C1` and `C2`.
pub const NUM_MERGES: usize = 4;
pub const TRACE_LENGTH: usize = 32;
/// The lane and the four columns that carry `X`.
pub const TRACE_WIDTH: usize = 16;
/// The columns where `X` travels after its capture.
pub const COL_X: usize = 12;
/// The row where the third compression absorbs the public amount.
pub const ROW_AMOUNT: usize = 16;
/// The last row: `C2` in elements 4..8.
pub const ROW_P: usize = 31;

/// The links of the lane: the reseed with the receiver and the salt, the
/// amount, and the envelope.
pub open spec fn refund_links(receiver_id: Digest, salt: Digest, amount: u64, envelope: Digest) -> Seq<Link> {
    seq![
        Link::Fresh { state: merge_arr(receiver_id, salt) },
        Link::Place { other: digest_arr(reduce(amount as int)), right: false },
        Link::Place { other: envelope, right: false },
    ]
}

/// The envelope as an array.
pub open spec fn envelope_arr(refund_id: Digest, delta: u64) -> Digest {
    let x = refund_envelope_spec(refund_id@, reduce(delta as int));
    [x[0], x[1], x[2], x[3]]
}

/// The value of the trace at column `col` and row `r`.
pub open spec fn cell_spec(receiver_id: Digest, salt: Digest, amount: u64, refund_id: Digest, delta: u64, col: int, r: int) -> u64 {
    let x = envelope_arr(refund_id, delta);
    if col < 12 {
        lane_value(
            merge_state(refund_id@, as_digest_spec(reduce(delta as int))),
            refund_links(receiver_id, salt, amount, x),
            col,
            r,
        )
    } else if r < 8 {
        0
    } else {
        x[col - COL_X]
    }
}

/// Builds the trace of the opening: the envelope first, then the opening.
pub fn build_trace(receiver_id: &Digest, salt: &Digest, amount: u64, refund_id: &Digest, delta: u64) -> (cols: Vec<Vec<u64>>)
    requires
        all_canonical(receiver_id@),
        all_canonical(salt@),
        all_canonical(refund_id@),
    ensures
        cols.len() == TRACE_WIDTH,
        columns_shape(cols@, TRACE_LENGTH as nat),
        forall|col: int, r: int|
            0 <= col < TRACE_WIDTH && 0 <= r < TRACE_LENGTH ==> #[trigger] cols[col][r] == cell_spec(
                *receiver_id,
                *salt,
                amount,
                *refund_id,
                delta,
                col,
                r,
            ),
        forall|r: int, k: int|
            0 <= r < TRACE_LENGTH - 1 && 0 <= k < 32 ==> #[trigger] constraint_spec(
                k,
                row_of(cols@, r),
                row_of(cols@, r + 1),
                periodic_row(r),
            ) == 0,
{
    let c_delta = felt(delta);
    let x = native_merge(refund_id, &as_digest(c_delta));
    assert(x == envelope_arr(*refund_id, delta));
    let s0 = merge_state_of(refund_id, &as_digest(c_delta));
    let links = vec![
        Link::Fresh { state: merge_state_of(receiver_id, salt) },
        Link::Place { other: as_digest(felt(amount)), right: false },
        Link::Place { other: x, right: false },
    ];
    assert(links@ =~= refund_links(*receiver_id, *salt, amount, x));
    let mut cols = program_columns(&s0, &links, TRACE_LENGTH);
    let mut i: usize = 0;
    while i < 4
        invariant
            i <= 4,
            all_canonical(x@),
            x == envelope_arr(*refund_id, delta),
            cols.len() == COL_X + i,
            columns_shape(cols@, TRACE_LENGTH as nat),
            forall|col: int, r: int|
                0 <= col < cols.len() && 0 <= r < TRACE_LENGTH ==> #[trigger] cols[col][r] == cell_spec(
                    *receiver_id,
                    *salt,
                    amount,
                    *refund_id,
                    delta,
                    col,
                    r,
                ),
        decreases 4 - i,
    {
        let mut col: Vec<u64> = Vec::new();
        let mut r: usize = 0;
        while r < TRACE_LENGTH
            invariant
                r <= TRACE_LENGTH,
                i < 4,
                all_canonical(x@),
                col.len() == r,
                all_canonical(col@),
                forall|q: int| 0 <= q < r ==> #[trigger] col[q] == if q < 8 { 0 } else { x[i as int] },
            decreases TRACE_LENGTH - r,
        {
            col.push(if r < 8 { 0 } else { x[i] });
            r = r + 1;
        }
        cols.push(col);
        i = i + 1;
    }
    proof {
        assert forall|r: int, k: int|
            0 <= r < TRACE_LENGTH - 1 && 0 <= k < 32 implies #[trigger] constraint_spec(
            k,
            row_of(cols@, r),
            row_of(cols@, r + 1),
            periodic_row(r),
        ) == 0 by {
            lemma_trace_satisfies_constraints(*receiver_id, *salt, amount, *refund_id, delta, cols@, r);
        }
    }
    cols
}


/// The link constraints hold on the trace: after each link row (7, 15, 23)
/// the capacity is back to zero; the digests of the second and third
/// compressions are carried into elements 4..8 of the next; the carried
/// columns take the envelope from row 7 and keep it on every other row;
/// and the last compression absorbs the carried envelope. (The round
/// constraints are about the Rescue round itself, which the library names
/// and does not state.)
pub proof fn lemma_link_constraints_hold(receiver_id: Digest, salt: Digest, amount: u64, refund_id: Digest, delta: u64)
    ensures
        forall|i: int| 0 <= i < 4 ==> {
            &&& #[trigger] cell_spec(receiver_id, salt, amount, refund_id, delta, i, 8) == 0
            &&& cell_spec(receiver_id, salt, amount, refund_id, delta, i, 16) == 0
            &&& cell_spec(receiver_id, salt, amount, refund_id, delta, i, 24) == 0
        },
        forall|i: int| 0 <= i < 4 ==> {
            &&& #[trigger] cell_spec(receiver_id, salt, amount, refund_id, delta, 4 + i, 16)
                == cell_spec(receiver_id, salt, amount, refund_id, delta, 4 + i, 15)
            &&& cell_spec(receiver_id, salt, amount, refund_id, delta, 4 + i, 24)
                == cell_spec(receiver_id, salt, amount, refund_id, delta, 4 + i, 23)
        },
        forall|i: int| 0 <= i < 4 ==> #[trigger] cell_spec(receiver_id, salt, amount, refund_id, delta, COL_X + i, 8)
            == cell_spec(receiver_id, salt, amount, refund_id, delta, 4 + i, 7),
        forall|i: int, r: int| 0 <= i < 4 && 0 <= r < 31 && r != 7 ==> #[trigger] cell_spec(receiver_id, salt, amount, refund_id, delta, COL_X + i, r + 1)
            == cell_spec(receiver_id, salt, amount, refund_id, delta, COL_X + i, r),
        forall|i: int| 0 <= i < 4 ==> #[trigger] cell_spec(receiver_id, salt, amount, refund_id, delta, 8 + i, 24)
            == cell_spec(receiver_id, salt, amount, refund_id, delta, COL_X + i, 23),
{
    let x = envelope_arr(refund_id, delta);
    let s0 = merge_state(refund_id@, as_digest_spec(reduce(delta as int)));
    let l = refund_links(receiver_id, salt, amount, x);
    lemma_merge_arr(receiver_id, salt);
    lemma_digest_arr(reduce(amount as int));
    lemma_lane_digest_row(s0, l, 0);
    lemma_lane_digest_row(s0, l, 1);
    lemma_lane_digest_row(s0, l, 2);
    assert(crate::lane::cycle_start(s0, l, 1) == merge_state(receiver_id@, salt@));
    assert(crate::lane::cycle_start(s0, l, 2) == merge_state(cycle_digest(s0, l, 1), digest_arr(reduce(amount as int))@));
    assert(crate::lane::cycle_start(s0, l, 3) == merge_state(cycle_digest(s0, l, 2), x@));
    assert(crate::lane::lane_state(s0, l, 1, 0) == crate::lane::cycle_start(s0, l, 1));
    assert(crate::lane::lane_state(s0, l, 2, 0) == crate::lane::cycle_start(s0, l, 2));
    assert(crate::lane::lane_state(s0, l, 3, 0) == crate::lane::cycle_start(s0, l, 3));
    assert(8int / 8 == 1 && 8int % 8 == 0 && 16int / 8 == 2 && 16int % 8 == 0 && 24int / 8 == 3 && 24int % 8 == 0);
    assert(7int / 8 == 0 && 7int % 8 == 7 && 15int / 8 == 1 && 15int % 8 == 7 && 23int / 8 == 2 && 23int % 8 == 7);
    assert(cycle_digest(s0, l, 0) == refund_envelope_spec(refund_id@, reduce(delta as int)));
}

/// The trace ends on `C2`, the amount sits where the assertion looks for
/// it, and the carried columns hold the envelope after its capture.
pub proof fn lemma_trace_landmarks(receiver_id: Digest, salt: Digest, amount: u64, refund_id: Digest, delta: u64)
    ensures
        forall|i: int| 0 <= i < 4 ==> #[trigger] cell_spec(receiver_id, salt, amount, refund_id, delta, 4 + i, ROW_P as int)
            == refund_commitment_v2_spec(receiver_id@, salt@, reduce(amount as int), refund_id@, reduce(delta as int))[i],
        cell_spec(receiver_id, salt, amount, refund_id, delta, 8, ROW_AMOUNT as int) == reduce(amount as int),
        forall|i: int| 9 <= i < 12 ==> #[trigger] cell_spec(receiver_id, salt, amount, refund_id, delta, i, ROW_AMOUNT as int)
            == 0,
        forall|i: int, r: int| 0 <= i < 4 && 8 <= r < TRACE_LENGTH ==> #[trigger] cell_spec(
            receiver_id,
            salt,
            amount,
            refund_id,
            delta,
            COL_X + i,
            r,
        ) == refund_envelope_spec(refund_id@, reduce(delta as int))[i],
{
    let x = envelope_arr(refund_id, delta);
    let s0 = merge_state(refund_id@, as_digest_spec(reduce(delta as int)));
    let l = refund_links(receiver_id, salt, amount, x);
    let amt = reduce(amount as int);
    lemma_digest_arr(reduce(delta as int));
    lemma_digest_arr(amt);
    lemma_fresh_link(s0, l, 0, merge_arr(receiver_id, salt));
    lemma_merge_arr(receiver_id, salt);
    lemma_append_link(s0, l, 1, digest_arr(amt));
    lemma_append_link(s0, l, 2, x);
    let xs = refund_envelope_spec(refund_id@, reduce(delta as int));
    assert(x@ =~= xs);
    lemma_lane_digest_row(s0, l, 3);
    assert(ROW_AMOUNT as int / 8 == 2 && ROW_AMOUNT as int % 8 == 0);
    assert(crate::lane::lane_state(s0, l, 2, 0) == crate::lane::cycle_start(s0, l, 2));
}

/// The public inputs a trace shows: the last row and the amount row.
pub fn public_inputs_of(trace: &Vec<Vec<u64>>) -> (pi: RefundPublicInputs)
    requires
        trace.len() == TRACE_WIDTH,
        columns_shape(trace@, TRACE_LENGTH as nat),
    ensures
        forall|i: int| 0 <= i < 4 ==> #[trigger] pi.commitment[i] == trace[4 + i][ROW_P as int],
        pi.amount == trace[8][ROW_AMOUNT as int],
{
    RefundPublicInputs {
        commitment: [trace[4][ROW_P], trace[5][ROW_P], trace[6][ROW_P], trace[7][ROW_P]],
        amount: trace[8][ROW_AMOUNT],
    }
}

/// The value of periodic column `j` at row `r`: the round flag and
/// constants over one cycle, then the three link selectors over the trace.
pub open spec fn periodic_spec(j: int, r: int) -> u64 {
    if j == 0 {
        hash_flag_spec(8, r)
    } else if j < 13 {
        ark_spec(false, j - 1, 8, r)
    } else if j < 25 {
        ark_spec(true, j - 13, 8, r)
    } else {
        selector_spec(seq![(8 * (j - 24) - 1) as usize], r)
    }
}

/// The 28 periodic columns: 25 of one cycle, 3 of the whole trace.
pub fn periodic_columns() -> (cols: Vec<Vec<u64>>)
    ensures
        cols.len() == 28,
        forall|j: int| 0 <= j < 25 ==> (#[trigger] cols[j]).len() == CYCLE_LENGTH,
        forall|j: int| 25 <= j < 28 ==> (#[trigger] cols[j]).len() == TRACE_LENGTH,
        forall|j: int, r: int| 0 <= j < 25 && 0 <= r < CYCLE_LENGTH ==> #[trigger] cols[j][r] == periodic_spec(j, r),
        forall|j: int, r: int| 25 <= j < 28 && 0 <= r < TRACE_LENGTH ==> #[trigger] cols[j][r] == periodic_spec(j, r),
        forall|j: int| 0 <= j < 28 ==> all_canonical(#[trigger] cols[j]@),
{
    let mut cols = round_columns(CYCLE_LENGTH, CYCLE_LENGTH);
    let ghost rounds = cols@;
    push_row_selector(&mut cols, 7, TRACE_LENGTH);
    push_row_selector(&mut cols, 15, TRACE_LENGTH);
    push_row_selector(&mut cols, 23, TRACE_LENGTH);
    proof {
        assert forall|j: int| 0 <= j < 28 implies all_canonical(#[trigger] cols[j]@) by {
            assert forall|r: int| 0 <= r < cols[j]@.len() implies #[trigger] cols[j]@[r] < MODULUS by {
                if j < 25 {
                    assert(all_canonical(rounds[j]@));
                    assert(rounds[j][r] == cols[j][r]);
                } else {
                    assert(cols[j][r] == periodic_spec(j, r));
                }
            }
        }
    }
    cols
}

/// The 16 boundary assertions: clean capacity and empty carried columns on
/// the first row, the amount and its zeros, and `C2` on the last row.
pub open spec fn assertions_spec(pi: RefundPublicInputs) -> Seq<(usize, usize, u64)> {
    let z = seq![0u64, 0u64, 0u64, 0u64];
    run(4, 0, 0, z) + run(4, COL_X as int, 0, z) + run(1, 8, ROW_AMOUNT, seq![pi.amount]) + run(3, 9, ROW_AMOUNT, z)
        + run(4, 4, ROW_P, pi.commitment@)
}

/// The boundary assertions of an opening of the second form.
pub fn assertions(pi: &RefundPublicInputs) -> (a: Vec<(usize, usize, u64)>)
    ensures
        a@ == assertions_spec(*pi),
        a.len() == 16,
{
    let z = vec![0u64, 0, 0, 0];
    let amount = vec![pi.amount];
    let commitment = vec![pi.commitment[0], pi.commitment[1], pi.commitment[2], pi.commitment[3]];
    assert(z@ =~= seq![0u64, 0u64, 0u64, 0u64]);
    assert(amount@ =~= seq![pi.amount]);
    assert(commitment@ =~= pi.commitment@);
    let mut a: Vec<(usize, usize, u64)> = Vec::new();
    push_run(&mut a, 4, 0, 0, &z);
    push_run(&mut a, 4, COL_X, 0, &z);
    push_run(&mut a, 1, 8, ROW_AMOUNT, &amount);
    push_run(&mut a, 3, 9, ROW_AMOUNT, &z);
    push_run(&mut a, 4, 4, ROW_P, &commitment);
    a
}


/// The opening of the second form proves knowledge of exactly what a send
/// of the second form inserts: when the send's envelope is the refund
/// envelope of `refund_id` and `delta`, the last row of the opening holds
/// the commitment that the send places in the pending tree.
pub proof fn lemma_opens_the_sent_commitment(inp: crate::circuit_send_v2::SendV2Inputs, refund_id: Digest, delta: u64)
    requires
        crate::circuit_send_v2::inputs_ok(inp),
        inp.envelope@ == refund_envelope_spec(refund_id@, reduce(delta as int)),
    ensures
        forall|i: int| 0 <= i < 4 ==> #[trigger] cell_spec(
            inp.base.receiver_id,
            inp.base.salt,
            inp.base.amount,
            refund_id,
            delta,
            4 + i,
            ROW_P as int,
        ) == crate::circuit_send_v2::cell_spec(inp, 16 + i, crate::circuit_send_v2::ROW_PENDING_ENTRY as int),
{
    lemma_trace_landmarks(inp.base.receiver_id, inp.base.salt, inp.base.amount, refund_id, delta);
    crate::circuit_send_v2::lemma_trace_landmarks(inp);
}


/// The number of transition constraints.
pub const NUM_CONSTRAINTS: usize = 32;

/// The residuals of constraints 12..=23.
#[verifier::opaque]
pub open spec fn residuals_0(cur: Seq<u64>, nxt: Seq<u64>, per: Seq<u64>) -> Seq<u64> {
    seq![
        mul_spec(add_spec(add_spec(per[25], per[26]), per[27]), nxt[0]),
        mul_spec(add_spec(add_spec(per[25], per[26]), per[27]), nxt[1]),
        mul_spec(add_spec(add_spec(per[25], per[26]), per[27]), nxt[2]),
        mul_spec(add_spec(add_spec(per[25], per[26]), per[27]), nxt[3]),
        mul_spec(add_spec(per[26], per[27]), sub_spec(nxt[4], cur[4])),
        mul_spec(add_spec(per[26], per[27]), sub_spec(nxt[5], cur[5])),
        mul_spec(add_spec(per[26], per[27]), sub_spec(nxt[6], cur[6])),
        mul_spec(add_spec(per[26], per[27]), sub_spec(nxt[7], cur[7])),
        mul_spec(per[25], sub_spec(nxt[12], cur[4])),
        mul_spec(per[25], sub_spec(nxt[13], cur[5])),
        mul_spec(per[25], sub_spec(nxt[14], cur[6])),
        mul_spec(per[25], sub_spec(nxt[15], cur[7])),
    ]
}

fn residuals_0_eval(cur: &Vec<u64>, nxt: &Vec<u64>, per: &Vec<u64>) -> (r: Vec<u64>)
    requires
        cur.len() == TRACE_WIDTH,
        nxt.len() == TRACE_WIDTH,
        per.len() == 28,
        all_canonical(cur@),
        all_canonical(nxt@),
        all_canonical(per@),
    ensures
        r@ == residuals_0(cur@, nxt@, per@),
        r.len() == 12,
{
    let r = vec![
        fmul(fadd(fadd(per[25], per[26]), per[27]), nxt[0]),
        fmul(fadd(fadd(per[25], per[26]), per[27]), nxt[1]),
        fmul(fadd(fadd(per[25], per[26]), per[27]), nxt[2]),
        fmul(fadd(fadd(per[25], per[26]), per[27]), nxt[3]),
        fmul(fadd(per[26], per[27]), fsub(nxt[4], cur[4])),
        fmul(fadd(per[26], per[27]), fsub(nxt[5], cur[5])),
        fmul(fadd(per[26], per[27]), fsub(nxt[6], cur[6])),
        fmul(fadd(per[26], per[27]), fsub(nxt[7], cur[7])),
        fmul(per[25], fsub(nxt[12], cur[4])),
        fmul(per[25], fsub(nxt[13], cur[5])),
        fmul(per[25], fsub(nxt[14], cur[6])),
        fmul(per[25], fsub(nxt[15], cur[7])),
    ];
    proof {
        reveal(residuals_0);
    }
    assert(r@ =~= residuals_0(cur@, nxt@, per@));
    r
}

/// The residuals of constraints 24..=31.
#[verifier::opaque]
pub open spec fn residuals_1(cur: Seq<u64>, nxt: Seq<u64>, per: Seq<u64>) -> Seq<u64> {
    seq![
        mul_spec(sub_spec(1u64, per[25]), sub_spec(nxt[12], cur[12])),
        mul_spec(sub_spec(1u64, per[25]), sub_spec(nxt[13], cur[13])),
        mul_spec(sub_spec(1u64, per[25]), sub_spec(nxt[14], cur[14])),
        mul_spec(sub_spec(1u64, per[25]), sub_spec(nxt[15], cur[15])),
        mul_spec(per[27], sub_spec(nxt[8], cur[12])),
        mul_spec(per[27], sub_spec(nxt[9], cur[13])),
        mul_spec(per[27], sub_spec(nxt[10], cur[14])),
        mul_spec(per[27], sub_spec(nxt[11], cur[15])),
    ]
}

fn residuals_1_eval(cur: &Vec<u64>, nxt: &Vec<u64>, per: &Vec<u64>) -> (r: Vec<u64>)
    requires
        cur.len() == TRACE_WIDTH,
        nxt.len() == TRACE_WIDTH,
        per.len() == 28,
        all_canonical(cur@),
        all_canonical(nxt@),
        all_canonical(per@),
    ensures
        r@ == residuals_1(cur@, nxt@, per@),
        r.len() == 8,
{
    let r = vec![
        fmul(fsub(1u64, per[25]), fsub(nxt[12], cur[12])),
        fmul(fsub(1u64, per[25]), fsub(nxt[13], cur[13])),
        fmul(fsub(1u64, per[25]), fsub(nxt[14], cur[14])),
        fmul(fsub(1u64, per[25]), fsub(nxt[15], cur[15])),
        fmul(per[27], fsub(nxt[8], cur[12])),
        fmul(per[27], fsub(nxt[9], cur[13])),
        fmul(per[27], fsub(nxt[10], cur[14])),
        fmul(per[27], fsub(nxt[11], cur[15])),
    ];
    proof {
        reveal(residuals_1);
    }
    assert(r@ =~= residuals_1(cur@, nxt@, per@));
    r
}

/// The residuals of all transition constraints of a step, in the order of
/// their indices: the rounds of the hash lane, then the rest.
pub open spec fn residuals(cur: Seq<u64>, nxt: Seq<u64>, per: Seq<u64>) -> Seq<u64> {
    round_residuals_spec(cur, nxt, per, 0, 0, 1, 13)
        + residuals_0(cur, nxt, per) + residuals_1(cur, nxt, per)
}

/// Constraint `k` of a step, over the current row, the next row and the
/// periodic values.
pub open spec fn constraint_spec(k: int, current: Seq<u64>, next: Seq<u64>, periodic: Seq<u64>) -> u64 {
    residuals(current, next, periodic)[k]
}

/// Evaluates the transition constraints of a step over the base field: a
/// step satisfies the AIR when every residual is zero.
pub fn evaluate_transition(current: &Vec<u64>, next: &Vec<u64>, periodic: &Vec<u64>) -> (result: Vec<u64>)
    requires
        current.len() == TRACE_WIDTH,
        next.len() == TRACE_WIDTH,
        periodic.len() == 28,
        all_canonical(current@),
        all_canonical(next@),
        all_canonical(periodic@),
    ensures
        result.len() == NUM_CONSTRAINTS,
        forall|k: int| 0 <= k < NUM_CONSTRAINTS ==> #[trigger] result[k] == constraint_spec(k, current@, next@, periodic@),
{
    let mut r = round_residuals(current, next, periodic, 0, 0, 1, 13);

    let mut p0 = residuals_0_eval(current, next, periodic);
    r.append(&mut p0);
    let mut p1 = residuals_1_eval(current, next, periodic);
    r.append(&mut p1);
    assert(r@ =~= residuals(current@, next@, periodic@));
    r
}





/// The periodic values of step `r`: the round columns repeat every cycle,
/// the three link selectors span the trace.
pub open spec fn periodic_row(r: int) -> Seq<u64> {
    Seq::new(28, |j: int| if j < 25 { periodic_spec(j, r % 8) } else { periodic_spec(j, r) })
}

/// Every step of an opening's trace of the second form satisfies every
/// transition constraint.
pub proof fn lemma_trace_satisfies_constraints(
    receiver_id: Digest,
    salt: Digest,
    amount: u64,
    refund_id: Digest,
    delta: u64,
    t: Seq<Vec<u64>>,
    r: int,
)
    requires
        t.len() == TRACE_WIDTH,
        forall|col: int, q: int|
            0 <= col < TRACE_WIDTH && 0 <= q < TRACE_LENGTH ==> #[trigger] t[col][q] == cell_spec(
                receiver_id,
                salt,
                amount,
                refund_id,
                delta,
                col,
                q,
            ),
        forall|c: nat|
            c <= 3 ==> #[trigger] rounds_hold(
                cycle_start(
                    merge_state(refund_id@, as_digest_spec(reduce(delta as int))),
                    refund_links(receiver_id, salt, amount, envelope_arr(refund_id, delta)),
                    c,
                ),
            ),
        0 <= r < TRACE_LENGTH - 1,
    ensures
        forall|k: int| 0 <= k < 32 ==> #[trigger] constraint_spec(k, row_of(t, r), row_of(t, r + 1), periodic_row(r)) == 0,
{
    let cur = row_of(t, r);
    let nxt = row_of(t, r + 1);
    let per = periodic_row(r);
    let s0 = merge_state(refund_id@, as_digest_spec(reduce(delta as int)));
    let l = refund_links(receiver_id, salt, amount, envelope_arr(refund_id, delta));
    let c = r / 8;
    let k = r % 8;
    vstd::arithmetic::div_mod::lemma_small_mod(0, MODULUS as nat);
    vstd::arithmetic::div_mod::lemma_small_mod(1, MODULUS as nat);
    assert forall|x: u64| #[trigger] mul_spec(0u64, x) == 0 by {
        assert(0u64 * x == 0);
    }
    assert(mul_spec(1u64, 0u64) == 0) by {
        assert(1u64 * 0u64 == 0);
    }
    assert forall|x: u64| #[trigger] sub_spec(x, x) == 0 by {}
    if k < 7 {
        assert(per[0] == 1);
        assert(rounds_hold(cycle_start(s0, l, c as nat)));
        assert forall|j: int| 0 <= j < 12 implies #[trigger] cur[0 + j] == crate::rescue::rounds(cycle_start(s0, l, c as nat), k as nat)[j] by {
            assert(cur[j] == t[j][r]);
        }
        assert forall|j: int| 0 <= j < 12 implies #[trigger] nxt[0 + j] == crate::rescue::rescue_round_result(crate::rescue::rounds(cycle_start(s0, l, c as nat), k as nat), k as nat)[j] by {
            assert(nxt[j] == t[j][r + 1]);
            assert((r + 1) / 8 == c && (r + 1) % 8 == k + 1);
        }
        assert forall|j: int| 0 <= j < 12 implies #[trigger] per[1 + j] == crate::rescue::rescue_ark1(k as nat, j as nat) by {
            assert(per[1 + j] == periodic_spec(1 + j, k));
        }
        assert forall|j: int| 0 <= j < 12 implies #[trigger] per[13 + j] == crate::rescue::rescue_ark2(k as nat, j as nat) by {
            assert(per[13 + j] == periodic_spec(13 + j, k));
        }
        lemma_round_residuals_vanish(cur, nxt, per, 0, 0, 1, 13, cycle_start(s0, l, c as nat), k as nat);
    } else {
        assert(per[0] == 0);
        lemma_round_residuals_idle(cur, nxt, per, 0, 0, 1, 13);
    }
    let s7: Seq<usize> = seq![7usize];
    let s15: Seq<usize> = seq![15usize];
    let s23: Seq<usize> = seq![23usize];
    assert(per[25] == selector_spec(s7, r));
    assert(per[26] == selector_spec(s15, r));
    assert(per[27] == selector_spec(s23, r));
    if r == 7 {
        assert(s7[0] == 7);
    }
    if r == 15 {
        assert(s15[0] == 15);
    }
    if r == 23 {
        assert(s23[0] == 23);
    }
    assert(per[25] == (if r == 7 { 1u64 } else { 0u64 }));
    assert(per[26] == (if r == 15 { 1u64 } else { 0u64 }));
    assert(per[27] == (if r == 23 { 1u64 } else { 0u64 }));
    lemma_link_constraints_hold(receiver_id, salt, amount, refund_id, delta);
    assert forall|i: int| 0 <= i < 16 implies #[trigger] cur[i] == t[i][r] && nxt[i] == t[i][r + 1] by {}
    assert forall|i: int| 0 <= i < 4 implies {
        &&& (r == 7 || r == 15 || r == 23 ==> #[trigger] nxt[i] == 0)
        &&& (r == 15 || r == 23 ==> nxt[4 + i] == cur[4 + i])
        &&& (r == 7 ==> nxt[12 + i] == cur[4 + i])
        &&& (r != 7 ==> nxt[12 + i] == cur[12 + i])
        &&& (r == 23 ==> nxt[8 + i] == cur[12 + i])
    } by {
        assert(cur[i] == t[i][r]);
        assert(nxt[i] == t[i][r + 1]);
        assert(nxt[4 + i] == t[4 + i][r + 1]);
        assert(cur[4 + i] == t[4 + i][r]);
        assert(nxt[8 + i] == t[8 + i][r + 1]);
        assert(nxt[12 + i] == t[12 + i][r + 1]);
        assert(cur[12 + i] == t[12 + i][r]);
    }
    reveal(residuals_0);
    reveal(residuals_1);
    assert(add_spec(0u64, 0u64) == 0);
    assert(add_spec(1u64, 0u64) == 1);
    assert(add_spec(0u64, 1u64) == 1);
    assert(sub_spec(1u64, 0u64) == 1);
    assert(sub_spec(1u64, 1u64) == 0);
    assert forall|k: int| 0 <= k < 32 implies #[trigger] constraint_spec(k, cur, nxt, per) == 0 by {
        if k < 12 {
            assert(constraint_spec(k, cur, nxt, per) == crate::constraints::round_residual(cur, nxt, per, 0, 0, 1, 13, k));
        }
    }
}

} // verus!
