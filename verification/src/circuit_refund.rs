//! Opening of a pending commitment, the circuit of expiry: knowledge of
//! `(receiver_id, salt)` such that
//!
//! ```text
//! P = H(H(receiver_id, salt), [amount, 0, 0, 0])
//! ```
//!
//! with `P` and the amount public and the receiver and salt private. Two
//! chained compressions on a single lane, sixteen rows. No key check, no
//! nullifier, no frozen check and no Merkle path: the caller compares the
//! leaf with `P` and empties it natively.

use vstd::prelude::*;
use crate::boundary::{push_run, run};
use crate::circuit_send::pending_commitment_spec;
use crate::constraints::{round_residuals, round_residuals_spec};
use crate::field::{MODULUS, add_spec, all_canonical, fadd, felt, fmul, fsub, mul_spec, reduce, sub_spec};
use crate::lane::{cycle_digest, lane_value, lemma_append_link, lemma_lane_digest_row, program_columns, Link};
use crate::periodic::{ark_spec, hash_flag_spec, round_columns};
use crate::rescue::{as_digest, as_digest_spec, digest_arr, lemma_digest_arr, merge_spec, merge_state, merge_state_of, native_merge, Digest};
use crate::trace::{columns_shape, row_of};
use crate::constraints::{lemma_round_residuals_idle, lemma_round_residuals_vanish, rounds_hold};
use crate::lane::cycle_start;

verus! {

pub const CYCLE_LENGTH: usize = 8;
/// Two compressions: `H(receiver_id, salt)` and `H(inner, amount)`.
pub const NUM_MERGES: usize = 2;
pub const TRACE_LENGTH: usize = 16;
/// One Rescue lane, no other column.
pub const TRACE_WIDTH: usize = 12;
/// The row where the second compression absorbs the public amount.
pub const ROW_AMOUNT: usize = 8;
/// The last row: the commitment in elements 4..8.
pub const ROW_P: usize = 15;

/// The refund envelope of the second form: `H(refund_id, [delta, 0, 0, 0])`.
pub open spec fn refund_envelope_spec(refund_id: Seq<u64>, delta: u64) -> Seq<u64> {
    merge_spec(refund_id, as_digest_spec(delta))
}

/// The commitment of the second form: `H(C1, X)` with `C1` the commitment
/// of the first form and `X` the refund envelope.
pub open spec fn refund_commitment_v2_spec(
    receiver_id: Seq<u64>,
    salt: Seq<u64>,
    amount: u64,
    refund_id: Seq<u64>,
    delta: u64,
) -> Seq<u64> {
    merge_spec(pending_commitment_spec(receiver_id, salt, amount), refund_envelope_spec(refund_id, delta))
}

/// The native commitment: `H(H(receiver_id, salt), [amount, 0, 0, 0])`,
/// the amount taken as a field element.
pub fn native_refund_commitment(receiver_id: &Digest, salt: &Digest, amount: u64) -> (r: Digest)
    requires
        all_canonical(receiver_id@),
        all_canonical(salt@),
    ensures
        r@ == pending_commitment_spec(receiver_id@, salt@, reduce(amount as int)),
        all_canonical(r@),
{
    let inner = native_merge(receiver_id, salt);
    native_merge(&inner, &as_digest(felt(amount)))
}

/// The native commitment of the second form:
/// `H(C1(receiver_id, salt, amount), H(refund_id, [delta, 0, 0, 0]))`.
pub fn native_refund_commitment_v2(receiver_id: &Digest, salt: &Digest, amount: u64, refund_id: &Digest, delta: u64) -> (r: Digest)
    requires
        all_canonical(receiver_id@),
        all_canonical(salt@),
        all_canonical(refund_id@),
    ensures
        r@ == refund_commitment_v2_spec(receiver_id@, salt@, reduce(amount as int), refund_id@, reduce(delta as int)),
        all_canonical(r@),
{
    let c1 = native_refund_commitment(receiver_id, salt, amount);
    let x = native_merge(refund_id, &as_digest(felt(delta)));
    native_merge(&c1, &x)
}

/// The links of the lane: the second compression absorbs the amount.
pub open spec fn refund_links(amount: u64) -> Seq<Link> {
    seq![Link::Place { other: digest_arr(reduce(amount as int)), right: false }]
}

/// The value of the trace at column `col` and row `r`.
pub open spec fn cell_spec(receiver_id: Digest, salt: Digest, amount: u64, col: int, r: int) -> u64 {
    lane_value(merge_state(receiver_id@, salt@), refund_links(amount), col, r)
}

/// Builds the trace of the opening: two chained permutations.
pub fn build_trace(receiver_id: &Digest, salt: &Digest, amount: u64) -> (cols: Vec<Vec<u64>>)
    requires
        all_canonical(receiver_id@),
        all_canonical(salt@),
    ensures
        cols.len() == TRACE_WIDTH,
        columns_shape(cols@, TRACE_LENGTH as nat),
        forall|col: int, r: int|
            0 <= col < TRACE_WIDTH && 0 <= r < TRACE_LENGTH ==> #[trigger] cols[col][r] == cell_spec(
                *receiver_id,
                *salt,
                amount,
                col,
                r,
            ),
        forall|r: int, k: int|
            0 <= r < TRACE_LENGTH - 1 && 0 <= k < NUM_CONSTRAINTS ==> #[trigger] constraint_spec(
                k,
                row_of(cols@, r),
                row_of(cols@, r + 1),
                periodic_row(r),
            ) == 0,
{
    let s0 = merge_state_of(receiver_id, salt);
    let links = vec![Link::Place { other: as_digest(felt(amount)), right: false }];
    assert(links@ =~= refund_links(amount));
    let cols = program_columns(&s0, &links, TRACE_LENGTH);
    proof {
        assert forall|r: int, k: int|
            0 <= r < TRACE_LENGTH - 1 && 0 <= k < NUM_CONSTRAINTS implies #[trigger] constraint_spec(
            k,
            row_of(cols@, r),
            row_of(cols@, r + 1),
            periodic_row(r),
        ) == 0 by {
            lemma_trace_satisfies_constraints(*receiver_id, *salt, amount, cols@, r);
        }
    }
    cols
}

/// The trace ends on the commitment, and the amount sits where the
/// assertion looks for it.
pub proof fn lemma_trace_landmarks(receiver_id: Digest, salt: Digest, amount: u64)
    ensures
        forall|i: int| 0 <= i < 4 ==> #[trigger] cell_spec(receiver_id, salt, amount, 4 + i, ROW_P as int)
            == pending_commitment_spec(receiver_id@, salt@, reduce(amount as int))[i],
        cell_spec(receiver_id, salt, amount, 8, ROW_AMOUNT as int) == reduce(amount as int),
        forall|i: int| 9 <= i < 12 ==> #[trigger] cell_spec(receiver_id, salt, amount, i, ROW_AMOUNT as int) == 0,
{
    let s0 = merge_state(receiver_id@, salt@);
    let l = refund_links(amount);
    lemma_digest_arr(reduce(amount as int));
    lemma_append_link(s0, l, 0, digest_arr(reduce(amount as int)));
    lemma_lane_digest_row(s0, l, 1);
    assert(ROW_AMOUNT as int / 8 == 1 && ROW_AMOUNT as int % 8 == 0);
    assert(crate::lane::lane_state(s0, l, 1, 0) == crate::lane::cycle_start(s0, l, 1));
}


/// The link constraints hold on the trace: after the link row (row 7) the
/// capacity is back to zero and elements 4..8 carry the digest of the
/// first compression. (The round constraints are about the Rescue round
/// itself, which the library names and does not state.)
pub proof fn lemma_link_constraints_hold(receiver_id: Digest, salt: Digest, amount: u64)
    ensures
        forall|i: int| 0 <= i < 4 ==> #[trigger] cell_spec(receiver_id, salt, amount, i, 8) == 0,
        forall|i: int| 0 <= i < 4 ==> #[trigger] cell_spec(receiver_id, salt, amount, 4 + i, 8) == cell_spec(
            receiver_id,
            salt,
            amount,
            4 + i,
            7,
        ),
{
    let s0 = merge_state(receiver_id@, salt@);
    let l = refund_links(amount);
    lemma_digest_arr(reduce(amount as int));
    lemma_lane_digest_row(s0, l, 0);
    let d = crate::lane::cycle_digest(s0, l, 0);
    assert(crate::lane::cycle_start(s0, l, 1) == merge_state(d, digest_arr(reduce(amount as int))@));
    assert(crate::lane::lane_state(s0, l, 1, 0) == crate::lane::cycle_start(s0, l, 1));
    assert(8int / 8 == 1 && 8int % 8 == 0);
    assert(7int / 8 == 0 && 7int % 8 == 7);
}

/// The public inputs: the commitment opened and the amount it binds.
#[derive(Clone, Debug, PartialEq, Eq)]
pub struct RefundPublicInputs {
    pub commitment: Digest,
    pub amount: u64,
}

impl RefundPublicInputs {
    /// The commitment, then the amount.
    pub fn to_elements(&self) -> (r: Vec<u64>)
        ensures
            r@ == self.commitment@ + seq![self.amount],
    {
        let r = vec![self.commitment[0], self.commitment[1], self.commitment[2], self.commitment[3], self.amount];
        assert(r@ =~= self.commitment@ + seq![self.amount]);
        r
    }
}

/// The public inputs a trace shows: the last row and the amount row.
pub fn public_inputs_of(trace: &Vec<Vec<u64>>) -> (pi: RefundPublicInputs)
    requires
        trace.len() == TRACE_WIDTH,
        columns_shape(trace@, TRACE_LENGTH as nat),
    ensures
        forall|i: int| 0 <= i < 4 ==> #[trigger] pi.commitment[i] == trace[4 + i][ROW_P as int],
        pi.amount == trace[8][ROW_AMOUNT as int],
{
    RefundPublicInputs {
        commitment: [trace[4][ROW_P], trace[5][ROW_P], trace[6][ROW_P], trace[7][ROW_P]],
        amount: trace[8][ROW_AMOUNT],
    }
}

/// The value of periodic column `j` at row `r` of its eight-row cycle:
/// the round flag and the round constants.
pub open spec fn periodic_spec(j: int, r: int) -> u64 {
    if j == 0 {
        hash_flag_spec(8, r)
    } else if j < 13 {
        ark_spec(false, j - 1, 8, r)
    } else {
        ark_spec(true, j - 13, 8, r)
    }
}

/// The 25 periodic columns, one cycle long.
pub fn periodic_columns() -> (cols: Vec<Vec<u64>>)
    ensures
        cols.len() == 25,
        forall|j: int| 0 <= j < 25 ==> (#[trigger] cols[j]).len() == CYCLE_LENGTH,
        forall|j: int, r: int| 0 <= j < 25 && 0 <= r < CYCLE_LENGTH ==> #[trigger] cols[j][r] == periodic_spec(j, r),
        forall|j: int| 0 <= j < 25 ==> all_canonical(#[trigger] cols[j]@),
{
    round_columns(CYCLE_LENGTH, CYCLE_LENGTH)
}

/// The 12 boundary assertions: clean capacity on the first row, the
/// public amount and its three zeros on the amount row, the commitment
/// on the last row. The receiver and the salt stay free: they are the
/// witness.
pub open spec fn assertions_spec(pi: RefundPublicInputs) -> Seq<(usize, usize, u64)> {
    let z = seq![0u64, 0u64, 0u64, 0u64];
    run(4, 0, 0, z) + run(1, 8, ROW_AMOUNT, seq![pi.amount]) + run(3, 9, ROW_AMOUNT, z) + run(4, 4, ROW_P, pi.commitment@)
}

/// The boundary assertions of an opening.
pub fn assertions(pi: &RefundPublicInputs) -> (a: Vec<(usize, usize, u64)>)
    ensures
        a@ == assertions_spec(*pi),
        a.len() == 12,
{
    let z = vec![0u64, 0, 0, 0];
    let amount = vec![pi.amount];
    let commitment = vec![pi.commitment[0], pi.commitment[1], pi.commitment[2], pi.commitment[3]];
    assert(z@ =~= seq![0u64, 0u64, 0u64, 0u64]);
    assert(amount@ =~= seq![pi.amount]);
    assert(commitment@ =~= pi.commitment@);
    let mut a: Vec<(usize, usize, u64)> = Vec::new();
    push_run(&mut a, 4, 0, 0, &z);
    push_run(&mut a, 1, 8, ROW_AMOUNT, &amount);
    push_run(&mut a, 3, 9, ROW_AMOUNT, &z);
    push_run(&mut a, 4, 4, ROW_P, &commitment);
    a
}


/// The opening proves knowledge of exactly what a send inserts: for the
/// same receiver identity, salt and amount, the last row of the opening
/// holds the commitment that the send places in the pending tree.
pub proof fn lemma_opens_the_sent_commitment(inp: crate::circuit_send::SendInputs)
    requires
        crate::circuit_send::inputs_ok(inp),
    ensures
        forall|i: int| 0 <= i < 4 ==> #[trigger] cell_spec(inp.receiver_id, inp.salt, inp.amount, 4 + i, ROW_P as int)
            == crate::circuit_send::cell_spec(inp, 16 + i, crate::circuit_send::ROW_PENDING_ENTRY as int),
{
    lemma_trace_landmarks(inp.receiver_id, inp.salt, inp.amount);
    crate::circuit_send::lemma_trace_landmarks(inp);
}


/// The number of transition constraints.
pub const NUM_CONSTRAINTS: usize = 20;

/// The residuals of constraints 12..=19.
#[verifier::opaque]
pub open spec fn residuals_0(cur: Seq<u64>, nxt: Seq<u64>, per: Seq<u64>) -> Seq<u64> {
    seq![
        mul_spec(sub_spec(1u64, per[0]), nxt[0]),
        mul_spec(sub_spec(1u64, per[0]), nxt[1]),
        mul_spec(sub_spec(1u64, per[0]), nxt[2]),
        mul_spec(sub_spec(1u64, per[0]), nxt[3]),
        mul_spec(sub_spec(1u64, per[0]), sub_spec(nxt[4], cur[4])),
        mul_spec(sub_spec(1u64, per[0]), sub_spec(nxt[5], cur[5])),
        mul_spec(sub_spec(1u64, per[0]), sub_spec(nxt[6], cur[6])),
        mul_spec(sub_spec(1u64, per[0]), sub_spec(nxt[7], cur[7])),
    ]
}

fn residuals_0_eval(cur: &Vec<u64>, nxt: &Vec<u64>, per: &Vec<u64>) -> (r: Vec<u64>)
    requires
        cur.len() == TRACE_WIDTH,
        nxt.len() == TRACE_WIDTH,
        per.len() == 25,
        all_canonical(cur@),
        all_canonical(nxt@),
        all_canonical(per@),
    ensures
        r@ == residuals_0(cur@, nxt@, per@),
        r.len() == 8,
{
    let r = vec![
        fmul(fsub(1u64, per[0]), nxt[0]),
        fmul(fsub(1u64, per[0]), nxt[1]),
        fmul(fsub(1u64, per[0]), nxt[2]),
        fmul(fsub(1u64, per[0]), nxt[3]),
        fmul(fsub(1u64, per[0]), fsub(nxt[4], cur[4])),
        fmul(fsub(1u64, per[0]), fsub(nxt[5], cur[5])),
        fmul(fsub(1u64, per[0]), fsub(nxt[6], cur[6])),
        fmul(fsub(1u64, per[0]), fsub(nxt[7], cur[7])),
    ];
    proof {
        reveal(residuals_0);
    }
    assert(r@ =~= residuals_0(cur@, nxt@, per@));
    r
}

/// The residuals of all transition constraints of a step, in the order of
/// their indices: the rounds of the hash lane, then the rest.
pub open spec fn residuals(cur: Seq<u64>, nxt: Seq<u64>, per: Seq<u64>) -> Seq<u64> {
    round_residuals_spec(cur, nxt, per, 0, 0, 1, 13)
        + residuals_0(cur, nxt, per)
}

/// Constraint `k` of a step, over the current row, the next row and the
/// periodic values.
pub open spec fn constraint_spec(k: int, current: Seq<u64>, next: Seq<u64>, periodic: Seq<u64>) -> u64 {
    residuals(current, next, periodic)[k]
}

/// Evaluates the transition constraints of a step over the base field: a
/// step satisfies the AIR when every residual is zero.
pub fn evaluate_transition(current: &Vec<u64>, next: &Vec<u64>, periodic: &Vec<u64>) -> (result: Vec<u64>)
    requires
        current.len() == TRACE_WIDTH,
        next.len() == TRACE_WIDTH,
        periodic.len() == 25,
        all_canonical(current@),
        all_canonical(next@),
        all_canonical(periodic@),
    ensures
        result.len() == NUM_CONSTRAINTS,
        forall|k: int| 0 <= k < NUM_CONSTRAINTS ==> #[trigger] result[k] == constraint_spec(k, current@, next@, periodic@),
{
    let mut r = round_residuals(current, next, periodic, 0, 0, 1, 13);

    let mut p0 = residuals_0_eval(current, next, periodic);
    r.append(&mut p0);
    assert(r@ =~= residuals(current@, next@, periodic@));
    r
}




/// The periodic values of step `r`: the columns repeat every cycle.
pub open spec fn periodic_row(r: int) -> Seq<u64> {
    Seq::new(25, |j: int| periodic_spec(j, r % 8))
}

/// Every step of an opening's trace satisfies every transition constraint:
/// the round rows meet the Rescue round, and the link row resets the
/// capacity and carries the digest.
pub proof fn lemma_trace_satisfies_constraints(receiver_id: Digest, salt: Digest, amount: u64, t: Seq<Vec<u64>>, r: int)
    requires
        t.len() == TRACE_WIDTH,
        forall|col: int, q: int|
            0 <= col < TRACE_WIDTH && 0 <= q < TRACE_LENGTH ==> #[trigger] t[col][q] == cell_spec(receiver_id, salt, amount, col, q),
        forall|c: nat| c <= 1 ==> #[trigger] rounds_hold(cycle_start(merge_state(receiver_id@, salt@), refund_links(amount), c)),
        0 <= r < TRACE_LENGTH - 1,
    ensures
        forall|k: int| 0 <= k < NUM_CONSTRAINTS ==> #[trigger] constraint_spec(k, row_of(t, r), row_of(t, r + 1), periodic_row(r)) == 0,
{
    let cur = row_of(t, r);
    let nxt = row_of(t, r + 1);
    let per = periodic_row(r);
    let s0 = merge_state(receiver_id@, salt@);
    let l = refund_links(amount);
    let c = r / 8;
    let k = r % 8;
    vstd::arithmetic::div_mod::lemma_small_mod(0, MODULUS as nat);
    vstd::arithmetic::div_mod::lemma_small_mod(1, MODULUS as nat);
    if k < 7 {
        assert(per[0] == 1);
        assert(rounds_hold(cycle_start(s0, l, c as nat)));
        assert forall|j: int| 0 <= j < 12 implies #[trigger] cur[0 + j] == crate::rescue::rounds(cycle_start(s0, l, c as nat), k as nat)[j] by {
            assert(cur[j] == t[j][r]);
        }
        assert forall|j: int| 0 <= j < 12 implies #[trigger] nxt[0 + j] == crate::rescue::rescue_round_result(crate::rescue::rounds(cycle_start(s0, l, c as nat), k as nat), k as nat)[j] by {
            assert(nxt[j] == t[j][r + 1]);
            assert((r + 1) / 8 == c && (r + 1) % 8 == k + 1);
        }
        assert forall|j: int| 0 <= j < 12 implies #[trigger] per[1 + j] == crate::rescue::rescue_ark1(k as nat, j as nat) by {
            assert(per[1 + j] == periodic_spec(1 + j, k));
        }
        assert forall|j: int| 0 <= j < 12 implies #[trigger] per[13 + j] == crate::rescue::rescue_ark2(k as nat, j as nat) by {
            assert(per[13 + j] == periodic_spec(13 + j, k));
        }
        lemma_round_residuals_vanish(cur, nxt, per, 0, 0, 1, 13, cycle_start(s0, l, c as nat), k as nat);
        assert(sub_spec(1u64, per[0]) == 0);
        assert forall|x: u64| #[trigger] mul_spec(0u64, x) == 0 by {
            assert(0u64 * x == 0);
        }
    } else {
        assert(r == 7);
        assert(per[0] == 0);
        lemma_round_residuals_idle(cur, nxt, per, 0, 0, 1, 13);
        lemma_link_constraints_hold(receiver_id, salt, amount);
        assert forall|i: int| 0 <= i < 4 implies #[trigger] nxt[i] == 0 && nxt[4 + i] == cur[4 + i] by {
            assert(nxt[i] == t[i][8]);
            assert(nxt[4 + i] == t[4 + i][8]);
            assert(cur[4 + i] == t[4 + i][7]);
        }
        assert(sub_spec(1u64, per[0]) == 1);
        assert(1u64 * 0u64 == 0);
    }
    reveal(residuals_0);
    assert forall|k: int| 0 <= k < NUM_CONSTRAINTS implies #[trigger] constraint_spec(k, cur, nxt, per) == 0 by {
        if k < 12 {
            assert(constraint_spec(k, cur, nxt, per) == crate::constraints::round_residual(cur, nxt, per, 0, 0, 1, 13, k));
        }
    }
}

} // verus!
