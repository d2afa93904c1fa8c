//! Authorisation by ONE custodian, as a proof of its own: the identity of
//! the key climbs the custodian set, and the index declared public is the
//! position the path proves. The two authorisations of a two-of-N are then
//! checked to come from different indices outside the circuit.
//!
//! Columns: 0..12 the hash lane, 12 the direction bit, 13 the key, 14 the
//! declared index, 15 the index accumulator.

use vstd::prelude::*;
use crate::circuit_threshold::{lane_cell, lane_root_spec, lane_start_spec, path_ok, periodic_spec as pair_periodic_spec, threshold_lane, CustodianPath, CUSTODIAN_DEPTH, ROW_ROOT};
use crate::domains::CUSTODIAN_DOMAIN;
use crate::constraints::{rounds_hold, round_residuals, round_residuals_spec};
use crate::field::{MODULUS, add_spec, all_canonical, fadd, felt, fmul, fsub, mul_spec, reduce, sub_spec};
use crate::periodic::{bits_value, index_acc_column, levels_done, point_column, point_spec, round_columns, selector_column};
use crate::rescue::{as_digest_spec, digest_of, lemma_digest_row, merge_state, rounds, Digest};
use crate::merkle::{climb_spec, climb_step, place_state, sibling_seqs};
use vstd::arithmetic::power2::pow2;
use crate::trace::{row_of, columns_shape, constant_column, cycle_bit_column, cycle_bit_spec, lane_columns};

verus! {

pub const TRACE_LENGTH: usize = 64;
pub const COL_BIT: usize = 12;
pub const COL_KEY: usize = 13;
pub const COL_IDX: usize = 14;
pub const COL_ACC: usize = 15;
pub const TRACE_WIDTH: usize = 16;

/// The value of the trace at column `col` and row `r`.
pub open spec fn cell_spec(key: u64, index: u64, path: CustodianPath, col: int, r: int) -> u64 {
    if col < 12 {
        lane_cell(key, path, col, r)
    } else if col == COL_BIT {
        cycle_bit_spec(path.is_right@.subrange(0, 4), 1, r)
    } else if col == COL_KEY {
        key
    } else if col == COL_IDX {
        reduce(index as int)
    } else {
        reduce(bits_value(path.is_right@, levels_done(r, 4) as nat))
    }
}

/// Builds the trace of one custodian's authorisation. The declared index
/// is written as given: a trace that claims another custodian's index is
/// built just the same, and the accumulator constraint rejects it.
pub fn build_trace(key: u64, index: u64, path: &CustodianPath) -> (cols: Vec<Vec<u64>>)
    requires
        key < MODULUS,
        path_ok(*path),
    ensures
        cols.len() == TRACE_WIDTH,
        columns_shape(cols@, TRACE_LENGTH as nat),
        forall|col: int, r: int|
            0 <= col < TRACE_WIDTH && 0 <= r < TRACE_LENGTH ==> #[trigger] cols[col][r] == cell_spec(
                key,
                index,
                *path,
                col,
                r,
            ),
        forall|r: int, k: int|
            0 <= r < TRACE_LENGTH - 1 && 0 <= k < 12 ==> #[trigger] constraint_spec(
                k,
                row_of(cols@, r),
                row_of(cols@, r + 1),
                periodic_row(r),
            ) == 0,
        reduce(index as int) == reduce(bits_value(path.is_right@, 4)) ==> forall|r: int, k: int|
            0 <= r < TRACE_LENGTH - 1 && 0 <= k < NUM_CONSTRAINTS ==> #[trigger] constraint_spec(
                k,
                row_of(cols@, r),
                row_of(cols@, r + 1),
                periodic_row(r),
            ) == 0,
{
    let lane = threshold_lane(key, path);
    let mut cols = lane_columns(&lane, TRACE_LENGTH);
    let mut bits: Vec<bool> = Vec::new();
    let mut level: usize = 0;
    while level < CUSTODIAN_DEPTH
        invariant
            level <= CUSTODIAN_DEPTH,
            path_ok(*path),
            bits@ =~= path.is_right@.subrange(0, level as int),
        decreases CUSTODIAN_DEPTH - level,
    {
        bits.push(path.is_right[level]);
        level = level + 1;
    }
    cols.push(cycle_bit_column(&bits, 1, TRACE_LENGTH));
    cols.push(constant_column(key, TRACE_LENGTH));
    cols.push(constant_column(felt(index), TRACE_LENGTH));
    cols.push(index_acc_column(&path.is_right, CUSTODIAN_DEPTH, TRACE_LENGTH));
    proof {
        assert forall|r: int, k: int|
            0 <= r < TRACE_LENGTH - 1 && 0 <= k < 12 implies #[trigger] constraint_spec(
            k,
            row_of(cols@, r),
            row_of(cols@, r + 1),
            periodic_row(r),
        ) == 0 by {
            lemma_trace_satisfies_round_constraints(key, index, *path, cols@, r);
        }
    }
    proof {
        if reduce(index as int) == reduce(bits_value(path.is_right@, 4)) {
            assert forall|r: int, k: int|
                0 <= r < TRACE_LENGTH - 1 && 0 <= k < NUM_CONSTRAINTS implies #[trigger] constraint_spec(
                k,
                row_of(cols@, r),
                row_of(cols@, r + 1),
                periodic_row(r),
            ) == 0 by {
                lemma_trace_satisfies_constraints(key, index, *path, cols@, r);
            }
        }
    }
    cols
}

/// The root row of the lane holds the identity climbed up the path, and the
/// accumulator there holds the value of the direction bits.
pub proof fn lemma_trace_landmarks(key: u64, index: u64, path: CustodianPath)
    requires
        path_ok(path),
    ensures
        forall|i: int| 0 <= i < 4 ==> #[trigger] cell_spec(key, index, path, 4 + i, ROW_ROOT as int) == lane_root_spec(key, path)[i],
        cell_spec(key, index, path, COL_ACC as int, ROW_ROOT as int) == reduce(bits_value(path.is_right@, 4)),
{
    crate::circuit_threshold::lemma_trace_landmarks(key, index, path, key, index, path);
    assert forall|i: int| 0 <= i < 4 implies #[trigger] cell_spec(key, index, path, 4 + i, ROW_ROOT as int) == lane_root_spec(key, path)[i] by {
        assert(crate::circuit_threshold::cell_spec(key, index, path, key, index, path, 4 + i, ROW_ROOT as int)
            == lane_root_spec(key, path)[i]);
    }
}

/// The public inputs: the root of the custodian set and the custodian's
/// index, public so that two authorisations can be told apart.
#[derive(Clone, Debug)]
pub struct SingleThresholdPublicInputs {
    pub custodian_set_root: Digest,
    pub custodian_index: u64,
}

impl SingleThresholdPublicInputs {
    pub fn to_elements(&self) -> (r: Vec<u64>)
        ensures
            r@ == self.custodian_set_root@ + seq![self.custodian_index],
    {
        let r = vec![
            self.custodian_set_root[0],
            self.custodian_set_root[1],
            self.custodian_set_root[2],
            self.custodian_set_root[3],
            self.custodian_index,
        ];
        assert(r@ =~= self.custodian_set_root@ + seq![self.custodian_index]);
        r
    }
}

/// The public inputs a trace shows: the root row, and the declared index.
pub fn public_inputs_of(trace: &Vec<Vec<u64>>) -> (pi: SingleThresholdPublicInputs)
    requires
        trace.len() == TRACE_WIDTH,
        columns_shape(trace@, TRACE_LENGTH as nat),
    ensures
        forall|i: int| 0 <= i < 4 ==> #[trigger] pi.custodian_set_root[i] == trace[4 + i][ROW_ROOT as int],
        pi.custodian_index == trace[COL_IDX as int][0],
{
    SingleThresholdPublicInputs {
        custodian_set_root: [trace[4][ROW_ROOT], trace[5][ROW_ROOT], trace[6][ROW_ROOT], trace[7][ROW_ROOT]],
        custodian_index: trace[COL_IDX][0],
    }
}

/// The value of periodic column `j` at row `r`: the round columns, the tree
/// links, their powers of two, the first row and the root row, as in the
/// two-lane circuit.
pub open spec fn periodic_spec(j: int, r: int) -> u64 {
    pair_periodic_spec(j, r)
}

/// The 29 periodic columns.
pub fn periodic_columns() -> (cols: Vec<Vec<u64>>)
    ensures
        cols.len() == 29,
        forall|j: int| 0 <= j < 29 ==> (#[trigger] cols[j]).len() == TRACE_LENGTH,
        forall|j: int, r: int| 0 <= j < 29 && 0 <= r < TRACE_LENGTH ==> #[trigger] cols[j][r] == periodic_spec(j, r),
        forall|j: int| 0 <= j < 29 ==> all_canonical(#[trigger] cols[j]@),
{
    let mut cols = round_columns(ROW_ROOT + 1, TRACE_LENGTH);
    let ghost rounds = cols@;
    let links = vec![(7usize, 1u64), (15usize, 1u64), (23usize, 1u64), (31usize, 1u64)];
    assert(links@ =~= crate::circuit_threshold::tree_link_points());
    cols.push(point_column(&links, TRACE_LENGTH));
    let pows = vec![(7usize, 1u64), (15usize, 2u64), (23usize, 4u64), (31usize, 8u64)];
    assert(pows@ =~= crate::circuit_threshold::pow2_points());
    cols.push(point_column(&pows, TRACE_LENGTH));
    let first = vec![0usize];
    assert(first@ =~= seq![0usize]);
    cols.push(selector_column(&first, TRACE_LENGTH));
    let root = vec![ROW_ROOT];
    assert(root@ =~= seq![ROW_ROOT]);
    cols.push(selector_column(&root, TRACE_LENGTH));
    proof {
        assert forall|j: int| 0 <= j < 29 implies all_canonical(#[trigger] cols[j]@) by {
            assert forall|r: int| 0 <= r < cols[j]@.len() implies #[trigger] cols[j]@[r] < MODULUS by {
                if j < 25 {
                    assert(all_canonical(rounds[j]@));
                    assert(rounds[j][r] == cols[j][r]);
                } else {
                    reveal_with_fuel(point_spec, 5);
                    assert(cols[j][r] == periodic_spec(j, r));
                }
            }
        }
    }
    cols
}

/// Assertion `j`: (column, row, value).
pub open spec fn assertion_spec(pi: SingleThresholdPublicInputs, j: int) -> (usize, usize, u64) {
    if j < 4 {
        (j as usize, 0usize, 0u64)
    } else if j == 4 {
        (4usize, 0usize, CUSTODIAN_DOMAIN)
    } else if j < 8 {
        (j as usize, 0usize, 0u64)
    } else if j == 8 {
        (COL_ACC, 0usize, 0u64)
    } else if j == 9 {
        (COL_IDX, 0usize, pi.custodian_index)
    } else {
        ((4 + j - 10) as usize, ROW_ROOT, pi.custodian_set_root@[j - 10])
    }
}

/// The 14 boundary assertions.
pub fn assertions(pi: &SingleThresholdPublicInputs) -> (a: Vec<(usize, usize, u64)>)
    ensures
        a.len() == 14,
        forall|j: int| 0 <= j < 14 ==> #[trigger] a[j] == assertion_spec(*pi, j),
{
    let mut a: Vec<(usize, usize, u64)> = Vec::new();
    let mut i: usize = 0;
    while i < 4
        invariant
            i <= 4,
            a.len() == i,
            forall|j: int| 0 <= j < a.len() ==> #[trigger] a[j] == assertion_spec(*pi, j),
        decreases 4 - i,
    {
        a.push((i, 0, 0));
        i = i + 1;
    }
    a.push((4, 0, CUSTODIAN_DOMAIN));
    let mut i: usize = 5;
    while i < 8
        invariant
            5 <= i <= 8,
            a.len() == i,
            forall|j: int| 0 <= j < a.len() ==> #[trigger] a[j] == assertion_spec(*pi, j),
        decreases 8 - i,
    {
        a.push((i, 0, 0));
        i = i + 1;
    }
    a.push((COL_ACC, 0, 0));
    a.push((COL_IDX, 0, pi.custodian_index));
    let mut i: usize = 0;
    while i < 4
        invariant
            i <= 4,
            a.len() == 10 + i,
            forall|j: int| 0 <= j < a.len() ==> #[trigger] a[j] == assertion_spec(*pi, j),
        decreases 4 - i,
    {
        a.push((4 + i, ROW_ROOT, pi.custodian_set_root[i]));
        i = i + 1;
    }
    a
}


/// The number of transition constraints.
pub const NUM_CONSTRAINTS: usize = 26;

/// The residuals of constraints 12..=23.
#[verifier::opaque]
pub open spec fn residuals_0(cur: Seq<u64>, nxt: Seq<u64>, per: Seq<u64>) -> Seq<u64> {
    seq![
        mul_spec(per[25], nxt[0]),
        mul_spec(per[25], nxt[1]),
        mul_spec(per[25], nxt[2]),
        mul_spec(per[25], nxt[3]),
        mul_spec(per[25], add_spec(mul_spec(sub_spec(1u64, nxt[12]), sub_spec(nxt[4], cur[4])), mul_spec(nxt[12], sub_spec(nxt[8], cur[4])))),
        mul_spec(per[25], add_spec(mul_spec(sub_spec(1u64, nxt[12]), sub_spec(nxt[5], cur[5])), mul_spec(nxt[12], sub_spec(nxt[9], cur[5])))),
        mul_spec(per[25], add_spec(mul_spec(sub_spec(1u64, nxt[12]), sub_spec(nxt[6], cur[6])), mul_spec(nxt[12], sub_spec(nxt[10], cur[6])))),
        mul_spec(per[25], add_spec(mul_spec(sub_spec(1u64, nxt[12]), sub_spec(nxt[7], cur[7])), mul_spec(nxt[12], sub_spec(nxt[11], cur[7])))),
        mul_spec(cur[12], sub_spec(cur[12], 1u64)),
        mul_spec(per[27], sub_spec(cur[8], cur[13])),
        mul_spec(per[25], sub_spec(nxt[15], add_spec(cur[15], mul_spec(nxt[12], per[26])))),
        mul_spec(per[28], sub_spec(cur[15], cur[14])),
    ]
}

fn residuals_0_eval(cur: &Vec<u64>, nxt: &Vec<u64>, per: &Vec<u64>) -> (r: Vec<u64>)
    requires
        cur.len() == TRACE_WIDTH,
        nxt.len() == TRACE_WIDTH,
        per.len() == 29,
        all_canonical(cur@),
        all_canonical(nxt@),
        all_canonical(per@),
    ensures
        r@ == residuals_0(cur@, nxt@, per@),
        r.len() == 12,
{
    let r = vec![
        fmul(per[25], nxt[0]),
        fmul(per[25], nxt[1]),
        fmul(per[25], nxt[2]),
        fmul(per[25], nxt[3]),
        fmul(per[25], fadd(fmul(fsub(1u64, nxt[12]), fsub(nxt[4], cur[4])), fmul(nxt[12], fsub(nxt[8], cur[4])))),
        fmul(per[25], fadd(fmul(fsub(1u64, nxt[12]), fsub(nxt[5], cur[5])), fmul(nxt[12], fsub(nxt[9], cur[5])))),
        fmul(per[25], fadd(fmul(fsub(1u64, nxt[12]), fsub(nxt[6], cur[6])), fmul(nxt[12], fsub(nxt[10], cur[6])))),
        fmul(per[25], fadd(fmul(fsub(1u64, nxt[12]), fsub(nxt[7], cur[7])), fmul(nxt[12], fsub(nxt[11], cur[7])))),
        fmul(cur[12], fsub(cur[12], 1u64)),
        fmul(per[27], fsub(cur[8], cur[13])),
        fmul(per[25], fsub(nxt[15], fadd(cur[15], fmul(nxt[12], per[26])))),
        fmul(per[28], fsub(cur[15], cur[14])),
    ];
    proof {
        reveal(residuals_0);
    }
    assert(r@ =~= residuals_0(cur@, nxt@, per@));
    r
}

/// The residuals of constraints 24..=25.
#[verifier::opaque]
pub open spec fn residuals_1(cur: Seq<u64>, nxt: Seq<u64>, per: Seq<u64>) -> Seq<u64> {
    seq![
        sub_spec(nxt[13], cur[13]),
        sub_spec(nxt[14], cur[14]),
    ]
}

fn residuals_1_eval(cur: &Vec<u64>, nxt: &Vec<u64>, per: &Vec<u64>) -> (r: Vec<u64>)
    requires
        cur.len() == TRACE_WIDTH,
        nxt.len() == TRACE_WIDTH,
        per.len() == 29,
        all_canonical(cur@),
        all_canonical(nxt@),
        all_canonical(per@),
    ensures
        r@ == residuals_1(cur@, nxt@, per@),
        r.len() == 2,
{
    let r = vec![
        fsub(nxt[13], cur[13]),
        fsub(nxt[14], cur[14]),
    ];
    proof {
        reveal(residuals_1);
    }
    assert(r@ =~= residuals_1(cur@, nxt@, per@));
    r
}

/// The residuals of all transition constraints of a step, in the order of
/// their indices: the rounds of the hash lane, then the rest.
pub open spec fn residuals(cur: Seq<u64>, nxt: Seq<u64>, per: Seq<u64>) -> Seq<u64> {
    round_residuals_spec(cur, nxt, per, 0, 0, 1, 13)
        + residuals_0(cur, nxt, per) + residuals_1(cur, nxt, per)
}

/// Constraint `k` of a step, over the current row, the next row and the
/// periodic values.
pub open spec fn constraint_spec(k: int, current: Seq<u64>, next: Seq<u64>, periodic: Seq<u64>) -> u64 {
    residuals(current, next, periodic)[k]
}

/// Evaluates the transition constraints of a step over the base field: a
/// step satisfies the AIR when every residual is zero.
pub fn evaluate_transition(current: &Vec<u64>, next: &Vec<u64>, periodic: &Vec<u64>) -> (result: Vec<u64>)
    requires
        current.len() == TRACE_WIDTH,
        next.len() == TRACE_WIDTH,
        periodic.len() == 29,
        all_canonical(current@),
        all_canonical(next@),
        all_canonical(periodic@),
    ensures
        result.len() == NUM_CONSTRAINTS,
        forall|k: int| 0 <= k < NUM_CONSTRAINTS ==> #[trigger] result[k] == constraint_spec(k, current@, next@, periodic@),
{
    let mut r = round_residuals(current, next, periodic, 0, 0, 1, 13);

    let mut p0 = residuals_0_eval(current, next, periodic);
    r.append(&mut p0);
    let mut p1 = residuals_1_eval(current, next, periodic);
    r.append(&mut p1);
    assert(r@ =~= residuals(current@, next@, periodic@));
    r
}





/// The periodic values of step `r`.
pub open spec fn periodic_row(r: int) -> Seq<u64> {
    Seq::new(29, |j: int| periodic_spec(j, r))
}

/// Every step of the trace satisfies the round constraints of the hash
/// lanes (constraints 0..12): on a round row a lane goes from one round
/// of its permutation to the next, with that round's constants in the
/// periodic values; elsewhere the round flag is off.
pub proof fn lemma_trace_satisfies_round_constraints(key: u64, index: u64, path: CustodianPath, t: Seq<Vec<u64>>, r: int)
    requires
        t.len() == TRACE_WIDTH,
        forall|col: int, q: int|
            0 <= col < TRACE_WIDTH && 0 <= q < TRACE_LENGTH ==> #[trigger] t[col][q] == cell_spec(key, index, path, col, q),
        forall|c: int| 0 <= c <= CUSTODIAN_DEPTH ==> #[trigger] rounds_hold(lane_start_spec(key, path, c)),
        0 <= r < TRACE_LENGTH - 1,
    ensures
        forall|k: int| 0 <= k < 12 ==> #[trigger] constraint_spec(k, row_of(t, r), row_of(t, r + 1), periodic_row(r)) == 0,
{
    let cur = row_of(t, r);
    let nxt = row_of(t, r + 1);
    let per = periodic_row(r);
    let active = ROW_ROOT as int + 1;
    assert(per[0] == crate::periodic::hash_flag_spec(active, r));
    assert forall|j: int| 0 <= j < 12 implies #[trigger] per[1 + j] == crate::periodic::ark_spec(false, j, active, r) by {
        assert(per[1 + j] == periodic_spec(1 + j, r));
    }
    assert forall|j: int| 0 <= j < 12 implies #[trigger] per[13 + j] == crate::periodic::ark_spec(true, j, active, r) by {
        assert(per[13 + j] == periodic_spec(13 + j, r));
    }
    if r < active && r % 8 < 7 {
        assert((r + 1) / 8 == r / 8 && (r + 1) % 8 == r % 8 + 1);
        assert(rounds_hold(lane_start_spec(key, path, r / 8)));
        assert forall|j: int| 0 <= j < 12 implies #[trigger] cur[0 + j] == rounds(lane_start_spec(key, path, r / 8), (r % 8) as nat)[j] by {
            assert(cur[0 + j] == t[0 + j][r]);
            assert(t[0 + j][r] == lane_cell(key, path, j, r));
        }
        assert forall|j: int| 0 <= j < 12 implies #[trigger] nxt[0 + j] == rounds(lane_start_spec(key, path, r / 8), (r % 8 + 1) as nat)[j] by {
            assert(nxt[0 + j] == t[0 + j][r + 1]);
            assert(t[0 + j][r + 1] == lane_cell(key, path, j, (r + 1)));
        }
    }
    crate::lane::lemma_rounds_round_residuals(cur, nxt, per, 0, 0, 1, 13, lane_start_spec(key, path, r / 8), active, r);
    assert forall|k: int| 0 <= k < 12 implies #[trigger] constraint_spec(k, cur, nxt, per) == 0 by {
        assert(constraint_spec(k, cur, nxt, per) == crate::constraints::round_residual(cur, nxt, per, 0, 0, 1, 13, k));
    }
}


/// Every step of a membership trace satisfies every transition constraint,
/// when the declared index is the position the path proves: the round rows
/// meet the Rescue round (constraints 0..12); on each link row the next
/// cycle starts from the node climbed so far placed next to its sibling, on
/// the side the direction bit says, and the index accumulator takes that
/// bit's weight; the direction bits are bits; the key enters the identity
/// on the first row; the accumulator ends on the declared index; and the
/// key and the index stay constant.
#[verifier::spinoff_prover]
#[verifier::rlimit(80)]
pub proof fn lemma_trace_satisfies_constraints(key: u64, index: u64, path: CustodianPath, t: Seq<Vec<u64>>, r: int)
    requires
        t.len() == TRACE_WIDTH,
        forall|col: int, q: int|
            0 <= col < TRACE_WIDTH && 0 <= q < TRACE_LENGTH ==> #[trigger] t[col][q] == cell_spec(key, index, path, col, q),
        forall|c: int| 0 <= c <= CUSTODIAN_DEPTH ==> #[trigger] rounds_hold(lane_start_spec(key, path, c)),
        path_ok(path),
        reduce(index as int) == reduce(bits_value(path.is_right@, 4)),
        0 <= r < TRACE_LENGTH - 1,
    ensures
        forall|k: int| 0 <= k < NUM_CONSTRAINTS ==> #[trigger] constraint_spec(k, row_of(t, r), row_of(t, r + 1), periodic_row(r)) == 0,
{
    lemma_trace_satisfies_round_constraints(key, index, path, t, r);
    let cur = row_of(t, r);
    let nxt = row_of(t, r + 1);
    let per = periodic_row(r);
    let p: nat = MODULUS as nat;
    let bits = path.is_right@;
    let sibs = sibling_seqs(path.siblings@);
    vstd::arithmetic::div_mod::lemma_small_mod(0, p);
    vstd::arithmetic::div_mod::lemma_small_mod(1, p);
    vstd::arithmetic::power2::lemma2_to64();
    assert forall|x: u64| #[trigger] mul_spec(0u64, x) == 0 by {
        assert(0u64 * x == 0);
    }
    assert(mul_spec(1u64, 0u64) == 0) by {
        assert(1u64 * 0u64 == 0);
    }
    assert forall|x: u64| #[trigger] sub_spec(x, x) == 0 by {}
    assert forall|c: int| 0 <= c < TRACE_WIDTH implies #[trigger] cur[c] == t[c][r] && nxt[c] == t[c][r + 1] by {}
    reveal_with_fuel(crate::periodic::point_spec, 5);
    let link = r == 7 || r == 15 || r == 23 || r == 31;
    assert(per[25] == crate::periodic::point_spec(crate::circuit_threshold::tree_link_points(), r));
    assert(per[26] == crate::periodic::point_spec(crate::circuit_threshold::pow2_points(), r));
    assert(per[25] == if link { 1u64 } else { 0u64 });
    let s0: Seq<usize> = seq![0usize];
    let s39: Seq<usize> = seq![39usize];
    assert(per[27] == crate::periodic::selector_spec(s0, r));
    assert(per[28] == crate::periodic::selector_spec(s39, r));
    if r == 0 {
        assert(s0[0] == 0);
    }
    if r == 39 {
        assert(s39[0] == 39);
    }
    assert(per[27] == if r == 0 { 1u64 } else { 0u64 });
    assert(per[28] == if r == 39 { 1u64 } else { 0u64 });
    // The direction bit is a bit.
    assert(cur[12] == 0 || cur[12] == 1);
    assert(mul_spec(cur[12], sub_spec(cur[12], 1u64)) == 0) by {
        if cur[12] == 1 {
            assert(sub_spec(1u64, 1u64) == 0);
        } else {
            assert(0u64 * sub_spec(cur[12], 1u64) == 0);
        }
    }
    // The key enters on the first row.
    if r == 0 {
        assert(cur[8] == rounds(lane_start_spec(key, path, 0), 0)[8]);
        assert(cur[8] == key);
        assert(cur[13] == key);
    }
    // The accumulator ends on the index.
    reveal_with_fuel(bits_value, 5);
    assert(0 <= bits_value(bits, 4) < 16);
    vstd::arithmetic::div_mod::lemma_small_mod(bits_value(bits, 4) as nat, p);
    if r == 39 {
        assert(cur[15] == reduce(bits_value(bits, levels_done(39, 4) as nat)));
        assert(cur[14] == reduce(index as int));
    }
    if link {
        let c = r / 8;
        assert(0 <= c < 4 && r == 8 * c + 7);
        assert((r + 1) / 8 == c + 1 && (r + 1) % 8 == 0);
        let d = climb_spec(digest_of(merge_state(as_digest_spec(CUSTODIAN_DOMAIN), as_digest_spec(key))), sibs, bits, c as nat);
        let next_start = lane_start_spec(key, path, c + 1);
        assert(next_start == place_state(d, sibs[c], bits[c]));
        // The node climbed so far is the digest of the cycle.
        let start = lane_start_spec(key, path, c);
        lemma_digest_row(start);
        assert(digest_of(start) == d) by {
            if c > 0 {
                assert(digest_of(start) == climb_step(
                    climb_spec(digest_of(merge_state(as_digest_spec(CUSTODIAN_DOMAIN), as_digest_spec(key))), sibs, bits, (c - 1) as nat),
                    sibs[c - 1],
                    bits[c - 1],
                ));
            }
        }
        assert(sibs[c].len() == 4);
        assert(d.len() == 4);
        assert forall|i: int| 0 <= i < 4 implies #[trigger] cur[4 + i] == d[i] by {
            assert(cur[4 + i] == rounds(start, 7)[4 + i]);
        }
        assert forall|i: int| 0 <= i < 12 implies #[trigger] nxt[i] == next_start[i] by {
            assert(nxt[i] == rounds(next_start, 0)[i]);
        }
        assert(nxt[12] == if bits[c] { 1u64 } else { 0u64 });
        assert forall|i: int| 0 <= i < 4 implies #[trigger] nxt[i] == 0 by {}
        assert forall|i: int| 0 <= i < 4 implies (bits[c] ==> #[trigger] nxt[8 + i] == cur[4 + i]) && (!bits[c] ==> nxt[4 + i] == cur[4 + i]) by {}
        // The accumulator takes the bit's weight.
        assert(cur[15] == reduce(bits_value(bits, c as nat)));
        assert(nxt[15] == reduce(bits_value(bits, (c + 1) as nat)));
        assert(per[26] == pow2(c as nat));
        assert(0 <= bits_value(bits, c as nat) < 16);
        assert(0 <= bits_value(bits, (c + 1) as nat) < 16);
        vstd::arithmetic::div_mod::lemma_small_mod(bits_value(bits, c as nat) as nat, p);
        vstd::arithmetic::div_mod::lemma_small_mod(bits_value(bits, (c + 1) as nat) as nat, p);
        vstd::arithmetic::div_mod::lemma_small_mod(pow2(c as nat), p);
        vstd::arithmetic::div_mod::lemma_small_mod((bits_value(bits, c as nat) + pow2(c as nat)) as nat, p);
        assert(mul_spec(nxt[12], per[26]) == if bits[c] { pow2(c as nat) as u64 } else { 0u64 }) by {
            if bits[c] {
                assert(1u64 * per[26] == per[26]);
            } else {
                assert(0u64 * per[26] == 0);
            }
        }
        assert(sub_spec(nxt[15], add_spec(cur[15], mul_spec(nxt[12], per[26]))) == 0);
        if bits[c] {
            assert(sub_spec(1u64, nxt[12]) == 0);
            assert(1u64 * 0u64 == 0);
        } else {
            assert(sub_spec(1u64, nxt[12]) == 1);
            assert(1u64 * 0u64 == 0);
        }
    }
    reveal(residuals_0);
    reveal(residuals_1);
    assert forall|k: int| 12 <= k < NUM_CONSTRAINTS implies #[trigger] constraint_spec(k, cur, nxt, per) == 0 by {
        if k < 24 {
            assert(constraint_spec(k, cur, nxt, per) == residuals_0(cur, nxt, per)[k - 12]);
        } else {
            assert(constraint_spec(k, cur, nxt, per) == residuals_1(cur, nxt, per)[k - 24]);
        }
    }
}

} // verus!
