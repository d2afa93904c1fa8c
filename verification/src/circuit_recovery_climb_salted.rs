//! The account phase of a recovery, on its own: the old leaf and the new
//! leaf, climbed in two lanes along the same path. The custodians'
//! authorisation comes in two separate proofs that the caller requires.
//!
//! What this proof still shows: the balance does not change (both lanes
//! build their leaf from the same balance column, range-checked), the
//! nonce goes up by one, and the recovery counter goes up by one.

use vstd::prelude::*;
use crate::boundary::{pairs, push_pairs, push_run, run};
use crate::circuit_settlement::{leaf_spec, path_ok, root_of};
use crate::constraints::{lemma_equal, lemma_reduce_canonical, lemma_selected, lemma_selected_equal, rounds_hold, round_residuals, round_residuals_spec};
use crate::field::{MODULUS, add_spec, all_canonical, fadd, felt, fmul, fsub, mul_spec, reduce, sub_spec};
use crate::lane::{cycle_start, cycle_digest, lane_value, lemma_append_link, lemma_lane_digest_row, link_start, program_columns, Link};
use crate::merkle::{climb_links, lemma_links_climb, push_climb_links, MerklePath};
use crate::periodic::{
    ark_spec, continue_column, continue_spec, cycle_end_rows, hash_flag_spec, push_cycle_end_rows, push_row_selector,
    round_columns, selector_column, selector_spec,
};
use crate::prime::lemma_field_bit;
use crate::rescue::{as_digest, as_digest_spec, digest_arr, lemma_digest_arr, merge_state, merge_state_of, Digest};
use crate::solvency::{lemma_accepted_segment, seg_acc, seg_bit, segment_columns};
use crate::trace::{lemma_column_kept, row_of, columns_shape, constant_column, cycle_bit_column, cycle_bit_spec, prefix_bits};

verus! {

pub const TRACE_LENGTH: usize = 512;
pub const SEGMENT_LENGTH: usize = 64;
/// One segment: the balance.
pub const NUM_SEGMENTS: usize = 1;

pub const COL_BIT_A: usize = 24;
pub const COL_ID_OLD: usize = 25;
pub const COL_ID_NEW: usize = 29;
pub const COL_BAL: usize = 33;
pub const COL_NONCE: usize = 34;
pub const COL_COUNT_OLD: usize = 35;
pub const COL_COUNT_NEW: usize = 36;
pub const COL_SBIT: usize = 37;
pub const COL_SACC: usize = 38;
pub const TRACE_WIDTH: usize = 39;

pub const ROW_LEAF_LINK: usize = 7;
pub const ROW_LEAF_DONE: usize = 15;
/// The row where the state holds both roots.
pub const ROW_ACCT_ROOT: usize = 271;

/// Everything a recovery climb is built from.
pub struct RecoveryClimbInputs {
    pub id_old: Digest,
    pub id_new: Digest,
    pub balance: u64,
    pub balance_new: u64,
    pub nonce: u64,
    pub path: MerklePath,
    pub count_old: u64,
    pub count_delta: u64,
}

pub open spec fn inputs_ok(inp: RecoveryClimbInputs) -> bool {
    &&& all_canonical(inp.id_old@)
    &&& all_canonical(inp.id_new@)
    &&& inp.nonce < MODULUS
    &&& path_ok(inp.path, 32)
}

/// The links of a lane: the nonce, then the climb.
pub open spec fn climb_lane_links(nonce: u64, path: MerklePath) -> Seq<Link> {
    seq![Link::Place { other: digest_arr(nonce), right: false }] + climb_links(path.siblings@, path.is_right@, 0, 32)
}

pub open spec fn lane_links(inp: RecoveryClimbInputs, new: bool) -> Seq<Link> {
    climb_lane_links(if new { add_spec(inp.nonce, 1) } else { inp.nonce }, inp.path)
}

pub open spec fn lane_start(inp: RecoveryClimbInputs, new: bool) -> Seq<u64> {
    if new {
        merge_state(inp.id_new@, as_digest_spec(reduce(inp.balance_new as int)))
    } else {
        merge_state(inp.id_old@, as_digest_spec(reduce(inp.balance as int)))
    }
}

/// The value of the trace at column `col` and row `r`.
pub open spec fn cell_spec(inp: RecoveryClimbInputs, col: int, r: int) -> u64 {
    let bal = reduce(inp.balance as int);
    if col < 12 {
        lane_value(lane_start(inp, false), lane_links(inp, false), col, r)
    } else if col < 24 {
        lane_value(lane_start(inp, true), lane_links(inp, true), col - 12, r)
    } else if col == COL_BIT_A {
        cycle_bit_spec(inp.path.is_right@.subrange(0, 32), 2, r)
    } else if col < COL_ID_NEW {
        inp.id_old@[col - COL_ID_OLD]
    } else if col < COL_BAL {
        inp.id_new@[col - COL_ID_NEW]
    } else if col == COL_BAL {
        bal
    } else if col == COL_NONCE {
        inp.nonce
    } else if col == COL_COUNT_OLD {
        reduce(inp.count_old as int)
    } else if col == COL_COUNT_NEW {
        add_spec(reduce(inp.count_old as int), reduce(inp.count_delta as int))
    } else if col == COL_SBIT {
        if r < 64 {
            seg_bit(bal, 64, r as nat)
        } else {
            0
        }
    } else {
        if r < 64 {
            reduce(seg_acc(bal, 64, r as nat) as int)
        } else {
            0
        }
    }
}

/// Builds the links of one lane.
fn build_climb_links(nonce: u64, path: &MerklePath) -> (links: Vec<Link>)
    requires
        nonce < MODULUS,
        path_ok(*path, 32),
    ensures
        links@ == climb_lane_links(nonce, *path),
        crate::lane::links_canonical(links@),
        links.len() == 33,
{
    let mut links: Vec<Link> = Vec::new();
    links.push(Link::Place { other: as_digest(nonce), right: false });
    push_climb_links(&mut links, &path.siblings, &path.is_right, 0, 32);
    assert(links@ =~= climb_lane_links(nonce, *path));
    links
}

/// Builds the trace of a recovery climb. `balance_new` may differ from
/// `balance` so that a trace that moves money can be built; the
/// constraints reject it.
pub fn build_trace(
    id_old: &Digest,
    id_new: &Digest,
    balance: u64,
    balance_new: u64,
    nonce: u64,
    path: &MerklePath,
    count_old: u64,
    count_delta: u64,
) -> (cols: Vec<Vec<u64>>)
    requires
        inputs_ok(
            RecoveryClimbInputs {
                id_old: *id_old,
                id_new: *id_new,
                balance,
                balance_new,
                nonce,
                path: *path,
                count_old,
                count_delta,
            },
        ),
    ensures
        cols.len() == TRACE_WIDTH,
        columns_shape(cols@, TRACE_LENGTH as nat),
        forall|col: int, r: int|
            0 <= col < TRACE_WIDTH && 0 <= r < TRACE_LENGTH ==> #[trigger] cols[col][r] == cell_spec(
                RecoveryClimbInputs {
                    id_old: *id_old,
                    id_new: *id_new,
                    balance,
                    balance_new,
                    nonce,
                    path: *path,
                    count_old,
                    count_delta,
                },
                col,
                r,
            ),
        forall|r: int, k: int|
            0 <= r < TRACE_LENGTH - 1 && 0 <= k < 24 ==> #[trigger] constraint_spec(
                k,
                row_of(cols@, r),
                row_of(cols@, r + 1),
                periodic_row(r),
            ) == 0,
        reduce(balance as int) < 0x8000_0000_0000_0000 && reduce(balance_new as int) == reduce(balance as int)
            && reduce(count_delta as int) == 1 ==> forall|r: int, k: int|
            0 <= r < TRACE_LENGTH - 1 && 0 <= k < NUM_CONSTRAINTS ==> #[trigger] constraint_spec(
                k,
                row_of(cols@, r),
                row_of(cols@, r + 1),
                periodic_row(r),
            ) == 0,
{
    let ghost inp = RecoveryClimbInputs {
        id_old: *id_old,
        id_new: *id_new,
        balance,
        balance_new,
        nonce,
        path: *path,
        count_old,
        count_delta,
    };
    let c_bal = felt(balance);
    let c_bal_new = felt(balance_new);
    let nonce_new = fadd(nonce, 1);
    let c_count_old = felt(count_old);
    let c_count_new = fadd(c_count_old, felt(count_delta));
    let lanes_a = build_climb_links(nonce, path);
    let lanes_b = build_climb_links(nonce_new, path);
    let s0a = merge_state_of(id_old, &as_digest(c_bal));
    let s0b = merge_state_of(id_new, &as_digest(c_bal_new));
    let mut cols = program_columns(&s0a, &lanes_a, TRACE_LENGTH);
    let mut cols_b = program_columns(&s0b, &lanes_b, TRACE_LENGTH);
    let ghost lanes_ok = lanes_hold(inp);
    proof {
        assert(lanes_ok);
    }
    cols.append(&mut cols_b);
    let bits = prefix_bits(&path.is_right, 32);
    cols.push(cycle_bit_column(&bits, 2, TRACE_LENGTH));
    let mut i: usize = 0;
    while i < 4
        invariant
            i <= 4,
            all_canonical(id_old@),
            inp.id_old == *id_old,
            cols.len() == COL_ID_OLD + i,
            columns_shape(cols@, TRACE_LENGTH as nat),
            forall|col: int, r: int|
                0 <= col < cols.len() && 0 <= r < TRACE_LENGTH ==> #[trigger] cols[col][r] == cell_spec(inp, col, r),
        decreases 4 - i,
    {
        cols.push(constant_column(id_old[i], TRACE_LENGTH));
        i = i + 1;
    }
    let mut i: usize = 0;
    while i < 4
        invariant
            i <= 4,
            all_canonical(id_new@),
            inp.id_new == *id_new,
            cols.len() == COL_ID_NEW + i,
            columns_shape(cols@, TRACE_LENGTH as nat),
            forall|col: int, r: int|
                0 <= col < cols.len() && 0 <= r < TRACE_LENGTH ==> #[trigger] cols[col][r] == cell_spec(inp, col, r),
        decreases 4 - i,
    {
        cols.push(constant_column(id_new[i], TRACE_LENGTH));
        i = i + 1;
    }
    cols.push(constant_column(c_bal, TRACE_LENGTH));
    cols.push(constant_column(nonce, TRACE_LENGTH));
    cols.push(constant_column(c_count_old, TRACE_LENGTH));
    cols.push(constant_column(c_count_new, TRACE_LENGTH));
    let segment_values: Vec<u64> = vec![c_bal];
    let (sbit_col, sacc_col) = segment_columns(&segment_values, SEGMENT_LENGTH, TRACE_LENGTH);
    proof {
        assert forall|r: int| 0 <= r < 64 implies sbit_col[r] == seg_bit(c_bal, 64, r as nat) && sacc_col[r] == reduce(
            seg_acc(c_bal, 64, r as nat) as int,
        ) by {
            assert(r == 0 * 64 + r);
        }
    }
    cols.push(sbit_col);
    cols.push(sacc_col);
    proof {
        assert forall|r: int, k: int|
            0 <= r < TRACE_LENGTH - 1 && 0 <= k < 24 implies #[trigger] constraint_spec(
            k,
            row_of(cols@, r),
            row_of(cols@, r + 1),
            periodic_row(r),
        ) == 0 by {
            lemma_trace_satisfies_round_constraints(inp, cols@, r);
        }
        if honest_inputs(inp) {
            assert forall|r: int, k: int|
                0 <= r < TRACE_LENGTH - 1 && 0 <= k < NUM_CONSTRAINTS implies #[trigger] constraint_spec(
                k,
                row_of(cols@, r),
                row_of(cols@, r + 1),
                periodic_row(r),
            ) == 0 by {
                lemma_trace_satisfies_constraints(inp, cols@, r);
            }
        }
    }
    cols
}

/// Where the trace shows what the climb proves: the old leaf climbs to the
/// old root in lane A, and the new leaf (new identity, next nonce) to the
/// new root in lane B, along the same path.
pub proof fn lemma_trace_landmarks(inp: RecoveryClimbInputs)
    requires
        inputs_ok(inp),
    ensures
        ({
            let leaf_old = leaf_spec(inp.id_old@, reduce(inp.balance as int), inp.nonce);
            let leaf_new = leaf_spec(inp.id_new@, reduce(inp.balance_new as int), add_spec(inp.nonce, 1));
            &&& forall|i: int| 0 <= i < 4 ==> #[trigger] cell_spec(inp, 4 + i, ROW_ACCT_ROOT as int) == root_of(leaf_old, inp.path)[i]
            &&& forall|i: int| 0 <= i < 4 ==> #[trigger] cell_spec(inp, 16 + i, ROW_ACCT_ROOT as int) == root_of(leaf_new, inp.path)[i]
        }),
{
    let la = lane_links(inp, false);
    let lb = lane_links(inp, true);
    let s0a = lane_start(inp, false);
    let s0b = lane_start(inp, true);
    let nonce_new = add_spec(inp.nonce, 1);
    lemma_digest_arr(inp.nonce);
    lemma_digest_arr(nonce_new);
    lemma_append_link(s0a, la, 0, digest_arr(inp.nonce));
    lemma_append_link(s0b, lb, 0, digest_arr(nonce_new));
    let leaf_old = leaf_spec(inp.id_old@, reduce(inp.balance as int), inp.nonce);
    let leaf_new = leaf_spec(inp.id_new@, reduce(inp.balance_new as int), nonce_new);
    assert(la.subrange(1, 33) =~= climb_links(inp.path.siblings@, inp.path.is_right@, 0, 32));
    assert(lb.subrange(1, 33) =~= climb_links(inp.path.siblings@, inp.path.is_right@, 0, 32));
    lemma_links_climb(s0a, la, 1, leaf_old, inp.path.siblings@, inp.path.is_right@, 0, 32);
    lemma_links_climb(s0b, lb, 1, leaf_new, inp.path.siblings@, inp.path.is_right@, 0, 32);
    lemma_lane_digest_row(s0a, la, 33);
    lemma_lane_digest_row(s0b, lb, 33);
}

/// The public inputs of a recovery climb.
#[derive(Clone, Debug)]
pub struct RecoveryClimbPublicInputs {
    pub root_old: Digest,
    pub root_new: Digest,
    pub recovery_count_old: u64,
    pub recovery_count_new: u64,
}

impl RecoveryClimbPublicInputs {
    /// Old root, new root, counters, in that order.
    pub fn to_elements(&self) -> (r: Vec<u64>)
        ensures
            r@ == self.root_old@ + self.root_new@ + seq![self.recovery_count_old, self.recovery_count_new],
    {
        let r = vec![
            self.root_old[0],
            self.root_old[1],
            self.root_old[2],
            self.root_old[3],
            self.root_new[0],
            self.root_new[1],
            self.root_new[2],
            self.root_new[3],
            self.recovery_count_old,
            self.recovery_count_new,
        ];
        assert(r@ =~= self.root_old@ + self.root_new@ + seq![self.recovery_count_old, self.recovery_count_new]);
        r
    }
}

/// The public inputs a trace shows.
pub fn public_inputs_of(trace: &Vec<Vec<u64>>) -> (pi: RecoveryClimbPublicInputs)
    requires
        trace.len() == TRACE_WIDTH,
        columns_shape(trace@, TRACE_LENGTH as nat),
    ensures
        forall|i: int| 0 <= i < 4 ==> #[trigger] pi.root_old[i] == trace[4 + i][ROW_ACCT_ROOT as int],
        forall|i: int| 0 <= i < 4 ==> #[trigger] pi.root_new[i] == trace[16 + i][ROW_ACCT_ROOT as int],
        pi.recovery_count_old == trace[COL_COUNT_OLD as int][0],
        pi.recovery_count_new == trace[COL_COUNT_NEW as int][0],
{
    RecoveryClimbPublicInputs {
        root_old: [trace[4][ROW_ACCT_ROOT], trace[5][ROW_ACCT_ROOT], trace[6][ROW_ACCT_ROOT], trace[7][ROW_ACCT_ROOT]],
        root_new: [trace[16][ROW_ACCT_ROOT], trace[17][ROW_ACCT_ROOT], trace[18][ROW_ACCT_ROOT], trace[19][ROW_ACCT_ROOT]],
        recovery_count_old: trace[COL_COUNT_OLD][0],
        recovery_count_new: trace[COL_COUNT_NEW][0],
    }
}

/// The rows where the climb links its levels.
pub open spec fn acct_link_rows() -> Seq<usize> {
    seq![ROW_LEAF_DONE] + cycle_end_rows(2, 31)
}

/// The value of periodic column `j` at row `r`.
pub open spec fn periodic_spec(j: int, r: int) -> u64 {
    let active = ROW_ACCT_ROOT as int + 1;
    if j == 0 {
        hash_flag_spec(active, r)
    } else if j < 13 {
        ark_spec(false, j - 1, active, r)
    } else if j < 25 {
        ark_spec(true, j - 13, active, r)
    } else if j == 25 {
        selector_spec(acct_link_rows(), r)
    } else if j == 26 {
        selector_spec(seq![ROW_LEAF_LINK], r)
    } else if j == 27 {
        selector_spec(seq![0usize], r)
    } else if j == 28 {
        selector_spec(seq![0usize], r)
    } else if j == 29 {
        continue_spec(NUM_SEGMENTS as int, SEGMENT_LENGTH as int, r)
    } else {
        selector_spec(seq![62usize], r)
    }
}

/// The 31 periodic columns.
pub fn periodic_columns() -> (cols: Vec<Vec<u64>>)
    ensures
        cols.len() == 31,
        forall|j: int| 0 <= j < 31 ==> (#[trigger] cols[j]).len() == TRACE_LENGTH,
        forall|j: int, r: int| 0 <= j < 31 && 0 <= r < TRACE_LENGTH ==> #[trigger] cols[j][r] == periodic_spec(j, r),
        forall|j: int| 0 <= j < 31 ==> all_canonical(#[trigger] cols[j]@),
{
    let mut cols = round_columns(ROW_ACCT_ROOT + 1, TRACE_LENGTH);
    let ghost rounds = cols@;
    let mut acct_rows: Vec<usize> = vec![ROW_LEAF_DONE];
    push_cycle_end_rows(&mut acct_rows, 2, 31);
    assert(acct_rows@ =~= acct_link_rows());
    cols.push(selector_column(&acct_rows, TRACE_LENGTH));
    push_row_selector(&mut cols, ROW_LEAF_LINK, TRACE_LENGTH);
    push_row_selector(&mut cols, 0, TRACE_LENGTH);
    push_row_selector(&mut cols, 0, TRACE_LENGTH);
    cols.push(continue_column(NUM_SEGMENTS, SEGMENT_LENGTH, TRACE_LENGTH));
    push_row_selector(&mut cols, 62, TRACE_LENGTH);
    proof {
        assert forall|j: int| 0 <= j < 31 implies all_canonical(#[trigger] cols[j]@) by {
            assert forall|r: int| 0 <= r < cols[j]@.len() implies #[trigger] cols[j]@[r] < MODULUS by {
                if j < 25 {
                    assert(all_canonical(rounds[j]@));
                    assert(rounds[j][r] == cols[j][r]);
                } else {
                    assert(cols[j][r] == periodic_spec(j, r));
                }
            }
        }
    }
    cols
}

/// The 24 boundary assertions: capacity and padding of both lanes on the
/// first row, the old and new roots, and the counters.
pub open spec fn assertions_spec(pi: RecoveryClimbPublicInputs) -> Seq<(usize, usize, u64)> {
    let z = seq![0u64, 0u64, 0u64, 0u64];
    pairs(4, 0, 0, z, 12, 0, z) + pairs(3, 9, 0, z, 21, 0, z)
        + pairs(4, 4, ROW_ACCT_ROOT, pi.root_old@, 16, ROW_ACCT_ROOT, pi.root_new@)
        + run(1, COL_COUNT_OLD as int, 0, seq![pi.recovery_count_old])
        + run(1, COL_COUNT_NEW as int, 0, seq![pi.recovery_count_new])
}

/// The boundary assertions of a recovery climb.
pub fn assertions(pi: &RecoveryClimbPublicInputs) -> (a: Vec<(usize, usize, u64)>)
    ensures
        a@ == assertions_spec(*pi),
        a.len() == 24,
{
    let z = vec![0u64, 0, 0, 0];
    let root_old = vec![pi.root_old[0], pi.root_old[1], pi.root_old[2], pi.root_old[3]];
    let root_new = vec![pi.root_new[0], pi.root_new[1], pi.root_new[2], pi.root_new[3]];
    let count_old = vec![pi.recovery_count_old];
    let count_new = vec![pi.recovery_count_new];
    assert(z@ =~= seq![0u64, 0u64, 0u64, 0u64]);
    assert(root_old@ =~= pi.root_old@);
    assert(root_new@ =~= pi.root_new@);
    assert(count_old@ =~= seq![pi.recovery_count_old]);
    assert(count_new@ =~= seq![pi.recovery_count_new]);
    let mut a: Vec<(usize, usize, u64)> = Vec::new();
    push_pairs(&mut a, 4, 0, 0, &z, 12, 0, &z);
    push_pairs(&mut a, 3, 9, 0, &z, 21, 0, &z);
    push_pairs(&mut a, 4, 4, ROW_ACCT_ROOT, &root_old, 16, ROW_ACCT_ROOT, &root_new);
    push_run(&mut a, 1, COL_COUNT_OLD, 0, &count_old);
    push_run(&mut a, 1, COL_COUNT_NEW, 0, &count_new);
    a
}


/// A recovery reassigns control and moves no money: when the new balance
/// is the old one, both lanes start from the carried balance; and when the
/// counter is raised by one, the carried new counter is the old one plus
/// one on every row.
pub proof fn lemma_recovery_is_counted_and_moves_no_money(inp: RecoveryClimbInputs)
    ensures
        inp.balance_new == inp.balance ==> cell_spec(inp, 8, 0) == cell_spec(inp, COL_BAL as int, 0) && cell_spec(inp, 20, 0)
            == cell_spec(inp, COL_BAL as int, 0),
        inp.count_delta == 1 ==> forall|r: int|
            #![trigger cell_spec(inp, COL_COUNT_NEW as int, r)]
            0 <= r < TRACE_LENGTH ==> cell_spec(inp, COL_COUNT_NEW as int, r) == add_spec(
                cell_spec(inp, COL_COUNT_OLD as int, r),
                1,
            ),
{
    assert(0int / 8 == 0 && 0int % 8 == 0);
    vstd::arithmetic::div_mod::lemma_small_mod(1, crate::field::p() as nat);
}


/// The number of transition constraints.
pub const NUM_CONSTRAINTS: usize = 92;

/// The residuals of constraints 24..=35.
#[verifier::opaque]
pub open spec fn residuals_0(cur: Seq<u64>, nxt: Seq<u64>, per: Seq<u64>) -> Seq<u64> {
    seq![
        mul_spec(per[25], nxt[0]),
        mul_spec(per[25], nxt[1]),
        mul_spec(per[25], nxt[2]),
        mul_spec(per[25], nxt[3]),
        mul_spec(per[25], nxt[12]),
        mul_spec(per[25], nxt[13]),
        mul_spec(per[25], nxt[14]),
        mul_spec(per[25], nxt[15]),
        mul_spec(per[25], add_spec(mul_spec(sub_spec(1u64, nxt[24]), sub_spec(nxt[4], cur[4])), mul_spec(nxt[24], sub_spec(nxt[8], cur[4])))),
        mul_spec(per[25], add_spec(mul_spec(sub_spec(1u64, nxt[24]), sub_spec(nxt[5], cur[5])), mul_spec(nxt[24], sub_spec(nxt[9], cur[5])))),
        mul_spec(per[25], add_spec(mul_spec(sub_spec(1u64, nxt[24]), sub_spec(nxt[6], cur[6])), mul_spec(nxt[24], sub_spec(nxt[10], cur[6])))),
        mul_spec(per[25], add_spec(mul_spec(sub_spec(1u64, nxt[24]), sub_spec(nxt[7], cur[7])), mul_spec(nxt[24], sub_spec(nxt[11], cur[7])))),
    ]
}

fn residuals_0_eval(cur: &Vec<u64>, nxt: &Vec<u64>, per: &Vec<u64>) -> (r: Vec<u64>)
    requires
        cur.len() == TRACE_WIDTH,
        nxt.len() == TRACE_WIDTH,
        per.len() == 31,
        all_canonical(cur@),
        all_canonical(nxt@),
        all_canonical(per@),
    ensures
        r@ == residuals_0(cur@, nxt@, per@),
        r.len() == 12,
{
    let r = vec![
        fmul(per[25], nxt[0]),
        fmul(per[25], nxt[1]),
        fmul(per[25], nxt[2]),
        fmul(per[25], nxt[3]),
        fmul(per[25], nxt[12]),
        fmul(per[25], nxt[13]),
        fmul(per[25], nxt[14]),
        fmul(per[25], nxt[15]),
        fmul(per[25], fadd(fmul(fsub(1u64, nxt[24]), fsub(nxt[4], cur[4])), fmul(nxt[24], fsub(nxt[8], cur[4])))),
        fmul(per[25], fadd(fmul(fsub(1u64, nxt[24]), fsub(nxt[5], cur[5])), fmul(nxt[24], fsub(nxt[9], cur[5])))),
        fmul(per[25], fadd(fmul(fsub(1u64, nxt[24]), fsub(nxt[6], cur[6])), fmul(nxt[24], fsub(nxt[10], cur[6])))),
        fmul(per[25], fadd(fmul(fsub(1u64, nxt[24]), fsub(nxt[7], cur[7])), fmul(nxt[24], fsub(nxt[11], cur[7])))),
    ];
    proof {
        reveal(residuals_0);
    }
    assert(r@ =~= residuals_0(cur@, nxt@, per@));
    r
}

/// The residuals of constraints 36..=47.
#[verifier::opaque]
pub open spec fn residuals_1(cur: Seq<u64>, nxt: Seq<u64>, per: Seq<u64>) -> Seq<u64> {
    seq![
        mul_spec(per[25], add_spec(mul_spec(sub_spec(1u64, nxt[24]), sub_spec(nxt[16], cur[16])), mul_spec(nxt[24], sub_spec(nxt[20], cur[16])))),
        mul_spec(per[25], add_spec(mul_spec(sub_spec(1u64, nxt[24]), sub_spec(nxt[17], cur[17])), mul_spec(nxt[24], sub_spec(nxt[21], cur[17])))),
        mul_spec(per[25], add_spec(mul_spec(sub_spec(1u64, nxt[24]), sub_spec(nxt[18], cur[18])), mul_spec(nxt[24], sub_spec(nxt[22], cur[18])))),
        mul_spec(per[25], add_spec(mul_spec(sub_spec(1u64, nxt[24]), sub_spec(nxt[19], cur[19])), mul_spec(nxt[24], sub_spec(nxt[23], cur[19])))),
        mul_spec(per[25], sub_spec(add_spec(mul_spec(sub_spec(1u64, nxt[24]), nxt[8]), mul_spec(nxt[24], nxt[4])), add_spec(mul_spec(sub_spec(1u64, nxt[24]), nxt[20]), mul_spec(nxt[24], nxt[16])))),
        mul_spec(per[25], sub_spec(add_spec(mul_spec(sub_spec(1u64, nxt[24]), nxt[9]), mul_spec(nxt[24], nxt[5])), add_spec(mul_spec(sub_spec(1u64, nxt[24]), nxt[21]), mul_spec(nxt[24], nxt[17])))),
        mul_spec(per[25], sub_spec(add_spec(mul_spec(sub_spec(1u64, nxt[24]), nxt[10]), mul_spec(nxt[24], nxt[6])), add_spec(mul_spec(sub_spec(1u64, nxt[24]), nxt[22]), mul_spec(nxt[24], nxt[18])))),
        mul_spec(per[25], sub_spec(add_spec(mul_spec(sub_spec(1u64, nxt[24]), nxt[11]), mul_spec(nxt[24], nxt[7])), add_spec(mul_spec(sub_spec(1u64, nxt[24]), nxt[23]), mul_spec(nxt[24], nxt[19])))),
        mul_spec(cur[24], sub_spec(cur[24], 1u64)),
        mul_spec(per[26], nxt[0]),
        mul_spec(per[26], nxt[1]),
        mul_spec(per[26], nxt[2]),
    ]
}

fn residuals_1_eval(cur: &Vec<u64>, nxt: &Vec<u64>, per: &Vec<u64>) -> (r: Vec<u64>)
    requires
        cur.len() == TRACE_WIDTH,
        nxt.len() == TRACE_WIDTH,
        per.len() == 31,
        all_canonical(cur@),
        all_canonical(nxt@),
        all_canonical(per@),
    ensures
        r@ == residuals_1(cur@, nxt@, per@),
        r.len() == 12,
{
    let r = vec![
        fmul(per[25], fadd(fmul(fsub(1u64, nxt[24]), fsub(nxt[16], cur[16])), fmul(nxt[24], fsub(nxt[20], cur[16])))),
        fmul(per[25], fadd(fmul(fsub(1u64, nxt[24]), fsub(nxt[17], cur[17])), fmul(nxt[24], fsub(nxt[21], cur[17])))),
        fmul(per[25], fadd(fmul(fsub(1u64, nxt[24]), fsub(nxt[18], cur[18])), fmul(nxt[24], fsub(nxt[22], cur[18])))),
        fmul(per[25], fadd(fmul(fsub(1u64, nxt[24]), fsub(nxt[19], cur[19])), fmul(nxt[24], fsub(nxt[23], cur[19])))),
        fmul(per[25], fsub(fadd(fmul(fsub(1u64, nxt[24]), nxt[8]), fmul(nxt[24], nxt[4])), fadd(fmul(fsub(1u64, nxt[24]), nxt[20]), fmul(nxt[24], nxt[16])))),
        fmul(per[25], fsub(fadd(fmul(fsub(1u64, nxt[24]), nxt[9]), fmul(nxt[24], nxt[5])), fadd(fmul(fsub(1u64, nxt[24]), nxt[21]), fmul(nxt[24], nxt[17])))),
        fmul(per[25], fsub(fadd(fmul(fsub(1u64, nxt[24]), nxt[10]), fmul(nxt[24], nxt[6])), fadd(fmul(fsub(1u64, nxt[24]), nxt[22]), fmul(nxt[24], nxt[18])))),
        fmul(per[25], fsub(fadd(fmul(fsub(1u64, nxt[24]), nxt[11]), fmul(nxt[24], nxt[7])), fadd(fmul(fsub(1u64, nxt[24]), nxt[23]), fmul(nxt[24], nxt[19])))),
        fmul(cur[24], fsub(cur[24], 1u64)),
        fmul(per[26], nxt[0]),
        fmul(per[26], nxt[1]),
        fmul(per[26], nxt[2]),
    ];
    proof {
        reveal(residuals_1);
    }
    assert(r@ =~= residuals_1(cur@, nxt@, per@));
    r
}

/// The residuals of constraints 48..=59.
#[verifier::opaque]
pub open spec fn residuals_2(cur: Seq<u64>, nxt: Seq<u64>, per: Seq<u64>) -> Seq<u64> {
    seq![
        mul_spec(per[26], nxt[3]),
        mul_spec(per[26], nxt[12]),
        mul_spec(per[26], nxt[13]),
        mul_spec(per[26], nxt[14]),
        mul_spec(per[26], nxt[15]),
        mul_spec(per[26], sub_spec(nxt[4], cur[4])),
        mul_spec(per[26], sub_spec(nxt[5], cur[5])),
        mul_spec(per[26], sub_spec(nxt[6], cur[6])),
        mul_spec(per[26], sub_spec(nxt[7], cur[7])),
        mul_spec(per[26], sub_spec(nxt[16], cur[16])),
        mul_spec(per[26], sub_spec(nxt[17], cur[17])),
        mul_spec(per[26], sub_spec(nxt[18], cur[18])),
    ]
}

fn residuals_2_eval(cur: &Vec<u64>, nxt: &Vec<u64>, per: &Vec<u64>) -> (r: Vec<u64>)
    requires
        cur.len() == TRACE_WIDTH,
        nxt.len() == TRACE_WIDTH,
        per.len() == 31,
        all_canonical(cur@),
        all_canonical(nxt@),
        all_canonical(per@),
    ensures
        r@ == residuals_2(cur@, nxt@, per@),
        r.len() == 12,
{
    let r = vec![
        fmul(per[26], nxt[3]),
        fmul(per[26], nxt[12]),
        fmul(per[26], nxt[13]),
        fmul(per[26], nxt[14]),
        fmul(per[26], nxt[15]),
        fmul(per[26], fsub(nxt[4], cur[4])),
        fmul(per[26], fsub(nxt[5], cur[5])),
        fmul(per[26], fsub(nxt[6], cur[6])),
        fmul(per[26], fsub(nxt[7], cur[7])),
        fmul(per[26], fsub(nxt[16], cur[16])),
        fmul(per[26], fsub(nxt[17], cur[17])),
        fmul(per[26], fsub(nxt[18], cur[18])),
    ];
    proof {
        reveal(residuals_2);
    }
    assert(r@ =~= residuals_2(cur@, nxt@, per@));
    r
}

/// The residuals of constraints 60..=71.
#[verifier::opaque]
pub open spec fn residuals_3(cur: Seq<u64>, nxt: Seq<u64>, per: Seq<u64>) -> Seq<u64> {
    seq![
        mul_spec(per[26], sub_spec(nxt[19], cur[19])),
        mul_spec(per[26], sub_spec(nxt[8], cur[34])),
        mul_spec(per[26], sub_spec(nxt[20], add_spec(cur[34], 1u64))),
        mul_spec(per[27], sub_spec(cur[4], cur[25])),
        mul_spec(per[27], sub_spec(cur[5], cur[26])),
        mul_spec(per[27], sub_spec(cur[6], cur[27])),
        mul_spec(per[27], sub_spec(cur[7], cur[28])),
        mul_spec(per[27], sub_spec(cur[8], cur[33])),
        mul_spec(per[27], sub_spec(cur[16], cur[29])),
        mul_spec(per[27], sub_spec(cur[17], cur[30])),
        mul_spec(per[27], sub_spec(cur[18], cur[31])),
        mul_spec(per[27], sub_spec(cur[19], cur[32])),
    ]
}

fn residuals_3_eval(cur: &Vec<u64>, nxt: &Vec<u64>, per: &Vec<u64>) -> (r: Vec<u64>)
    requires
        cur.len() == TRACE_WIDTH,
        nxt.len() == TRACE_WIDTH,
        per.len() == 31,
        all_canonical(cur@),
        all_canonical(nxt@),
        all_canonical(per@),
    ensures
        r@ == residuals_3(cur@, nxt@, per@),
        r.len() == 12,
{
    let r = vec![
        fmul(per[26], fsub(nxt[19], cur[19])),
        fmul(per[26], fsub(nxt[8], cur[34])),
        fmul(per[26], fsub(nxt[20], fadd(cur[34], 1u64))),
        fmul(per[27], fsub(cur[4], cur[25])),
        fmul(per[27], fsub(cur[5], cur[26])),
        fmul(per[27], fsub(cur[6], cur[27])),
        fmul(per[27], fsub(cur[7], cur[28])),
        fmul(per[27], fsub(cur[8], cur[33])),
        fmul(per[27], fsub(cur[16], cur[29])),
        fmul(per[27], fsub(cur[17], cur[30])),
        fmul(per[27], fsub(cur[18], cur[31])),
        fmul(per[27], fsub(cur[19], cur[32])),
    ];
    proof {
        reveal(residuals_3);
    }
    assert(r@ =~= residuals_3(cur@, nxt@, per@));
    r
}

/// The residuals of constraints 72..=83.
#[verifier::opaque]
pub open spec fn residuals_4(cur: Seq<u64>, nxt: Seq<u64>, per: Seq<u64>) -> Seq<u64> {
    seq![
        mul_spec(per[27], sub_spec(cur[20], cur[33])),
        sub_spec(cur[36], add_spec(cur[35], 1u64)),
        sub_spec(nxt[33], cur[33]),
        sub_spec(nxt[34], cur[34]),
        sub_spec(nxt[35], cur[35]),
        sub_spec(nxt[36], cur[36]),
        sub_spec(nxt[25], cur[25]),
        sub_spec(nxt[26], cur[26]),
        sub_spec(nxt[27], cur[27]),
        sub_spec(nxt[28], cur[28]),
        sub_spec(nxt[29], cur[29]),
        sub_spec(nxt[30], cur[30]),
    ]
}

fn residuals_4_eval(cur: &Vec<u64>, nxt: &Vec<u64>, per: &Vec<u64>) -> (r: Vec<u64>)
    requires
        cur.len() == TRACE_WIDTH,
        nxt.len() == TRACE_WIDTH,
        per.len() == 31,
        all_canonical(cur@),
        all_canonical(nxt@),
        all_canonical(per@),
    ensures
        r@ == residuals_4(cur@, nxt@, per@),
        r.len() == 12,
{
    let r = vec![
        fmul(per[27], fsub(cur[20], cur[33])),
        fsub(cur[36], fadd(cur[35], 1u64)),
        fsub(nxt[33], cur[33]),
        fsub(nxt[34], cur[34]),
        fsub(nxt[35], cur[35]),
        fsub(nxt[36], cur[36]),
        fsub(nxt[25], cur[25]),
        fsub(nxt[26], cur[26]),
        fsub(nxt[27], cur[27]),
        fsub(nxt[28], cur[28]),
        fsub(nxt[29], cur[29]),
        fsub(nxt[30], cur[30]),
    ];
    proof {
        reveal(residuals_4);
    }
    assert(r@ =~= residuals_4(cur@, nxt@, per@));
    r
}

/// The residuals of constraints 84..=91.
#[verifier::opaque]
pub open spec fn residuals_5(cur: Seq<u64>, nxt: Seq<u64>, per: Seq<u64>) -> Seq<u64> {
    seq![
        sub_spec(nxt[31], cur[31]),
        sub_spec(nxt[32], cur[32]),
        mul_spec(cur[37], sub_spec(cur[37], 1u64)),
        mul_spec(nxt[37], sub_spec(nxt[37], 1u64)),
        mul_spec(per[28], cur[37]),
        mul_spec(per[28], cur[38]),
        mul_spec(per[29], sub_spec(nxt[38], add_spec(add_spec(cur[38], cur[38]), nxt[37]))),
        mul_spec(per[30], sub_spec(nxt[38], cur[33])),
    ]
}

fn residuals_5_eval(cur: &Vec<u64>, nxt: &Vec<u64>, per: &Vec<u64>) -> (r: Vec<u64>)
    requires
        cur.len() == TRACE_WIDTH,
        nxt.len() == TRACE_WIDTH,
        per.len() == 31,
        all_canonical(cur@),
        all_canonical(nxt@),
        all_canonical(per@),
    ensures
        r@ == residuals_5(cur@, nxt@, per@),
        r.len() == 8,
{
    let r = vec![
        fsub(nxt[31], cur[31]),
        fsub(nxt[32], cur[32]),
        fmul(cur[37], fsub(cur[37], 1u64)),
        fmul(nxt[37], fsub(nxt[37], 1u64)),
        fmul(per[28], cur[37]),
        fmul(per[28], cur[38]),
        fmul(per[29], fsub(nxt[38], fadd(fadd(cur[38], cur[38]), nxt[37]))),
        fmul(per[30], fsub(nxt[38], cur[33])),
    ];
    proof {
        reveal(residuals_5);
    }
    assert(r@ =~= residuals_5(cur@, nxt@, per@));
    r
}

/// The residuals of all transition constraints of a step, in the order of
/// their indices: the rounds of lane A and of lane B, then the rest.
pub open spec fn residuals(cur: Seq<u64>, nxt: Seq<u64>, per: Seq<u64>) -> Seq<u64> {
    round_residuals_spec(cur, nxt, per, 0, 0, 1, 13) + round_residuals_spec(cur, nxt, per, 12, 0, 1, 13)
        + residuals_0(cur, nxt, per) + residuals_1(cur, nxt, per) + residuals_2(cur, nxt, per) + residuals_3(cur, nxt, per) + residuals_4(cur, nxt, per) + residuals_5(cur, nxt, per)
}

/// Constraint `k` of a step, over the current row, the next row and the
/// periodic values.
pub open spec fn constraint_spec(k: int, current: Seq<u64>, next: Seq<u64>, periodic: Seq<u64>) -> u64 {
    residuals(current, next, periodic)[k]
}

/// Evaluates the transition constraints of a step over the base field: a
/// step satisfies the AIR when every residual is zero.
pub fn evaluate_transition(current: &Vec<u64>, next: &Vec<u64>, periodic: &Vec<u64>) -> (result: Vec<u64>)
    requires
        current.len() == TRACE_WIDTH,
        next.len() == TRACE_WIDTH,
        periodic.len() == 31,
        all_canonical(current@),
        all_canonical(next@),
        all_canonical(periodic@),
    ensures
        result.len() == NUM_CONSTRAINTS,
        forall|k: int| 0 <= k < NUM_CONSTRAINTS ==> #[trigger] result[k] == constraint_spec(k, current@, next@, periodic@),
{
    let mut r = round_residuals(current, next, periodic, 0, 0, 1, 13);
    let mut lane_b = round_residuals(current, next, periodic, 12, 0, 1, 13);
    r.append(&mut lane_b);

    let mut p0 = residuals_0_eval(current, next, periodic);
    r.append(&mut p0);
    let mut p1 = residuals_1_eval(current, next, periodic);
    r.append(&mut p1);
    let mut p2 = residuals_2_eval(current, next, periodic);
    r.append(&mut p2);
    let mut p3 = residuals_3_eval(current, next, periodic);
    r.append(&mut p3);
    let mut p4 = residuals_4_eval(current, next, periodic);
    r.append(&mut p4);
    let mut p5 = residuals_5_eval(current, next, periodic);
    r.append(&mut p5);
    assert(r@ =~= residuals(current@, next@, periodic@));
    r
}


proof fn lemma_residuals_len_0(cur: Seq<u64>, nxt: Seq<u64>, per: Seq<u64>)
    ensures
        residuals_0(cur, nxt, per).len() == 12,
{
    reveal(residuals_0);
}

proof fn lemma_residuals_len_1(cur: Seq<u64>, nxt: Seq<u64>, per: Seq<u64>)
    ensures
        residuals_1(cur, nxt, per).len() == 12,
{
    reveal(residuals_1);
}

proof fn lemma_residuals_len_2(cur: Seq<u64>, nxt: Seq<u64>, per: Seq<u64>)
    ensures
        residuals_2(cur, nxt, per).len() == 12,
{
    reveal(residuals_2);
}

proof fn lemma_residuals_len_3(cur: Seq<u64>, nxt: Seq<u64>, per: Seq<u64>)
    ensures
        residuals_3(cur, nxt, per).len() == 12,
{
    reveal(residuals_3);
}

proof fn lemma_residuals_len_4(cur: Seq<u64>, nxt: Seq<u64>, per: Seq<u64>)
    ensures
        residuals_4(cur, nxt, per).len() == 12,
{
    reveal(residuals_4);
}


/// Constraint 73 of a step.
pub proof fn lemma_constraint_73(current: Seq<u64>, next: Seq<u64>, periodic: Seq<u64>)
    ensures
        constraint_spec(73, current, next, periodic) == sub_spec(current[36], add_spec(current[35], 1u64)),
{
    lemma_residuals_len_0(current, next, periodic);
    lemma_residuals_len_1(current, next, periodic);
    lemma_residuals_len_2(current, next, periodic);
    lemma_residuals_len_3(current, next, periodic);
    lemma_residuals_len_4(current, next, periodic);
    assert(constraint_spec(73, current, next, periodic) == residuals_4(current, next, periodic)[1]);
    reveal(residuals_4);
}


/// What the constraints force on a step whose residuals are all zero: the
/// new recovery counter is the old one plus one, so every recovery is
/// counted.
pub proof fn lemma_zero_residuals_force(current: Seq<u64>, next: Seq<u64>, periodic: Seq<u64>)
    requires
        current.len() == TRACE_WIDTH,
        next.len() == TRACE_WIDTH,
        periodic.len() == 31,
        all_canonical(current),
        all_canonical(next),
        all_canonical(periodic),
        forall|k: int| 0 <= k < NUM_CONSTRAINTS ==> #[trigger] constraint_spec(k, current, next, periodic) == 0,
    ensures
        current[COL_COUNT_NEW as int] == add_spec(current[COL_COUNT_OLD as int], 1),
{
    assert(constraint_spec(73, current, next, periodic) == 0);
    lemma_constraint_73(current, next, periodic);
    crate::constraints::lemma_reduce_canonical(current[35] + 1);
    crate::constraints::lemma_equal(current[36], add_spec(current[35], 1u64));
}


/// The periodic values of step `r`.
pub open spec fn periodic_row(r: int) -> Seq<u64> {
    Seq::new(31, |j: int| periodic_spec(j, r))
}

/// Every cycle of both hash lanes runs the rounds of the permutation.
pub open spec fn lanes_hold(inp: RecoveryClimbInputs) -> bool {
    
    &&& forall|c: nat| c <= lane_links(inp, false).len() ==> #[trigger] rounds_hold(cycle_start(lane_start(inp, false), lane_links(inp, false), c))
    &&& forall|c: nat| c <= lane_links(inp, true).len() ==> #[trigger] rounds_hold(cycle_start(lane_start(inp, true), lane_links(inp, true), c))
}

/// Every step of the trace satisfies the round constraints of both hash
/// lanes (constraints 0..24): on a round row each lane goes from one round
/// of its permutation to the next, with that round's constants in the
/// periodic values; elsewhere the round flag is off.
pub proof fn lemma_trace_satisfies_round_constraints(inp: RecoveryClimbInputs, t: Seq<Vec<u64>>, r: int)
    requires
        t.len() == TRACE_WIDTH,
        forall|col: int, q: int|
            0 <= col < TRACE_WIDTH && 0 <= q < TRACE_LENGTH ==> #[trigger] t[col][q] == cell_spec(inp, col, q),
        lanes_hold(inp),
        0 <= r < TRACE_LENGTH - 1,
    ensures
        forall|k: int| 0 <= k < 24 ==> #[trigger] constraint_spec(k, row_of(t, r), row_of(t, r + 1), periodic_row(r)) == 0,
{
    
    let cur = row_of(t, r);
    let nxt = row_of(t, r + 1);
    let per = periodic_row(r);
    let active = ROW_ACCT_ROOT as int + 1;
    assert forall|j: int| 0 <= j < 12 implies #[trigger] cur[0 + j] == lane_value(lane_start(inp, false), lane_links(inp, false), j, r) by {
        assert(cur[j] == t[j][r]);
    }
    assert forall|j: int| 0 <= j < 12 implies #[trigger] nxt[0 + j] == lane_value(lane_start(inp, false), lane_links(inp, false), j, r + 1) by {
        assert(nxt[j] == t[j][r + 1]);
    }
    assert forall|j: int| 0 <= j < 12 implies #[trigger] cur[12 + j] == lane_value(lane_start(inp, true), lane_links(inp, true), j, r) by {
        assert(cur[12 + j] == t[12 + j][r]);
    }
    assert forall|j: int| 0 <= j < 12 implies #[trigger] nxt[12 + j] == lane_value(lane_start(inp, true), lane_links(inp, true), j, r + 1) by {
        assert(nxt[12 + j] == t[12 + j][r + 1]);
    }
    assert(per[0] == crate::periodic::hash_flag_spec(active, r));
    assert forall|j: int| 0 <= j < 12 implies #[trigger] per[1 + j] == crate::periodic::ark_spec(false, j, active, r) by {
        assert(per[1 + j] == periodic_spec(1 + j, r));
    }
    assert forall|j: int| 0 <= j < 12 implies #[trigger] per[13 + j] == crate::periodic::ark_spec(true, j, active, r) by {
        assert(per[13 + j] == periodic_spec(13 + j, r));
    }
    crate::lane::lemma_lane_round_residuals(cur, nxt, per, 0, 0, 1, 13, lane_start(inp, false), lane_links(inp, false), active, r);
    crate::lane::lemma_lane_round_residuals(cur, nxt, per, 12, 0, 1, 13, lane_start(inp, true), lane_links(inp, true), active, r);
    assert forall|k: int| 0 <= k < 24 implies #[trigger] constraint_spec(k, cur, nxt, per) == 0 by {
        if k < 12 {
            assert(constraint_spec(k, cur, nxt, per) == crate::constraints::round_residual(cur, nxt, per, 0, 0, 1, 13, k));
        } else {
            assert(constraint_spec(k, cur, nxt, per) == crate::constraints::round_residual(cur, nxt, per, 12, 0, 1, 13, k - 12));
        }
    }
}

/// The honest inputs of a recovery climb: the balance fits in 63 bits and
/// is the same in both leaves, and the counter moves by one.
pub open spec fn honest_inputs(inp: RecoveryClimbInputs) -> bool {
    &&& reduce(inp.balance as int) < 0x8000_0000_0000_0000
    &&& reduce(inp.balance_new as int) == reduce(inp.balance as int)
    &&& reduce(inp.count_delta as int) == 1
}

/// The range check of the balance holds on every step of an honest trace:
/// its bits are bits, it starts from zero, takes one bit per row and ends
/// on the balance.
#[verifier::spinoff_prover]
#[verifier::rlimit(60)]
proof fn lemma_trace_range_constraints(inp: RecoveryClimbInputs, t: Seq<Vec<u64>>, r: int)
    requires
        t.len() == TRACE_WIDTH,
        forall|col: int, q: int|
            0 <= col < TRACE_WIDTH && 0 <= q < TRACE_LENGTH ==> #[trigger] t[col][q] == cell_spec(inp, col, q),
        honest_inputs(inp),
        0 <= r < TRACE_LENGTH - 1,
    ensures
        forall|j: int| 2 <= j < 8 ==> #[trigger] residuals_5(row_of(t, r), row_of(t, r + 1), periodic_row(r))[j] == 0,
{
    let cur = row_of(t, r);
    let nxt = row_of(t, r + 1);
    let per = periodic_row(r);
    let p: nat = MODULUS as nat;
    let bal = reduce(inp.balance as int);
    vstd::arithmetic::div_mod::lemma_small_mod(0, p);
    vstd::arithmetic::div_mod::lemma_small_mod(1, p);
    assert forall|c: int| 0 <= c < TRACE_WIDTH implies #[trigger] cur[c] == t[c][r] && nxt[c] == t[c][r + 1] by {}
    assert forall|q: int| 0 <= q < TRACE_LENGTH implies (#[trigger] t[37][q] == (if q < 64 { seg_bit(bal, 64, q as nat) } else { 0u64 })
        && t[38][q] == (if q < 64 { reduce(seg_acc(bal, 64, q as nat) as int) } else { 0u64 })) by {
        assert(t[37][q] == cell_spec(inp, 37, q));
        assert(t[38][q] == cell_spec(inp, 38, q));
    }
    assert(cur[33] == bal) by {
        assert(t[33][r] == cell_spec(inp, 33, r));
    }
    assert forall|x: u64| #[trigger] mul_spec(0u64, x) == 0 by {
        assert(0u64 * x == 0);
    }
    assert forall|x: u64| #[trigger] sub_spec(x, x) == 0 by {}
    assert forall|q: int| 0 <= q < TRACE_LENGTH implies (#[trigger] t[37][q] == 0 || t[37][q] == 1) by {
        if q < 64 {
            crate::solvency::lemma_wide_segment(bal, q as nat);
        }
    }
    assert forall|x: u64| x == 0 || x == 1 implies #[trigger] mul_spec(x, sub_spec(x, 1u64)) == 0 by {
        if x == 1 {
            assert(sub_spec(1u64, 1u64) == 0);
            assert(1u64 * 0u64 == 0);
        }
    }
    assert(mul_spec(cur[37], sub_spec(cur[37], 1u64)) == 0);
    assert(mul_spec(nxt[37], sub_spec(nxt[37], 1u64)) == 0);
    let s0: Seq<usize> = seq![0usize];
    let s62: Seq<usize> = seq![62usize];
    assert(per[28] == selector_spec(s0, r));
    assert(per[29] == continue_spec(NUM_SEGMENTS as int, SEGMENT_LENGTH as int, r));
    assert(per[30] == selector_spec(s62, r));
    if r == 0 {
        assert(s0[0] == 0);
        crate::solvency::lemma_wide_segment(bal, 0);
        assert(cur[37] == 0 && cur[38] == 0);
    } else {
        assert(per[28] == 0);
    }
    if r < 63 {
        crate::solvency::lemma_wide_segment(bal, r as nat);
        crate::solvency::lemma_wide_segment(bal, (r + 1) as nat);
        vstd::arithmetic::div_mod::lemma_small_mod(seg_acc(bal, 64, r as nat) as nat, p);
        vstd::arithmetic::div_mod::lemma_small_mod(seg_acc(bal, 64, (r + 1) as nat) as nat, p);
        assert(cur[38] == seg_acc(bal, 64, r as nat));
        assert(nxt[38] == seg_acc(bal, 64, (r + 1) as nat));
        assert(nxt[37] == seg_bit(bal, 64, (r + 1) as nat));
        vstd::arithmetic::div_mod::lemma_small_mod((cur[38] + cur[38]) as nat, p);
        vstd::arithmetic::div_mod::lemma_small_mod((cur[38] + cur[38] + nxt[37]) as nat, p);
        assert(add_spec(add_spec(cur[38], cur[38]), nxt[37]) == nxt[38]);
    } else {
        assert(per[29] == 0);
    }
    if r == 62 {
        assert(s62[0] == 62);
        crate::solvency::lemma_wide_segment(bal, 63);
        assert(nxt[38] == bal);
    } else {
        assert(per[30] == 0);
    }
    reveal(residuals_5);
}

/// The rows that end a level of the climb: the leaf, then the 31 levels
/// below the root.
pub open spec fn level_link_row(r: int) -> bool {
    r % 8 == 7 && 15 <= r <= 263
}

/// The cells of a level link: both lanes start from their node and the
/// same sibling, on the side the bit says.
#[verifier::spinoff_prover]
#[verifier::rlimit(60)]
proof fn lemma_level_link_facts(inp: RecoveryClimbInputs, t: Seq<Vec<u64>>, r: int)
    requires
        t.len() == TRACE_WIDTH,
        forall|col: int, q: int|
            0 <= col < TRACE_WIDTH && 0 <= q < TRACE_LENGTH ==> #[trigger] t[col][q] == cell_spec(inp, col, q),
        inputs_ok(inp),
        level_link_row(r),
    ensures
        ({
            let cur = row_of(t, r);
            let nxt = row_of(t, r + 1);
            &&& nxt[24] == 0 || nxt[24] == 1
            &&& forall|j: int| (0 <= j < 4 || 12 <= j < 16) ==> #[trigger] nxt[j] == 0
            &&& nxt[24] == 1 ==> forall|j: int| (8 <= j < 12 || 20 <= j < 24) ==> #[trigger] nxt[j] == cur[j - 4]
            &&& nxt[24] == 1 ==> forall|j: int| 4 <= j < 8 ==> #[trigger] nxt[j] == nxt[j + 12]
            &&& nxt[24] == 0 ==> forall|j: int| (4 <= j < 8 || 16 <= j < 20) ==> #[trigger] nxt[j] == cur[j]
            &&& nxt[24] == 0 ==> forall|j: int| 8 <= j < 12 ==> #[trigger] nxt[j] == nxt[j + 12]
        }),
{
    let cur = row_of(t, r);
    let nxt = row_of(t, r + 1);
    let sa = lane_start(inp, false);
    let sb = lane_start(inp, true);
    let la = lane_links(inp, false);
    let lb = lane_links(inp, true);
    let bits = inp.path.is_right@;
    assert forall|i: int| 0 <= i < 12 implies #[trigger] cur[i] == lane_value(sa, la, i, r) && nxt[i] == lane_value(sa, la, i, r + 1)
        && cur[12 + i] == lane_value(sb, lb, i, r) && nxt[12 + i] == lane_value(sb, lb, i, r + 1) by {
        assert(t[i][r] == cell_spec(inp, i, r));
        assert(t[i][r + 1] == cell_spec(inp, i, r + 1));
        assert(t[12 + i][r] == cell_spec(inp, 12 + i, r));
        assert(t[12 + i][r + 1] == cell_spec(inp, 12 + i, r + 1));
    }
    assert(nxt[24] == cycle_bit_spec(bits.subrange(0, 32), 2, r + 1)) by {
        assert(t[24][r + 1] == cell_spec(inp, 24, r + 1));
    }
    assert(la.len() == 33 && lb.len() == 33);
    let c = r / 8;
    assert(1 <= c <= 32 && r == 8 * c + 7);
    assert((r + 1) / 8 == c + 1 && (r + 1) % 8 == 0);
    crate::lane::lemma_lane_link_row(sa, la, c as nat);
    crate::lane::lemma_lane_link_row(sb, lb, c as nat);
    lemma_lane_digest_row(sa, la, c as nat);
    lemma_lane_digest_row(sb, lb, c as nat);
    let sib = inp.path.siblings@[c - 1];
    let b = bits[c - 1];
    assert(la[c] == Link::Place { other: sib, right: b });
    assert(lb[c] == Link::Place { other: sib, right: b });
    let da = cycle_digest(sa, la, c as nat);
    let db = cycle_digest(sb, lb, c as nat);
    assert(da.len() == 4 && db.len() == 4 && sib@.len() == 4);
    assert(nxt[24] == if b { 1u64 } else { 0u64 });
    assert forall|i: int| 0 <= i < 12 implies #[trigger] nxt[i] == link_start(la[c], da)[i] && nxt[12 + i] == link_start(lb[c], db)[i] by {}
    assert forall|i: int| 0 <= i < 4 implies #[trigger] cur[4 + i] == da[i] && cur[16 + i] == db[i] by {
        assert(cur[12 + (4 + i)] == lane_value(sb, lb, 4 + i, r));
    }
    assert forall|i: int| 0 <= i < 4 implies #[trigger] nxt[i] == 0 && nxt[12 + i] == 0 by {}
    if b {
        assert forall|i: int| 0 <= i < 4 implies #[trigger] nxt[8 + i] == cur[4 + i] && nxt[20 + i] == cur[16 + i] && nxt[4 + i] == nxt[16 + i] by {
            assert(nxt[12 + (8 + i)] == link_start(lb[c], db)[8 + i]);
            assert(nxt[12 + (4 + i)] == link_start(lb[c], db)[4 + i]);
        }
    } else {
        assert forall|i: int| 0 <= i < 4 implies #[trigger] nxt[4 + i] == cur[4 + i] && nxt[16 + i] == cur[16 + i] && nxt[8 + i] == nxt[20 + i] by {
            assert(nxt[12 + (8 + i)] == link_start(lb[c], db)[8 + i]);
            assert(nxt[12 + (4 + i)] == link_start(lb[c], db)[4 + i]);
        }
    }
    assert forall|j: int| (0 <= j < 4 || 12 <= j < 16) implies #[trigger] nxt[j] == 0 by {
        if j < 4 {
            assert(nxt[j] == 0 && nxt[12 + j] == 0);
        } else {
            assert(nxt[j - 12] == 0 && nxt[12 + (j - 12)] == 0);
        }
    }
    if b {
        assert forall|j: int| (8 <= j < 12 || 20 <= j < 24) implies #[trigger] nxt[j] == cur[j - 4] by {
            if j < 12 {
                let i = j - 8;
                assert(nxt[8 + i] == cur[4 + i]);
            } else {
                let i = j - 20;
                assert(nxt[20 + i] == cur[16 + i]);
            }
        }
        assert forall|j: int| 4 <= j < 8 implies #[trigger] nxt[j] == nxt[j + 12] by {
            let i = j - 4;
            assert(nxt[4 + i] == nxt[16 + i]);
        }
    } else {
        assert forall|j: int| (4 <= j < 8 || 16 <= j < 20) implies #[trigger] nxt[j] == cur[j] by {
            if j < 8 {
                let i = j - 4;
                assert(nxt[4 + i] == cur[4 + i]);
            } else {
                let i = j - 16;
                assert(nxt[16 + i] == cur[16 + i]);
            }
        }
        assert forall|j: int| 8 <= j < 12 implies #[trigger] nxt[j] == nxt[j + 12] by {
            let i = j - 8;
            assert(nxt[8 + i] == nxt[20 + i]);
        }
    }
}

/// The cells of the leaf link: both lanes keep their leaf and take the
/// nonce, the new lane the next one.
#[verifier::spinoff_prover]
#[verifier::rlimit(60)]
proof fn lemma_leaf_link_facts(inp: RecoveryClimbInputs, t: Seq<Vec<u64>>)
    requires
        t.len() == TRACE_WIDTH,
        forall|col: int, q: int|
            0 <= col < TRACE_WIDTH && 0 <= q < TRACE_LENGTH ==> #[trigger] t[col][q] == cell_spec(inp, col, q),
    ensures
        ({
            let cur = row_of(t, 7);
            let nxt = row_of(t, 8);
            &&& forall|j: int| (0 <= j < 4 || 12 <= j < 16) ==> #[trigger] nxt[j] == 0
            &&& forall|j: int| (4 <= j < 8 || 16 <= j < 20) ==> #[trigger] nxt[j] == cur[j]
            &&& nxt[8] == cur[34]
            &&& nxt[20] == add_spec(cur[34], 1u64)
        }),
{
    let cur = row_of(t, 7);
    let nxt = row_of(t, 8);
    let sa = lane_start(inp, false);
    let sb = lane_start(inp, true);
    let la = lane_links(inp, false);
    let lb = lane_links(inp, true);
    assert forall|i: int| 0 <= i < 12 implies #[trigger] cur[i] == lane_value(sa, la, i, 7) && nxt[i] == lane_value(sa, la, i, 8)
        && cur[12 + i] == lane_value(sb, lb, i, 7) && nxt[12 + i] == lane_value(sb, lb, i, 8) by {
        assert(t[i][7] == cell_spec(inp, i, 7));
        assert(t[i][8] == cell_spec(inp, i, 8));
        assert(t[12 + i][7] == cell_spec(inp, 12 + i, 7));
        assert(t[12 + i][8] == cell_spec(inp, 12 + i, 8));
    }
    assert(cur[34] == inp.nonce) by {
        assert(t[34][7] == cell_spec(inp, 34, 7));
    }
    assert(la.len() == 33 && lb.len() == 33);
    crate::lane::lemma_lane_link_row(sa, la, 0);
    crate::lane::lemma_lane_link_row(sb, lb, 0);
    lemma_lane_digest_row(sa, la, 0);
    lemma_lane_digest_row(sb, lb, 0);
    assert forall|i: int| 0 <= i < 4 implies #[trigger] nxt[i] == 0 && nxt[12 + i] == 0 && nxt[4 + i] == cur[4 + i] && nxt[16 + i] == cur[16 + i] by {
        assert(nxt[4 + i] == link_start(la[0], cycle_digest(sa, la, 0))[4 + i]);
        assert(nxt[12 + (4 + i)] == link_start(lb[0], cycle_digest(sb, lb, 0))[4 + i]);
        assert(nxt[i] == link_start(la[0], cycle_digest(sa, la, 0))[i]);
        assert(nxt[12 + i] == link_start(lb[0], cycle_digest(sb, lb, 0))[i]);
        assert(cur[4 + i] == lane_value(sa, la, 4 + i, 7));
        assert(cur[12 + (4 + i)] == lane_value(sb, lb, 4 + i, 7));
    }
    assert(nxt[8] == link_start(la[0], cycle_digest(sa, la, 0))[8]);
    assert(nxt[20] == link_start(lb[0], cycle_digest(sb, lb, 0))[8]);
    assert forall|j: int| (0 <= j < 4 || 12 <= j < 16) implies #[trigger] nxt[j] == 0 by {
        if j < 4 {
            assert(nxt[j] == 0 && nxt[12 + j] == 0);
        } else {
            assert(nxt[j - 12] == 0 && nxt[12 + (j - 12)] == 0);
        }
    }
    assert forall|j: int| (4 <= j < 8 || 16 <= j < 20) implies #[trigger] nxt[j] == cur[j] by {
        if j < 8 {
            let i = j - 4;
            assert(nxt[i] == 0 && nxt[4 + i] == cur[4 + i]);
        } else {
            let i = j - 16;
            assert(nxt[i] == 0 && nxt[16 + i] == cur[16 + i]);
        }
    }
}

/// The cells of the first row: each lane starts from its identity and the
/// balance.
#[verifier::spinoff_prover]
#[verifier::rlimit(40)]
proof fn lemma_first_row_facts(inp: RecoveryClimbInputs, t: Seq<Vec<u64>>)
    requires
        t.len() == TRACE_WIDTH,
        forall|col: int, q: int|
            0 <= col < TRACE_WIDTH && 0 <= q < TRACE_LENGTH ==> #[trigger] t[col][q] == cell_spec(inp, col, q),
        honest_inputs(inp),
    ensures
        ({
            let cur = row_of(t, 0);
            &&& forall|j: int| 4 <= j < 8 ==> #[trigger] cur[j] == cur[j + 21]
            &&& forall|j: int| 16 <= j < 20 ==> #[trigger] cur[j] == cur[j + 13]
            &&& cur[8] == cur[33]
            &&& cur[20] == cur[33]
        }),
{
    let cur = row_of(t, 0);
    let sa = lane_start(inp, false);
    let sb = lane_start(inp, true);
    let la = lane_links(inp, false);
    let lb = lane_links(inp, true);
    assert(crate::rescue::rounds(cycle_start(sa, la, 0), 0) == sa);
    assert(crate::rescue::rounds(cycle_start(sb, lb, 0), 0) == sb);
    assert forall|i: int| 0 <= i < 12 implies #[trigger] cur[i] == sa[i] && cur[12 + i] == sb[i] by {
        assert(t[i][0] == cell_spec(inp, i, 0));
        assert(t[12 + i][0] == cell_spec(inp, 12 + i, 0));
    }
    assert forall|i: int| 0 <= i < 4 implies #[trigger] cur[4 + i] == cur[25 + i] && cur[16 + i] == cur[29 + i] by {
        assert(t[25 + i][0] == cell_spec(inp, 25 + i, 0));
        assert(t[29 + i][0] == cell_spec(inp, 29 + i, 0));
        assert(cur[12 + (4 + i)] == sb[4 + i]);
    }
    assert(t[33][0] == cell_spec(inp, 33, 0));
    assert(cur[20] == sb[8]);
    assert forall|j: int| 4 <= j < 8 implies #[trigger] cur[j] == cur[j + 21] by {
        let i = j - 4;
        assert(cur[4 + i] == cur[25 + i]);
    }
    assert forall|j: int| 16 <= j < 20 implies #[trigger] cur[j] == cur[j + 13] by {
        let i = j - 16;
        assert(cur[16 + i] == cur[29 + i]);
    }
}

/// The residuals of the level links (constraints 24..48), from what a
/// level link row holds.
#[verifier::spinoff_prover]
#[verifier::rlimit(60)]
proof fn lemma_level_residuals(cur: Seq<u64>, nxt: Seq<u64>, per: Seq<u64>, r: int)
    requires
        cur.len() == TRACE_WIDTH,
        nxt.len() == TRACE_WIDTH,
        per.len() == 31,
        per[25] == (if level_link_row(r) { 1u64 } else { 0u64 }),
        level_link_row(r) ==> {
            &&& nxt[24] == 0 || nxt[24] == 1
            &&& forall|j: int| (0 <= j < 4 || 12 <= j < 16) ==> #[trigger] nxt[j] == 0
            &&& nxt[24] == 1 ==> forall|j: int| (8 <= j < 12 || 20 <= j < 24) ==> #[trigger] nxt[j] == cur[j - 4]
            &&& nxt[24] == 1 ==> forall|j: int| 4 <= j < 8 ==> #[trigger] nxt[j] == nxt[j + 12]
            &&& nxt[24] == 0 ==> forall|j: int| (4 <= j < 8 || 16 <= j < 20) ==> #[trigger] nxt[j] == cur[j]
            &&& nxt[24] == 0 ==> forall|j: int| 8 <= j < 12 ==> #[trigger] nxt[j] == nxt[j + 12]
        },
        cur[24] == 0 || cur[24] == 1,
    ensures
        forall|j: int| 0 <= j < 12 ==> #[trigger] residuals_0(cur, nxt, per)[j] == 0,
        forall|j: int| 0 <= j < 9 ==> #[trigger] residuals_1(cur, nxt, per)[j] == 0,
{
    let p: nat = MODULUS as nat;
    vstd::arithmetic::div_mod::lemma_small_mod(0, p);
    vstd::arithmetic::div_mod::lemma_small_mod(1, p);
    assert forall|x: u64| #[trigger] mul_spec(0u64, x) == 0 by {
        assert(0u64 * x == 0);
    }
    assert forall|x: u64| #[trigger] mul_spec(1u64, x) == reduce(x as int) by {
        assert(1u64 * x == x);
    }
    assert forall|x: u64| #[trigger] sub_spec(x, x) == 0 by {}
    assert(sub_spec(1u64, 1u64) == 0);
    assert(sub_spec(1u64, 0u64) == 1);
    assert(mul_spec(cur[24], sub_spec(cur[24], 1u64)) == 0) by {
        if cur[24] == 1 {
            assert(sub_spec(1u64, 1u64) == 0);
        } else {
            assert(0u64 * sub_spec(cur[24], 1u64) == 0);
        }
    }
    reveal(residuals_0);
    reveal(residuals_1);
}

/// The residuals of the leaf link (constraints 45..63), from what the
/// leaf link row holds.
#[verifier::spinoff_prover]
#[verifier::rlimit(60)]
proof fn lemma_leaf_residuals(cur: Seq<u64>, nxt: Seq<u64>, per: Seq<u64>, r: int)
    requires
        cur.len() == TRACE_WIDTH,
        nxt.len() == TRACE_WIDTH,
        per.len() == 31,
        per[26] == (if r == 7 { 1u64 } else { 0u64 }),
        r == 7 ==> {
            &&& forall|j: int| (0 <= j < 4 || 12 <= j < 16) ==> #[trigger] nxt[j] == 0
            &&& forall|j: int| (4 <= j < 8 || 16 <= j < 20) ==> #[trigger] nxt[j] == cur[j]
            &&& nxt[8] == cur[34]
            &&& nxt[20] == add_spec(cur[34], 1u64)
        },
    ensures
        forall|j: int| 9 <= j < 12 ==> #[trigger] residuals_1(cur, nxt, per)[j] == 0,
        forall|j: int| 0 <= j < 12 ==> #[trigger] residuals_2(cur, nxt, per)[j] == 0,
        forall|j: int| 0 <= j < 3 ==> #[trigger] residuals_3(cur, nxt, per)[j] == 0,
{
    let p: nat = MODULUS as nat;
    vstd::arithmetic::div_mod::lemma_small_mod(0, p);
    vstd::arithmetic::div_mod::lemma_small_mod(1, p);
    assert forall|x: u64| #[trigger] mul_spec(0u64, x) == 0 by {
        assert(0u64 * x == 0);
    }
    assert forall|x: u64| #[trigger] mul_spec(1u64, x) == reduce(x as int) by {
        assert(1u64 * x == x);
    }
    assert forall|x: u64| #[trigger] sub_spec(x, x) == 0 by {}
    assert(sub_spec(1u64, 1u64) == 0);
    assert(sub_spec(1u64, 0u64) == 1);
    assert forall|j: int| 9 <= j < 12 implies #[trigger] residuals_1(cur, nxt, per)[j] == 0 by {
        reveal(residuals_1);
    }
    assert forall|j: int| 0 <= j < 12 implies #[trigger] residuals_2(cur, nxt, per)[j] == 0 by {
        reveal(residuals_2);
    }
    assert forall|j: int| 0 <= j < 3 implies #[trigger] residuals_3(cur, nxt, per)[j] == 0 by {
        reveal(residuals_3);
    }
}

/// The residuals of the first row (constraints 63..73), from what it
/// holds.
#[verifier::spinoff_prover]
#[verifier::rlimit(60)]
proof fn lemma_first_residuals(cur: Seq<u64>, nxt: Seq<u64>, per: Seq<u64>, r: int)
    requires
        cur.len() == TRACE_WIDTH,
        nxt.len() == TRACE_WIDTH,
        per.len() == 31,
        per[27] == (if r == 0 { 1u64 } else { 0u64 }),
        r == 0 ==> {
            &&& forall|j: int| 4 <= j < 8 ==> #[trigger] cur[j] == cur[j + 21]
            &&& forall|j: int| 16 <= j < 20 ==> #[trigger] cur[j] == cur[j + 13]
            &&& cur[8] == cur[33]
            &&& cur[20] == cur[33]
        },
    ensures
        forall|j: int| 3 <= j < 12 ==> #[trigger] residuals_3(cur, nxt, per)[j] == 0,
        residuals_4(cur, nxt, per)[0] == 0,
{
    let p: nat = MODULUS as nat;
    vstd::arithmetic::div_mod::lemma_small_mod(0, p);
    vstd::arithmetic::div_mod::lemma_small_mod(1, p);
    assert forall|x: u64| #[trigger] mul_spec(0u64, x) == 0 by {
        assert(0u64 * x == 0);
    }
    assert forall|x: u64| #[trigger] mul_spec(1u64, x) == reduce(x as int) by {
        assert(1u64 * x == x);
    }
    assert forall|x: u64| #[trigger] sub_spec(x, x) == 0 by {}
    assert(sub_spec(1u64, 1u64) == 0);
    assert(sub_spec(1u64, 0u64) == 1);
    assert forall|j: int| 3 <= j < 12 implies #[trigger] residuals_3(cur, nxt, per)[j] == 0 by {
        reveal(residuals_3);
    }
    assert(residuals_4(cur, nxt, per)[0] == 0) by {
        reveal(residuals_4);
    }
}

/// The residuals of the counter and of the constant columns.
#[verifier::spinoff_prover]
#[verifier::rlimit(40)]
proof fn lemma_column_residuals(cur: Seq<u64>, nxt: Seq<u64>, per: Seq<u64>)
    requires
        cur.len() == TRACE_WIDTH,
        nxt.len() == TRACE_WIDTH,
        per.len() == 31,
        cur[36] == add_spec(cur[35], 1u64),
        forall|col: int| 25 <= col < 37 ==> #[trigger] sub_spec(nxt[col], cur[col]) == 0,
    ensures
        forall|j: int| 1 <= j < 12 ==> #[trigger] residuals_4(cur, nxt, per)[j] == 0,
        forall|j: int| 0 <= j < 2 ==> #[trigger] residuals_5(cur, nxt, per)[j] == 0,
{
    assert forall|x: u64| #[trigger] sub_spec(x, x) == 0 by {}
    assert(sub_spec(nxt[25], cur[25]) == 0);
    assert(sub_spec(nxt[26], cur[26]) == 0);
    assert(sub_spec(nxt[27], cur[27]) == 0);
    assert(sub_spec(nxt[28], cur[28]) == 0);
    assert(sub_spec(nxt[29], cur[29]) == 0);
    assert(sub_spec(nxt[30], cur[30]) == 0);
    assert(sub_spec(nxt[31], cur[31]) == 0);
    assert(sub_spec(nxt[32], cur[32]) == 0);
    assert(sub_spec(nxt[33], cur[33]) == 0);
    assert(sub_spec(nxt[34], cur[34]) == 0);
    assert(sub_spec(nxt[35], cur[35]) == 0);
    assert(sub_spec(nxt[36], cur[36]) == 0);
    reveal(residuals_4);
    reveal(residuals_5);
}

/// The selectors of the links at step `r`.
#[verifier::spinoff_prover]
proof fn lemma_link_selectors(r: int)
    requires
        0 <= r < TRACE_LENGTH - 1,
    ensures
        periodic_row(r)[25] == (if level_link_row(r) { 1u64 } else { 0u64 }),
        periodic_row(r)[26] == (if r == 7 { 1u64 } else { 0u64 }),
        periodic_row(r)[27] == (if r == 0 { 1u64 } else { 0u64 }),
{
    let per = periodic_row(r);
    let s7: Seq<usize> = seq![7usize];
    let s0: Seq<usize> = seq![0usize];
    assert(per[25] == selector_spec(acct_link_rows(), r));
    assert(per[26] == selector_spec(s7, r));
    assert(per[27] == selector_spec(s0, r));
    if r == 7 {
        assert(s7[0] == 7);
    }
    if r == 0 {
        assert(s0[0] == 0);
    }
    assert(acct_link_rows().len() == 32);
    if level_link_row(r) {
        let l = r / 8 - 1;
        if l == 0 {
            assert(acct_link_rows()[0] == 15);
        } else {
            assert(acct_link_rows()[l] == cycle_end_rows(2, 31)[l - 1]);
        }
        assert(acct_link_rows()[l] == r);
    } else {
        assert forall|l: int| 0 <= l < acct_link_rows().len() implies acct_link_rows()[l] != r by {
            if l > 0 {
                assert(acct_link_rows()[l] == cycle_end_rows(2, 31)[l - 1]);
            }
        }
    }
}

proof fn lemma_residuals_len_5(cur: Seq<u64>, nxt: Seq<u64>, per: Seq<u64>)
    ensures
        residuals_5(cur, nxt, per).len() == 8,
{
    reveal(residuals_5);
}

/// Every step of an honest trace satisfies every transition constraint,
/// when the balance fits in 63 bits and is the same in both leaves and the
/// counter moves by one: the rounds of both lanes, the nonce after each
/// leaf, the shared climb, the identities and balances on the first row,
/// the counter, the range check of the balance, and the constant columns.
#[verifier::spinoff_prover]
#[verifier::rlimit(60)]
pub proof fn lemma_trace_satisfies_constraints(inp: RecoveryClimbInputs, t: Seq<Vec<u64>>, r: int)
    requires
        t.len() == TRACE_WIDTH,
        forall|col: int, q: int|
            0 <= col < TRACE_WIDTH && 0 <= q < TRACE_LENGTH ==> #[trigger] t[col][q] == cell_spec(inp, col, q),
        lanes_hold(inp),
        inputs_ok(inp),
        honest_inputs(inp),
        0 <= r < TRACE_LENGTH - 1,
    ensures
        forall|k: int| 0 <= k < NUM_CONSTRAINTS ==> #[trigger] constraint_spec(k, row_of(t, r), row_of(t, r + 1), periodic_row(r)) == 0,
{
    let cur = row_of(t, r);
    let nxt = row_of(t, r + 1);
    let per = periodic_row(r);
    lemma_trace_satisfies_round_constraints(inp, t, r);
    lemma_trace_range_constraints(inp, t, r);
    lemma_link_selectors(r);
    if level_link_row(r) {
        lemma_level_link_facts(inp, t, r);
    }
    if r == 7 {
        lemma_leaf_link_facts(inp, t);
    }
    if r == 0 {
        lemma_first_row_facts(inp, t);
    }
    assert(cur[24] == 0 || cur[24] == 1) by {
        assert(t[24][r] == cell_spec(inp, 24, r));
    }
    assert(cur[36] == add_spec(cur[35], 1u64)) by {
        assert(t[35][r] == cell_spec(inp, 35, r));
        assert(t[36][r] == cell_spec(inp, 36, r));
    }
    assert forall|col: int| 25 <= col < 37 implies #[trigger] sub_spec(nxt[col], cur[col]) == 0 by {
        assert(t[col][r] == cell_spec(inp, col, r));
        assert(t[col][r + 1] == cell_spec(inp, col, r + 1));
    }
    lemma_level_residuals(cur, nxt, per, r);
    lemma_leaf_residuals(cur, nxt, per, r);
    lemma_first_residuals(cur, nxt, per, r);
    lemma_column_residuals(cur, nxt, per);
    lemma_residuals_len_0(cur, nxt, per);
    lemma_residuals_len_1(cur, nxt, per);
    lemma_residuals_len_2(cur, nxt, per);
    lemma_residuals_len_3(cur, nxt, per);
    lemma_residuals_len_4(cur, nxt, per);
    lemma_residuals_len_5(cur, nxt, per);
    assert forall|k: int| 24 <= k < NUM_CONSTRAINTS implies #[trigger] constraint_spec(k, cur, nxt, per) == 0 by {
        if k < 36 {
            assert(constraint_spec(k, cur, nxt, per) == residuals_0(cur, nxt, per)[k - 24]);
        } else if k < 48 {
            assert(constraint_spec(k, cur, nxt, per) == residuals_1(cur, nxt, per)[k - 36]);
        } else if k < 60 {
            assert(constraint_spec(k, cur, nxt, per) == residuals_2(cur, nxt, per)[k - 48]);
        } else if k < 72 {
            assert(constraint_spec(k, cur, nxt, per) == residuals_3(cur, nxt, per)[k - 60]);
        } else if k < 84 {
            assert(constraint_spec(k, cur, nxt, per) == residuals_4(cur, nxt, per)[k - 72]);
        } else {
            assert(constraint_spec(k, cur, nxt, per) == residuals_5(cur, nxt, per)[k - 84]);
        }
    }
}

#[verifier::spinoff_prover]
#[verifier::rlimit(100)]
proof fn lemma_accepted_constraint_86(cur: Seq<u64>, nxt: Seq<u64>, per: Seq<u64>)
    requires
        cur.len() == TRACE_WIDTH,
        nxt.len() == TRACE_WIDTH,
        all_canonical(cur),
        all_canonical(nxt),
        constraint_spec(86, cur, nxt, per) == 0,
    ensures
        cur[37] <= 1,
{
    lemma_residuals_len_0(cur, nxt, per);
    lemma_residuals_len_1(cur, nxt, per);
    lemma_residuals_len_2(cur, nxt, per);
    lemma_residuals_len_3(cur, nxt, per);
    lemma_residuals_len_4(cur, nxt, per);
    lemma_residuals_len_5(cur, nxt, per);
    assert(constraint_spec(86, cur, nxt, per) == residuals_5(cur, nxt, per)[2]);
    reveal(residuals_5);
    lemma_field_bit(cur[37]);
}

#[verifier::spinoff_prover]
#[verifier::rlimit(100)]
proof fn lemma_accepted_constraint_89(cur: Seq<u64>, nxt: Seq<u64>, per: Seq<u64>)
    requires
        cur.len() == TRACE_WIDTH,
        nxt.len() == TRACE_WIDTH,
        all_canonical(cur),
        all_canonical(nxt),
        constraint_spec(89, cur, nxt, per) == 0,
    ensures
        per[28] == 1 ==> cur[38] == 0,
{
    lemma_residuals_len_0(cur, nxt, per);
    lemma_residuals_len_1(cur, nxt, per);
    lemma_residuals_len_2(cur, nxt, per);
    lemma_residuals_len_3(cur, nxt, per);
    lemma_residuals_len_4(cur, nxt, per);
    lemma_residuals_len_5(cur, nxt, per);
    assert(constraint_spec(89, cur, nxt, per) == residuals_5(cur, nxt, per)[5]);
    reveal(residuals_5);
    if per[28] == 1 {
        lemma_selected(cur[38]);
    }
}

#[verifier::spinoff_prover]
#[verifier::rlimit(100)]
proof fn lemma_accepted_constraint_90(cur: Seq<u64>, nxt: Seq<u64>, per: Seq<u64>)
    requires
        cur.len() == TRACE_WIDTH,
        nxt.len() == TRACE_WIDTH,
        all_canonical(cur),
        all_canonical(nxt),
        constraint_spec(90, cur, nxt, per) == 0,
    ensures
        per[29] == 1 ==> nxt[38] == add_spec(add_spec(cur[38], cur[38]), nxt[37]),
{
    lemma_residuals_len_0(cur, nxt, per);
    lemma_residuals_len_1(cur, nxt, per);
    lemma_residuals_len_2(cur, nxt, per);
    lemma_residuals_len_3(cur, nxt, per);
    lemma_residuals_len_4(cur, nxt, per);
    lemma_residuals_len_5(cur, nxt, per);
    assert(constraint_spec(90, cur, nxt, per) == residuals_5(cur, nxt, per)[6]);
    reveal(residuals_5);
    lemma_reduce_canonical(cur[38] + cur[38]);
    lemma_reduce_canonical(add_spec(cur[38], cur[38]) + nxt[37]);
    if per[29] == 1 {
        lemma_selected_equal(per[29], nxt[38], add_spec(add_spec(cur[38], cur[38]), nxt[37]));
    }
}

#[verifier::spinoff_prover]
#[verifier::rlimit(100)]
proof fn lemma_accepted_constraint_91(cur: Seq<u64>, nxt: Seq<u64>, per: Seq<u64>)
    requires
        cur.len() == TRACE_WIDTH,
        nxt.len() == TRACE_WIDTH,
        all_canonical(cur),
        all_canonical(nxt),
        constraint_spec(91, cur, nxt, per) == 0,
    ensures
        per[30] == 1 ==> nxt[38] == cur[33],
{
    lemma_residuals_len_0(cur, nxt, per);
    lemma_residuals_len_1(cur, nxt, per);
    lemma_residuals_len_2(cur, nxt, per);
    lemma_residuals_len_3(cur, nxt, per);
    lemma_residuals_len_4(cur, nxt, per);
    lemma_residuals_len_5(cur, nxt, per);
    assert(constraint_spec(91, cur, nxt, per) == residuals_5(cur, nxt, per)[7]);
    reveal(residuals_5);
    if per[30] == 1 {
        lemma_selected_equal(per[30], nxt[38], cur[33]);
    }
}

#[verifier::spinoff_prover]
#[verifier::rlimit(100)]
proof fn lemma_accepted_constraint_74(cur: Seq<u64>, nxt: Seq<u64>, per: Seq<u64>)
    requires
        cur.len() == TRACE_WIDTH,
        nxt.len() == TRACE_WIDTH,
        all_canonical(cur),
        all_canonical(nxt),
        constraint_spec(74, cur, nxt, per) == 0,
    ensures
        nxt[33] == cur[33],
{
    lemma_residuals_len_0(cur, nxt, per);
    lemma_residuals_len_1(cur, nxt, per);
    lemma_residuals_len_2(cur, nxt, per);
    lemma_residuals_len_3(cur, nxt, per);
    lemma_residuals_len_4(cur, nxt, per);
    lemma_residuals_len_5(cur, nxt, per);
    assert(constraint_spec(74, cur, nxt, per) == residuals_4(cur, nxt, per)[2]);
    reveal(residuals_4);
    lemma_equal(nxt[33], cur[33]);
}

/// What the range-check constraints of one accepted step say: on the
/// first row of a segment the accumulator is zero, inside a segment the
/// next accumulator doubles it and adds the next bit, on the row before a
/// segment ends its accumulator is the value checked there, and the
/// balance keeps its value.
pub open spec fn range_step_facts(cur: Seq<u64>, nxt: Seq<u64>, per: Seq<u64>) -> bool {
    &&& cur[37] <= 1
    &&& per[28] == 1 ==> cur[38] == 0
    &&& per[29] == 1 ==> nxt[38] == add_spec(add_spec(cur[38], cur[38]), nxt[37])
    &&& per[30] == 1 ==> nxt[38] == cur[33]
    &&& nxt[33] == cur[33]
}

#[verifier::spinoff_prover]
#[verifier::rlimit(100)]
proof fn lemma_accepted_range_step(cur: Seq<u64>, nxt: Seq<u64>, per: Seq<u64>)
    requires
        cur.len() == TRACE_WIDTH,
        nxt.len() == TRACE_WIDTH,
        all_canonical(cur),
        all_canonical(nxt),
        forall|k: int| 0 <= k < NUM_CONSTRAINTS ==> #[trigger] constraint_spec(k, cur, nxt, per) == 0,
    ensures
        range_step_facts(cur, nxt, per),
{

    lemma_accepted_constraint_86(cur, nxt, per);
    lemma_accepted_constraint_89(cur, nxt, per);
    lemma_accepted_constraint_90(cur, nxt, per);
    lemma_accepted_constraint_91(cur, nxt, per);
    lemma_accepted_constraint_74(cur, nxt, per);


}

/// The range-check segment starting on row `s` of an accepted trace ends
/// on a value below `2^63`.
#[verifier::spinoff_prover]
#[verifier::rlimit(100)]
proof fn lemma_accepted_range_segment(t: Seq<Vec<u64>>, s: int)
    requires
        t.len() == TRACE_WIDTH,
        columns_shape(t, TRACE_LENGTH as nat),
        forall|r: int| #![trigger periodic_row(r)] 0 <= r < TRACE_LENGTH - 1 ==> range_step_facts(row_of(t, r), row_of(t, r + 1), periodic_row(r)),
        s == 0,
        s + 64 < TRACE_LENGTH,
    ensures
        t[38][s + 63] < 0x8000_0000_0000_0000,
{
    let bits = t[37]@;
    let accs = t[38]@;
    let firsts: Seq<usize> = seq![0usize];
    assert(firsts[s / 64] == s);
    assert(range_step_facts(row_of(t, s), row_of(t, s + 1), periodic_row(s)));
    assert(periodic_row(s)[28] == periodic_spec(28, s));
    assert(periodic_row(s)[28] == 1);
    assert(row_of(t, s)[38] == accs[s]);
    assert forall|i: int| s <= i < s + 63 implies #[trigger] accs[i + 1] == add_spec(add_spec(accs[i], accs[i]), bits[i + 1]) by {
        assert(range_step_facts(row_of(t, i), row_of(t, i + 1), periodic_row(i)));
        assert(i % 64 != 63);
        assert(periodic_row(i)[29] == periodic_spec(29, i));
        assert(periodic_row(i)[29] == 1);
        assert(row_of(t, i)[38] == accs[i]);
        assert(row_of(t, i + 1)[38] == accs[i + 1]);
        assert(row_of(t, i + 1)[37] == bits[i + 1]);
    }
    assert forall|i: int| s <= i < s + 64 implies #[trigger] bits[i] <= 1 by {
        assert(range_step_facts(row_of(t, i), row_of(t, i + 1), periodic_row(i)));
        assert(row_of(t, i)[37] == bits[i]);
    }
    lemma_accepted_segment(bits, accs, s);
}

/// What an accepted recovery-climb trace proves of the balance. Take any
/// trace whose every step satisfies every transition constraint with the
/// periodic values of `periodic_columns` (the field is prime, so `b * (b -
/// 1) = 0` makes each range-check cell a bit). Its range-check segment ends
/// on the balance of its first row, which is below `2^63`.
#[verifier::spinoff_prover]
#[verifier::rlimit(100)]
pub proof fn lemma_accepted_climb_balance_in_range(t: Seq<Vec<u64>>)
    requires
        t.len() == TRACE_WIDTH,
        columns_shape(t, TRACE_LENGTH as nat),
        forall|r: int, k: int|
            0 <= r < TRACE_LENGTH - 1 && 0 <= k < NUM_CONSTRAINTS ==> #[trigger] constraint_spec(
                k,
                row_of(t, r),
                row_of(t, r + 1),
                periodic_row(r),
            ) == 0,
    ensures
        t[38][63] == t[33][0],
        t[33][0] < 0x8000_0000_0000_0000,
{
    assert forall|r: int| #![trigger periodic_row(r)] 0 <= r < TRACE_LENGTH - 1 implies range_step_facts(row_of(t, r), row_of(t, r + 1), periodic_row(r)) by {
        let cur = row_of(t, r);
        let nxt = row_of(t, r + 1);
        assert forall|k: int| 0 <= k < NUM_CONSTRAINTS implies #[trigger] constraint_spec(k, cur, nxt, periodic_row(r)) == 0 by {
            assert(constraint_spec(k, row_of(t, r), row_of(t, r + 1), periodic_row(r)) == 0);
        }
        assert forall|c: int| 0 <= c < TRACE_WIDTH implies #[trigger] cur[c] < MODULUS && nxt[c] < MODULUS by {
            assert(all_canonical(t[c]@));
        }
        lemma_accepted_range_step(cur, nxt, periodic_row(r));
    }
    assert forall|q: int| 0 <= q < 63 implies #[trigger] t[33]@[q + 1] == t[33]@[q] by {
        assert(range_step_facts(row_of(t, q), row_of(t, q + 1), periodic_row(q)));
    }
    lemma_column_kept(t[33]@, 62);
    assert(periodic_row(62)[30] == 1) by {
        let one: Seq<usize> = seq![62usize];
        assert(one[0] == 62);
        assert(periodic_row(62)[30] == selector_spec(one, 62));
    }
    assert(range_step_facts(row_of(t, 62), row_of(t, 63), periodic_row(62)));
    lemma_accepted_range_segment(t, 0);
    assert(t[33]@[62] == t[33]@[0]);
}

} // verus!
