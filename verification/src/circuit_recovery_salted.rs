//! Account recovery authorised by two custodians, over salted leaves.
//!
//! A compromised spend key used to mean money lost for good. Here two
//! distinct custodians of the set reassign an account to a new identity
//! at the same position of the tree. The balance does not change, the
//! nonce goes up by one, and a public recovery counter goes up so that
//! every intervention is counted. The leaf salt is copied: the recovered
//! leaf keeps the salt of the old key.
//!
//! | Cycles | Rows | Phase |
//! |---|---|---|
//! | 0..3 | 0..23 | leaf, nonce, salt (A old identity, B new) |
//! | 3..35 | 24..279 | account climb |
//! | 35 | 280..287 | custodian identities (A key A, B key B) |
//! | 36..40 | 288..319 | custodian climbs |

use vstd::prelude::*;
use vstd::arithmetic::power2::pow2;
use crate::boundary::{pairs, push_pairs, push_run, run};
use crate::circuit_settlement::{leaf_salted_spec, path_ok, root_of};
use crate::circuit_threshold::{custodian_id_spec, lane_root_spec, path_ok as custodian_path_ok, CustodianPath, CUSTODIAN_DEPTH};
use crate::domains::CUSTODIAN_DOMAIN;
use crate::constraints::{lemma_equal, lemma_reduce_canonical, lemma_selected, lemma_selected_equal, rounds_hold, round_residuals, round_residuals_spec};
use crate::field::{MODULUS, add_spec, all_canonical, fadd, felt, fmul, fsub, mul_spec, reduce, sub_spec};
use crate::lane::{cycle_start, cycle_digest, lane_value, lemma_append_link, lemma_fresh_link, lemma_lane_digest_row, link_start, program_columns, Link};
use crate::merkle::{climb_links, lemma_links_climb, push_climb_links, MerklePath};
use crate::periodic::{
    ark_spec, bits_value, continue_column, continue_spec, cycle_end_rows, hash_flag_spec, index_acc_column_from,
    levels_done_from, point_column, point_spec, push_cycle_end_rows, push_row_selector, round_columns, selector_column,
    selector_spec,
};
use crate::prime::lemma_field_bit;
use crate::rescue::{as_digest, as_digest_spec, digest_arr, lemma_digest_arr, lemma_merge_arr, merge_arr, merge_state, merge_state_of, Digest};

use crate::solvency::{lemma_accepted_segment, lemma_checked_gap, seg_acc, seg_bit, segment_columns};
use crate::trace::{lemma_column_kept, row_of, columns_shape, constant_column, cycle_bit_column, cycle_bit_spec, overlay_columns, prefix_bits};

verus! {

pub const TRACE_LENGTH: usize = 512;
pub const SEGMENT_LENGTH: usize = 64;
/// Balance, index A, index B, and `B - A - 1`.
pub const NUM_SEGMENTS: usize = 4;

pub const COL_BIT_A: usize = 24;
pub const COL_BIT_B: usize = 25;
pub const COL_KEY_A: usize = 26;
pub const COL_KEY_B: usize = 27;
pub const COL_IDX_A: usize = 28;
pub const COL_IDX_B: usize = 29;
pub const COL_ACC_A: usize = 30;
pub const COL_ACC_B: usize = 31;
pub const COL_ID_OLD: usize = 32;
pub const COL_ID_NEW: usize = 36;
pub const COL_BAL: usize = 40;
pub const COL_NONCE: usize = 41;
pub const COL_COUNT_OLD: usize = 42;
pub const COL_COUNT_NEW: usize = 43;
pub const COL_SBIT: usize = 44;
pub const COL_SACC: usize = 45;
pub const COL_LEAF_SALT: usize = 46;
pub const TRACE_WIDTH: usize = 50;

pub const CYC_ACC: usize = 3;
pub const CYC_ACCT_ROOT: usize = 35;
pub const CYC_CUST: usize = 36;
pub const ROW_LEAF_LINK: usize = 7;
pub const ROW_SALT_LINK: usize = 15;
pub const ROW_LEAF_DONE: usize = 23;
pub const ROW_ACCT_ROOT: usize = 279;
pub const ROW_CUST_START: usize = 280;
pub const ROW_CUST_ROOT: usize = 319;

/// The authorisation of two custodians: their keys, their indices in the
/// set, and their paths.
#[derive(Clone, Debug)]
pub struct ThresholdAuth {
    pub key_a: u64,
    pub index_a: u64,
    pub path_a: CustodianPath,
    pub key_b: u64,
    pub index_b: u64,
    pub path_b: CustodianPath,
}

/// Everything a recovery trace is built from.
pub struct RecoveryInputs {
    pub auth: ThresholdAuth,
    pub id_old: Digest,
    pub id_new: Digest,
    pub balance: u64,
    pub balance_new: u64,
    pub nonce: u64,
    pub leaf_salt: Digest,
    pub path: MerklePath,
    pub count_old: u64,
    pub count_delta: u64,
}

pub open spec fn inputs_ok(inp: RecoveryInputs) -> bool {
    &&& inp.auth.key_a < MODULUS
    &&& inp.auth.key_b < MODULUS
    &&& custodian_path_ok(inp.auth.path_a)
    &&& custodian_path_ok(inp.auth.path_b)
    &&& all_canonical(inp.id_old@)
    &&& all_canonical(inp.id_new@)
    &&& inp.nonce < MODULUS
    &&& all_canonical(inp.leaf_salt@)
    &&& path_ok(inp.path, 32)
}

/// The values the range checks cover.
pub open spec fn segment_values_spec(inp: RecoveryInputs) -> Seq<u64> {
    seq![
        reduce(inp.balance as int),
        inp.auth.index_a,
        inp.auth.index_b,
        sub_spec(sub_spec(reduce(inp.auth.index_b as int), reduce(inp.auth.index_a as int)), 1),
    ]
}

/// The links of a lane: nonce, leaf salt, account climb, custodian
/// identity of `key`, custodian climb along `cpath`.
pub open spec fn recovery_links(nonce: u64, inp: RecoveryInputs, key: u64, cpath: CustodianPath) -> Seq<Link> {
    seq![
        Link::Place { other: digest_arr(nonce), right: false },
        Link::Place { other: inp.leaf_salt, right: false },
    ] + climb_links(inp.path.siblings@, inp.path.is_right@, 0, 32) + seq![
        Link::Fresh { state: merge_arr(digest_arr(CUSTODIAN_DOMAIN), digest_arr(key)) },
    ] + climb_links(cpath.siblings@, cpath.is_right@, 0, 4)
}

pub open spec fn lane_links(inp: RecoveryInputs, new: bool) -> Seq<Link> {
    if new {
        recovery_links(add_spec(inp.nonce, 1), inp, inp.auth.key_b, inp.auth.path_b)
    } else {
        recovery_links(inp.nonce, inp, inp.auth.key_a, inp.auth.path_a)
    }
}

pub open spec fn lane_start(inp: RecoveryInputs, new: bool) -> Seq<u64> {
    if new {
        merge_state(inp.id_new@, as_digest_spec(reduce(inp.balance_new as int)))
    } else {
        merge_state(inp.id_old@, as_digest_spec(reduce(inp.balance as int)))
    }
}

/// The column of direction bits of lane A: the account path in cycles
/// 3..35, then custodian A's path in cycles 36..40.
pub open spec fn bit_a_spec(inp: RecoveryInputs, r: int) -> u64 {
    let acct = cycle_bit_spec(inp.path.is_right@.subrange(0, 32), CYC_ACC as int, r);
    let cust = cycle_bit_spec(inp.auth.path_a.is_right@.subrange(0, 4), CYC_CUST as int, r);
    if acct == 0 { cust } else { acct }
}

/// The value of the trace at column `col` and row `r`.
pub open spec fn cell_spec(inp: RecoveryInputs, col: int, r: int) -> u64 {
    let segs = segment_values_spec(inp);
    if col < 12 {
        lane_value(lane_start(inp, false), lane_links(inp, false), col, r)
    } else if col < 24 {
        lane_value(lane_start(inp, true), lane_links(inp, true), col - 12, r)
    } else if col == COL_BIT_A {
        bit_a_spec(inp, r)
    } else if col == COL_BIT_B {
        cycle_bit_spec(inp.auth.path_b.is_right@.subrange(0, 4), CYC_CUST as int, r)
    } else if col == COL_KEY_A {
        inp.auth.key_a
    } else if col == COL_KEY_B {
        inp.auth.key_b
    } else if col == COL_IDX_A {
        reduce(inp.auth.index_a as int)
    } else if col == COL_IDX_B {
        reduce(inp.auth.index_b as int)
    } else if col == COL_ACC_A {
        reduce(bits_value(inp.auth.path_a.is_right@, levels_done_from(r, CYC_ACCT_ROOT as int, 4) as nat))
    } else if col == COL_ACC_B {
        reduce(bits_value(inp.auth.path_b.is_right@, levels_done_from(r, CYC_ACCT_ROOT as int, 4) as nat))
    } else if col < COL_ID_NEW {
        inp.id_old@[col - COL_ID_OLD]
    } else if col < COL_BAL {
        inp.id_new@[col - COL_ID_NEW]
    } else if col == COL_BAL {
        reduce(inp.balance as int)
    } else if col == COL_NONCE {
        inp.nonce
    } else if col == COL_COUNT_OLD {
        reduce(inp.count_old as int)
    } else if col == COL_COUNT_NEW {
        add_spec(reduce(inp.count_old as int), reduce(inp.count_delta as int))
    } else if col == COL_SBIT {
        if r < 256 {
            seg_bit(segs[r / 64], 64, (r % 64) as nat)
        } else {
            0
        }
    } else if col == COL_SACC {
        if r < 256 {
            reduce(seg_acc(segs[r / 64], 64, (r % 64) as nat) as int)
        } else {
            0
        }
    } else {
        inp.leaf_salt@[col - COL_LEAF_SALT]
    }
}

/// Builds the links of one lane.
fn build_recovery_links(
    inp: Ghost<RecoveryInputs>,
    nonce: u64,
    leaf_salt: &Digest,
    path: &MerklePath,
    key: u64,
    cpath: &CustodianPath,
) -> (links: Vec<Link>)
    requires
        inputs_ok(inp@),
        nonce < MODULUS,
        inp@.leaf_salt == *leaf_salt,
        inp@.path == *path,
        key < MODULUS,
        custodian_path_ok(*cpath),
    ensures
        links@ == recovery_links(nonce, inp@, key, *cpath),
        crate::lane::links_canonical(links@),
        links.len() == 39,
{
    let mut links: Vec<Link> = Vec::new();
    links.push(Link::Place { other: as_digest(nonce), right: false });
    links.push(Link::Place { other: *leaf_salt, right: false });
    push_climb_links(&mut links, &path.siblings, &path.is_right, 0, 32);
    links.push(Link::Fresh { state: merge_state_of(&as_digest(CUSTODIAN_DOMAIN), &as_digest(key)) });
    push_climb_links(&mut links, &cpath.siblings, &cpath.is_right, 0, CUSTODIAN_DEPTH);
    assert(links@ =~= recovery_links(nonce, inp@, key, *cpath));
    links
}

/// Builds the trace of a recovery. `balance_new` may differ from
/// `balance`, and `count_delta` from one, so that traces that move money or
/// recover silently can be built; the constraints reject them.
pub fn build_trace(
    auth: &ThresholdAuth,
    id_old: &Digest,
    id_new: &Digest,
    balance: u64,
    balance_new: u64,
    nonce: u64,
    leaf_salt: &Digest,
    path: &MerklePath,
    count_old: u64,
    count_delta: u64,
) -> (cols: Vec<Vec<u64>>)
    requires
        inputs_ok(
            RecoveryInputs {
                auth: *auth,
                id_old: *id_old,
                id_new: *id_new,
                balance,
                balance_new,
                nonce,
                leaf_salt: *leaf_salt,
                path: *path,
                count_old,
                count_delta,
            },
        ),
    ensures
        cols.len() == TRACE_WIDTH,
        columns_shape(cols@, TRACE_LENGTH as nat),
        forall|col: int, r: int|
            0 <= col < TRACE_WIDTH && 0 <= r < TRACE_LENGTH ==> #[trigger] cols[col][r] == cell_spec(
                RecoveryInputs {
                    auth: *auth,
                    id_old: *id_old,
                    id_new: *id_new,
                    balance,
                    balance_new,
                    nonce,
                    leaf_salt: *leaf_salt,
                    path: *path,
                    count_old,
                    count_delta,
                },
                col,
                r,
            ),
        forall|r: int, k: int|
            0 <= r < TRACE_LENGTH - 1 && 0 <= k < 24 ==> #[trigger] constraint_spec(
                k,
                row_of(cols@, r),
                row_of(cols@, r + 1),
                periodic_row(r),
            ) == 0,
        reduce(balance as int) < 0x8000_0000_0000_0000 && auth.index_a as int == bits_value(
            auth.path_a.is_right@,
            4,
        ) && auth.index_b as int == bits_value(auth.path_b.is_right@, 4) && auth.index_a < auth.index_b
            ==> forall|r: int, k: int|
            0 <= r < TRACE_LENGTH - 1 && 105 <= k < 114 ==> #[trigger] constraint_spec(
                k,
                row_of(cols@, r),
                row_of(cols@, r + 1),
                periodic_row(r),
            ) == 0,
        honest_recovery(
            RecoveryInputs {
                auth: *auth,
                id_old: *id_old,
                id_new: *id_new,
                balance,
                balance_new,
                nonce,
                leaf_salt: *leaf_salt,
                path: *path,
                count_old,
                count_delta,
            },
        ) ==> forall|r: int, k: int|
            0 <= r < TRACE_LENGTH - 1 && 0 <= k < NUM_CONSTRAINTS ==> #[trigger] constraint_spec(
                k,
                row_of(cols@, r),
                row_of(cols@, r + 1),
                periodic_row(r),
            ) == 0,
{
    let ghost inp = RecoveryInputs {
        auth: *auth,
        id_old: *id_old,
        id_new: *id_new,
        balance,
        balance_new,
        nonce,
        leaf_salt: *leaf_salt,
        path: *path,
        count_old,
        count_delta,
    };
    let c_bal = felt(balance);
    let c_bal_new = felt(balance_new);
    let nonce_new = fadd(nonce, 1);
    let c_count_old = felt(count_old);
    let c_count_new = fadd(c_count_old, felt(count_delta));
    let lanes_a = build_recovery_links(Ghost(inp), nonce, leaf_salt, path, auth.key_a, &auth.path_a);
    let lanes_b = build_recovery_links(Ghost(inp), nonce_new, leaf_salt, path, auth.key_b, &auth.path_b);
    let s0a = merge_state_of(id_old, &as_digest(c_bal));
    let s0b = merge_state_of(id_new, &as_digest(c_bal_new));
    let mut cols = program_columns(&s0a, &lanes_a, TRACE_LENGTH);
    let mut cols_b = program_columns(&s0b, &lanes_b, TRACE_LENGTH);
    let ghost lanes_ok = lanes_hold(inp);
    proof {
        assert(lanes_ok);
    }
    cols.append(&mut cols_b);
    let acct_bits = prefix_bits(&path.is_right, 32);
    let a_bits = prefix_bits(&auth.path_a.is_right, CUSTODIAN_DEPTH);
    let b_bits = prefix_bits(&auth.path_b.is_right, CUSTODIAN_DEPTH);
    let acct_col = cycle_bit_column(&acct_bits, CYC_ACC, TRACE_LENGTH);
    let a_col = cycle_bit_column(&a_bits, CYC_CUST, TRACE_LENGTH);
    cols.push(overlay_columns(&acct_col, &a_col));
    cols.push(cycle_bit_column(&b_bits, CYC_CUST, TRACE_LENGTH));
    cols.push(constant_column(auth.key_a, TRACE_LENGTH));
    cols.push(constant_column(auth.key_b, TRACE_LENGTH));
    cols.push(constant_column(felt(auth.index_a), TRACE_LENGTH));
    cols.push(constant_column(felt(auth.index_b), TRACE_LENGTH));
    cols.push(index_acc_column_from(&auth.path_a.is_right, CYC_ACCT_ROOT, CUSTODIAN_DEPTH, TRACE_LENGTH));
    cols.push(index_acc_column_from(&auth.path_b.is_right, CYC_ACCT_ROOT, CUSTODIAN_DEPTH, TRACE_LENGTH));
    push_digest_columns(&mut cols, id_old, Ghost(inp));
    push_digest_columns(&mut cols, id_new, Ghost(inp));
    cols.push(constant_column(c_bal, TRACE_LENGTH));
    cols.push(constant_column(nonce, TRACE_LENGTH));
    cols.push(constant_column(c_count_old, TRACE_LENGTH));
    cols.push(constant_column(c_count_new, TRACE_LENGTH));
    let diff = fsub(fsub(felt(auth.index_b), felt(auth.index_a)), 1);
    let segment_values: Vec<u64> = vec![c_bal, auth.index_a, auth.index_b, diff];
    assert(segment_values@ =~= segment_values_spec(inp));
    let (sbit_col, sacc_col) = segment_columns(&segment_values, SEGMENT_LENGTH, TRACE_LENGTH);
    cols.push(sbit_col);
    cols.push(sacc_col);
    proof {
        assert forall|col: int, r: int|
            COL_SBIT <= col < cols.len() && 0 <= r < TRACE_LENGTH implies #[trigger] cols[col][r] == cell_spec(inp, col, r) by {
            if r < 256 {
                let sg = r / 64;
                let p = r % 64;
                assert(r == sg * 64 + p);
            }
        }
    }
    push_digest_columns(&mut cols, leaf_salt, Ghost(inp));
    proof {
        assert forall|r: int, k: int|
            0 <= r < TRACE_LENGTH - 1 && 0 <= k < 24 implies #[trigger] constraint_spec(
            k,
            row_of(cols@, r),
            row_of(cols@, r + 1),
            periodic_row(r),
        ) == 0 by {
            lemma_trace_satisfies_round_constraints(inp, cols@, r);
        }
        if range_inputs_ok(inp) {
            assert forall|r: int, k: int|
                0 <= r < TRACE_LENGTH - 1 && 105 <= k < 114 implies #[trigger] constraint_spec(
                k,
                row_of(cols@, r),
                row_of(cols@, r + 1),
                periodic_row(r),
            ) == 0 by {
                lemma_trace_satisfies_range_constraints(inp, cols@, r);
            }
        }
        if honest_recovery(inp) {
            assert forall|r: int, k: int|
                0 <= r < TRACE_LENGTH - 1 && 0 <= k < NUM_CONSTRAINTS implies #[trigger] constraint_spec(
                k,
                row_of(cols@, r),
                row_of(cols@, r + 1),
                periodic_row(r),
            ) == 0 by {
                lemma_trace_satisfies_constraints(inp, cols@, r);
            }
        }
    }
    cols
}

/// Appends the four constant columns of a digest the trace carries from
/// column `cols.len()` on.
fn push_digest_columns(cols: &mut Vec<Vec<u64>>, d: &Digest, inp: Ghost<RecoveryInputs>)
    requires
        all_canonical(d@),
        columns_shape(old(cols)@, TRACE_LENGTH as nat),
        old(cols).len() + 4 <= TRACE_WIDTH,
        forall|col: int, r: int|
            old(cols).len() <= col < old(cols).len() + 4 && 0 <= r < TRACE_LENGTH ==> #[trigger] cell_spec(inp@, col, r)
                == d@[col - old(cols).len()],
        forall|col: int, r: int|
            0 <= col < old(cols).len() && 0 <= r < TRACE_LENGTH ==> #[trigger] old(cols)[col][r] == cell_spec(inp@, col, r),
    ensures
        final(cols).len() == old(cols).len() + 4,
        columns_shape(final(cols)@, TRACE_LENGTH as nat),
        forall|col: int, r: int|
            0 <= col < final(cols).len() && 0 <= r < TRACE_LENGTH ==> #[trigger] final(cols)[col][r] == cell_spec(inp@, col, r),
{
    let ghost start = cols.len();
    let mut i: usize = 0;
    while i < 4
        invariant
            i <= 4,
            all_canonical(d@),
            cols.len() == start + i,
            start + 4 <= TRACE_WIDTH,
            columns_shape(cols@, TRACE_LENGTH as nat),
            forall|col: int, r: int|
                start <= col < start + 4 && 0 <= r < TRACE_LENGTH ==> #[trigger] cell_spec(inp@, col, r) == d@[col - start],
            forall|col: int, r: int|
                0 <= col < cols.len() && 0 <= r < TRACE_LENGTH ==> #[trigger] cols[col][r] == cell_spec(inp@, col, r),
        decreases 4 - i,
    {
        cols.push(constant_column(d[i], TRACE_LENGTH));
        proof {
            assert forall|r: int| 0 <= r < TRACE_LENGTH implies #[trigger] cols[(start + i) as int][r] == cell_spec(inp@, start + i, r) by {
                assert(cell_spec(inp@, start + i, r) == d@[(start + i) - start]);
            }
        }
        i = i + 1;
    }
}


/// The digests a lane computes, cycle by cycle.
proof fn lemma_recovery_digests(inp: RecoveryInputs, id: Seq<u64>, bal: u64, nonce: u64, key: u64, cpath: CustodianPath)
    requires
        inputs_ok(inp),
        custodian_path_ok(cpath),
    ensures
        ({
            let s0 = merge_state(id, as_digest_spec(bal));
            let l = recovery_links(nonce, inp, key, cpath);
            let leaf = leaf_salted_spec(id, bal, nonce, inp.leaf_salt@);
            &&& l.len() == 39
            &&& cycle_digest(s0, l, 2) == leaf
            &&& cycle_digest(s0, l, 34) == root_of(leaf, inp.path)
            &&& cycle_digest(s0, l, 35) == custodian_id_spec(key)
            &&& cycle_digest(s0, l, 39) == lane_root_spec(key, cpath)
        }),
{
    let s0 = merge_state(id, as_digest_spec(bal));
    let l = recovery_links(nonce, inp, key, cpath);
    lemma_digest_arr(nonce);
    lemma_digest_arr(CUSTODIAN_DOMAIN);
    lemma_digest_arr(key);
    assert(l[0] == Link::Place { other: digest_arr(nonce), right: false });
    lemma_append_link(s0, l, 0, digest_arr(nonce));
    assert(l[1] == Link::Place { other: inp.leaf_salt, right: false });
    lemma_append_link(s0, l, 1, inp.leaf_salt);
    let leaf = leaf_salted_spec(id, bal, nonce, inp.leaf_salt@);
    assert(l.subrange(2, 34) =~= climb_links(inp.path.siblings@, inp.path.is_right@, 0, 32));
    lemma_links_climb(s0, l, 2, leaf, inp.path.siblings@, inp.path.is_right@, 0, 32);
    let cs = merge_arr(digest_arr(CUSTODIAN_DOMAIN), digest_arr(key));
    assert(l[34] == Link::Fresh { state: cs });
    lemma_fresh_link(s0, l, 34, cs);
    lemma_merge_arr(digest_arr(CUSTODIAN_DOMAIN), digest_arr(key));
    assert(l.subrange(35, 39) =~= climb_links(cpath.siblings@, cpath.is_right@, 0, 4));
    lemma_links_climb(s0, l, 35, custodian_id_spec(key), cpath.siblings@, cpath.is_right@, 0, 4);
}

/// Where the trace shows what the recovery proves: the old leaf (old
/// identity, same salt) climbs to the old root in lane A and the new leaf
/// (new identity, next nonce) to the new root in lane B, along the same
/// path; each custodian's identity climbs to the root of the set, and the
/// index accumulators end on the value of the custodians' direction bits.
pub proof fn lemma_trace_landmarks(inp: RecoveryInputs)
    requires
        inputs_ok(inp),
    ensures
        ({
            let leaf_old = leaf_salted_spec(inp.id_old@, reduce(inp.balance as int), inp.nonce, inp.leaf_salt@);
            let leaf_new = leaf_salted_spec(inp.id_new@, reduce(inp.balance_new as int), add_spec(inp.nonce, 1), inp.leaf_salt@);
            &&& forall|i: int| 0 <= i < 4 ==> #[trigger] cell_spec(inp, 4 + i, ROW_ACCT_ROOT as int) == root_of(leaf_old, inp.path)[i]
            &&& forall|i: int| 0 <= i < 4 ==> #[trigger] cell_spec(inp, 16 + i, ROW_ACCT_ROOT as int) == root_of(leaf_new, inp.path)[i]
            &&& forall|i: int| 0 <= i < 4 ==> #[trigger] cell_spec(inp, 4 + i, ROW_CUST_ROOT as int) == lane_root_spec(
                inp.auth.key_a,
                inp.auth.path_a,
            )[i]
            &&& forall|i: int| 0 <= i < 4 ==> #[trigger] cell_spec(inp, 16 + i, ROW_CUST_ROOT as int) == lane_root_spec(
                inp.auth.key_b,
                inp.auth.path_b,
            )[i]
            &&& cell_spec(inp, COL_ACC_A as int, ROW_CUST_ROOT as int) == reduce(bits_value(inp.auth.path_a.is_right@, 4))
            &&& cell_spec(inp, COL_ACC_B as int, ROW_CUST_ROOT as int) == reduce(bits_value(inp.auth.path_b.is_right@, 4))
        }),
{
    let la = lane_links(inp, false);
    let lb = lane_links(inp, true);
    let s0a = lane_start(inp, false);
    let s0b = lane_start(inp, true);
    lemma_recovery_digests(inp, inp.id_old@, reduce(inp.balance as int), inp.nonce, inp.auth.key_a, inp.auth.path_a);
    lemma_recovery_digests(
        inp,
        inp.id_new@,
        reduce(inp.balance_new as int),
        add_spec(inp.nonce, 1),
        inp.auth.key_b,
        inp.auth.path_b,
    );
    lemma_lane_digest_row(s0a, la, 34);
    lemma_lane_digest_row(s0b, lb, 34);
    lemma_lane_digest_row(s0a, la, 39);
    lemma_lane_digest_row(s0b, lb, 39);
}

/// The public inputs of a recovery.
#[derive(Clone, Debug)]
pub struct RecoveryPublicInputs {
    pub root_old: Digest,
    pub root_new: Digest,
    pub custodian_set_root: Digest,
    /// The recovery counter before.
    pub recovery_count_old: u64,
    /// And after: `old + 1`, so that every recovery is counted.
    pub recovery_count_new: u64,
}

impl RecoveryPublicInputs {
    /// Old root, new root, custodian root, counters, in that order.
    pub fn to_elements(&self) -> (r: Vec<u64>)
        ensures
            r@ == self.root_old@ + self.root_new@ + self.custodian_set_root@ + seq![
                self.recovery_count_old,
                self.recovery_count_new,
            ],
    {
        let r = vec![
            self.root_old[0],
            self.root_old[1],
            self.root_old[2],
            self.root_old[3],
            self.root_new[0],
            self.root_new[1],
            self.root_new[2],
            self.root_new[3],
            self.custodian_set_root[0],
            self.custodian_set_root[1],
            self.custodian_set_root[2],
            self.custodian_set_root[3],
            self.recovery_count_old,
            self.recovery_count_new,
        ];
        assert(r@ =~= self.root_old@ + self.root_new@ + self.custodian_set_root@ + seq![
            self.recovery_count_old,
            self.recovery_count_new,
        ]);
        r
    }
}

/// The public inputs a trace shows.
pub fn public_inputs_of(trace: &Vec<Vec<u64>>) -> (pi: RecoveryPublicInputs)
    requires
        trace.len() == TRACE_WIDTH,
        columns_shape(trace@, TRACE_LENGTH as nat),
    ensures
        forall|i: int| 0 <= i < 4 ==> #[trigger] pi.root_old[i] == trace[4 + i][ROW_ACCT_ROOT as int],
        forall|i: int| 0 <= i < 4 ==> #[trigger] pi.root_new[i] == trace[16 + i][ROW_ACCT_ROOT as int],
        forall|i: int| 0 <= i < 4 ==> #[trigger] pi.custodian_set_root[i] == trace[4 + i][ROW_CUST_ROOT as int],
        pi.recovery_count_old == trace[COL_COUNT_OLD as int][0],
        pi.recovery_count_new == trace[COL_COUNT_NEW as int][0],
{
    RecoveryPublicInputs {
        root_old: [trace[4][ROW_ACCT_ROOT], trace[5][ROW_ACCT_ROOT], trace[6][ROW_ACCT_ROOT], trace[7][ROW_ACCT_ROOT]],
        root_new: [trace[16][ROW_ACCT_ROOT], trace[17][ROW_ACCT_ROOT], trace[18][ROW_ACCT_ROOT], trace[19][ROW_ACCT_ROOT]],
        custodian_set_root: [
            trace[4][ROW_CUST_ROOT],
            trace[5][ROW_CUST_ROOT],
            trace[6][ROW_CUST_ROOT],
            trace[7][ROW_CUST_ROOT],
        ],
        recovery_count_old: trace[COL_COUNT_OLD][0],
        recovery_count_new: trace[COL_COUNT_NEW][0],
    }
}

/// The rows where the account climb links its levels: the placement of
/// the first level, then the end of each cycle of the climb.
pub open spec fn acct_link_rows() -> Seq<usize> {
    seq![ROW_LEAF_DONE] + cycle_end_rows(CYC_ACC as int, 31)
}

/// The custodian links with the power of two of their level.
pub open spec fn custodian_pow2_points() -> Seq<(usize, u64)> {
    seq![(287usize, 1u64), (295usize, 2u64), (303usize, 4u64), (311usize, 8u64)]
}

/// The value of periodic column `j` at row `r`.
pub open spec fn periodic_spec(j: int, r: int) -> u64 {
    let active = ROW_CUST_ROOT as int + 1;
    if j == 0 {
        hash_flag_spec(active, r)
    } else if j < 13 {
        ark_spec(false, j - 1, active, r)
    } else if j < 25 {
        ark_spec(true, j - 13, active, r)
    } else if j == 25 {
        selector_spec(acct_link_rows(), r)
    } else if j == 26 {
        selector_spec(seq![ROW_LEAF_LINK], r)
    } else if j == 27 {
        selector_spec(seq![ROW_SALT_LINK], r)
    } else if j == 28 {
        selector_spec(cycle_end_rows(CYC_ACCT_ROOT as int, 4), r)
    } else if j == 29 {
        point_spec(custodian_pow2_points(), r)
    } else if j == 30 {
        selector_spec(seq![0usize], r)
    } else if j == 31 {
        selector_spec(seq![ROW_ACCT_ROOT], r)
    } else if j == 32 {
        selector_spec(seq![ROW_CUST_ROOT], r)
    } else if j == 33 {
        selector_spec(seq![0usize, 64, 128, 192], r)
    } else if j == 34 {
        continue_spec(NUM_SEGMENTS as int, SEGMENT_LENGTH as int, r)
    } else {
        selector_spec(seq![(64 * (j - 34) - 2) as usize], r)
    }
}

/// The 39 periodic columns.
pub fn periodic_columns() -> (cols: Vec<Vec<u64>>)
    ensures
        cols.len() == 39,
        forall|j: int| 0 <= j < 39 ==> (#[trigger] cols[j]).len() == TRACE_LENGTH,
        forall|j: int, r: int| 0 <= j < 39 && 0 <= r < TRACE_LENGTH ==> #[trigger] cols[j][r] == periodic_spec(j, r),
        forall|j: int| 0 <= j < 39 ==> all_canonical(#[trigger] cols[j]@),
{
    let mut cols = round_columns(ROW_CUST_ROOT + 1, TRACE_LENGTH);
    let ghost rounds = cols@;
    let mut acct_rows: Vec<usize> = vec![ROW_LEAF_DONE];
    push_cycle_end_rows(&mut acct_rows, CYC_ACC, 31);
    assert(acct_rows@ =~= acct_link_rows());
    cols.push(selector_column(&acct_rows, TRACE_LENGTH));
    push_row_selector(&mut cols, ROW_LEAF_LINK, TRACE_LENGTH);
    push_row_selector(&mut cols, ROW_SALT_LINK, TRACE_LENGTH);
    let mut cust_rows: Vec<usize> = Vec::new();
    push_cycle_end_rows(&mut cust_rows, CYC_ACCT_ROOT, 4);
    assert(cust_rows@ =~= cycle_end_rows(CYC_ACCT_ROOT as int, 4));
    cols.push(selector_column(&cust_rows, TRACE_LENGTH));
    let pows = vec![(287usize, 1u64), (295usize, 2u64), (303usize, 4u64), (311usize, 8u64)];
    assert(pows@ =~= custodian_pow2_points());
    cols.push(point_column(&pows, TRACE_LENGTH));
    push_row_selector(&mut cols, 0, TRACE_LENGTH);
    push_row_selector(&mut cols, ROW_ACCT_ROOT, TRACE_LENGTH);
    push_row_selector(&mut cols, ROW_CUST_ROOT, TRACE_LENGTH);
    let firsts = vec![0usize, 64, 128, 192];
    assert(firsts@ =~= seq![0usize, 64, 128, 192]);
    cols.push(selector_column(&firsts, TRACE_LENGTH));
    cols.push(continue_column(NUM_SEGMENTS, SEGMENT_LENGTH, TRACE_LENGTH));
    let mut seg: usize = 0;
    while seg < NUM_SEGMENTS
        invariant
            seg <= NUM_SEGMENTS,
            cols.len() == 35 + seg,
            forall|j: int| 0 <= j < cols.len() ==> (#[trigger] cols[j]).len() == TRACE_LENGTH,
            forall|j: int, r: int|
                0 <= j < cols.len() && 0 <= r < TRACE_LENGTH ==> #[trigger] cols[j][r] == periodic_spec(j, r),
        decreases NUM_SEGMENTS - seg,
    {
        let row: usize = (seg + 1) * SEGMENT_LENGTH - 2;
        assert(row == (64 * ((35 + seg) as int - 34) - 2) as usize);
        push_row_selector(&mut cols, row, TRACE_LENGTH);
        seg = seg + 1;
    }
    proof {
        assert forall|j: int| 0 <= j < 39 implies all_canonical(#[trigger] cols[j]@) by {
            assert forall|r: int| 0 <= r < cols[j]@.len() implies #[trigger] cols[j]@[r] < MODULUS by {
                if j < 25 {
                    assert(all_canonical(rounds[j]@));
                    assert(rounds[j][r] == cols[j][r]);
                } else {
                    reveal_with_fuel(point_spec, 5);
                    assert(cols[j][r] == periodic_spec(j, r));
                }
            }
        }
    }
    cols
}

/// The 42 boundary assertions: capacity and padding of both lanes and the
/// accumulators on the first row, the old and new roots, the custodian
/// domain and padding at the start of the custodian phase, the custodian
/// root in both lanes, and the counters.
pub open spec fn assertions_spec(pi: RecoveryPublicInputs) -> Seq<(usize, usize, u64)> {
    let z = seq![0u64, 0u64, 0u64, 0u64];
    pairs(4, 0, 0, z, 12, 0, z) + pairs(3, 9, 0, z, 21, 0, z) + run(1, COL_ACC_A as int, 0, z) + run(1, COL_ACC_B as int, 0, z)
        + pairs(4, 4, ROW_ACCT_ROOT, pi.root_old@, 16, ROW_ACCT_ROOT, pi.root_new@)
        + pairs(1, 4, ROW_CUST_START, seq![CUSTODIAN_DOMAIN], 16, ROW_CUST_START, seq![CUSTODIAN_DOMAIN])
        + pairs(3, 5, ROW_CUST_START, z, 17, ROW_CUST_START, z)
        + pairs(4, 4, ROW_CUST_ROOT, pi.custodian_set_root@, 16, ROW_CUST_ROOT, pi.custodian_set_root@)
        + run(1, COL_COUNT_OLD as int, 0, seq![pi.recovery_count_old])
        + run(1, COL_COUNT_NEW as int, 0, seq![pi.recovery_count_new])
}

/// The boundary assertions of a recovery.
pub fn assertions(pi: &RecoveryPublicInputs) -> (a: Vec<(usize, usize, u64)>)
    ensures
        a@ == assertions_spec(*pi),
        a.len() == 42,
{
    let z = vec![0u64, 0, 0, 0];
    let root_old = vec![pi.root_old[0], pi.root_old[1], pi.root_old[2], pi.root_old[3]];
    let root_new = vec![pi.root_new[0], pi.root_new[1], pi.root_new[2], pi.root_new[3]];
    let csr = vec![pi.custodian_set_root[0], pi.custodian_set_root[1], pi.custodian_set_root[2], pi.custodian_set_root[3]];
    let domain = vec![CUSTODIAN_DOMAIN];
    let count_old = vec![pi.recovery_count_old];
    let count_new = vec![pi.recovery_count_new];
    assert(z@ =~= seq![0u64, 0u64, 0u64, 0u64]);
    assert(root_old@ =~= pi.root_old@);
    assert(root_new@ =~= pi.root_new@);
    assert(csr@ =~= pi.custodian_set_root@);
    assert(domain@ =~= seq![CUSTODIAN_DOMAIN]);
    assert(count_old@ =~= seq![pi.recovery_count_old]);
    assert(count_new@ =~= seq![pi.recovery_count_new]);
    let mut a: Vec<(usize, usize, u64)> = Vec::new();
    push_pairs(&mut a, 4, 0, 0, &z, 12, 0, &z);
    push_pairs(&mut a, 3, 9, 0, &z, 21, 0, &z);
    push_run(&mut a, 1, COL_ACC_A, 0, &z);
    push_run(&mut a, 1, COL_ACC_B, 0, &z);
    push_pairs(&mut a, 4, 4, ROW_ACCT_ROOT, &root_old, 16, ROW_ACCT_ROOT, &root_new);
    push_pairs(&mut a, 1, 4, ROW_CUST_START, &domain, 16, ROW_CUST_START, &domain);
    push_pairs(&mut a, 3, 5, ROW_CUST_START, &z, 17, ROW_CUST_START, &z);
    push_pairs(&mut a, 4, 4, ROW_CUST_ROOT, &csr, 16, ROW_CUST_ROOT, &csr);
    push_run(&mut a, 1, COL_COUNT_OLD, 0, &count_old);
    push_run(&mut a, 1, COL_COUNT_NEW, 0, &count_new);
    a
}


/// A recovery reassigns control and moves no money: when the new balance
/// is the old one, both lanes start from the carried balance; and when the
/// counter is raised by one, the carried new counter is the old one plus
/// one on every row.
pub proof fn lemma_recovery_is_counted_and_moves_no_money(inp: RecoveryInputs)
    ensures
        inp.balance_new == inp.balance ==> cell_spec(inp, 8, 0) == cell_spec(inp, COL_BAL as int, 0) && cell_spec(inp, 20, 0)
            == cell_spec(inp, COL_BAL as int, 0),
        inp.count_delta == 1 ==> forall|r: int|
            #![trigger cell_spec(inp, COL_COUNT_NEW as int, r)]
            0 <= r < TRACE_LENGTH ==> cell_spec(inp, COL_COUNT_NEW as int, r) == add_spec(
                cell_spec(inp, COL_COUNT_OLD as int, r),
                1,
            ),
{
    assert(0int / 8 == 0 && 0int % 8 == 0);
    vstd::arithmetic::div_mod::lemma_small_mod(1, crate::field::p() as nat);
}


/// The custodians' order check. For two indices that pass their own 63-bit
/// range checks, the value `B - A - 1` (in the field) passes its range
/// check (its top bit is zero) exactly when `A < B`, whenever `A` exceeds
/// `B` by at most `p - 1 - 2^63`: the same custodian counted twice, or two
/// custodians in reversed order, wrap to a value of 64 bits.
pub proof fn lemma_custodian_order_check(inp: RecoveryInputs)
    requires
        inp.auth.index_a < 0x8000_0000_0000_0000,
        inp.auth.index_b < 0x8000_0000_0000_0000,
        inp.auth.index_a < inp.auth.index_b || inp.auth.index_a - inp.auth.index_b <= MODULUS - 1 - 0x8000_0000_0000_0000,
    ensures
        (segment_values_spec(inp)[3] < 0x8000_0000_0000_0000) <==> inp.auth.index_a < inp.auth.index_b,
        (seg_bit(segment_values_spec(inp)[3], 64, 0) == 0) <==> inp.auth.index_a < inp.auth.index_b,
        inp.auth.index_a < inp.auth.index_b ==> segment_values_spec(inp)[3] == inp.auth.index_b - inp.auth.index_a - 1,
{
    let a = inp.auth.index_a;
    let b = inp.auth.index_b;
    let p: int = MODULUS as int;
    vstd::arithmetic::div_mod::lemma_small_mod(a as nat, p as nat);
    vstd::arithmetic::div_mod::lemma_small_mod(b as nat, p as nat);
    let d1 = sub_spec(b, a);
    if a < b {
        vstd::arithmetic::div_mod::lemma_small_mod((b - a) as nat, p as nat);
        vstd::arithmetic::div_mod::lemma_small_mod((d1 - 1) as nat, p as nat);
    } else if a == b {
        vstd::arithmetic::div_mod::lemma_small_mod(0, p as nat);
        vstd::arithmetic::div_mod::lemma_mod_add_multiples_vanish(-1, p);
        vstd::arithmetic::div_mod::lemma_small_mod((p - 1) as nat, p as nat);
    } else {
        let g: int = a - b;
        vstd::arithmetic::div_mod::lemma_mod_add_multiples_vanish(-g, p);
        vstd::arithmetic::div_mod::lemma_small_mod((p - g) as nat, p as nat);
        assert(d1 == p - g);
        vstd::arithmetic::div_mod::lemma_small_mod((p - g - 1) as nat, p as nat);
    }
    crate::solvency::lemma_segment_reconstructs(segment_values_spec(inp)[3]);
}


/// The number of transition constraints.
pub const NUM_CONSTRAINTS: usize = 138;

/// The residuals of constraints 24..=35.
#[verifier::opaque]
pub open spec fn residuals_0(cur: Seq<u64>, nxt: Seq<u64>, per: Seq<u64>) -> Seq<u64> {
    seq![
        mul_spec(add_spec(per[25], per[28]), nxt[0]),
        mul_spec(add_spec(per[25], per[28]), nxt[1]),
        mul_spec(add_spec(per[25], per[28]), nxt[2]),
        mul_spec(add_spec(per[25], per[28]), nxt[3]),
        mul_spec(add_spec(per[25], per[28]), nxt[12]),
        mul_spec(add_spec(per[25], per[28]), nxt[13]),
        mul_spec(add_spec(per[25], per[28]), nxt[14]),
        mul_spec(add_spec(per[25], per[28]), nxt[15]),
        mul_spec(per[25], add_spec(mul_spec(sub_spec(1u64, nxt[24]), sub_spec(nxt[4], cur[4])), mul_spec(nxt[24], sub_spec(nxt[8], cur[4])))),
        mul_spec(per[25], add_spec(mul_spec(sub_spec(1u64, nxt[24]), sub_spec(nxt[5], cur[5])), mul_spec(nxt[24], sub_spec(nxt[9], cur[5])))),
        mul_spec(per[25], add_spec(mul_spec(sub_spec(1u64, nxt[24]), sub_spec(nxt[6], cur[6])), mul_spec(nxt[24], sub_spec(nxt[10], cur[6])))),
        mul_spec(per[25], add_spec(mul_spec(sub_spec(1u64, nxt[24]), sub_spec(nxt[7], cur[7])), mul_spec(nxt[24], sub_spec(nxt[11], cur[7])))),
    ]
}

fn residuals_0_eval(cur: &Vec<u64>, nxt: &Vec<u64>, per: &Vec<u64>) -> (r: Vec<u64>)
    requires
        cur.len() == TRACE_WIDTH,
        nxt.len() == TRACE_WIDTH,
        per.len() == 39,
        all_canonical(cur@),
        all_canonical(nxt@),
        all_canonical(per@),
    ensures
        r@ == residuals_0(cur@, nxt@, per@),
        r.len() == 12,
{
    let r = vec![
        fmul(fadd(per[25], per[28]), nxt[0]),
        fmul(fadd(per[25], per[28]), nxt[1]),
        fmul(fadd(per[25], per[28]), nxt[2]),
        fmul(fadd(per[25], per[28]), nxt[3]),
        fmul(fadd(per[25], per[28]), nxt[12]),
        fmul(fadd(per[25], per[28]), nxt[13]),
        fmul(fadd(per[25], per[28]), nxt[14]),
        fmul(fadd(per[25], per[28]), nxt[15]),
        fmul(per[25], fadd(fmul(fsub(1u64, nxt[24]), fsub(nxt[4], cur[4])), fmul(nxt[24], fsub(nxt[8], cur[4])))),
        fmul(per[25], fadd(fmul(fsub(1u64, nxt[24]), fsub(nxt[5], cur[5])), fmul(nxt[24], fsub(nxt[9], cur[5])))),
        fmul(per[25], fadd(fmul(fsub(1u64, nxt[24]), fsub(nxt[6], cur[6])), fmul(nxt[24], fsub(nxt[10], cur[6])))),
        fmul(per[25], fadd(fmul(fsub(1u64, nxt[24]), fsub(nxt[7], cur[7])), fmul(nxt[24], fsub(nxt[11], cur[7])))),
    ];
    proof {
        reveal(residuals_0);
    }
    assert(r@ =~= residuals_0(cur@, nxt@, per@));
    r
}

/// The residuals of constraints 36..=47.
#[verifier::opaque]
pub open spec fn residuals_1(cur: Seq<u64>, nxt: Seq<u64>, per: Seq<u64>) -> Seq<u64> {
    seq![
        mul_spec(per[25], add_spec(mul_spec(sub_spec(1u64, nxt[24]), sub_spec(nxt[16], cur[16])), mul_spec(nxt[24], sub_spec(nxt[20], cur[16])))),
        mul_spec(per[25], add_spec(mul_spec(sub_spec(1u64, nxt[24]), sub_spec(nxt[17], cur[17])), mul_spec(nxt[24], sub_spec(nxt[21], cur[17])))),
        mul_spec(per[25], add_spec(mul_spec(sub_spec(1u64, nxt[24]), sub_spec(nxt[18], cur[18])), mul_spec(nxt[24], sub_spec(nxt[22], cur[18])))),
        mul_spec(per[25], add_spec(mul_spec(sub_spec(1u64, nxt[24]), sub_spec(nxt[19], cur[19])), mul_spec(nxt[24], sub_spec(nxt[23], cur[19])))),
        mul_spec(per[25], sub_spec(add_spec(mul_spec(sub_spec(1u64, nxt[24]), nxt[8]), mul_spec(nxt[24], nxt[4])), add_spec(mul_spec(sub_spec(1u64, nxt[24]), nxt[20]), mul_spec(nxt[24], nxt[16])))),
        mul_spec(per[25], sub_spec(add_spec(mul_spec(sub_spec(1u64, nxt[24]), nxt[9]), mul_spec(nxt[24], nxt[5])), add_spec(mul_spec(sub_spec(1u64, nxt[24]), nxt[21]), mul_spec(nxt[24], nxt[17])))),
        mul_spec(per[25], sub_spec(add_spec(mul_spec(sub_spec(1u64, nxt[24]), nxt[10]), mul_spec(nxt[24], nxt[6])), add_spec(mul_spec(sub_spec(1u64, nxt[24]), nxt[22]), mul_spec(nxt[24], nxt[18])))),
        mul_spec(per[25], sub_spec(add_spec(mul_spec(sub_spec(1u64, nxt[24]), nxt[11]), mul_spec(nxt[24], nxt[7])), add_spec(mul_spec(sub_spec(1u64, nxt[24]), nxt[23]), mul_spec(nxt[24], nxt[19])))),
        mul_spec(per[28], add_spec(mul_spec(sub_spec(1u64, nxt[24]), sub_spec(nxt[4], cur[4])), mul_spec(nxt[24], sub_spec(nxt[8], cur[4])))),
        mul_spec(per[28], add_spec(mul_spec(sub_spec(1u64, nxt[24]), sub_spec(nxt[5], cur[5])), mul_spec(nxt[24], sub_spec(nxt[9], cur[5])))),
        mul_spec(per[28], add_spec(mul_spec(sub_spec(1u64, nxt[24]), sub_spec(nxt[6], cur[6])), mul_spec(nxt[24], sub_spec(nxt[10], cur[6])))),
        mul_spec(per[28], add_spec(mul_spec(sub_spec(1u64, nxt[24]), sub_spec(nxt[7], cur[7])), mul_spec(nxt[24], sub_spec(nxt[11], cur[7])))),
    ]
}

fn residuals_1_eval(cur: &Vec<u64>, nxt: &Vec<u64>, per: &Vec<u64>) -> (r: Vec<u64>)
    requires
        cur.len() == TRACE_WIDTH,
        nxt.len() == TRACE_WIDTH,
        per.len() == 39,
        all_canonical(cur@),
        all_canonical(nxt@),
        all_canonical(per@),
    ensures
        r@ == residuals_1(cur@, nxt@, per@),
        r.len() == 12,
{
    let r = vec![
        fmul(per[25], fadd(fmul(fsub(1u64, nxt[24]), fsub(nxt[16], cur[16])), fmul(nxt[24], fsub(nxt[20], cur[16])))),
        fmul(per[25], fadd(fmul(fsub(1u64, nxt[24]), fsub(nxt[17], cur[17])), fmul(nxt[24], fsub(nxt[21], cur[17])))),
        fmul(per[25], fadd(fmul(fsub(1u64, nxt[24]), fsub(nxt[18], cur[18])), fmul(nxt[24], fsub(nxt[22], cur[18])))),
        fmul(per[25], fadd(fmul(fsub(1u64, nxt[24]), fsub(nxt[19], cur[19])), fmul(nxt[24], fsub(nxt[23], cur[19])))),
        fmul(per[25], fsub(fadd(fmul(fsub(1u64, nxt[24]), nxt[8]), fmul(nxt[24], nxt[4])), fadd(fmul(fsub(1u64, nxt[24]), nxt[20]), fmul(nxt[24], nxt[16])))),
        fmul(per[25], fsub(fadd(fmul(fsub(1u64, nxt[24]), nxt[9]), fmul(nxt[24], nxt[5])), fadd(fmul(fsub(1u64, nxt[24]), nxt[21]), fmul(nxt[24], nxt[17])))),
        fmul(per[25], fsub(fadd(fmul(fsub(1u64, nxt[24]), nxt[10]), fmul(nxt[24], nxt[6])), fadd(fmul(fsub(1u64, nxt[24]), nxt[22]), fmul(nxt[24], nxt[18])))),
        fmul(per[25], fsub(fadd(fmul(fsub(1u64, nxt[24]), nxt[11]), fmul(nxt[24], nxt[7])), fadd(fmul(fsub(1u64, nxt[24]), nxt[23]), fmul(nxt[24], nxt[19])))),
        fmul(per[28], fadd(fmul(fsub(1u64, nxt[24]), fsub(nxt[4], cur[4])), fmul(nxt[24], fsub(nxt[8], cur[4])))),
        fmul(per[28], fadd(fmul(fsub(1u64, nxt[24]), fsub(nxt[5], cur[5])), fmul(nxt[24], fsub(nxt[9], cur[5])))),
        fmul(per[28], fadd(fmul(fsub(1u64, nxt[24]), fsub(nxt[6], cur[6])), fmul(nxt[24], fsub(nxt[10], cur[6])))),
        fmul(per[28], fadd(fmul(fsub(1u64, nxt[24]), fsub(nxt[7], cur[7])), fmul(nxt[24], fsub(nxt[11], cur[7])))),
    ];
    proof {
        reveal(residuals_1);
    }
    assert(r@ =~= residuals_1(cur@, nxt@, per@));
    r
}

/// The residuals of constraints 48..=59.
#[verifier::opaque]
pub open spec fn residuals_2(cur: Seq<u64>, nxt: Seq<u64>, per: Seq<u64>) -> Seq<u64> {
    seq![
        mul_spec(per[28], add_spec(mul_spec(sub_spec(1u64, nxt[25]), sub_spec(nxt[16], cur[16])), mul_spec(nxt[25], sub_spec(nxt[20], cur[16])))),
        mul_spec(per[28], add_spec(mul_spec(sub_spec(1u64, nxt[25]), sub_spec(nxt[17], cur[17])), mul_spec(nxt[25], sub_spec(nxt[21], cur[17])))),
        mul_spec(per[28], add_spec(mul_spec(sub_spec(1u64, nxt[25]), sub_spec(nxt[18], cur[18])), mul_spec(nxt[25], sub_spec(nxt[22], cur[18])))),
        mul_spec(per[28], add_spec(mul_spec(sub_spec(1u64, nxt[25]), sub_spec(nxt[19], cur[19])), mul_spec(nxt[25], sub_spec(nxt[23], cur[19])))),
        mul_spec(cur[24], sub_spec(cur[24], 1u64)),
        mul_spec(cur[25], sub_spec(cur[25], 1u64)),
        mul_spec(per[26], nxt[0]),
        mul_spec(per[26], nxt[1]),
        mul_spec(per[26], nxt[2]),
        mul_spec(per[26], nxt[3]),
        mul_spec(per[26], nxt[12]),
        mul_spec(per[26], nxt[13]),
    ]
}

fn residuals_2_eval(cur: &Vec<u64>, nxt: &Vec<u64>, per: &Vec<u64>) -> (r: Vec<u64>)
    requires
        cur.len() == TRACE_WIDTH,
        nxt.len() == TRACE_WIDTH,
        per.len() == 39,
        all_canonical(cur@),
        all_canonical(nxt@),
        all_canonical(per@),
    ensures
        r@ == residuals_2(cur@, nxt@, per@),
        r.len() == 12,
{
    let r = vec![
        fmul(per[28], fadd(fmul(fsub(1u64, nxt[25]), fsub(nxt[16], cur[16])), fmul(nxt[25], fsub(nxt[20], cur[16])))),
        fmul(per[28], fadd(fmul(fsub(1u64, nxt[25]), fsub(nxt[17], cur[17])), fmul(nxt[25], fsub(nxt[21], cur[17])))),
        fmul(per[28], fadd(fmul(fsub(1u64, nxt[25]), fsub(nxt[18], cur[18])), fmul(nxt[25], fsub(nxt[22], cur[18])))),
        fmul(per[28], fadd(fmul(fsub(1u64, nxt[25]), fsub(nxt[19], cur[19])), fmul(nxt[25], fsub(nxt[23], cur[19])))),
        fmul(cur[24], fsub(cur[24], 1u64)),
        fmul(cur[25], fsub(cur[25], 1u64)),
        fmul(per[26], nxt[0]),
        fmul(per[26], nxt[1]),
        fmul(per[26], nxt[2]),
        fmul(per[26], nxt[3]),
        fmul(per[26], nxt[12]),
        fmul(per[26], nxt[13]),
    ];
    proof {
        reveal(residuals_2);
    }
    assert(r@ =~= residuals_2(cur@, nxt@, per@));
    r
}

/// The residuals of constraints 60..=71.
#[verifier::opaque]
pub open spec fn residuals_3(cur: Seq<u64>, nxt: Seq<u64>, per: Seq<u64>) -> Seq<u64> {
    seq![
        mul_spec(per[26], nxt[14]),
        mul_spec(per[26], nxt[15]),
        mul_spec(per[26], sub_spec(nxt[4], cur[4])),
        mul_spec(per[26], sub_spec(nxt[5], cur[5])),
        mul_spec(per[26], sub_spec(nxt[6], cur[6])),
        mul_spec(per[26], sub_spec(nxt[7], cur[7])),
        mul_spec(per[26], sub_spec(nxt[16], cur[16])),
        mul_spec(per[26], sub_spec(nxt[17], cur[17])),
        mul_spec(per[26], sub_spec(nxt[18], cur[18])),
        mul_spec(per[26], sub_spec(nxt[19], cur[19])),
        mul_spec(per[26], sub_spec(nxt[8], cur[41])),
        mul_spec(per[26], sub_spec(nxt[20], add_spec(cur[41], 1u64))),
    ]
}

fn residuals_3_eval(cur: &Vec<u64>, nxt: &Vec<u64>, per: &Vec<u64>) -> (r: Vec<u64>)
    requires
        cur.len() == TRACE_WIDTH,
        nxt.len() == TRACE_WIDTH,
        per.len() == 39,
        all_canonical(cur@),
        all_canonical(nxt@),
        all_canonical(per@),
    ensures
        r@ == residuals_3(cur@, nxt@, per@),
        r.len() == 12,
{
    let r = vec![
        fmul(per[26], nxt[14]),
        fmul(per[26], nxt[15]),
        fmul(per[26], fsub(nxt[4], cur[4])),
        fmul(per[26], fsub(nxt[5], cur[5])),
        fmul(per[26], fsub(nxt[6], cur[6])),
        fmul(per[26], fsub(nxt[7], cur[7])),
        fmul(per[26], fsub(nxt[16], cur[16])),
        fmul(per[26], fsub(nxt[17], cur[17])),
        fmul(per[26], fsub(nxt[18], cur[18])),
        fmul(per[26], fsub(nxt[19], cur[19])),
        fmul(per[26], fsub(nxt[8], cur[41])),
        fmul(per[26], fsub(nxt[20], fadd(cur[41], 1u64))),
    ];
    proof {
        reveal(residuals_3);
    }
    assert(r@ =~= residuals_3(cur@, nxt@, per@));
    r
}

/// The residuals of constraints 72..=83.
#[verifier::opaque]
pub open spec fn residuals_4(cur: Seq<u64>, nxt: Seq<u64>, per: Seq<u64>) -> Seq<u64> {
    seq![
        mul_spec(per[30], sub_spec(cur[4], cur[32])),
        mul_spec(per[30], sub_spec(cur[5], cur[33])),
        mul_spec(per[30], sub_spec(cur[6], cur[34])),
        mul_spec(per[30], sub_spec(cur[7], cur[35])),
        mul_spec(per[30], sub_spec(cur[8], cur[40])),
        mul_spec(per[30], sub_spec(cur[16], cur[36])),
        mul_spec(per[30], sub_spec(cur[17], cur[37])),
        mul_spec(per[30], sub_spec(cur[18], cur[38])),
        mul_spec(per[30], sub_spec(cur[19], cur[39])),
        mul_spec(per[30], sub_spec(cur[20], cur[40])),
        mul_spec(per[31], sub_spec(nxt[8], cur[26])),
        mul_spec(per[31], sub_spec(nxt[20], cur[27])),
    ]
}

fn residuals_4_eval(cur: &Vec<u64>, nxt: &Vec<u64>, per: &Vec<u64>) -> (r: Vec<u64>)
    requires
        cur.len() == TRACE_WIDTH,
        nxt.len() == TRACE_WIDTH,
        per.len() == 39,
        all_canonical(cur@),
        all_canonical(nxt@),
        all_canonical(per@),
    ensures
        r@ == residuals_4(cur@, nxt@, per@),
        r.len() == 12,
{
    let r = vec![
        fmul(per[30], fsub(cur[4], cur[32])),
        fmul(per[30], fsub(cur[5], cur[33])),
        fmul(per[30], fsub(cur[6], cur[34])),
        fmul(per[30], fsub(cur[7], cur[35])),
        fmul(per[30], fsub(cur[8], cur[40])),
        fmul(per[30], fsub(cur[16], cur[36])),
        fmul(per[30], fsub(cur[17], cur[37])),
        fmul(per[30], fsub(cur[18], cur[38])),
        fmul(per[30], fsub(cur[19], cur[39])),
        fmul(per[30], fsub(cur[20], cur[40])),
        fmul(per[31], fsub(nxt[8], cur[26])),
        fmul(per[31], fsub(nxt[20], cur[27])),
    ];
    proof {
        reveal(residuals_4);
    }
    assert(r@ =~= residuals_4(cur@, nxt@, per@));
    r
}

/// The residuals of constraints 84..=95.
#[verifier::opaque]
pub open spec fn residuals_5(cur: Seq<u64>, nxt: Seq<u64>, per: Seq<u64>) -> Seq<u64> {
    seq![
        mul_spec(per[28], sub_spec(nxt[30], add_spec(cur[30], mul_spec(nxt[24], per[29])))),
        mul_spec(per[28], sub_spec(nxt[31], add_spec(cur[31], mul_spec(nxt[25], per[29])))),
        mul_spec(per[32], sub_spec(cur[30], cur[28])),
        mul_spec(per[32], sub_spec(cur[31], cur[29])),
        sub_spec(cur[43], add_spec(cur[42], 1u64)),
        sub_spec(nxt[26], cur[26]),
        sub_spec(nxt[27], cur[27]),
        sub_spec(nxt[28], cur[28]),
        sub_spec(nxt[29], cur[29]),
        sub_spec(nxt[40], cur[40]),
        sub_spec(nxt[41], cur[41]),
        sub_spec(nxt[42], cur[42]),
    ]
}

fn residuals_5_eval(cur: &Vec<u64>, nxt: &Vec<u64>, per: &Vec<u64>) -> (r: Vec<u64>)
    requires
        cur.len() == TRACE_WIDTH,
        nxt.len() == TRACE_WIDTH,
        per.len() == 39,
        all_canonical(cur@),
        all_canonical(nxt@),
        all_canonical(per@),
    ensures
        r@ == residuals_5(cur@, nxt@, per@),
        r.len() == 12,
{
    let r = vec![
        fmul(per[28], fsub(nxt[30], fadd(cur[30], fmul(nxt[24], per[29])))),
        fmul(per[28], fsub(nxt[31], fadd(cur[31], fmul(nxt[25], per[29])))),
        fmul(per[32], fsub(cur[30], cur[28])),
        fmul(per[32], fsub(cur[31], cur[29])),
        fsub(cur[43], fadd(cur[42], 1u64)),
        fsub(nxt[26], cur[26]),
        fsub(nxt[27], cur[27]),
        fsub(nxt[28], cur[28]),
        fsub(nxt[29], cur[29]),
        fsub(nxt[40], cur[40]),
        fsub(nxt[41], cur[41]),
        fsub(nxt[42], cur[42]),
    ];
    proof {
        reveal(residuals_5);
    }
    assert(r@ =~= residuals_5(cur@, nxt@, per@));
    r
}

/// The residuals of constraints 96..=107.
#[verifier::opaque]
pub open spec fn residuals_6(cur: Seq<u64>, nxt: Seq<u64>, per: Seq<u64>) -> Seq<u64> {
    seq![
        sub_spec(nxt[43], cur[43]),
        sub_spec(nxt[32], cur[32]),
        sub_spec(nxt[33], cur[33]),
        sub_spec(nxt[34], cur[34]),
        sub_spec(nxt[35], cur[35]),
        sub_spec(nxt[36], cur[36]),
        sub_spec(nxt[37], cur[37]),
        sub_spec(nxt[38], cur[38]),
        sub_spec(nxt[39], cur[39]),
        mul_spec(cur[44], sub_spec(cur[44], 1u64)),
        mul_spec(nxt[44], sub_spec(nxt[44], 1u64)),
        mul_spec(per[33], cur[44]),
    ]
}

fn residuals_6_eval(cur: &Vec<u64>, nxt: &Vec<u64>, per: &Vec<u64>) -> (r: Vec<u64>)
    requires
        cur.len() == TRACE_WIDTH,
        nxt.len() == TRACE_WIDTH,
        per.len() == 39,
        all_canonical(cur@),
        all_canonical(nxt@),
        all_canonical(per@),
    ensures
        r@ == residuals_6(cur@, nxt@, per@),
        r.len() == 12,
{
    let r = vec![
        fsub(nxt[43], cur[43]),
        fsub(nxt[32], cur[32]),
        fsub(nxt[33], cur[33]),
        fsub(nxt[34], cur[34]),
        fsub(nxt[35], cur[35]),
        fsub(nxt[36], cur[36]),
        fsub(nxt[37], cur[37]),
        fsub(nxt[38], cur[38]),
        fsub(nxt[39], cur[39]),
        fmul(cur[44], fsub(cur[44], 1u64)),
        fmul(nxt[44], fsub(nxt[44], 1u64)),
        fmul(per[33], cur[44]),
    ];
    proof {
        reveal(residuals_6);
    }
    assert(r@ =~= residuals_6(cur@, nxt@, per@));
    r
}

/// The residuals of constraints 108..=119.
#[verifier::opaque]
pub open spec fn residuals_7(cur: Seq<u64>, nxt: Seq<u64>, per: Seq<u64>) -> Seq<u64> {
    seq![
        mul_spec(per[33], cur[45]),
        mul_spec(per[34], sub_spec(nxt[45], add_spec(add_spec(cur[45], cur[45]), nxt[44]))),
        mul_spec(per[35], sub_spec(nxt[45], cur[40])),
        mul_spec(per[36], sub_spec(nxt[45], cur[28])),
        mul_spec(per[37], sub_spec(nxt[45], cur[29])),
        mul_spec(per[38], sub_spec(nxt[45], sub_spec(sub_spec(cur[29], cur[28]), 1u64))),
        mul_spec(per[27], nxt[0]),
        mul_spec(per[27], nxt[1]),
        mul_spec(per[27], nxt[2]),
        mul_spec(per[27], nxt[3]),
        mul_spec(per[27], nxt[12]),
        mul_spec(per[27], nxt[13]),
    ]
}

fn residuals_7_eval(cur: &Vec<u64>, nxt: &Vec<u64>, per: &Vec<u64>) -> (r: Vec<u64>)
    requires
        cur.len() == TRACE_WIDTH,
        nxt.len() == TRACE_WIDTH,
        per.len() == 39,
        all_canonical(cur@),
        all_canonical(nxt@),
        all_canonical(per@),
    ensures
        r@ == residuals_7(cur@, nxt@, per@),
        r.len() == 12,
{
    let r = vec![
        fmul(per[33], cur[45]),
        fmul(per[34], fsub(nxt[45], fadd(fadd(cur[45], cur[45]), nxt[44]))),
        fmul(per[35], fsub(nxt[45], cur[40])),
        fmul(per[36], fsub(nxt[45], cur[28])),
        fmul(per[37], fsub(nxt[45], cur[29])),
        fmul(per[38], fsub(nxt[45], fsub(fsub(cur[29], cur[28]), 1u64))),
        fmul(per[27], nxt[0]),
        fmul(per[27], nxt[1]),
        fmul(per[27], nxt[2]),
        fmul(per[27], nxt[3]),
        fmul(per[27], nxt[12]),
        fmul(per[27], nxt[13]),
    ];
    proof {
        reveal(residuals_7);
    }
    assert(r@ =~= residuals_7(cur@, nxt@, per@));
    r
}

/// The residuals of constraints 120..=131.
#[verifier::opaque]
pub open spec fn residuals_8(cur: Seq<u64>, nxt: Seq<u64>, per: Seq<u64>) -> Seq<u64> {
    seq![
        mul_spec(per[27], nxt[14]),
        mul_spec(per[27], nxt[15]),
        mul_spec(per[27], sub_spec(nxt[4], cur[4])),
        mul_spec(per[27], sub_spec(nxt[5], cur[5])),
        mul_spec(per[27], sub_spec(nxt[6], cur[6])),
        mul_spec(per[27], sub_spec(nxt[7], cur[7])),
        mul_spec(per[27], sub_spec(nxt[16], cur[16])),
        mul_spec(per[27], sub_spec(nxt[17], cur[17])),
        mul_spec(per[27], sub_spec(nxt[18], cur[18])),
        mul_spec(per[27], sub_spec(nxt[19], cur[19])),
        mul_spec(per[27], sub_spec(nxt[8], cur[46])),
        mul_spec(per[27], sub_spec(nxt[9], cur[47])),
    ]
}

fn residuals_8_eval(cur: &Vec<u64>, nxt: &Vec<u64>, per: &Vec<u64>) -> (r: Vec<u64>)
    requires
        cur.len() == TRACE_WIDTH,
        nxt.len() == TRACE_WIDTH,
        per.len() == 39,
        all_canonical(cur@),
        all_canonical(nxt@),
        all_canonical(per@),
    ensures
        r@ == residuals_8(cur@, nxt@, per@),
        r.len() == 12,
{
    let r = vec![
        fmul(per[27], nxt[14]),
        fmul(per[27], nxt[15]),
        fmul(per[27], fsub(nxt[4], cur[4])),
        fmul(per[27], fsub(nxt[5], cur[5])),
        fmul(per[27], fsub(nxt[6], cur[6])),
        fmul(per[27], fsub(nxt[7], cur[7])),
        fmul(per[27], fsub(nxt[16], cur[16])),
        fmul(per[27], fsub(nxt[17], cur[17])),
        fmul(per[27], fsub(nxt[18], cur[18])),
        fmul(per[27], fsub(nxt[19], cur[19])),
        fmul(per[27], fsub(nxt[8], cur[46])),
        fmul(per[27], fsub(nxt[9], cur[47])),
    ];
    proof {
        reveal(residuals_8);
    }
    assert(r@ =~= residuals_8(cur@, nxt@, per@));
    r
}

/// The residuals of constraints 132..=137.
#[verifier::opaque]
pub open spec fn residuals_9(cur: Seq<u64>, nxt: Seq<u64>, per: Seq<u64>) -> Seq<u64> {
    seq![
        mul_spec(per[27], sub_spec(nxt[10], cur[48])),
        mul_spec(per[27], sub_spec(nxt[11], cur[49])),
        mul_spec(per[27], sub_spec(nxt[20], cur[46])),
        mul_spec(per[27], sub_spec(nxt[21], cur[47])),
        mul_spec(per[27], sub_spec(nxt[22], cur[48])),
        mul_spec(per[27], sub_spec(nxt[23], cur[49])),
    ]
}

fn residuals_9_eval(cur: &Vec<u64>, nxt: &Vec<u64>, per: &Vec<u64>) -> (r: Vec<u64>)
    requires
        cur.len() == TRACE_WIDTH,
        nxt.len() == TRACE_WIDTH,
        per.len() == 39,
        all_canonical(cur@),
        all_canonical(nxt@),
        all_canonical(per@),
    ensures
        r@ == residuals_9(cur@, nxt@, per@),
        r.len() == 6,
{
    let r = vec![
        fmul(per[27], fsub(nxt[10], cur[48])),
        fmul(per[27], fsub(nxt[11], cur[49])),
        fmul(per[27], fsub(nxt[20], cur[46])),
        fmul(per[27], fsub(nxt[21], cur[47])),
        fmul(per[27], fsub(nxt[22], cur[48])),
        fmul(per[27], fsub(nxt[23], cur[49])),
    ];
    proof {
        reveal(residuals_9);
    }
    assert(r@ =~= residuals_9(cur@, nxt@, per@));
    r
}

/// The residuals of all transition constraints of a step, in the order of
/// their indices: the rounds of lane A and of lane B, then the rest.
pub open spec fn residuals(cur: Seq<u64>, nxt: Seq<u64>, per: Seq<u64>) -> Seq<u64> {
    round_residuals_spec(cur, nxt, per, 0, 0, 1, 13) + round_residuals_spec(cur, nxt, per, 12, 0, 1, 13)
        + residuals_0(cur, nxt, per) + residuals_1(cur, nxt, per) + residuals_2(cur, nxt, per) + residuals_3(cur, nxt, per) + residuals_4(cur, nxt, per) + residuals_5(cur, nxt, per) + residuals_6(cur, nxt, per) + residuals_7(cur, nxt, per) + residuals_8(cur, nxt, per) + residuals_9(cur, nxt, per)
}

/// Constraint `k` of a step, over the current row, the next row and the
/// periodic values.
pub open spec fn constraint_spec(k: int, current: Seq<u64>, next: Seq<u64>, periodic: Seq<u64>) -> u64 {
    residuals(current, next, periodic)[k]
}

/// Evaluates the transition constraints of a step over the base field: a
/// step satisfies the AIR when every residual is zero.
pub fn evaluate_transition(current: &Vec<u64>, next: &Vec<u64>, periodic: &Vec<u64>) -> (result: Vec<u64>)
    requires
        current.len() == TRACE_WIDTH,
        next.len() == TRACE_WIDTH,
        periodic.len() == 39,
        all_canonical(current@),
        all_canonical(next@),
        all_canonical(periodic@),
    ensures
        result.len() == NUM_CONSTRAINTS,
        forall|k: int| 0 <= k < NUM_CONSTRAINTS ==> #[trigger] result[k] == constraint_spec(k, current@, next@, periodic@),
{
    let mut r = round_residuals(current, next, periodic, 0, 0, 1, 13);
    let mut lane_b = round_residuals(current, next, periodic, 12, 0, 1, 13);
    r.append(&mut lane_b);

    let mut p0 = residuals_0_eval(current, next, periodic);
    r.append(&mut p0);
    let mut p1 = residuals_1_eval(current, next, periodic);
    r.append(&mut p1);
    let mut p2 = residuals_2_eval(current, next, periodic);
    r.append(&mut p2);
    let mut p3 = residuals_3_eval(current, next, periodic);
    r.append(&mut p3);
    let mut p4 = residuals_4_eval(current, next, periodic);
    r.append(&mut p4);
    let mut p5 = residuals_5_eval(current, next, periodic);
    r.append(&mut p5);
    let mut p6 = residuals_6_eval(current, next, periodic);
    r.append(&mut p6);
    let mut p7 = residuals_7_eval(current, next, periodic);
    r.append(&mut p7);
    let mut p8 = residuals_8_eval(current, next, periodic);
    r.append(&mut p8);
    let mut p9 = residuals_9_eval(current, next, periodic);
    r.append(&mut p9);
    assert(r@ =~= residuals(current@, next@, periodic@));
    r
}


proof fn lemma_residuals_len_0(cur: Seq<u64>, nxt: Seq<u64>, per: Seq<u64>)
    ensures
        residuals_0(cur, nxt, per).len() == 12,
{
    reveal(residuals_0);
}

proof fn lemma_residuals_len_1(cur: Seq<u64>, nxt: Seq<u64>, per: Seq<u64>)
    ensures
        residuals_1(cur, nxt, per).len() == 12,
{
    reveal(residuals_1);
}

proof fn lemma_residuals_len_2(cur: Seq<u64>, nxt: Seq<u64>, per: Seq<u64>)
    ensures
        residuals_2(cur, nxt, per).len() == 12,
{
    reveal(residuals_2);
}

proof fn lemma_residuals_len_3(cur: Seq<u64>, nxt: Seq<u64>, per: Seq<u64>)
    ensures
        residuals_3(cur, nxt, per).len() == 12,
{
    reveal(residuals_3);
}

proof fn lemma_residuals_len_4(cur: Seq<u64>, nxt: Seq<u64>, per: Seq<u64>)
    ensures
        residuals_4(cur, nxt, per).len() == 12,
{
    reveal(residuals_4);
}

proof fn lemma_residuals_len_5(cur: Seq<u64>, nxt: Seq<u64>, per: Seq<u64>)
    ensures
        residuals_5(cur, nxt, per).len() == 12,
{
    reveal(residuals_5);
}





/// Constraint 88 of a step.
pub proof fn lemma_constraint_88(current: Seq<u64>, next: Seq<u64>, periodic: Seq<u64>)
    ensures
        constraint_spec(88, current, next, periodic) == sub_spec(current[43], add_spec(current[42], 1u64)),
{
    lemma_residuals_len_0(current, next, periodic);
    lemma_residuals_len_1(current, next, periodic);
    lemma_residuals_len_2(current, next, periodic);
    lemma_residuals_len_3(current, next, periodic);
    lemma_residuals_len_4(current, next, periodic);
    lemma_residuals_len_5(current, next, periodic);
    assert(constraint_spec(88, current, next, periodic) == residuals_5(current, next, periodic)[4]);
    reveal(residuals_5);
}


/// What the constraints force on a step whose residuals are all zero: the
/// new recovery counter is the old one plus one, so every recovery is
/// counted.
pub proof fn lemma_zero_residuals_force(current: Seq<u64>, next: Seq<u64>, periodic: Seq<u64>)
    requires
        current.len() == TRACE_WIDTH,
        next.len() == TRACE_WIDTH,
        periodic.len() == 39,
        all_canonical(current),
        all_canonical(next),
        all_canonical(periodic),
        forall|k: int| 0 <= k < NUM_CONSTRAINTS ==> #[trigger] constraint_spec(k, current, next, periodic) == 0,
    ensures
        current[COL_COUNT_NEW as int] == add_spec(current[COL_COUNT_OLD as int], 1),
{
    assert(constraint_spec(88, current, next, periodic) == 0);
    lemma_constraint_88(current, next, periodic);
    crate::constraints::lemma_reduce_canonical(current[42] + 1);
    crate::constraints::lemma_equal(current[43], add_spec(current[42], 1u64));
}


/// The periodic values of step `r`.
pub open spec fn periodic_row(r: int) -> Seq<u64> {
    Seq::new(39, |j: int| periodic_spec(j, r))
}

/// Every cycle of both hash lanes runs the rounds of the permutation.
pub open spec fn lanes_hold(inp: RecoveryInputs) -> bool {
    
    &&& forall|c: nat| c <= lane_links(inp, false).len() ==> #[trigger] rounds_hold(cycle_start(lane_start(inp, false), lane_links(inp, false), c))
    &&& forall|c: nat| c <= lane_links(inp, true).len() ==> #[trigger] rounds_hold(cycle_start(lane_start(inp, true), lane_links(inp, true), c))
}

/// Every step of the trace satisfies the round constraints of both hash
/// lanes (constraints 0..24): on a round row each lane goes from one round
/// of its permutation to the next, with that round's constants in the
/// periodic values; elsewhere the round flag is off.
pub proof fn lemma_trace_satisfies_round_constraints(inp: RecoveryInputs, t: Seq<Vec<u64>>, r: int)
    requires
        t.len() == TRACE_WIDTH,
        forall|col: int, q: int|
            0 <= col < TRACE_WIDTH && 0 <= q < TRACE_LENGTH ==> #[trigger] t[col][q] == cell_spec(inp, col, q),
        lanes_hold(inp),
        0 <= r < TRACE_LENGTH - 1,
    ensures
        forall|k: int| 0 <= k < 24 ==> #[trigger] constraint_spec(k, row_of(t, r), row_of(t, r + 1), periodic_row(r)) == 0,
{
    
    let cur = row_of(t, r);
    let nxt = row_of(t, r + 1);
    let per = periodic_row(r);
    let active = ROW_CUST_ROOT as int + 1;
    assert forall|j: int| 0 <= j < 12 implies #[trigger] cur[0 + j] == lane_value(lane_start(inp, false), lane_links(inp, false), j, r) by {
        assert(cur[j] == t[j][r]);
    }
    assert forall|j: int| 0 <= j < 12 implies #[trigger] nxt[0 + j] == lane_value(lane_start(inp, false), lane_links(inp, false), j, r + 1) by {
        assert(nxt[j] == t[j][r + 1]);
    }
    assert forall|j: int| 0 <= j < 12 implies #[trigger] cur[12 + j] == lane_value(lane_start(inp, true), lane_links(inp, true), j, r) by {
        assert(cur[12 + j] == t[12 + j][r]);
    }
    assert forall|j: int| 0 <= j < 12 implies #[trigger] nxt[12 + j] == lane_value(lane_start(inp, true), lane_links(inp, true), j, r + 1) by {
        assert(nxt[12 + j] == t[12 + j][r + 1]);
    }
    assert(per[0] == crate::periodic::hash_flag_spec(active, r));
    assert forall|j: int| 0 <= j < 12 implies #[trigger] per[1 + j] == crate::periodic::ark_spec(false, j, active, r) by {
        assert(per[1 + j] == periodic_spec(1 + j, r));
    }
    assert forall|j: int| 0 <= j < 12 implies #[trigger] per[13 + j] == crate::periodic::ark_spec(true, j, active, r) by {
        assert(per[13 + j] == periodic_spec(13 + j, r));
    }
    crate::lane::lemma_lane_round_residuals(cur, nxt, per, 0, 0, 1, 13, lane_start(inp, false), lane_links(inp, false), active, r);
    crate::lane::lemma_lane_round_residuals(cur, nxt, per, 12, 0, 1, 13, lane_start(inp, true), lane_links(inp, true), active, r);
    assert forall|k: int| 0 <= k < 24 implies #[trigger] constraint_spec(k, cur, nxt, per) == 0 by {
        if k < 12 {
            assert(constraint_spec(k, cur, nxt, per) == crate::constraints::round_residual(cur, nxt, per, 0, 0, 1, 13, k));
        } else {
            assert(constraint_spec(k, cur, nxt, per) == crate::constraints::round_residual(cur, nxt, per, 12, 0, 1, 13, k - 12));
        }
    }
}

#[verifier::spinoff_prover]
#[verifier::rlimit(100)]
proof fn lemma_accepted_constraint_105(cur: Seq<u64>, nxt: Seq<u64>, per: Seq<u64>)
    requires
        cur.len() == TRACE_WIDTH,
        nxt.len() == TRACE_WIDTH,
        all_canonical(cur),
        all_canonical(nxt),
        constraint_spec(105, cur, nxt, per) == 0,
    ensures
        cur[44] <= 1,
{
    lemma_residuals_len_0(cur, nxt, per);
    lemma_residuals_len_1(cur, nxt, per);
    lemma_residuals_len_2(cur, nxt, per);
    lemma_residuals_len_3(cur, nxt, per);
    lemma_residuals_len_4(cur, nxt, per);
    lemma_residuals_len_5(cur, nxt, per);
    assert(residuals_6(cur, nxt, per).len() == 12) by {
        reveal(residuals_6);
    }
    assert(residuals_7(cur, nxt, per).len() == 12) by {
        reveal(residuals_7);
    }
    assert(constraint_spec(105, cur, nxt, per) == residuals_6(cur, nxt, per)[9]);
    reveal(residuals_6);
    lemma_field_bit(cur[44]);
}

#[verifier::spinoff_prover]
#[verifier::rlimit(100)]
proof fn lemma_accepted_constraint_108(cur: Seq<u64>, nxt: Seq<u64>, per: Seq<u64>)
    requires
        cur.len() == TRACE_WIDTH,
        nxt.len() == TRACE_WIDTH,
        all_canonical(cur),
        all_canonical(nxt),
        constraint_spec(108, cur, nxt, per) == 0,
    ensures
        per[33] == 1 ==> cur[45] == 0,
{
    lemma_residuals_len_0(cur, nxt, per);
    lemma_residuals_len_1(cur, nxt, per);
    lemma_residuals_len_2(cur, nxt, per);
    lemma_residuals_len_3(cur, nxt, per);
    lemma_residuals_len_4(cur, nxt, per);
    lemma_residuals_len_5(cur, nxt, per);
    assert(residuals_6(cur, nxt, per).len() == 12) by {
        reveal(residuals_6);
    }
    assert(residuals_7(cur, nxt, per).len() == 12) by {
        reveal(residuals_7);
    }
    assert(constraint_spec(108, cur, nxt, per) == residuals_7(cur, nxt, per)[0]);
    reveal(residuals_7);
    if per[33] == 1 {
        lemma_selected(cur[45]);
    }
}

#[verifier::spinoff_prover]
#[verifier::rlimit(100)]
proof fn lemma_accepted_constraint_109(cur: Seq<u64>, nxt: Seq<u64>, per: Seq<u64>)
    requires
        cur.len() == TRACE_WIDTH,
        nxt.len() == TRACE_WIDTH,
        all_canonical(cur),
        all_canonical(nxt),
        constraint_spec(109, cur, nxt, per) == 0,
    ensures
        per[34] == 1 ==> nxt[45] == add_spec(add_spec(cur[45], cur[45]), nxt[44]),
{
    lemma_residuals_len_0(cur, nxt, per);
    lemma_residuals_len_1(cur, nxt, per);
    lemma_residuals_len_2(cur, nxt, per);
    lemma_residuals_len_3(cur, nxt, per);
    lemma_residuals_len_4(cur, nxt, per);
    lemma_residuals_len_5(cur, nxt, per);
    assert(residuals_6(cur, nxt, per).len() == 12) by {
        reveal(residuals_6);
    }
    assert(residuals_7(cur, nxt, per).len() == 12) by {
        reveal(residuals_7);
    }
    assert(constraint_spec(109, cur, nxt, per) == residuals_7(cur, nxt, per)[1]);
    reveal(residuals_7);
    lemma_reduce_canonical(cur[45] + cur[45]);
    lemma_reduce_canonical(add_spec(cur[45], cur[45]) + nxt[44]);
    if per[34] == 1 {
        lemma_selected_equal(per[34], nxt[45], add_spec(add_spec(cur[45], cur[45]), nxt[44]));
    }
}

#[verifier::spinoff_prover]
#[verifier::rlimit(100)]
proof fn lemma_accepted_constraint_110(cur: Seq<u64>, nxt: Seq<u64>, per: Seq<u64>)
    requires
        cur.len() == TRACE_WIDTH,
        nxt.len() == TRACE_WIDTH,
        all_canonical(cur),
        all_canonical(nxt),
        constraint_spec(110, cur, nxt, per) == 0,
    ensures
        per[35] == 1 ==> nxt[45] == cur[40],
{
    lemma_residuals_len_0(cur, nxt, per);
    lemma_residuals_len_1(cur, nxt, per);
    lemma_residuals_len_2(cur, nxt, per);
    lemma_residuals_len_3(cur, nxt, per);
    lemma_residuals_len_4(cur, nxt, per);
    lemma_residuals_len_5(cur, nxt, per);
    assert(residuals_6(cur, nxt, per).len() == 12) by {
        reveal(residuals_6);
    }
    assert(residuals_7(cur, nxt, per).len() == 12) by {
        reveal(residuals_7);
    }
    assert(constraint_spec(110, cur, nxt, per) == residuals_7(cur, nxt, per)[2]);
    reveal(residuals_7);
    if per[35] == 1 {
        lemma_selected_equal(per[35], nxt[45], cur[40]);
    }
}

#[verifier::spinoff_prover]
#[verifier::rlimit(100)]
proof fn lemma_accepted_constraint_111(cur: Seq<u64>, nxt: Seq<u64>, per: Seq<u64>)
    requires
        cur.len() == TRACE_WIDTH,
        nxt.len() == TRACE_WIDTH,
        all_canonical(cur),
        all_canonical(nxt),
        constraint_spec(111, cur, nxt, per) == 0,
    ensures
        per[36] == 1 ==> nxt[45] == cur[28],
{
    lemma_residuals_len_0(cur, nxt, per);
    lemma_residuals_len_1(cur, nxt, per);
    lemma_residuals_len_2(cur, nxt, per);
    lemma_residuals_len_3(cur, nxt, per);
    lemma_residuals_len_4(cur, nxt, per);
    lemma_residuals_len_5(cur, nxt, per);
    assert(residuals_6(cur, nxt, per).len() == 12) by {
        reveal(residuals_6);
    }
    assert(residuals_7(cur, nxt, per).len() == 12) by {
        reveal(residuals_7);
    }
    assert(constraint_spec(111, cur, nxt, per) == residuals_7(cur, nxt, per)[3]);
    reveal(residuals_7);
    if per[36] == 1 {
        lemma_selected_equal(per[36], nxt[45], cur[28]);
    }
}

#[verifier::spinoff_prover]
#[verifier::rlimit(100)]
proof fn lemma_accepted_constraint_112(cur: Seq<u64>, nxt: Seq<u64>, per: Seq<u64>)
    requires
        cur.len() == TRACE_WIDTH,
        nxt.len() == TRACE_WIDTH,
        all_canonical(cur),
        all_canonical(nxt),
        constraint_spec(112, cur, nxt, per) == 0,
    ensures
        per[37] == 1 ==> nxt[45] == cur[29],
{
    lemma_residuals_len_0(cur, nxt, per);
    lemma_residuals_len_1(cur, nxt, per);
    lemma_residuals_len_2(cur, nxt, per);
    lemma_residuals_len_3(cur, nxt, per);
    lemma_residuals_len_4(cur, nxt, per);
    lemma_residuals_len_5(cur, nxt, per);
    assert(residuals_6(cur, nxt, per).len() == 12) by {
        reveal(residuals_6);
    }
    assert(residuals_7(cur, nxt, per).len() == 12) by {
        reveal(residuals_7);
    }
    assert(constraint_spec(112, cur, nxt, per) == residuals_7(cur, nxt, per)[4]);
    reveal(residuals_7);
    if per[37] == 1 {
        lemma_selected_equal(per[37], nxt[45], cur[29]);
    }
}

#[verifier::spinoff_prover]
#[verifier::rlimit(100)]
proof fn lemma_accepted_constraint_113(cur: Seq<u64>, nxt: Seq<u64>, per: Seq<u64>)
    requires
        cur.len() == TRACE_WIDTH,
        nxt.len() == TRACE_WIDTH,
        all_canonical(cur),
        all_canonical(nxt),
        constraint_spec(113, cur, nxt, per) == 0,
    ensures
        per[38] == 1 ==> nxt[45] == sub_spec(sub_spec(cur[29], cur[28]), 1u64),
{
    lemma_residuals_len_0(cur, nxt, per);
    lemma_residuals_len_1(cur, nxt, per);
    lemma_residuals_len_2(cur, nxt, per);
    lemma_residuals_len_3(cur, nxt, per);
    lemma_residuals_len_4(cur, nxt, per);
    lemma_residuals_len_5(cur, nxt, per);
    assert(residuals_6(cur, nxt, per).len() == 12) by {
        reveal(residuals_6);
    }
    assert(residuals_7(cur, nxt, per).len() == 12) by {
        reveal(residuals_7);
    }
    assert(constraint_spec(113, cur, nxt, per) == residuals_7(cur, nxt, per)[5]);
    reveal(residuals_7);
    lemma_reduce_canonical(cur[29] - cur[28]);
    lemma_reduce_canonical(sub_spec(cur[29], cur[28]) - 1);
    if per[38] == 1 {
        lemma_selected_equal(per[38], nxt[45], sub_spec(sub_spec(cur[29], cur[28]), 1u64));
    }
}

#[verifier::spinoff_prover]
#[verifier::rlimit(100)]
proof fn lemma_accepted_constraint_91(cur: Seq<u64>, nxt: Seq<u64>, per: Seq<u64>)
    requires
        cur.len() == TRACE_WIDTH,
        nxt.len() == TRACE_WIDTH,
        all_canonical(cur),
        all_canonical(nxt),
        constraint_spec(91, cur, nxt, per) == 0,
    ensures
        nxt[28] == cur[28],
{
    lemma_residuals_len_0(cur, nxt, per);
    lemma_residuals_len_1(cur, nxt, per);
    lemma_residuals_len_2(cur, nxt, per);
    lemma_residuals_len_3(cur, nxt, per);
    lemma_residuals_len_4(cur, nxt, per);
    lemma_residuals_len_5(cur, nxt, per);
    assert(residuals_6(cur, nxt, per).len() == 12) by {
        reveal(residuals_6);
    }
    assert(residuals_7(cur, nxt, per).len() == 12) by {
        reveal(residuals_7);
    }
    assert(constraint_spec(91, cur, nxt, per) == residuals_5(cur, nxt, per)[7]);
    reveal(residuals_5);
    lemma_equal(nxt[28], cur[28]);
}

#[verifier::spinoff_prover]
#[verifier::rlimit(100)]
proof fn lemma_accepted_constraint_92(cur: Seq<u64>, nxt: Seq<u64>, per: Seq<u64>)
    requires
        cur.len() == TRACE_WIDTH,
        nxt.len() == TRACE_WIDTH,
        all_canonical(cur),
        all_canonical(nxt),
        constraint_spec(92, cur, nxt, per) == 0,
    ensures
        nxt[29] == cur[29],
{
    lemma_residuals_len_0(cur, nxt, per);
    lemma_residuals_len_1(cur, nxt, per);
    lemma_residuals_len_2(cur, nxt, per);
    lemma_residuals_len_3(cur, nxt, per);
    lemma_residuals_len_4(cur, nxt, per);
    lemma_residuals_len_5(cur, nxt, per);
    assert(residuals_6(cur, nxt, per).len() == 12) by {
        reveal(residuals_6);
    }
    assert(residuals_7(cur, nxt, per).len() == 12) by {
        reveal(residuals_7);
    }
    assert(constraint_spec(92, cur, nxt, per) == residuals_5(cur, nxt, per)[8]);
    reveal(residuals_5);
    lemma_equal(nxt[29], cur[29]);
}

#[verifier::spinoff_prover]
#[verifier::rlimit(100)]
proof fn lemma_accepted_constraint_93(cur: Seq<u64>, nxt: Seq<u64>, per: Seq<u64>)
    requires
        cur.len() == TRACE_WIDTH,
        nxt.len() == TRACE_WIDTH,
        all_canonical(cur),
        all_canonical(nxt),
        constraint_spec(93, cur, nxt, per) == 0,
    ensures
        nxt[40] == cur[40],
{
    lemma_residuals_len_0(cur, nxt, per);
    lemma_residuals_len_1(cur, nxt, per);
    lemma_residuals_len_2(cur, nxt, per);
    lemma_residuals_len_3(cur, nxt, per);
    lemma_residuals_len_4(cur, nxt, per);
    lemma_residuals_len_5(cur, nxt, per);
    assert(residuals_6(cur, nxt, per).len() == 12) by {
        reveal(residuals_6);
    }
    assert(residuals_7(cur, nxt, per).len() == 12) by {
        reveal(residuals_7);
    }
    assert(constraint_spec(93, cur, nxt, per) == residuals_5(cur, nxt, per)[9]);
    reveal(residuals_5);
    lemma_equal(nxt[40], cur[40]);
}

/// What the range-check constraints of one accepted step say: on the
/// first row of a segment the accumulator is zero, inside a segment the
/// next accumulator doubles it and adds the next bit, on the row before a
/// segment ends its accumulator is the value checked there, and the
/// balance and the two custodians' indices keep their values.
pub open spec fn range_step_facts(cur: Seq<u64>, nxt: Seq<u64>, per: Seq<u64>) -> bool {
    &&& cur[44] <= 1
    &&& per[33] == 1 ==> cur[45] == 0
    &&& per[34] == 1 ==> nxt[45] == add_spec(add_spec(cur[45], cur[45]), nxt[44])
    &&& per[35] == 1 ==> nxt[45] == cur[40]
    &&& per[36] == 1 ==> nxt[45] == cur[28]
    &&& per[37] == 1 ==> nxt[45] == cur[29]
    &&& per[38] == 1 ==> nxt[45] == sub_spec(sub_spec(cur[29], cur[28]), 1u64)
    &&& nxt[28] == cur[28]
    &&& nxt[29] == cur[29]
    &&& nxt[40] == cur[40]
}

#[verifier::spinoff_prover]
#[verifier::rlimit(100)]
proof fn lemma_accepted_range_step(cur: Seq<u64>, nxt: Seq<u64>, per: Seq<u64>)
    requires
        cur.len() == TRACE_WIDTH,
        nxt.len() == TRACE_WIDTH,
        all_canonical(cur),
        all_canonical(nxt),
        forall|k: int| 0 <= k < NUM_CONSTRAINTS ==> #[trigger] constraint_spec(k, cur, nxt, per) == 0,
    ensures
        range_step_facts(cur, nxt, per),
{

    lemma_accepted_constraint_105(cur, nxt, per);
    lemma_accepted_constraint_108(cur, nxt, per);
    lemma_accepted_constraint_109(cur, nxt, per);
    lemma_accepted_constraint_110(cur, nxt, per);
    lemma_accepted_constraint_111(cur, nxt, per);
    lemma_accepted_constraint_112(cur, nxt, per);
    lemma_accepted_constraint_113(cur, nxt, per);
    lemma_accepted_constraint_91(cur, nxt, per);
    lemma_accepted_constraint_92(cur, nxt, per);
    lemma_accepted_constraint_93(cur, nxt, per);


}

/// The range-check segment starting on row `s` of an accepted trace ends
/// on a value below `2^63`.
#[verifier::spinoff_prover]
#[verifier::rlimit(100)]
proof fn lemma_accepted_range_segment(t: Seq<Vec<u64>>, s: int)
    requires
        t.len() == TRACE_WIDTH,
        columns_shape(t, TRACE_LENGTH as nat),
        forall|r: int| #![trigger periodic_row(r)] 0 <= r < TRACE_LENGTH - 1 ==> range_step_facts(row_of(t, r), row_of(t, r + 1), periodic_row(r)),
        s == 0 || s == 64 || s == 128 || s == 192,
        s + 64 < TRACE_LENGTH,
    ensures
        t[45][s + 63] < 0x8000_0000_0000_0000,
{
    let bits = t[44]@;
    let accs = t[45]@;
    let firsts: Seq<usize> = seq![0usize, 64, 128, 192];
    assert(firsts[s / 64] == s);
    assert(range_step_facts(row_of(t, s), row_of(t, s + 1), periodic_row(s)));
    assert(periodic_row(s)[33] == periodic_spec(33, s));
    assert(periodic_row(s)[33] == 1);
    assert(row_of(t, s)[45] == accs[s]);
    assert forall|i: int| s <= i < s + 63 implies #[trigger] accs[i + 1] == add_spec(add_spec(accs[i], accs[i]), bits[i + 1]) by {
        assert(range_step_facts(row_of(t, i), row_of(t, i + 1), periodic_row(i)));
        assert(i % 64 != 63);
        assert(periodic_row(i)[34] == periodic_spec(34, i));
        assert(periodic_row(i)[34] == 1);
        assert(row_of(t, i)[45] == accs[i]);
        assert(row_of(t, i + 1)[45] == accs[i + 1]);
        assert(row_of(t, i + 1)[44] == bits[i + 1]);
    }
    assert forall|i: int| s <= i < s + 64 implies #[trigger] bits[i] <= 1 by {
        assert(range_step_facts(row_of(t, i), row_of(t, i + 1), periodic_row(i)));
        assert(row_of(t, i)[44] == bits[i]);
    }
    lemma_accepted_segment(bits, accs, s);
}

/// What an accepted salted-recovery trace proves. Take any trace whose
/// every step satisfies every transition constraint with the periodic
/// values of `periodic_columns` (the field is prime, so `b * (b - 1) = 0`
/// makes each range-check cell a bit). Its four range-check segments end on
/// the balance, the first and the second custodian's index, and `index_b -
/// index_a - 1` (in the field) of its first row, each below `2^63`. So the
/// first index is below the second, for every first index below `p - 2^63`:
/// the same custodian cannot authorise twice, and a recovery has two
/// distinct custodians.
#[verifier::spinoff_prover]
#[verifier::rlimit(100)]
pub proof fn lemma_accepted_recovery_has_two_custodians(t: Seq<Vec<u64>>)
    requires
        t.len() == TRACE_WIDTH,
        columns_shape(t, TRACE_LENGTH as nat),
        forall|r: int, k: int|
            0 <= r < TRACE_LENGTH - 1 && 0 <= k < NUM_CONSTRAINTS ==> #[trigger] constraint_spec(
                k,
                row_of(t, r),
                row_of(t, r + 1),
                periodic_row(r),
            ) == 0,
    ensures
        t[45][63] == t[40][0],
        t[45][127] == t[28][0],
        t[45][191] == t[29][0],
        t[45][255] == sub_spec(sub_spec(t[29][0], t[28][0]), 1u64),
        t[40][0] < 0x8000_0000_0000_0000,
        t[28][0] < 0x8000_0000_0000_0000,
        t[29][0] < 0x8000_0000_0000_0000,
        sub_spec(sub_spec(t[29][0], t[28][0]), 1u64) < 0x8000_0000_0000_0000,
        t[28][0] < MODULUS - 0x8000_0000_0000_0000 ==> t[28][0] < t[29][0],
{
    assert forall|r: int| #![trigger periodic_row(r)] 0 <= r < TRACE_LENGTH - 1 implies range_step_facts(row_of(t, r), row_of(t, r + 1), periodic_row(r)) by {
        let cur = row_of(t, r);
        let nxt = row_of(t, r + 1);
        assert forall|k: int| 0 <= k < NUM_CONSTRAINTS implies #[trigger] constraint_spec(k, cur, nxt, periodic_row(r)) == 0 by {
            assert(constraint_spec(k, row_of(t, r), row_of(t, r + 1), periodic_row(r)) == 0);
        }
        assert forall|c: int| 0 <= c < TRACE_WIDTH implies #[trigger] cur[c] < MODULUS && nxt[c] < MODULUS by {
            assert(all_canonical(t[c]@));
        }
        lemma_accepted_range_step(cur, nxt, periodic_row(r));
    }
    assert forall|q: int| 0 <= q < 255 implies #[trigger] t[28]@[q + 1] == t[28]@[q] by {
        assert(range_step_facts(row_of(t, q), row_of(t, q + 1), periodic_row(q)));
    }
    lemma_column_kept(t[28]@, 254);
    assert forall|q: int| 0 <= q < 255 implies #[trigger] t[29]@[q + 1] == t[29]@[q] by {
        assert(range_step_facts(row_of(t, q), row_of(t, q + 1), periodic_row(q)));
    }
    lemma_column_kept(t[29]@, 254);
    assert forall|q: int| 0 <= q < 255 implies #[trigger] t[40]@[q + 1] == t[40]@[q] by {
        assert(range_step_facts(row_of(t, q), row_of(t, q + 1), periodic_row(q)));
    }
    lemma_column_kept(t[40]@, 254);
    assert(periodic_row(62)[35] == 1) by {
        let one: Seq<usize> = seq![(64 * (35 - 34) - 2) as usize];
        assert(one[0] == 62);
        assert(periodic_row(62)[35] == selector_spec(one, 62));
    }
    assert(range_step_facts(row_of(t, 62), row_of(t, 63), periodic_row(62)));
    assert(periodic_row(126)[36] == 1) by {
        let one: Seq<usize> = seq![(64 * (36 - 34) - 2) as usize];
        assert(one[0] == 126);
        assert(periodic_row(126)[36] == selector_spec(one, 126));
    }
    assert(range_step_facts(row_of(t, 126), row_of(t, 127), periodic_row(126)));
    assert(periodic_row(190)[37] == 1) by {
        let one: Seq<usize> = seq![(64 * (37 - 34) - 2) as usize];
        assert(one[0] == 190);
        assert(periodic_row(190)[37] == selector_spec(one, 190));
    }
    assert(range_step_facts(row_of(t, 190), row_of(t, 191), periodic_row(190)));
    assert(periodic_row(254)[38] == 1) by {
        let one: Seq<usize> = seq![(64 * (38 - 34) - 2) as usize];
        assert(one[0] == 254);
        assert(periodic_row(254)[38] == selector_spec(one, 254));
    }
    assert(range_step_facts(row_of(t, 254), row_of(t, 255), periodic_row(254)));
    lemma_accepted_range_segment(t, 0);
    lemma_accepted_range_segment(t, 64);
    lemma_accepted_range_segment(t, 128);
    lemma_accepted_range_segment(t, 192);
    assert(t[40]@[62] == t[40]@[0] && t[28]@[126] == t[28]@[0] && t[29]@[190] == t[29]@[0]);
    assert(t[28]@[254] == t[28]@[0] && t[29]@[254] == t[29]@[0]);
    assert(all_canonical(t[29]@));
    if t[28][0] < MODULUS - 0x8000_0000_0000_0000 {
        lemma_checked_gap(t[29][0], t[28][0]);
    }
}

/// The inputs whose range checks an honest trace passes: the balance fits
/// in 63 bits, and the declared custodian indices are the positions their
/// paths prove, the first below the second.
pub open spec fn range_inputs_ok(inp: RecoveryInputs) -> bool {
    &&& reduce(inp.balance as int) < 0x8000_0000_0000_0000
    &&& inp.auth.index_a as int == bits_value(inp.auth.path_a.is_right@, 4)
    &&& inp.auth.index_b as int == bits_value(inp.auth.path_b.is_right@, 4)
    &&& inp.auth.index_a < inp.auth.index_b
}

/// What the range checks read of a step: the bits are bits, each segment
/// starts from zero, the accumulator takes one bit per row, and each
/// segment ends on its value.
pub open spec fn range_facts(cur: Seq<u64>, nxt: Seq<u64>, per: Seq<u64>) -> bool {
    &&& cur[44] == 0 || cur[44] == 1
    &&& nxt[44] == 0 || nxt[44] == 1
    &&& per[33] == 0 || (per[33] == 1 && cur[44] == 0 && cur[45] == 0)
    &&& per[34] == 0 || (per[34] == 1 && nxt[45] == add_spec(add_spec(cur[45], cur[45]), nxt[44]))
    &&& per[35] == 0 || (per[35] == 1 && nxt[45] == cur[40])
    &&& per[36] == 0 || (per[36] == 1 && nxt[45] == cur[28])
    &&& per[37] == 0 || (per[37] == 1 && nxt[45] == cur[29])
    &&& per[38] == 0 || (per[38] == 1 && nxt[45] == sub_spec(sub_spec(cur[29], cur[28]), 1u64))
}

/// The range checks of an honest trace: four segments of 64 rows over the
/// balance, both indices and `B - A - 1`.
#[verifier::spinoff_prover]
#[verifier::rlimit(100)]
proof fn lemma_trace_range_facts(inp: RecoveryInputs, t: Seq<Vec<u64>>, r: int)
    requires
        t.len() == TRACE_WIDTH,
        forall|col: int, q: int|
            0 <= col < TRACE_WIDTH && 0 <= q < TRACE_LENGTH ==> #[trigger] t[col][q] == cell_spec(inp, col, q),
        range_inputs_ok(inp),
        0 <= r < TRACE_LENGTH - 1,
    ensures
        range_facts(row_of(t, r), row_of(t, r + 1), periodic_row(r)),
{
    let cur = row_of(t, r);
    let nxt = row_of(t, r + 1);
    let per = periodic_row(r);
    let p: nat = MODULUS as nat;
    let ia = inp.auth.index_a;
    let ib = inp.auth.index_b;
    reveal_with_fuel(bits_value, 5);
    vstd::arithmetic::power2::lemma2_to64();
    assert(ib < 16);
    vstd::arithmetic::div_mod::lemma_small_mod(0, p);
    vstd::arithmetic::div_mod::lemma_small_mod(1, p);
    vstd::arithmetic::div_mod::lemma_small_mod(ia as nat, p);
    vstd::arithmetic::div_mod::lemma_small_mod(ib as nat, p);
    vstd::arithmetic::div_mod::lemma_small_mod((ib - ia) as nat, p);
    vstd::arithmetic::div_mod::lemma_small_mod((ib - ia - 1) as nat, p);
    let segs = segment_values_spec(inp);
    assert(segs[3] == ib - ia - 1);
    assert forall|s: int| 0 <= s < 4 implies #[trigger] segs[s] < 0x8000_0000_0000_0000 by {}
    assert forall|c: int| 0 <= c < TRACE_WIDTH implies #[trigger] cur[c] == t[c][r] && nxt[c] == t[c][r + 1] by {}
    assert forall|q: int| 0 <= q < TRACE_LENGTH implies (#[trigger] t[44][q] == (if q < 256 { seg_bit(segs[q / 64], 64, (q % 64) as nat) } else { 0u64 })
        && t[45][q] == (if q < 256 { reduce(seg_acc(segs[q / 64], 64, (q % 64) as nat) as int) } else { 0u64 })) by {
        assert(t[44][q] == cell_spec(inp, 44, q));
        assert(t[45][q] == cell_spec(inp, 45, q));
    }
    assert(cur[40] == segs[0] && cur[28] == segs[1] && cur[29] == segs[2]) by {
        assert(t[40][r] == cell_spec(inp, 40, r));
        assert(t[28][r] == cell_spec(inp, 28, r));
        assert(t[29][r] == cell_spec(inp, 29, r));
    }
    assert(sub_spec(sub_spec(cur[29], cur[28]), 1u64) == segs[3]);
    assert forall|q: int| 0 <= q < TRACE_LENGTH implies (#[trigger] t[44][q] == 0 || t[44][q] == 1) by {
        if q < 256 {
            crate::solvency::lemma_wide_segment(segs[q / 64], (q % 64) as nat);
        }
    }
    let s_first: Seq<usize> = seq![0usize, 64, 128, 192];
    assert(per[33] == selector_spec(s_first, r));
    assert(per[34] == continue_spec(NUM_SEGMENTS as int, SEGMENT_LENGTH as int, r));
    if r % 64 == 0 && r < 256 {
        assert(s_first[r / 64] == r);
        crate::solvency::lemma_wide_segment(segs[r / 64], 0);
        assert(cur[44] == 0 && cur[45] == 0);
    } else {
        assert forall|l: int| 0 <= l < s_first.len() implies s_first[l] != r by {}
        assert(per[33] == 0);
    }
    if r < 256 && r % 64 != 63 {
        let w = segs[r / 64];
        let q = r % 64;
        assert((r + 1) / 64 == r / 64 && (r + 1) % 64 == q + 1);
        crate::solvency::lemma_wide_segment(w, q as nat);
        crate::solvency::lemma_wide_segment(w, (q + 1) as nat);
        vstd::arithmetic::div_mod::lemma_small_mod(seg_acc(w, 64, q as nat) as nat, p);
        vstd::arithmetic::div_mod::lemma_small_mod(seg_acc(w, 64, (q + 1) as nat) as nat, p);
        assert(cur[45] == seg_acc(w, 64, q as nat));
        assert(nxt[45] == seg_acc(w, 64, (q + 1) as nat));
        assert(nxt[44] == seg_bit(w, 64, (q + 1) as nat));
        vstd::arithmetic::div_mod::lemma_small_mod((cur[45] + cur[45]) as nat, p);
        vstd::arithmetic::div_mod::lemma_small_mod((cur[45] + cur[45] + nxt[44]) as nat, p);
        assert(add_spec(add_spec(cur[45], cur[45]), nxt[44]) == nxt[45]);
    } else {
        assert(per[34] == 0);
    }
    let e0: Seq<usize> = seq![62usize];
    assert(per[35] == selector_spec(e0, r));
    if r == 62 {
        assert(e0[0] == 62);
        crate::solvency::lemma_wide_segment(segs[0], 63);
        vstd::arithmetic::div_mod::lemma_small_mod(segs[0] as nat, p);
        assert(nxt[45] == segs[0]);
    } else {
        assert(per[35] == 0);
    }
    let e1: Seq<usize> = seq![126usize];
    assert(per[36] == selector_spec(e1, r));
    if r == 126 {
        assert(e1[0] == 126);
        crate::solvency::lemma_wide_segment(segs[1], 63);
        vstd::arithmetic::div_mod::lemma_small_mod(segs[1] as nat, p);
        assert(nxt[45] == segs[1]);
    } else {
        assert(per[36] == 0);
    }
    let e2: Seq<usize> = seq![190usize];
    assert(per[37] == selector_spec(e2, r));
    if r == 190 {
        assert(e2[0] == 190);
        crate::solvency::lemma_wide_segment(segs[2], 63);
        vstd::arithmetic::div_mod::lemma_small_mod(segs[2] as nat, p);
        assert(nxt[45] == segs[2]);
    } else {
        assert(per[37] == 0);
    }
    let e3: Seq<usize> = seq![254usize];
    assert(per[38] == selector_spec(e3, r));
    if r == 254 {
        assert(e3[0] == 254);
        crate::solvency::lemma_wide_segment(segs[3], 63);
        vstd::arithmetic::div_mod::lemma_small_mod(segs[3] as nat, p);
        assert(nxt[45] == segs[3]);
    } else {
        assert(per[38] == 0);
    }
}


/// Every step of a trace built from honest inputs satisfies the
/// range-check constraints (105..114): the range-check cells are bits, each
/// of the four segments starts from zero, its accumulator takes one bit per
/// row, and it ends on the balance, the first and the second custodian's
/// index, and `index_b - index_a - 1`.
#[verifier::spinoff_prover]
#[verifier::rlimit(100)]
pub proof fn lemma_trace_satisfies_range_constraints(inp: RecoveryInputs, t: Seq<Vec<u64>>, r: int)
    requires
        t.len() == TRACE_WIDTH,
        forall|col: int, q: int|
            0 <= col < TRACE_WIDTH && 0 <= q < TRACE_LENGTH ==> #[trigger] t[col][q] == cell_spec(inp, col, q),
        range_inputs_ok(inp),
        0 <= r < TRACE_LENGTH - 1,
    ensures
        forall|k: int| 105 <= k < 114 ==> #[trigger] constraint_spec(k, row_of(t, r), row_of(t, r + 1), periodic_row(r)) == 0,
{
    let cur = row_of(t, r);
    let nxt = row_of(t, r + 1);
    let per = periodic_row(r);
    lemma_trace_range_facts(inp, t, r);
    let p: nat = MODULUS as nat;
    vstd::arithmetic::div_mod::lemma_small_mod(0, p);
    vstd::arithmetic::div_mod::lemma_small_mod(1, p);
    assert forall|x: u64| #[trigger] mul_spec(0u64, x) == 0 by {
        assert(0u64 * x == 0);
    }
    assert forall|x: u64| #[trigger] mul_spec(1u64, x) == reduce(x as int) by {
        assert(1u64 * x == x);
    }
    assert forall|x: u64| #[trigger] sub_spec(x, x) == 0 by {}
    assert(sub_spec(1u64, 1u64) == 0);
    assert(sub_spec(0u64, 1u64) == MODULUS - 1) by {
        vstd::arithmetic::div_mod::lemma_mod_add_multiples_vanish(-1, MODULUS as int);
        vstd::arithmetic::div_mod::lemma_small_mod((MODULUS - 1) as nat, p);
    }
    assert(mul_spec(0u64, (MODULUS - 1) as u64) == 0);
    lemma_residuals_len_0(cur, nxt, per);
    lemma_residuals_len_1(cur, nxt, per);
    lemma_residuals_len_2(cur, nxt, per);
    lemma_residuals_len_3(cur, nxt, per);
    lemma_residuals_len_4(cur, nxt, per);
    lemma_residuals_len_5(cur, nxt, per);
    assert(residuals_6(cur, nxt, per).len() == 12) by {
        reveal(residuals_6);
    }
    assert(residuals_7(cur, nxt, per).len() == 12) by {
        reveal(residuals_7);
    }
    assert forall|j: int| 9 <= j < 12 implies #[trigger] residuals_6(cur, nxt, per)[j] == 0 by {
        reveal(residuals_6);
    }
    assert forall|j: int| 0 <= j < 6 implies #[trigger] residuals_7(cur, nxt, per)[j] == 0 by {
        reveal(residuals_7);
    }
    assert forall|k: int| 105 <= k < 114 implies #[trigger] constraint_spec(k, cur, nxt, per) == 0 by {
        if k < 108 {
            assert(constraint_spec(k, cur, nxt, per) == residuals_6(cur, nxt, per)[k - 96]);
        } else {
            assert(constraint_spec(k, cur, nxt, per) == residuals_7(cur, nxt, per)[k - 108]);
        }
    }
}

/// The honest inputs of a recovery: the balance fits in 63 bits and is the
/// same in both leaves, the counter moves by one, and the declared indices
/// are the positions the custodians' paths prove, the first below the
/// second.
pub open spec fn honest_recovery(inp: RecoveryInputs) -> bool {
    &&& reduce(inp.balance as int) < 0x8000_0000_0000_0000
    &&& reduce(inp.balance_new as int) == reduce(inp.balance as int)
    &&& reduce(inp.count_delta as int) == 1
    &&& inp.auth.index_a as int == bits_value(inp.auth.path_a.is_right@, 4)
    &&& inp.auth.index_b as int == bits_value(inp.auth.path_b.is_right@, 4)
    &&& inp.auth.index_a < inp.auth.index_b
}

/// The rows that end a level of the account's climb.
pub open spec fn acct_link_row(r: int) -> bool {
    r % 8 == 7 && 23 <= r <= 271
}

/// The rows that end a level of the custodians' climbs.
pub open spec fn cust_link_row(r: int) -> bool {
    r % 8 == 7 && 287 <= r <= 311
}

/// The cells of a level link of the account climb: both lanes start from
/// their node and the same sibling, on the side the bit says.
#[verifier::spinoff_prover]
#[verifier::rlimit(100)]
proof fn lemma_account_link_facts(inp: RecoveryInputs, t: Seq<Vec<u64>>, r: int)
    requires
        t.len() == TRACE_WIDTH,
        forall|col: int, q: int|
            0 <= col < TRACE_WIDTH && 0 <= q < TRACE_LENGTH ==> #[trigger] t[col][q] == cell_spec(inp, col, q),
        inputs_ok(inp),
        acct_link_row(r),
    ensures
        ({
            let cur = row_of(t, r);
            let nxt = row_of(t, r + 1);
            &&& nxt[24] == 0 || nxt[24] == 1
            &&& forall|j: int| (0 <= j < 4 || 12 <= j < 16) ==> #[trigger] nxt[j] == 0
            &&& nxt[24] == 1 ==> forall|j: int| (8 <= j < 12 || 20 <= j < 24) ==> #[trigger] nxt[j] == cur[j - 4]
            &&& nxt[24] == 1 ==> forall|j: int| 4 <= j < 8 ==> #[trigger] nxt[j] == nxt[j + 12]
            &&& nxt[24] == 0 ==> forall|j: int| (4 <= j < 8 || 16 <= j < 20) ==> #[trigger] nxt[j] == cur[j]
            &&& nxt[24] == 0 ==> forall|j: int| 8 <= j < 12 ==> #[trigger] nxt[j] == nxt[j + 12]
        }),
{
    let cur = row_of(t, r);
    let nxt = row_of(t, r + 1);
    let sa = lane_start(inp, false);
    let sb = lane_start(inp, true);
    let la = lane_links(inp, false);
    let lb = lane_links(inp, true);
    assert forall|i: int| 0 <= i < 12 implies #[trigger] cur[i] == lane_value(sa, la, i, r) && nxt[i] == lane_value(sa, la, i, r + 1)
        && cur[12 + i] == lane_value(sb, lb, i, r) && nxt[12 + i] == lane_value(sb, lb, i, r + 1) by {
        assert(t[i][r] == cell_spec(inp, i, r));
        assert(t[i][r + 1] == cell_spec(inp, i, r + 1));
        assert(t[12 + i][r] == cell_spec(inp, 12 + i, r));
        assert(t[12 + i][r + 1] == cell_spec(inp, 12 + i, r + 1));
    }
    let c = r / 8;
    assert(r == 8 * c + 7 && (r + 1) / 8 == c + 1 && (r + 1) % 8 == 0);
    assert(la.len() == 39 && lb.len() == 39);
    crate::lane::lemma_lane_link_row(sa, la, c as nat);
    crate::lane::lemma_lane_link_row(sb, lb, c as nat);
    lemma_lane_digest_row(sa, la, c as nat);
    lemma_lane_digest_row(sb, lb, c as nat);
    let da = cycle_digest(sa, la, c as nat);
    let db = cycle_digest(sb, lb, c as nat);
    assert(da.len() == 4 && db.len() == 4);
    assert forall|i: int| 0 <= i < 12 implies #[trigger] nxt[i] == link_start(la[c], da)[i] && nxt[12 + i] == link_start(lb[c], db)[i] by {}
    assert forall|j: int| (4 <= j < 8 || 16 <= j < 20) implies #[trigger] cur[j] == (if j < 8 { da[j - 4] } else { db[j - 16] }) by {
        if j < 8 {
            assert(lane_value(sa, la, 4 + (j - 4), r) == da[j - 4]);
        } else {
            assert(lane_value(sb, lb, 4 + (j - 16), r) == db[j - 16]);
        }
    }
    let sib = inp.path.siblings@[c - 2];
    let b = inp.path.is_right@[c - 2];
    assert(la[c] == Link::Place { other: sib, right: b });
    assert(lb[c] == Link::Place { other: sib, right: b });
    assert(nxt[24] == t[24][r + 1]);
    assert(t[24][r + 1] == cell_spec(inp, 24, r + 1));
    assert(nxt[24] == if b { 1u64 } else { 0u64 });
    assert(sib@.len() == 4);
    assert forall|j: int| (0 <= j < 4 || 12 <= j < 16) implies #[trigger] nxt[j] == 0 by {
        if j >= 12 {
            assert(nxt[12 + (j - 12)] == link_start(lb[c], db)[j - 12]);
        }
    }
    if b {
        assert forall|j: int| (8 <= j < 12 || 20 <= j < 24) implies #[trigger] nxt[j] == cur[j - 4] by {
            if j >= 20 {
                assert(nxt[12 + (j - 12)] == link_start(lb[c], db)[j - 12]);
            }
        }
        assert forall|j: int| 4 <= j < 8 implies #[trigger] nxt[j] == nxt[j + 12] by {
            assert(nxt[12 + j] == link_start(lb[c], db)[j]);
        }
    } else {
        assert forall|j: int| (4 <= j < 8 || 16 <= j < 20) implies #[trigger] nxt[j] == cur[j] by {
            if j >= 16 {
                assert(nxt[12 + (j - 12)] == link_start(lb[c], db)[j - 12]);
            }
        }
        assert forall|j: int| 8 <= j < 12 implies #[trigger] nxt[j] == nxt[j + 12] by {
            assert(nxt[12 + j] == link_start(lb[c], db)[j]);
        }
    }
}

/// The cells of a level link of the custodians' climbs: each lane starts
/// from its node on the side its own bit says, and its accumulator takes
/// the bit's weight.
#[verifier::spinoff_prover]
#[verifier::rlimit(100)]
proof fn lemma_custodian_link_facts(inp: RecoveryInputs, t: Seq<Vec<u64>>, r: int)
    requires
        t.len() == TRACE_WIDTH,
        forall|col: int, q: int|
            0 <= col < TRACE_WIDTH && 0 <= q < TRACE_LENGTH ==> #[trigger] t[col][q] == cell_spec(inp, col, q),
        inputs_ok(inp),
        cust_link_row(r),
    ensures
        ({
            let cur = row_of(t, r);
            let nxt = row_of(t, r + 1);
            let per = periodic_row(r);
            &&& nxt[24] == 0 || nxt[24] == 1
            &&& nxt[25] == 0 || nxt[25] == 1
            &&& forall|j: int| (0 <= j < 4 || 12 <= j < 16) ==> #[trigger] nxt[j] == 0
            &&& nxt[24] == 1 ==> forall|j: int| 8 <= j < 12 ==> #[trigger] nxt[j] == cur[j - 4]
            &&& nxt[24] == 0 ==> forall|j: int| 4 <= j < 8 ==> #[trigger] nxt[j] == cur[j]
            &&& nxt[25] == 1 ==> forall|j: int| 20 <= j < 24 ==> #[trigger] nxt[j] == cur[j - 4]
            &&& nxt[25] == 0 ==> forall|j: int| 16 <= j < 20 ==> #[trigger] nxt[j] == cur[j]
            &&& nxt[30] == add_spec(cur[30], mul_spec(nxt[24], per[29]))
            &&& nxt[31] == add_spec(cur[31], mul_spec(nxt[25], per[29]))
        }),
{
    let cur = row_of(t, r);
    let nxt = row_of(t, r + 1);
    let per = periodic_row(r);
    let sa = lane_start(inp, false);
    let sb = lane_start(inp, true);
    let la = lane_links(inp, false);
    let lb = lane_links(inp, true);
    assert forall|i: int| 0 <= i < 12 implies #[trigger] cur[i] == lane_value(sa, la, i, r) && nxt[i] == lane_value(sa, la, i, r + 1)
        && cur[12 + i] == lane_value(sb, lb, i, r) && nxt[12 + i] == lane_value(sb, lb, i, r + 1) by {
        assert(t[i][r] == cell_spec(inp, i, r));
        assert(t[i][r + 1] == cell_spec(inp, i, r + 1));
        assert(t[12 + i][r] == cell_spec(inp, 12 + i, r));
        assert(t[12 + i][r + 1] == cell_spec(inp, 12 + i, r + 1));
    }
    let c = r / 8;
    assert(r == 8 * c + 7 && (r + 1) / 8 == c + 1 && (r + 1) % 8 == 0);
    assert(la.len() == 39 && lb.len() == 39);
    crate::lane::lemma_lane_link_row(sa, la, c as nat);
    crate::lane::lemma_lane_link_row(sb, lb, c as nat);
    lemma_lane_digest_row(sa, la, c as nat);
    lemma_lane_digest_row(sb, lb, c as nat);
    let da = cycle_digest(sa, la, c as nat);
    let db = cycle_digest(sb, lb, c as nat);
    assert(da.len() == 4 && db.len() == 4);
    assert forall|i: int| 0 <= i < 12 implies #[trigger] nxt[i] == link_start(la[c], da)[i] && nxt[12 + i] == link_start(lb[c], db)[i] by {}
    assert forall|j: int| (4 <= j < 8 || 16 <= j < 20) implies #[trigger] cur[j] == (if j < 8 { da[j - 4] } else { db[j - 16] }) by {
        if j < 8 {
            assert(lane_value(sa, la, 4 + (j - 4), r) == da[j - 4]);
        } else {
            assert(lane_value(sb, lb, 4 + (j - 16), r) == db[j - 16]);
        }
    }
    let k = c - 35;
    let sa_ = inp.auth.path_a.siblings@[k];
    let ba = inp.auth.path_a.is_right@[k];
    let sb_ = inp.auth.path_b.siblings@[k];
    let bb = inp.auth.path_b.is_right@[k];
    assert(la[c] == Link::Place { other: sa_, right: ba });
    assert(lb[c] == Link::Place { other: sb_, right: bb });
    assert(nxt[24] == t[24][r + 1] && nxt[25] == t[25][r + 1]);
    assert(t[24][r + 1] == cell_spec(inp, 24, r + 1));
    assert(t[25][r + 1] == cell_spec(inp, 25, r + 1));
    assert(nxt[24] == if ba { 1u64 } else { 0u64 });
    assert(nxt[25] == if bb { 1u64 } else { 0u64 });
    assert(sa_@.len() == 4 && sb_@.len() == 4);
    assert forall|j: int| (0 <= j < 4 || 12 <= j < 16) implies #[trigger] nxt[j] == 0 by {
        if j >= 12 {
            assert(nxt[12 + (j - 12)] == link_start(lb[c], db)[j - 12]);
        }
    }
    assert forall|j: int| 20 <= j < 24 implies #[trigger] nxt[j] == link_start(lb[c], db)[j - 12] by {
        assert(nxt[12 + (j - 12)] == link_start(lb[c], db)[j - 12]);
    }
    assert forall|j: int| 16 <= j < 20 implies #[trigger] nxt[j] == link_start(lb[c], db)[j - 12] by {
        assert(nxt[12 + (j - 12)] == link_start(lb[c], db)[j - 12]);
    }
    // The accumulators take the bits' weights.
    let p: nat = MODULUS as nat;
    reveal_with_fuel(point_spec, 5);
    reveal_with_fuel(bits_value, 5);
    vstd::arithmetic::power2::lemma2_to64();
    assert(per[29] == point_spec(custodian_pow2_points(), r));
    assert(per[29] == pow2(k as nat));
    assert(cur[30] == t[30][r] && nxt[30] == t[30][r + 1] && cur[31] == t[31][r] && nxt[31] == t[31][r + 1]);
    assert(t[30][r] == cell_spec(inp, 30, r));
    assert(t[30][r + 1] == cell_spec(inp, 30, r + 1));
    assert(t[31][r] == cell_spec(inp, 31, r));
    assert(t[31][r + 1] == cell_spec(inp, 31, r + 1));
    assert(levels_done_from(r, CYC_ACCT_ROOT as int, 4) == k);
    assert(levels_done_from(r + 1, CYC_ACCT_ROOT as int, 4) == k + 1);
    let bva = inp.auth.path_a.is_right@;
    let bvb = inp.auth.path_b.is_right@;
    assert(0 <= bits_value(bva, k as nat) < 16 && 0 <= bits_value(bva, (k + 1) as nat) < 16);
    assert(0 <= bits_value(bvb, k as nat) < 16 && 0 <= bits_value(bvb, (k + 1) as nat) < 16);
    vstd::arithmetic::div_mod::lemma_small_mod(0, p);
    vstd::arithmetic::div_mod::lemma_small_mod(1, p);
    vstd::arithmetic::div_mod::lemma_small_mod(pow2(k as nat), p);
    vstd::arithmetic::div_mod::lemma_small_mod(bits_value(bva, k as nat) as nat, p);
    vstd::arithmetic::div_mod::lemma_small_mod(bits_value(bva, (k + 1) as nat) as nat, p);
    vstd::arithmetic::div_mod::lemma_small_mod(bits_value(bvb, k as nat) as nat, p);
    vstd::arithmetic::div_mod::lemma_small_mod(bits_value(bvb, (k + 1) as nat) as nat, p);
    vstd::arithmetic::div_mod::lemma_small_mod((bits_value(bva, k as nat) + pow2(k as nat)) as nat, p);
    vstd::arithmetic::div_mod::lemma_small_mod((bits_value(bvb, k as nat) + pow2(k as nat)) as nat, p);
    assert(mul_spec(nxt[24], per[29]) == if ba { pow2(k as nat) as u64 } else { 0u64 }) by {
        if ba {
            assert(1u64 * per[29] == per[29]);
        } else {
            assert(0u64 * per[29] == 0);
        }
    }
    assert(mul_spec(nxt[25], per[29]) == if bb { pow2(k as nat) as u64 } else { 0u64 }) by {
        if bb {
            assert(1u64 * per[29] == per[29]);
        } else {
            assert(0u64 * per[29] == 0);
        }
    }
}

/// The cells after the leaf (the nonce, the next one in the new lane, then
/// the leaf salt), after the account root (each lane's custodian key), on
/// the first row (each lane's identity and the balance) and at the
/// custodians' root (the accumulators on the declared indices).
#[verifier::spinoff_prover]
#[verifier::rlimit(100)]
proof fn lemma_row_facts(inp: RecoveryInputs, t: Seq<Vec<u64>>, r: int)
    requires
        t.len() == TRACE_WIDTH,
        forall|col: int, q: int|
            0 <= col < TRACE_WIDTH && 0 <= q < TRACE_LENGTH ==> #[trigger] t[col][q] == cell_spec(inp, col, q),
        inputs_ok(inp),
        honest_recovery(inp),
        r == 7 || r == 15 || r == 279,
    ensures
        ({
            let cur = row_of(t, r);
            let nxt = row_of(t, r + 1);
            &&& (r == 7 || r == 15) ==> forall|j: int| (0 <= j < 4 || 12 <= j < 16) ==> #[trigger] nxt[j] == 0
            &&& (r == 7 || r == 15) ==> forall|j: int| (4 <= j < 8 || 16 <= j < 20) ==> #[trigger] nxt[j] == cur[j]
            &&& r == 7 ==> nxt[8] == cur[41] && nxt[20] == add_spec(cur[41], 1u64)
            &&& r == 15 ==> forall|j: int| (8 <= j < 12 || 20 <= j < 24) ==> #[trigger] nxt[j] == cur[if j < 12 { j + 38 } else { j + 26 }]
            &&& r == 279 ==> nxt[8] == cur[26] && nxt[20] == cur[27]
        }),
{
    let cur = row_of(t, r);
    let nxt = row_of(t, r + 1);
    let sa = lane_start(inp, false);
    let sb = lane_start(inp, true);
    let la = lane_links(inp, false);
    let lb = lane_links(inp, true);
    assert forall|i: int| 0 <= i < 12 implies #[trigger] cur[i] == lane_value(sa, la, i, r) && nxt[i] == lane_value(sa, la, i, r + 1)
        && cur[12 + i] == lane_value(sb, lb, i, r) && nxt[12 + i] == lane_value(sb, lb, i, r + 1) by {
        assert(t[i][r] == cell_spec(inp, i, r));
        assert(t[i][r + 1] == cell_spec(inp, i, r + 1));
        assert(t[12 + i][r] == cell_spec(inp, 12 + i, r));
        assert(t[12 + i][r + 1] == cell_spec(inp, 12 + i, r + 1));
    }
    let c = r / 8;
    assert(r == 8 * c + 7 && (r + 1) / 8 == c + 1 && (r + 1) % 8 == 0);
    assert(la.len() == 39 && lb.len() == 39);
    crate::lane::lemma_lane_link_row(sa, la, c as nat);
    crate::lane::lemma_lane_link_row(sb, lb, c as nat);
    lemma_lane_digest_row(sa, la, c as nat);
    lemma_lane_digest_row(sb, lb, c as nat);
    let da = cycle_digest(sa, la, c as nat);
    let db = cycle_digest(sb, lb, c as nat);
    assert(da.len() == 4 && db.len() == 4);
    assert forall|i: int| 0 <= i < 12 implies #[trigger] nxt[i] == link_start(la[c], da)[i] && nxt[12 + i] == link_start(lb[c], db)[i] by {}
    assert forall|j: int| (4 <= j < 8 || 16 <= j < 20) implies #[trigger] cur[j] == (if j < 8 { da[j - 4] } else { db[j - 16] }) by {
        if j < 8 {
            assert(lane_value(sa, la, 4 + (j - 4), r) == da[j - 4]);
        } else {
            assert(lane_value(sb, lb, 4 + (j - 16), r) == db[j - 16]);
        }
    }
    assert forall|j: int| 25 <= j < 50 implies #[trigger] cur[j] == cell_spec(inp, j, r) by {
        assert(t[j][r] == cell_spec(inp, j, r));
    }
    if r == 7 || r == 15 {
        if r == 7 {
            assert(la[c] == Link::Place { other: digest_arr(inp.nonce), right: false });
            assert(lb[c] == Link::Place { other: digest_arr(add_spec(inp.nonce, 1)), right: false });
        } else {
            assert(la[c] == Link::Place { other: inp.leaf_salt, right: false });
            assert(lb[c] == Link::Place { other: inp.leaf_salt, right: false });
        }
        assert forall|j: int| (0 <= j < 4 || 12 <= j < 16) implies #[trigger] nxt[j] == 0 by {
            if j >= 12 {
                assert(nxt[12 + (j - 12)] == link_start(lb[c], db)[j - 12]);
            }
        }
        assert forall|j: int| (4 <= j < 8 || 16 <= j < 20) implies #[trigger] nxt[j] == cur[j] by {
            if j >= 16 {
                assert(nxt[12 + (j - 12)] == link_start(lb[c], db)[j - 12]);
            }
        }
        if r == 7 {
            assert(nxt[8] == link_start(la[c], da)[8]);
            assert(nxt[20] == link_start(lb[c], db)[8]);
            assert(cur[41] == cell_spec(inp, 41, r));
        } else {
            assert forall|j: int| (8 <= j < 12 || 20 <= j < 24) implies #[trigger] nxt[j] == cur[if j < 12 { j + 38 } else { j + 26 }] by {
                if j < 12 {
                    assert(nxt[j] == link_start(la[c], da)[j]);
                    assert(cur[j + 38] == cell_spec(inp, j + 38, r));
                } else {
                    assert(nxt[12 + (j - 12)] == link_start(lb[c], db)[j - 12]);
                    assert(cur[j + 26] == cell_spec(inp, j + 26, r));
                }
            }
        }
    } else {
        assert(la[c] == Link::Fresh { state: merge_arr(digest_arr(CUSTODIAN_DOMAIN), digest_arr(inp.auth.key_a)) });
        assert(lb[c] == Link::Fresh { state: merge_arr(digest_arr(CUSTODIAN_DOMAIN), digest_arr(inp.auth.key_b)) });
        assert(nxt[20] == link_start(lb[c], db)[8]);
    }
}

/// The cells of the first row and of the custodians' root row.
#[verifier::spinoff_prover]
#[verifier::rlimit(100)]
proof fn lemma_end_row_facts(inp: RecoveryInputs, t: Seq<Vec<u64>>, r: int)
    requires
        t.len() == TRACE_WIDTH,
        forall|col: int, q: int|
            0 <= col < TRACE_WIDTH && 0 <= q < TRACE_LENGTH ==> #[trigger] t[col][q] == cell_spec(inp, col, q),
        inputs_ok(inp),
        honest_recovery(inp),
        r == 0 || r == 319,
    ensures
        ({
            let cur = row_of(t, r);
            &&& r == 0 ==> forall|j: int| (4 <= j < 8 || 16 <= j < 20) ==> #[trigger] cur[j] == cur[if j < 8 { j + 28 } else { j + 20 }]
            &&& r == 0 ==> cur[8] == cur[40] && cur[20] == cur[40]
            &&& r == 319 ==> cur[30] == cur[28] && cur[31] == cur[29]
        }),
{
    let cur = row_of(t, r);
    let sa = lane_start(inp, false);
    let sb = lane_start(inp, true);
    let la = lane_links(inp, false);
    let lb = lane_links(inp, true);
    assert forall|j: int| 0 <= j < 50 implies #[trigger] cur[j] == cell_spec(inp, j, r) by {
        assert(t[j][r] == cell_spec(inp, j, r));
    }
    if r == 0 {
        assert(crate::rescue::rounds(cycle_start(sa, la, 0), 0) == sa);
        assert(crate::rescue::rounds(cycle_start(sb, lb, 0), 0) == sb);
        assert forall|i: int| 0 <= i < 12 implies #[trigger] cur[i] == sa[i] && cur[12 + i] == sb[i] by {}
        assert forall|j: int| (4 <= j < 8 || 16 <= j < 20) implies #[trigger] cur[j] == cur[if j < 8 { j + 28 } else { j + 20 }] by {
            if j >= 16 {
                assert(cur[12 + (j - 12)] == sb[j - 12]);
            }
        }
        assert(cur[20] == sb[8]);
    } else {
        reveal_with_fuel(bits_value, 5);
        vstd::arithmetic::power2::lemma2_to64();
        assert(levels_done_from(319, CYC_ACCT_ROOT as int, 4) == 4);
        assert(0 <= bits_value(inp.auth.path_a.is_right@, 4) < 16);
        assert(0 <= bits_value(inp.auth.path_b.is_right@, 4) < 16);
    }
}


/// The selectors of a step of the recovery trace, row kind by row kind.
#[verifier::spinoff_prover]
#[verifier::rlimit(100)]
proof fn lemma_link_selectors(r: int)
    requires
        0 <= r < TRACE_LENGTH - 1,
    ensures
        periodic_row(r)[25] == (if acct_link_row(r) { 1u64 } else { 0u64 }),
        periodic_row(r)[26] == (if r == 7 { 1u64 } else { 0u64 }),
        periodic_row(r)[27] == (if r == 15 { 1u64 } else { 0u64 }),
        periodic_row(r)[28] == (if cust_link_row(r) { 1u64 } else { 0u64 }),
        periodic_row(r)[30] == (if r == 0 { 1u64 } else { 0u64 }),
        periodic_row(r)[31] == (if r == 279 { 1u64 } else { 0u64 }),
        periodic_row(r)[32] == (if r == 319 { 1u64 } else { 0u64 }),
{
    let per = periodic_row(r);
    let s26: Seq<usize> = seq![ROW_LEAF_LINK];
    assert(per[26] == selector_spec(s26, r));
    if r == 7 {
        assert(s26[0] == r);
    }
    let s27: Seq<usize> = seq![ROW_SALT_LINK];
    assert(per[27] == selector_spec(s27, r));
    if r == 15 {
        assert(s27[0] == r);
    }
    let s30: Seq<usize> = seq![0usize];
    assert(per[30] == selector_spec(s30, r));
    if r == 0 {
        assert(s30[0] == r);
    }
    let s31: Seq<usize> = seq![ROW_ACCT_ROOT];
    assert(per[31] == selector_spec(s31, r));
    if r == 279 {
        assert(s31[0] == r);
    }
    let s32: Seq<usize> = seq![ROW_CUST_ROOT];
    assert(per[32] == selector_spec(s32, r));
    if r == 319 {
        assert(s32[0] == r);
    }
    let m25 = acct_link_rows();
    let tail = cycle_end_rows(CYC_ACC as int, 31);
    assert(per[25] == selector_spec(m25, r));
    assert(m25.len() == 32);
    assert forall|l: int| 0 <= l < 32 implies #[trigger] m25[l] == 8 * (l + 2) + 7 by {
        if l > 0 {
            assert(m25[l] == tail[l - 1]);
        }
    }
    if acct_link_row(r) {
        assert(m25[r / 8 - 2] == r);
    } else {
        assert forall|l: int| 0 <= l < m25.len() implies m25[l] != r by {}
    }
    let m28 = cycle_end_rows(CYC_ACCT_ROOT as int, 4);
    assert(per[28] == selector_spec(m28, r));
    if cust_link_row(r) {
        assert(m28[r / 8 - 35] == r);
    } else {
        assert forall|l: int| 0 <= l < m28.len() implies m28[l] != r by {}
    }
}

/// What a step of an honest recovery trace holds, row kind by row kind, as
/// far as the constraints after the rounds read it.
pub open spec fn step_facts(cur: Seq<u64>, nxt: Seq<u64>, per: Seq<u64>, r: int) -> bool {
    &&& cur.len() == TRACE_WIDTH
    &&& nxt.len() == TRACE_WIDTH
    &&& per.len() == 39
    &&& per[25] == (if acct_link_row(r) { 1u64 } else { 0u64 })
    &&& per[26] == (if r == 7 { 1u64 } else { 0u64 })
    &&& per[27] == (if r == 15 { 1u64 } else { 0u64 })
    &&& per[28] == (if cust_link_row(r) { 1u64 } else { 0u64 })
    &&& per[30] == (if r == 0 { 1u64 } else { 0u64 })
    &&& per[31] == (if r == 279 { 1u64 } else { 0u64 })
    &&& per[32] == (if r == 319 { 1u64 } else { 0u64 })
    &&& acct_link_row(r) ==> {
        &&& nxt[24] == 0 || nxt[24] == 1
        &&& forall|j: int| (0 <= j < 4 || 12 <= j < 16) ==> #[trigger] nxt[j] == 0
        &&& nxt[24] == 1 ==> forall|j: int| (8 <= j < 12 || 20 <= j < 24) ==> #[trigger] nxt[j] == cur[j - 4]
        &&& nxt[24] == 1 ==> forall|j: int| 4 <= j < 8 ==> #[trigger] nxt[j] == nxt[j + 12]
        &&& nxt[24] == 0 ==> forall|j: int| (4 <= j < 8 || 16 <= j < 20) ==> #[trigger] nxt[j] == cur[j]
        &&& nxt[24] == 0 ==> forall|j: int| 8 <= j < 12 ==> #[trigger] nxt[j] == nxt[j + 12]
    }
    &&& cust_link_row(r) ==> {
        &&& nxt[24] == 0 || nxt[24] == 1
        &&& nxt[25] == 0 || nxt[25] == 1
        &&& forall|j: int| (0 <= j < 4 || 12 <= j < 16) ==> #[trigger] nxt[j] == 0
        &&& nxt[24] == 1 ==> forall|j: int| 8 <= j < 12 ==> #[trigger] nxt[j] == cur[j - 4]
        &&& nxt[24] == 0 ==> forall|j: int| 4 <= j < 8 ==> #[trigger] nxt[j] == cur[j]
        &&& nxt[25] == 1 ==> forall|j: int| 20 <= j < 24 ==> #[trigger] nxt[j] == cur[j - 4]
        &&& nxt[25] == 0 ==> forall|j: int| 16 <= j < 20 ==> #[trigger] nxt[j] == cur[j]
        &&& nxt[30] == add_spec(cur[30], mul_spec(nxt[24], per[29]))
        &&& nxt[31] == add_spec(cur[31], mul_spec(nxt[25], per[29]))
    }
    &&& (r == 7 || r == 15) ==> forall|j: int| (0 <= j < 4 || 12 <= j < 16) ==> #[trigger] nxt[j] == 0
    &&& (r == 7 || r == 15) ==> forall|j: int| (4 <= j < 8 || 16 <= j < 20) ==> #[trigger] nxt[j] == cur[j]
    &&& r == 7 ==> nxt[8] == cur[41] && nxt[20] == add_spec(cur[41], 1u64)
    &&& r == 15 ==> forall|j: int| (8 <= j < 12 || 20 <= j < 24) ==> #[trigger] nxt[j] == cur[if j < 12 { j + 38 } else { j + 26 }]
    &&& r == 279 ==> nxt[8] == cur[26] && nxt[20] == cur[27]
    &&& r == 0 ==> forall|j: int| (4 <= j < 8 || 16 <= j < 20) ==> #[trigger] cur[j] == cur[if j < 8 { j + 28 } else { j + 20 }]
    &&& r == 0 ==> cur[8] == cur[40] && cur[20] == cur[40]
    &&& r == 319 ==> cur[30] == cur[28] && cur[31] == cur[29]
    &&& cur[24] == 0 || cur[24] == 1
    &&& cur[25] == 0 || cur[25] == 1
    &&& cur[43] == add_spec(cur[42], 1u64)
    &&& forall|col: int| (26 <= col < 30 || 32 <= col < 44) ==> #[trigger] sub_spec(nxt[col], cur[col]) == 0
}

/// The residuals of constraints 24..36 vanish on a step that holds the
/// facts of an honest trace.
#[verifier::spinoff_prover]
#[verifier::rlimit(100)]
proof fn lemma_residuals_0_vanish(cur: Seq<u64>, nxt: Seq<u64>, per: Seq<u64>, r: int)
    requires
        step_facts(cur, nxt, per, r),
        range_facts(cur, nxt, per),
    ensures
        forall|j: int| 0 <= j < 12 ==> #[trigger] residuals_0(cur, nxt, per)[j] == 0,
{
    let p: nat = MODULUS as nat;
    vstd::arithmetic::div_mod::lemma_small_mod(0, p);
    vstd::arithmetic::div_mod::lemma_small_mod(1, p);
    vstd::arithmetic::div_mod::lemma_small_mod(2, p);
    assert forall|x: u64| #[trigger] mul_spec(0u64, x) == 0 by {
        assert(0u64 * x == 0);
    }
    assert forall|x: u64| #[trigger] mul_spec(1u64, x) == reduce(x as int) by {
        assert(1u64 * x == x);
    }
    assert forall|x: u64| #[trigger] sub_spec(x, x) == 0 by {}
    assert(sub_spec(1u64, 1u64) == 0);
    assert(sub_spec(1u64, 0u64) == 1);
    assert(add_spec(0u64, 0u64) == 0);
    assert(add_spec(1u64, 0u64) == 1);
    assert(add_spec(0u64, 1u64) == 1);
    assert forall|j: int| 0 <= j < 12 implies #[trigger] residuals_0(cur, nxt, per)[j] == 0 by {
        reveal(residuals_0);
    }
}

/// The residuals of constraints 36..48 vanish on a step that holds the
/// facts of an honest trace.
#[verifier::spinoff_prover]
#[verifier::rlimit(100)]
proof fn lemma_residuals_1_vanish(cur: Seq<u64>, nxt: Seq<u64>, per: Seq<u64>, r: int)
    requires
        step_facts(cur, nxt, per, r),
        range_facts(cur, nxt, per),
    ensures
        forall|j: int| 0 <= j < 12 ==> #[trigger] residuals_1(cur, nxt, per)[j] == 0,
{
    let p: nat = MODULUS as nat;
    vstd::arithmetic::div_mod::lemma_small_mod(0, p);
    vstd::arithmetic::div_mod::lemma_small_mod(1, p);
    vstd::arithmetic::div_mod::lemma_small_mod(2, p);
    assert forall|x: u64| #[trigger] mul_spec(0u64, x) == 0 by {
        assert(0u64 * x == 0);
    }
    assert forall|x: u64| #[trigger] mul_spec(1u64, x) == reduce(x as int) by {
        assert(1u64 * x == x);
    }
    assert forall|x: u64| #[trigger] sub_spec(x, x) == 0 by {}
    assert(sub_spec(1u64, 1u64) == 0);
    assert(sub_spec(1u64, 0u64) == 1);
    assert(add_spec(0u64, 0u64) == 0);
    assert(add_spec(1u64, 0u64) == 1);
    assert(add_spec(0u64, 1u64) == 1);
    assert forall|j: int| 0 <= j < 12 implies #[trigger] residuals_1(cur, nxt, per)[j] == 0 by {
        reveal(residuals_1);
    }
}

/// The residuals of constraints 48..60 vanish on a step that holds the
/// facts of an honest trace.
#[verifier::spinoff_prover]
#[verifier::rlimit(100)]
proof fn lemma_residuals_2_vanish(cur: Seq<u64>, nxt: Seq<u64>, per: Seq<u64>, r: int)
    requires
        step_facts(cur, nxt, per, r),
        range_facts(cur, nxt, per),
    ensures
        forall|j: int| 0 <= j < 12 ==> #[trigger] residuals_2(cur, nxt, per)[j] == 0,
{
    let p: nat = MODULUS as nat;
    vstd::arithmetic::div_mod::lemma_small_mod(0, p);
    vstd::arithmetic::div_mod::lemma_small_mod(1, p);
    vstd::arithmetic::div_mod::lemma_small_mod(2, p);
    assert forall|x: u64| #[trigger] mul_spec(0u64, x) == 0 by {
        assert(0u64 * x == 0);
    }
    assert forall|x: u64| #[trigger] mul_spec(1u64, x) == reduce(x as int) by {
        assert(1u64 * x == x);
    }
    assert forall|x: u64| #[trigger] sub_spec(x, x) == 0 by {}
    assert(sub_spec(1u64, 1u64) == 0);
    assert(sub_spec(1u64, 0u64) == 1);
    assert(add_spec(0u64, 0u64) == 0);
    assert(add_spec(1u64, 0u64) == 1);
    assert(add_spec(0u64, 1u64) == 1);
    assert forall|j: int| 0 <= j < 12 implies #[trigger] residuals_2(cur, nxt, per)[j] == 0 by {
        reveal(residuals_2);
    }
}

/// The residuals of constraints 60..72 vanish on a step that holds the
/// facts of an honest trace.
#[verifier::spinoff_prover]
#[verifier::rlimit(100)]
proof fn lemma_residuals_3_vanish(cur: Seq<u64>, nxt: Seq<u64>, per: Seq<u64>, r: int)
    requires
        step_facts(cur, nxt, per, r),
        range_facts(cur, nxt, per),
    ensures
        forall|j: int| 0 <= j < 12 ==> #[trigger] residuals_3(cur, nxt, per)[j] == 0,
{
    let p: nat = MODULUS as nat;
    vstd::arithmetic::div_mod::lemma_small_mod(0, p);
    vstd::arithmetic::div_mod::lemma_small_mod(1, p);
    vstd::arithmetic::div_mod::lemma_small_mod(2, p);
    assert forall|x: u64| #[trigger] mul_spec(0u64, x) == 0 by {
        assert(0u64 * x == 0);
    }
    assert forall|x: u64| #[trigger] mul_spec(1u64, x) == reduce(x as int) by {
        assert(1u64 * x == x);
    }
    assert forall|x: u64| #[trigger] sub_spec(x, x) == 0 by {}
    assert(sub_spec(1u64, 1u64) == 0);
    assert(sub_spec(1u64, 0u64) == 1);
    assert(add_spec(0u64, 0u64) == 0);
    assert(add_spec(1u64, 0u64) == 1);
    assert(add_spec(0u64, 1u64) == 1);
    assert forall|j: int| 0 <= j < 12 implies #[trigger] residuals_3(cur, nxt, per)[j] == 0 by {
        reveal(residuals_3);
    }
}

/// The residuals of constraints 72..84 vanish on a step that holds the
/// facts of an honest trace.
#[verifier::spinoff_prover]
#[verifier::rlimit(100)]
proof fn lemma_residuals_4_vanish(cur: Seq<u64>, nxt: Seq<u64>, per: Seq<u64>, r: int)
    requires
        step_facts(cur, nxt, per, r),
        range_facts(cur, nxt, per),
    ensures
        forall|j: int| 0 <= j < 12 ==> #[trigger] residuals_4(cur, nxt, per)[j] == 0,
{
    let p: nat = MODULUS as nat;
    vstd::arithmetic::div_mod::lemma_small_mod(0, p);
    vstd::arithmetic::div_mod::lemma_small_mod(1, p);
    vstd::arithmetic::div_mod::lemma_small_mod(2, p);
    assert forall|x: u64| #[trigger] mul_spec(0u64, x) == 0 by {
        assert(0u64 * x == 0);
    }
    assert forall|x: u64| #[trigger] mul_spec(1u64, x) == reduce(x as int) by {
        assert(1u64 * x == x);
    }
    assert forall|x: u64| #[trigger] sub_spec(x, x) == 0 by {}
    assert(sub_spec(1u64, 1u64) == 0);
    assert(sub_spec(1u64, 0u64) == 1);
    assert(add_spec(0u64, 0u64) == 0);
    assert(add_spec(1u64, 0u64) == 1);
    assert(add_spec(0u64, 1u64) == 1);
    assert forall|j: int| 0 <= j < 12 implies #[trigger] residuals_4(cur, nxt, per)[j] == 0 by {
        reveal(residuals_4);
    }
}

/// The residuals of constraints 84..96 vanish on a step that holds the
/// facts of an honest trace.
#[verifier::spinoff_prover]
#[verifier::rlimit(100)]
proof fn lemma_residuals_5_vanish(cur: Seq<u64>, nxt: Seq<u64>, per: Seq<u64>, r: int)
    requires
        step_facts(cur, nxt, per, r),
        range_facts(cur, nxt, per),
    ensures
        forall|j: int| 0 <= j < 12 ==> #[trigger] residuals_5(cur, nxt, per)[j] == 0,
{
    let p: nat = MODULUS as nat;
    vstd::arithmetic::div_mod::lemma_small_mod(0, p);
    vstd::arithmetic::div_mod::lemma_small_mod(1, p);
    vstd::arithmetic::div_mod::lemma_small_mod(2, p);
    assert forall|x: u64| #[trigger] mul_spec(0u64, x) == 0 by {
        assert(0u64 * x == 0);
    }
    assert forall|x: u64| #[trigger] mul_spec(1u64, x) == reduce(x as int) by {
        assert(1u64 * x == x);
    }
    assert forall|x: u64| #[trigger] sub_spec(x, x) == 0 by {}
    assert(sub_spec(1u64, 1u64) == 0);
    assert(sub_spec(1u64, 0u64) == 1);
    assert(add_spec(0u64, 0u64) == 0);
    assert(add_spec(1u64, 0u64) == 1);
    assert(add_spec(0u64, 1u64) == 1);
    assert forall|j: int| 0 <= j < 12 implies #[trigger] residuals_5(cur, nxt, per)[j] == 0 by {
        reveal(residuals_5);
    }
}

/// The residuals of constraints 96..108 vanish on a step that holds the
/// facts of an honest trace.
#[verifier::spinoff_prover]
#[verifier::rlimit(100)]
proof fn lemma_residuals_6_vanish(cur: Seq<u64>, nxt: Seq<u64>, per: Seq<u64>, r: int)
    requires
        step_facts(cur, nxt, per, r),
        range_facts(cur, nxt, per),
    ensures
        forall|j: int| 0 <= j < 12 ==> #[trigger] residuals_6(cur, nxt, per)[j] == 0,
{
    let p: nat = MODULUS as nat;
    vstd::arithmetic::div_mod::lemma_small_mod(0, p);
    vstd::arithmetic::div_mod::lemma_small_mod(1, p);
    vstd::arithmetic::div_mod::lemma_small_mod(2, p);
    assert forall|x: u64| #[trigger] mul_spec(0u64, x) == 0 by {
        assert(0u64 * x == 0);
    }
    assert forall|x: u64| #[trigger] mul_spec(1u64, x) == reduce(x as int) by {
        assert(1u64 * x == x);
    }
    assert forall|x: u64| #[trigger] sub_spec(x, x) == 0 by {}
    assert(sub_spec(1u64, 1u64) == 0);
    assert(sub_spec(1u64, 0u64) == 1);
    assert(add_spec(0u64, 0u64) == 0);
    assert(add_spec(1u64, 0u64) == 1);
    assert(add_spec(0u64, 1u64) == 1);
    assert forall|j: int| 0 <= j < 12 implies #[trigger] residuals_6(cur, nxt, per)[j] == 0 by {
        reveal(residuals_6);
    }
}

/// The residuals of constraints 108..120 vanish on a step that holds the
/// facts of an honest trace.
#[verifier::spinoff_prover]
#[verifier::rlimit(100)]
proof fn lemma_residuals_7_vanish(cur: Seq<u64>, nxt: Seq<u64>, per: Seq<u64>, r: int)
    requires
        step_facts(cur, nxt, per, r),
        range_facts(cur, nxt, per),
    ensures
        forall|j: int| 0 <= j < 12 ==> #[trigger] residuals_7(cur, nxt, per)[j] == 0,
{
    let p: nat = MODULUS as nat;
    vstd::arithmetic::div_mod::lemma_small_mod(0, p);
    vstd::arithmetic::div_mod::lemma_small_mod(1, p);
    vstd::arithmetic::div_mod::lemma_small_mod(2, p);
    assert forall|x: u64| #[trigger] mul_spec(0u64, x) == 0 by {
        assert(0u64 * x == 0);
    }
    assert forall|x: u64| #[trigger] mul_spec(1u64, x) == reduce(x as int) by {
        assert(1u64 * x == x);
    }
    assert forall|x: u64| #[trigger] sub_spec(x, x) == 0 by {}
    assert(sub_spec(1u64, 1u64) == 0);
    assert(sub_spec(1u64, 0u64) == 1);
    assert(add_spec(0u64, 0u64) == 0);
    assert(add_spec(1u64, 0u64) == 1);
    assert(add_spec(0u64, 1u64) == 1);
    assert forall|j: int| 0 <= j < 12 implies #[trigger] residuals_7(cur, nxt, per)[j] == 0 by {
        reveal(residuals_7);
    }
}

/// The residuals of constraints 120..132 vanish on a step that holds the
/// facts of an honest trace.
#[verifier::spinoff_prover]
#[verifier::rlimit(100)]
proof fn lemma_residuals_8_vanish(cur: Seq<u64>, nxt: Seq<u64>, per: Seq<u64>, r: int)
    requires
        step_facts(cur, nxt, per, r),
        range_facts(cur, nxt, per),
    ensures
        forall|j: int| 0 <= j < 12 ==> #[trigger] residuals_8(cur, nxt, per)[j] == 0,
{
    let p: nat = MODULUS as nat;
    vstd::arithmetic::div_mod::lemma_small_mod(0, p);
    vstd::arithmetic::div_mod::lemma_small_mod(1, p);
    vstd::arithmetic::div_mod::lemma_small_mod(2, p);
    assert forall|x: u64| #[trigger] mul_spec(0u64, x) == 0 by {
        assert(0u64 * x == 0);
    }
    assert forall|x: u64| #[trigger] mul_spec(1u64, x) == reduce(x as int) by {
        assert(1u64 * x == x);
    }
    assert forall|x: u64| #[trigger] sub_spec(x, x) == 0 by {}
    assert(sub_spec(1u64, 1u64) == 0);
    assert(sub_spec(1u64, 0u64) == 1);
    assert(add_spec(0u64, 0u64) == 0);
    assert(add_spec(1u64, 0u64) == 1);
    assert(add_spec(0u64, 1u64) == 1);
    assert forall|j: int| 0 <= j < 12 implies #[trigger] residuals_8(cur, nxt, per)[j] == 0 by {
        reveal(residuals_8);
    }
}

/// The residuals of constraints 132..138 vanish on a step that holds the
/// facts of an honest trace.
#[verifier::spinoff_prover]
#[verifier::rlimit(100)]
proof fn lemma_residuals_9_vanish(cur: Seq<u64>, nxt: Seq<u64>, per: Seq<u64>, r: int)
    requires
        step_facts(cur, nxt, per, r),
        range_facts(cur, nxt, per),
    ensures
        forall|j: int| 0 <= j < 6 ==> #[trigger] residuals_9(cur, nxt, per)[j] == 0,
{
    let p: nat = MODULUS as nat;
    vstd::arithmetic::div_mod::lemma_small_mod(0, p);
    vstd::arithmetic::div_mod::lemma_small_mod(1, p);
    vstd::arithmetic::div_mod::lemma_small_mod(2, p);
    assert forall|x: u64| #[trigger] mul_spec(0u64, x) == 0 by {
        assert(0u64 * x == 0);
    }
    assert forall|x: u64| #[trigger] mul_spec(1u64, x) == reduce(x as int) by {
        assert(1u64 * x == x);
    }
    assert forall|x: u64| #[trigger] sub_spec(x, x) == 0 by {}
    assert(sub_spec(1u64, 1u64) == 0);
    assert(sub_spec(1u64, 0u64) == 1);
    assert(add_spec(0u64, 0u64) == 0);
    assert(add_spec(1u64, 0u64) == 1);
    assert(add_spec(0u64, 1u64) == 1);
    assert forall|j: int| 0 <= j < 6 implies #[trigger] residuals_9(cur, nxt, per)[j] == 0 by {
        reveal(residuals_9);
    }
}

proof fn lemma_residuals_len_rest(cur: Seq<u64>, nxt: Seq<u64>, per: Seq<u64>)
    ensures
        residuals_6(cur, nxt, per).len() == 12,
        residuals_7(cur, nxt, per).len() == 12,
        residuals_8(cur, nxt, per).len() == 12,
        residuals_9(cur, nxt, per).len() == 6,
{
    assert(residuals_6(cur, nxt, per).len() == 12) by {
        reveal(residuals_6);
    }
    assert(residuals_7(cur, nxt, per).len() == 12) by {
        reveal(residuals_7);
    }
    assert(residuals_8(cur, nxt, per).len() == 12) by {
        reveal(residuals_8);
    }
    assert(residuals_9(cur, nxt, per).len() == 6) by {
        reveal(residuals_9);
    }
}

/// Every step of an honest trace satisfies every transition constraint,
/// for an honest recovery: the rounds of both lanes, the nonce and the
/// leaf salt after the leaf, the shared account climb, both identities and
/// the balance on the first row, the custodians' keys after the account
/// root, both custodians' climbs with their index accumulators, the
/// indices at the custodians' root, the counter that moves by one, the four
/// range checks, and the constant columns.
#[verifier::spinoff_prover]
#[verifier::rlimit(100)]
pub proof fn lemma_trace_satisfies_constraints(inp: RecoveryInputs, t: Seq<Vec<u64>>, r: int)
    requires
        t.len() == TRACE_WIDTH,
        forall|col: int, q: int|
            0 <= col < TRACE_WIDTH && 0 <= q < TRACE_LENGTH ==> #[trigger] t[col][q] == cell_spec(inp, col, q),
        lanes_hold(inp),
        inputs_ok(inp),
        honest_recovery(inp),
        0 <= r < TRACE_LENGTH - 1,
    ensures
        forall|k: int| 0 <= k < NUM_CONSTRAINTS ==> #[trigger] constraint_spec(k, row_of(t, r), row_of(t, r + 1), periodic_row(r)) == 0,
{
    let cur = row_of(t, r);
    let nxt = row_of(t, r + 1);
    let per = periodic_row(r);
    lemma_trace_satisfies_round_constraints(inp, t, r);
    assert(range_inputs_ok(inp));
    lemma_trace_range_facts(inp, t, r);
    lemma_link_selectors(r);
    if acct_link_row(r) {
        lemma_account_link_facts(inp, t, r);
    }
    if cust_link_row(r) {
        lemma_custodian_link_facts(inp, t, r);
    }
    if r == 7 || r == 15 || r == 279 {
        lemma_row_facts(inp, t, r);
    }
    if r == 0 || r == 319 {
        lemma_end_row_facts(inp, t, r);
    }
    assert forall|col: int| 24 <= col < TRACE_WIDTH implies #[trigger] cur[col] == cell_spec(inp, col, r) && nxt[col] == cell_spec(inp, col, r + 1) by {
        assert(t[col][r] == cell_spec(inp, col, r));
        assert(t[col][r + 1] == cell_spec(inp, col, r + 1));
    }
    assert(cur[24] == 0 || cur[24] == 1);
    assert(cur[25] == 0 || cur[25] == 1);
    assert(cur[43] == add_spec(cur[42], 1u64));
    assert forall|col: int| (26 <= col < 30 || 32 <= col < 44) implies #[trigger] sub_spec(nxt[col], cur[col]) == 0 by {}
    assert(step_facts(cur, nxt, per, r));
    lemma_residuals_0_vanish(cur, nxt, per, r);
    lemma_residuals_1_vanish(cur, nxt, per, r);
    lemma_residuals_2_vanish(cur, nxt, per, r);
    lemma_residuals_3_vanish(cur, nxt, per, r);
    lemma_residuals_4_vanish(cur, nxt, per, r);
    lemma_residuals_5_vanish(cur, nxt, per, r);
    lemma_residuals_6_vanish(cur, nxt, per, r);
    lemma_residuals_7_vanish(cur, nxt, per, r);
    lemma_residuals_8_vanish(cur, nxt, per, r);
    lemma_residuals_9_vanish(cur, nxt, per, r);
    lemma_residuals_len_0(cur, nxt, per);
    lemma_residuals_len_1(cur, nxt, per);
    lemma_residuals_len_2(cur, nxt, per);
    lemma_residuals_len_3(cur, nxt, per);
    lemma_residuals_len_4(cur, nxt, per);
    lemma_residuals_len_5(cur, nxt, per);
    lemma_residuals_len_rest(cur, nxt, per);
    assert forall|k: int| 24 <= k < NUM_CONSTRAINTS implies #[trigger] constraint_spec(k, cur, nxt, per) == 0 by {
        if k < 36 {
            assert(constraint_spec(k, cur, nxt, per) == residuals_0(cur, nxt, per)[k - 24]);
        } else if k < 48 {
            assert(constraint_spec(k, cur, nxt, per) == residuals_1(cur, nxt, per)[k - 36]);
        } else if k < 60 {
            assert(constraint_spec(k, cur, nxt, per) == residuals_2(cur, nxt, per)[k - 48]);
        } else if k < 72 {
            assert(constraint_spec(k, cur, nxt, per) == residuals_3(cur, nxt, per)[k - 60]);
        } else if k < 84 {
            assert(constraint_spec(k, cur, nxt, per) == residuals_4(cur, nxt, per)[k - 72]);
        } else if k < 96 {
            assert(constraint_spec(k, cur, nxt, per) == residuals_5(cur, nxt, per)[k - 84]);
        } else if k < 108 {
            assert(constraint_spec(k, cur, nxt, per) == residuals_6(cur, nxt, per)[k - 96]);
        } else if k < 120 {
            assert(constraint_spec(k, cur, nxt, per) == residuals_7(cur, nxt, per)[k - 108]);
        } else if k < 132 {
            assert(constraint_spec(k, cur, nxt, per) == residuals_8(cur, nxt, per)[k - 120]);
        } else {
            assert(constraint_spec(k, cur, nxt, per) == residuals_9(cur, nxt, per)[k - 132]);
        }
    }
}

} // verus!
