//! Double entry: the full state transition of a transfer, keeping the money
//! constant, without revealing balances, identities or the amount.
//!
//! ```text
//! sender_new   = sender   - amount   (debit)
//! receiver_new = receiver + amount   (credit)
//! ```
//!
//! Public: the old root, the new root, the regulatory limit, the
//! nullifier. The two climbs of each party (old leaf in lane A, new leaf in
//! lane B) run in lockstep with the same siblings, and the intermediate
//! root is carried in four constant columns from row 271 to row 543.
//!
//! | Rows | Content |
//! |---|---|
//! | 0..15 | sender leaves (A old, B new) |
//! | 16..271 | sender climb (32 levels) |
//! | 272..287 | receiver leaves |
//! | 288..543 | receiver climb |
//! | 544..559 | nullifier (both lanes) |
//! | 0..447 | range checks: 7 segments of 64 rows |

use vstd::prelude::*;
use crate::boundary::{pairs, push_pairs, push_run, run};
use crate::circuit_settlement::{
    leaf_spec, nullifier_wide_spec, path_ok, root_of, segment_values_spec, transfer_values, TransferValues,
};
use crate::domains::NULLIFIER_DOMAIN;
use crate::constraints::{lemma_equal, lemma_reduce_canonical, lemma_selected, lemma_selected_equal, rounds_hold, round_residuals, round_residuals_spec};
use crate::field::{MODULUS, add_spec, all_canonical, fadd, felt, fmul, fsub, mul_spec, reduce, sub_spec};
use crate::lane::{cycle_start, cycle_digest, lane_value, lemma_append_link, lemma_fresh_link, lemma_lane_digest_row, link_start, program_columns, Link};
use crate::merkle::{climb_levels, climb_links, climb_spec, lemma_links_climb, push_climb_links, sibling_seqs, siblings_canonical, MerklePath, TREE_DEPTH};
use crate::periodic::{ark_spec, continue_column, continue_spec, cycle_end_rows, hash_flag_spec, push_cycle_end_rows, push_row_selector, round_columns, selector_column, selector_spec};
use crate::prime::lemma_field_bit;
use crate::rescue::{as_digest, as_digest_spec, digest_arr, lemma_digest_arr, lemma_merge_arr, merge_arr, merge_spec, merge_state, merge_state_of, native_merge, Digest};
use crate::solvency::{lemma_accepted_segment, lemma_checked_difference, seg_acc, seg_bit, segment_columns};
use crate::trace::{lemma_column_kept, row_of, columns_shape, constant_column, cycle_bit_column, cycle_bit_spec, overlay_columns, prefix_bits};

verus! {

pub const TRACE_LENGTH: usize = 1024;
pub const SEGMENT_LENGTH: usize = 64;
pub const NUM_SEGMENTS: usize = 7;
/// The largest value the range checks accept: 63 bits.
pub const MAX_VALUE: u64 = 0x7FFF_FFFF_FFFF_FFFF;

pub const LANE_B: usize = 12;
pub const COL_BIT: usize = 24;
pub const COL_S_ID: usize = 25;
pub const COL_S_BAL: usize = 26;
pub const COL_S_NONCE: usize = 27;
pub const COL_S_BAL_NEW: usize = 28;
pub const COL_R_ID: usize = 29;
pub const COL_R_BAL: usize = 30;
pub const COL_R_NONCE: usize = 31;
pub const COL_R_BAL_NEW: usize = 32;
pub const COL_AMT: usize = 33;
pub const COL_LIM: usize = 34;
pub const COL_ROOT_MID: usize = 35;
pub const COL_SBIT: usize = 39;
pub const COL_SACC: usize = 40;
pub const TRACE_WIDTH: usize = 41;

pub const ROW_S_LEAF_LINK: usize = 7;
pub const ROW_S_LEAF_DONE: usize = 15;
pub const ROW_S_ROOT: usize = 271;
pub const ROW_R_LEAF_LINK: usize = 279;
pub const ROW_R_LEAF_DONE: usize = 287;
pub const ROW_R_ROOT: usize = 543;
pub const ROW_NULL_START: usize = 544;
pub const ROW_NULL_LINK: usize = 551;
pub const ROW_NULLIFIER: usize = 559;

/// `H(H(id, balance), nonce)` for a one-element identity.
pub open spec fn party_leaf_spec(id: u64, balance: u64, nonce: u64) -> Seq<u64> {
    leaf_spec(as_digest_spec(id), balance, nonce)
}

/// `H(H(NULLIFIER_DOMAIN, id), nonce)`.
pub open spec fn party_nullifier_spec(id: u64, nonce: u64) -> Seq<u64> {
    nullifier_wide_spec(as_digest_spec(id), nonce)
}

/// Native leaf: `H(H(id, balance), nonce)`.
pub fn native_leaf(id: u64, balance: u64, nonce: u64) -> (r: Digest)
    requires
        id < MODULUS,
        balance < MODULUS,
        nonce < MODULUS,
    ensures
        r@ == party_leaf_spec(id, balance, nonce),
        all_canonical(r@),
{
    let inner = native_merge(&as_digest(id), &as_digest(balance));
    native_merge(&inner, &as_digest(nonce))
}

/// Native nullifier: `H(H(NULLIFIER_DOMAIN, id), nonce)`.
pub fn native_nullifier(id: u64, nonce: u64) -> (r: Digest)
    requires
        id < MODULUS,
        nonce < MODULUS,
    ensures
        r@ == party_nullifier_spec(id, nonce),
        all_canonical(r@),
{
    let inner = native_merge(&as_digest(NULLIFIER_DOMAIN), &as_digest(id));
    native_merge(&inner, &as_digest(nonce))
}

/// Climbs a leaf up the 32 levels of a path.
pub fn native_climb(leaf: &Digest, path: &MerklePath) -> (r: Digest)
    requires
        all_canonical(leaf@),
        siblings_canonical(path.siblings@),
        path.siblings.len() >= TREE_DEPTH,
        path.is_right.len() >= TREE_DEPTH,
    ensures
        r@ == root_of(leaf@, *path),
        all_canonical(r@),
{
    climb_levels(leaf, &path.siblings, &path.is_right, TREE_DEPTH)
}

/// The witness of one of the two parties.
#[derive(Clone, Debug)]
pub struct PartyWitness {
    pub account_id: u64,
    pub balance: u64,
    pub nonce: u64,
    pub path: MerklePath,
}

/// The links of a lane of the transfer: sender leaf, sender climb, receiver
/// leaf, receiver climb, nullifier.
pub open spec fn entry_links(
    sender_nonce: u64,
    s_path: MerklePath,
    r_id: u64,
    r_bal: u64,
    r_nonce: u64,
    r_path: MerklePath,
    s_id: u64,
    s_nonce: u64,
) -> Seq<Link> {
    seq![Link::Place { other: digest_arr(sender_nonce), right: false }]
        + climb_links(s_path.siblings@, s_path.is_right@, 0, 32)
        + seq![
        Link::Fresh { state: merge_arr(digest_arr(r_id), digest_arr(r_bal)) },
        Link::Place { other: digest_arr(r_nonce), right: false },
    ] + climb_links(r_path.siblings@, r_path.is_right@, 0, 32) + seq![
        Link::Fresh { state: merge_arr(digest_arr(NULLIFIER_DOMAIN), digest_arr(s_id)) },
        Link::Place { other: digest_arr(s_nonce), right: false },
    ]
}

/// Builds the links of one lane.
fn build_entry_links(
    sender_nonce: u64,
    s_path: &MerklePath,
    r_id: u64,
    r_bal: u64,
    r_nonce: u64,
    r_path: &MerklePath,
    s_id: u64,
    s_nonce: u64,
) -> (links: Vec<Link>)
    requires
        sender_nonce < MODULUS,
        path_ok(*s_path, 32),
        r_id < MODULUS,
        r_bal < MODULUS,
        r_nonce < MODULUS,
        path_ok(*r_path, 32),
        s_id < MODULUS,
        s_nonce < MODULUS,
    ensures
        links@ == entry_links(sender_nonce, *s_path, r_id, r_bal, r_nonce, *r_path, s_id, s_nonce),
        crate::lane::links_canonical(links@),
        links.len() == 69,
{
    let mut links: Vec<Link> = Vec::new();
    links.push(Link::Place { other: as_digest(sender_nonce), right: false });
    push_climb_links(&mut links, &s_path.siblings, &s_path.is_right, 0, 32);
    links.push(Link::Fresh { state: merge_state_of(&as_digest(r_id), &as_digest(r_bal)) });
    links.push(Link::Place { other: as_digest(r_nonce), right: false });
    push_climb_links(&mut links, &r_path.siblings, &r_path.is_right, 0, 32);
    links.push(Link::Fresh { state: merge_state_of(&as_digest(NULLIFIER_DOMAIN), &as_digest(s_id)) });
    links.push(Link::Place { other: as_digest(s_nonce), right: false });
    assert(links@ =~= entry_links(sender_nonce, *s_path, r_id, r_bal, r_nonce, *r_path, s_id, s_nonce));
    links
}

/// The links of lane A (old leaves) and lane B (new leaves).
pub open spec fn lane_links(sender: PartyWitness, receiver: PartyWitness, v: TransferValues, new: bool) -> Seq<Link> {
    entry_links(
        if new { v.s_nonce_new } else { sender.nonce },
        sender.path,
        receiver.account_id,
        if new { v.r_bal_new } else { v.r_bal },
        receiver.nonce,
        receiver.path,
        sender.account_id,
        sender.nonce,
    )
}

/// The first state of a lane: the sender's identity and its old (A) or new
/// (B) balance.
pub open spec fn lane_start(sender: PartyWitness, v: TransferValues, new: bool) -> Seq<u64> {
    merge_state(as_digest_spec(sender.account_id), as_digest_spec(if new { v.s_bal_new } else { v.s_bal }))
}

/// The column of direction bits: the sender's path in cycles 2..34, the
/// receiver's in 36..68.
pub open spec fn bit_spec(sender: PartyWitness, receiver: PartyWitness, r: int) -> u64 {
    let s = cycle_bit_spec(sender.path.is_right@.subrange(0, 32), 2, r);
    let rr = cycle_bit_spec(receiver.path.is_right@.subrange(0, 32), 36, r);
    if s == 0 { rr } else { s }
}

/// The value of the trace at column `col` and row `r`.
pub open spec fn cell_spec(
    sender: PartyWitness,
    receiver: PartyWitness,
    amount: u64,
    credited: u64,
    limit: u64,
    col: int,
    r: int,
) -> u64 {
    let v = transfer_values(sender.balance, sender.nonce, receiver.balance, amount, credited, limit);
    let segs = segment_values_spec(v);
    if col < 12 {
        lane_value(lane_start(sender, v, false), lane_links(sender, receiver, v, false), col, r)
    } else if col < 24 {
        lane_value(lane_start(sender, v, true), lane_links(sender, receiver, v, true), col - 12, r)
    } else if col == COL_BIT {
        bit_spec(sender, receiver, r)
    } else if col == COL_S_ID {
        sender.account_id
    } else if col == COL_S_BAL {
        v.s_bal
    } else if col == COL_S_NONCE {
        sender.nonce
    } else if col == COL_S_BAL_NEW {
        v.s_bal_new
    } else if col == COL_R_ID {
        receiver.account_id
    } else if col == COL_R_BAL {
        v.r_bal
    } else if col == COL_R_NONCE {
        receiver.nonce
    } else if col == COL_R_BAL_NEW {
        v.r_bal_new
    } else if col == COL_AMT {
        v.amt
    } else if col == COL_LIM {
        v.lim
    } else if col < COL_SBIT {
        cycle_digest(lane_start(sender, v, true), lane_links(sender, receiver, v, true), 33)[col - COL_ROOT_MID]
    } else if col == COL_SBIT {
        if r < 448 {
            seg_bit(segs[r / 64], 64, (r % 64) as nat)
        } else {
            0
        }
    } else {
        if r < 448 {
            reduce(seg_acc(segs[r / 64], 64, (r % 64) as nat) as int)
        } else {
            0
        }
    }
}

/// What the trace needs of a party: a canonical identity and nonce, and a
/// path with 32 canonical levels.
pub open spec fn party_ok(p: PartyWitness) -> bool {
    &&& p.account_id < MODULUS
    &&& p.nonce < MODULUS
    &&& path_ok(p.path, 32)
}

/// Builds the trace of a transfer. `credited` may differ from `amount` so
/// that a trace that creates or destroys money can be built; the
/// conservation constraints reject it.
pub fn build_trace(sender: &PartyWitness, receiver: &PartyWitness, amount: u64, credited: u64, limit: u64) -> (cols: Vec<Vec<u64>>)
    requires
        party_ok(*sender),
        party_ok(*receiver),
    ensures
        cols.len() == TRACE_WIDTH,
        columns_shape(cols@, TRACE_LENGTH as nat),
        forall|col: int, r: int|
            0 <= col < TRACE_WIDTH && 0 <= r < TRACE_LENGTH ==> #[trigger] cols[col][r] == cell_spec(
                *sender,
                *receiver,
                amount,
                credited,
                limit,
                col,
                r,
            ),
        forall|r: int, k: int|
            0 <= r < TRACE_LENGTH - 1 && 0 <= k < 24 ==> #[trigger] constraint_spec(
                k,
                row_of(cols@, r),
                row_of(cols@, r + 1),
                periodic_row(r),
            ) == 0,
        honest_transfer(*sender, *receiver, amount, credited, limit) ==> forall|r: int, k: int|
            0 <= r < TRACE_LENGTH - 1 && 0 <= k < NUM_CONSTRAINTS ==> #[trigger] constraint_spec(
                k,
                row_of(cols@, r),
                row_of(cols@, r + 1),
                periodic_row(r),
            ) == 0,
{
    let ghost v = transfer_values(sender.balance, sender.nonce, receiver.balance, amount, credited, limit);
    let c_amt = felt(amount);
    let c_lim = felt(limit);
    let s_bal = felt(sender.balance);
    let s_bal_new = fsub(s_bal, c_amt);
    let r_bal = felt(receiver.balance);
    let r_bal_new = fadd(r_bal, felt(credited));
    let s_nonce_new = fadd(sender.nonce, 1);

    let lanes_a = build_entry_links(
        sender.nonce, &sender.path, receiver.account_id, r_bal, receiver.nonce, &receiver.path,
        sender.account_id, sender.nonce,
    );
    let lanes_b = build_entry_links(
        s_nonce_new, &sender.path, receiver.account_id, r_bal_new, receiver.nonce, &receiver.path,
        sender.account_id, sender.nonce,
    );
    let s0a = merge_state_of(&as_digest(sender.account_id), &as_digest(s_bal));
    let s0b = merge_state_of(&as_digest(sender.account_id), &as_digest(s_bal_new));
    let mut cols = program_columns(&s0a, &lanes_a, TRACE_LENGTH);
    let mut cols_b = program_columns(&s0b, &lanes_b, TRACE_LENGTH);
    let ghost lanes_ok = lanes_hold(*sender, *receiver, amount, credited, limit);
    proof {
        assert(lanes_ok);
    }
    proof {
        lemma_lane_digest_row(s0b@, lanes_b@, 33);
    }
    let root_mid: Digest = [cols_b[4][ROW_S_ROOT], cols_b[5][ROW_S_ROOT], cols_b[6][ROW_S_ROOT], cols_b[7][ROW_S_ROOT]];
    cols.append(&mut cols_b);

    let s_bits = prefix_bits(&sender.path.is_right, 32);
    let r_bits = prefix_bits(&receiver.path.is_right, 32);
    let s_col = cycle_bit_column(&s_bits, 2, TRACE_LENGTH);
    let r_col = cycle_bit_column(&r_bits, 36, TRACE_LENGTH);
    cols.push(overlay_columns(&s_col, &r_col));
    cols.push(constant_column(sender.account_id, TRACE_LENGTH));
    cols.push(constant_column(s_bal, TRACE_LENGTH));
    cols.push(constant_column(sender.nonce, TRACE_LENGTH));
    cols.push(constant_column(s_bal_new, TRACE_LENGTH));
    cols.push(constant_column(receiver.account_id, TRACE_LENGTH));
    cols.push(constant_column(r_bal, TRACE_LENGTH));
    cols.push(constant_column(receiver.nonce, TRACE_LENGTH));
    cols.push(constant_column(r_bal_new, TRACE_LENGTH));
    cols.push(constant_column(c_amt, TRACE_LENGTH));
    cols.push(constant_column(c_lim, TRACE_LENGTH));
    let mut i: usize = 0;
    while i < 4
        invariant
            i <= 4,
            forall|j: int| 0 <= j < 4 ==> root_mid[j] < MODULUS,
            forall|j: int| 0 <= j < 4 ==> #[trigger] root_mid[j] == cycle_digest(s0b@, lanes_b@, 33)[j],
            s0b@ == lane_start(*sender, v, true),
            lanes_b@ == lane_links(*sender, *receiver, v, true),
            v == transfer_values(sender.balance, sender.nonce, receiver.balance, amount, credited, limit),
            cols.len() == COL_ROOT_MID + i,
            columns_shape(cols@, TRACE_LENGTH as nat),
            forall|col: int, r: int|
                0 <= col < cols.len() && 0 <= r < TRACE_LENGTH ==> #[trigger] cols[col][r] == cell_spec(
                    *sender,
                    *receiver,
                    amount,
                    credited,
                    limit,
                    col,
                    r,
                ),
        decreases 4 - i,
    {
        cols.push(constant_column(root_mid[i], TRACE_LENGTH));
        i = i + 1;
    }
    let c_diff = fsub(c_lim, c_amt);
    let segment_values: Vec<u64> = vec![s_bal, r_bal, c_amt, c_lim, s_bal_new, c_diff, r_bal_new];
    assert(segment_values@ =~= segment_values_spec(v));
    let (sbit_col, sacc_col) = segment_columns(&segment_values, SEGMENT_LENGTH, TRACE_LENGTH);
    cols.push(sbit_col);
    cols.push(sacc_col);
    proof {
        assert forall|col: int, r: int|
            COL_SBIT <= col < TRACE_WIDTH && 0 <= r < TRACE_LENGTH implies #[trigger] cols[col][r] == cell_spec(
            *sender,
            *receiver,
            amount,
            credited,
            limit,
            col,
            r,
        ) by {
            if r < 448 {
                let sg = r / 64;
                let p = r % 64;
                assert(r == sg * 64 + p);
            }
        }
    }
    proof {
        assert forall|r: int, k: int|
            0 <= r < TRACE_LENGTH - 1 && 0 <= k < 24 implies #[trigger] constraint_spec(
            k,
            row_of(cols@, r),
            row_of(cols@, r + 1),
            periodic_row(r),
        ) == 0 by {
            lemma_trace_satisfies_round_constraints(*sender, *receiver, amount, credited, limit, cols@, r);
        }
        if honest_transfer(*sender, *receiver, amount, credited, limit) {
            assert forall|r: int, k: int|
                0 <= r < TRACE_LENGTH - 1 && 0 <= k < NUM_CONSTRAINTS implies #[trigger] constraint_spec(
                k,
                row_of(cols@, r),
                row_of(cols@, r + 1),
                periodic_row(r),
            ) == 0 by {
                lemma_trace_satisfies_constraints(*sender, *receiver, amount, credited, limit, cols@, r);
            }
        }
    }
    cols
}

/// The digests a lane computes, cycle by cycle: the sender's leaf and
/// root, the receiver's leaf and root, and the nullifier.
proof fn lemma_entry_digests(
    s_id: u64,
    bal: u64,
    sender_nonce: u64,
    s_path: MerklePath,
    r_id: u64,
    r_bal: u64,
    r_nonce: u64,
    r_path: MerklePath,
    s_nonce: u64,
)
    requires
        path_ok(s_path, 32),
        path_ok(r_path, 32),
    ensures
        ({
            let s0 = merge_state(as_digest_spec(s_id), as_digest_spec(bal));
            let l = entry_links(sender_nonce, s_path, r_id, r_bal, r_nonce, r_path, s_id, s_nonce);
            &&& l.len() == 69
            &&& cycle_digest(s0, l, 1) == party_leaf_spec(s_id, bal, sender_nonce)
            &&& cycle_digest(s0, l, 33) == root_of(party_leaf_spec(s_id, bal, sender_nonce), s_path)
            &&& cycle_digest(s0, l, 35) == party_leaf_spec(r_id, r_bal, r_nonce)
            &&& cycle_digest(s0, l, 67) == root_of(party_leaf_spec(r_id, r_bal, r_nonce), r_path)
            &&& cycle_digest(s0, l, 69) == party_nullifier_spec(s_id, s_nonce)
        }),
{
    let s0 = merge_state(as_digest_spec(s_id), as_digest_spec(bal));
    let l = entry_links(sender_nonce, s_path, r_id, r_bal, r_nonce, r_path, s_id, s_nonce);
    lemma_digest_arr(sender_nonce);
    lemma_digest_arr(s_id);
    lemma_digest_arr(r_id);
    lemma_digest_arr(r_bal);
    lemma_digest_arr(r_nonce);
    lemma_digest_arr(s_nonce);
    lemma_digest_arr(NULLIFIER_DOMAIN);
    assert(l[0] == Link::Place { other: digest_arr(sender_nonce), right: false });
    lemma_append_link(s0, l, 0, digest_arr(sender_nonce));
    let leaf_s = party_leaf_spec(s_id, bal, sender_nonce);
    assert(l.subrange(1, 33) =~= climb_links(s_path.siblings@, s_path.is_right@, 0, 32));
    lemma_links_climb(s0, l, 1, leaf_s, s_path.siblings@, s_path.is_right@, 0, 32);
    let rs = merge_arr(digest_arr(r_id), digest_arr(r_bal));
    assert(l[33] == Link::Fresh { state: rs });
    lemma_fresh_link(s0, l, 33, rs);
    lemma_merge_arr(digest_arr(r_id), digest_arr(r_bal));
    assert(l[34] == Link::Place { other: digest_arr(r_nonce), right: false });
    lemma_append_link(s0, l, 34, digest_arr(r_nonce));
    let leaf_r = party_leaf_spec(r_id, r_bal, r_nonce);
    assert(l.subrange(35, 67) =~= climb_links(r_path.siblings@, r_path.is_right@, 0, 32));
    lemma_links_climb(s0, l, 35, leaf_r, r_path.siblings@, r_path.is_right@, 0, 32);
    let ns = merge_arr(digest_arr(NULLIFIER_DOMAIN), digest_arr(s_id));
    assert(l[67] == Link::Fresh { state: ns });
    lemma_fresh_link(s0, l, 67, ns);
    lemma_merge_arr(digest_arr(NULLIFIER_DOMAIN), digest_arr(s_id));
    assert(l[68] == Link::Place { other: digest_arr(s_nonce), right: false });
    lemma_append_link(s0, l, 68, digest_arr(s_nonce));
}

/// Where the trace shows what the transfer proves: the old root at the end
/// of the sender's climb in lane A, the intermediate root in lane B there
/// and in the carried columns, the receiver's old leaf reaching the
/// intermediate root in lane A, the new root in lane B, and the nullifier
/// in both lanes.
pub proof fn lemma_trace_landmarks(sender: PartyWitness, receiver: PartyWitness, amount: u64, credited: u64, limit: u64)
    requires
        path_ok(sender.path, 32),
        path_ok(receiver.path, 32),
    ensures
        ({
            let v = transfer_values(sender.balance, sender.nonce, receiver.balance, amount, credited, limit);
            let leaf_old = party_leaf_spec(sender.account_id, v.s_bal, sender.nonce);
            let leaf_new = party_leaf_spec(sender.account_id, v.s_bal_new, v.s_nonce_new);
            let rleaf_old = party_leaf_spec(receiver.account_id, v.r_bal, receiver.nonce);
            let rleaf_new = party_leaf_spec(receiver.account_id, v.r_bal_new, receiver.nonce);
            let nullifier = party_nullifier_spec(sender.account_id, sender.nonce);
            &&& forall|i: int| 0 <= i < 4 ==> #[trigger] cell_spec(sender, receiver, amount, credited, limit, 4 + i, ROW_S_LEAF_DONE as int) == leaf_old[i]
            &&& forall|i: int| 0 <= i < 4 ==> #[trigger] cell_spec(sender, receiver, amount, credited, limit, 16 + i, ROW_S_LEAF_DONE as int) == leaf_new[i]
            &&& forall|i: int| 0 <= i < 4 ==> #[trigger] cell_spec(sender, receiver, amount, credited, limit, 4 + i, ROW_S_ROOT as int) == root_of(leaf_old, sender.path)[i]
            &&& forall|i: int| 0 <= i < 4 ==> #[trigger] cell_spec(sender, receiver, amount, credited, limit, 16 + i, ROW_S_ROOT as int) == root_of(leaf_new, sender.path)[i]
            &&& forall|i: int, r: int| 0 <= i < 4 && 0 <= r < TRACE_LENGTH ==> #[trigger] cell_spec(sender, receiver, amount, credited, limit, COL_ROOT_MID + i, r)
                == root_of(leaf_new, sender.path)[i]
            &&& forall|i: int| 0 <= i < 4 ==> #[trigger] cell_spec(sender, receiver, amount, credited, limit, 4 + i, ROW_R_LEAF_DONE as int) == rleaf_old[i]
            &&& forall|i: int| 0 <= i < 4 ==> #[trigger] cell_spec(sender, receiver, amount, credited, limit, 16 + i, ROW_R_LEAF_DONE as int) == rleaf_new[i]
            &&& forall|i: int| 0 <= i < 4 ==> #[trigger] cell_spec(sender, receiver, amount, credited, limit, 4 + i, ROW_R_ROOT as int) == root_of(rleaf_old, receiver.path)[i]
            &&& forall|i: int| 0 <= i < 4 ==> #[trigger] cell_spec(sender, receiver, amount, credited, limit, 16 + i, ROW_R_ROOT as int) == root_of(rleaf_new, receiver.path)[i]
            &&& forall|i: int| 0 <= i < 4 ==> #[trigger] cell_spec(sender, receiver, amount, credited, limit, 4 + i, ROW_NULLIFIER as int) == nullifier[i]
            &&& forall|i: int| 0 <= i < 4 ==> #[trigger] cell_spec(sender, receiver, amount, credited, limit, 16 + i, ROW_NULLIFIER as int) == nullifier[i]
        }),
{
    let v = transfer_values(sender.balance, sender.nonce, receiver.balance, amount, credited, limit);
    let la = lane_links(sender, receiver, v, false);
    let lb = lane_links(sender, receiver, v, true);
    let s0a = lane_start(sender, v, false);
    let s0b = lane_start(sender, v, true);
    lemma_entry_digests(
        sender.account_id, v.s_bal, sender.nonce, sender.path, receiver.account_id, v.r_bal,
        receiver.nonce, receiver.path, sender.nonce,
    );
    lemma_entry_digests(
        sender.account_id, v.s_bal_new, v.s_nonce_new, sender.path, receiver.account_id, v.r_bal_new,
        receiver.nonce, receiver.path, sender.nonce,
    );
    lemma_lane_digest_row(s0a, la, 1);
    lemma_lane_digest_row(s0b, lb, 1);
    lemma_lane_digest_row(s0a, la, 33);
    lemma_lane_digest_row(s0b, lb, 33);
    lemma_lane_digest_row(s0a, la, 35);
    lemma_lane_digest_row(s0b, lb, 35);
    lemma_lane_digest_row(s0a, la, 67);
    lemma_lane_digest_row(s0b, lb, 67);
    lemma_lane_digest_row(s0a, la, 69);
    lemma_lane_digest_row(s0b, lb, 69);
}

/// The public inputs of a transfer.
#[derive(Clone, Debug)]
pub struct DoubleEntryPublicInputs {
    pub root_old: Digest,
    pub root_new: Digest,
    pub regulatory_limit: u64,
    pub nullifier: Digest,
}

impl DoubleEntryPublicInputs {
    /// Old root, new root, limit, nullifier, in that order.
    pub fn to_elements(&self) -> (r: Vec<u64>)
        ensures
            r@ == self.root_old@ + self.root_new@ + seq![self.regulatory_limit] + self.nullifier@,
    {
        let r = vec![
            self.root_old[0],
            self.root_old[1],
            self.root_old[2],
            self.root_old[3],
            self.root_new[0],
            self.root_new[1],
            self.root_new[2],
            self.root_new[3],
            self.regulatory_limit,
            self.nullifier[0],
            self.nullifier[1],
            self.nullifier[2],
            self.nullifier[3],
        ];
        assert(r@ =~= self.root_old@ + self.root_new@ + seq![self.regulatory_limit] + self.nullifier@);
        r
    }
}

/// The public inputs a trace shows: the old root in lane A at row 271, the
/// new root in lane B at row 543, the limit, the nullifier at row 559.
pub fn public_inputs_of(trace: &Vec<Vec<u64>>) -> (pi: DoubleEntryPublicInputs)
    requires
        trace.len() == TRACE_WIDTH,
        columns_shape(trace@, TRACE_LENGTH as nat),
    ensures
        forall|i: int| 0 <= i < 4 ==> #[trigger] pi.root_old[i] == trace[4 + i][ROW_S_ROOT as int],
        forall|i: int| 0 <= i < 4 ==> #[trigger] pi.root_new[i] == trace[16 + i][ROW_R_ROOT as int],
        pi.regulatory_limit == trace[COL_LIM as int][0],
        forall|i: int| 0 <= i < 4 ==> #[trigger] pi.nullifier[i] == trace[4 + i][ROW_NULLIFIER as int],
{
    DoubleEntryPublicInputs {
        root_old: [trace[4][ROW_S_ROOT], trace[5][ROW_S_ROOT], trace[6][ROW_S_ROOT], trace[7][ROW_S_ROOT]],
        root_new: [trace[16][ROW_R_ROOT], trace[17][ROW_R_ROOT], trace[18][ROW_R_ROOT], trace[19][ROW_R_ROOT]],
        regulatory_limit: trace[COL_LIM][0],
        nullifier: [trace[4][ROW_NULLIFIER], trace[5][ROW_NULLIFIER], trace[6][ROW_NULLIFIER], trace[7][ROW_NULLIFIER]],
    }
}

/// The rows where the two climbs link one level to the next.
pub open spec fn merkle_link_rows() -> Seq<usize> {
    cycle_end_rows(2, 31) + cycle_end_rows(36, 31)
}

/// The value of periodic column `j` at row `r`.
pub open spec fn periodic_spec(j: int, r: int) -> u64 {
    let active = ROW_NULLIFIER as int + 1;
    if j == 0 {
        hash_flag_spec(active, r)
    } else if j < 13 {
        ark_spec(false, j - 1, active, r)
    } else if j < 25 {
        ark_spec(true, j - 13, active, r)
    } else if j == 25 {
        selector_spec(merkle_link_rows(), r)
    } else if j == 26 {
        selector_spec(seq![ROW_S_LEAF_LINK, ROW_R_LEAF_LINK, ROW_NULL_LINK], r)
    } else if j == 27 {
        selector_spec(seq![ROW_S_LEAF_DONE, ROW_R_LEAF_DONE], r)
    } else if j == 28 {
        selector_spec(seq![ROW_S_LEAF_LINK], r)
    } else if j == 29 {
        selector_spec(seq![ROW_R_LEAF_LINK], r)
    } else if j == 30 {
        selector_spec(seq![ROW_NULL_LINK], r)
    } else if j == 31 {
        selector_spec(seq![0usize], r)
    } else if j == 32 {
        selector_spec(seq![ROW_S_ROOT], r)
    } else if j == 33 {
        selector_spec(seq![ROW_R_ROOT], r)
    } else if j == 34 {
        selector_spec(seq![0usize, 64, 128, 192, 256, 320, 384], r)
    } else if j == 35 {
        continue_spec(NUM_SEGMENTS as int, SEGMENT_LENGTH as int, r)
    } else {
        selector_spec(seq![(64 * (j - 35) - 2) as usize], r)
    }
}

/// The 43 periodic columns.
pub fn periodic_columns() -> (cols: Vec<Vec<u64>>)
    ensures
        cols.len() == 43,
        forall|j: int| 0 <= j < 43 ==> (#[trigger] cols[j]).len() == TRACE_LENGTH,
        forall|j: int, r: int| 0 <= j < 43 && 0 <= r < TRACE_LENGTH ==> #[trigger] cols[j][r] == periodic_spec(j, r),
        forall|j: int| 0 <= j < 43 ==> all_canonical(#[trigger] cols[j]@),
{
    let mut cols = round_columns(ROW_NULLIFIER + 1, TRACE_LENGTH);
    let ghost rounds = cols@;
    let mut merkle_rows: Vec<usize> = Vec::new();
    push_cycle_end_rows(&mut merkle_rows, 2, 31);
    push_cycle_end_rows(&mut merkle_rows, 36, 31);
    assert(merkle_rows@ =~= merkle_link_rows());
    cols.push(selector_column(&merkle_rows, TRACE_LENGTH));
    let leaf_links = vec![ROW_S_LEAF_LINK, ROW_R_LEAF_LINK, ROW_NULL_LINK];
    assert(leaf_links@ =~= seq![ROW_S_LEAF_LINK, ROW_R_LEAF_LINK, ROW_NULL_LINK]);
    cols.push(selector_column(&leaf_links, TRACE_LENGTH));
    let places = vec![ROW_S_LEAF_DONE, ROW_R_LEAF_DONE];
    assert(places@ =~= seq![ROW_S_LEAF_DONE, ROW_R_LEAF_DONE]);
    cols.push(selector_column(&places, TRACE_LENGTH));
    push_row_selector(&mut cols, ROW_S_LEAF_LINK, TRACE_LENGTH);
    push_row_selector(&mut cols, ROW_R_LEAF_LINK, TRACE_LENGTH);
    push_row_selector(&mut cols, ROW_NULL_LINK, TRACE_LENGTH);
    push_row_selector(&mut cols, 0, TRACE_LENGTH);
    push_row_selector(&mut cols, ROW_S_ROOT, TRACE_LENGTH);
    push_row_selector(&mut cols, ROW_R_ROOT, TRACE_LENGTH);
    let firsts = vec![0usize, 64, 128, 192, 256, 320, 384];
    assert(firsts@ =~= seq![0usize, 64, 128, 192, 256, 320, 384]);
    cols.push(selector_column(&firsts, TRACE_LENGTH));
    cols.push(continue_column(NUM_SEGMENTS, SEGMENT_LENGTH, TRACE_LENGTH));
    let mut seg: usize = 0;
    while seg < NUM_SEGMENTS
        invariant
            seg <= NUM_SEGMENTS,
            cols.len() == 36 + seg,
            forall|j: int| 0 <= j < cols.len() ==> (#[trigger] cols[j]).len() == TRACE_LENGTH,
            forall|j: int, r: int|
                0 <= j < cols.len() && 0 <= r < TRACE_LENGTH ==> #[trigger] cols[j][r] == periodic_spec(j, r),
        decreases NUM_SEGMENTS - seg,
    {
        let row: usize = (seg + 1) * SEGMENT_LENGTH - 2;
        assert(row == (64 * ((36 + seg) as int - 35) - 2) as usize);
        push_row_selector(&mut cols, row, TRACE_LENGTH);
        seg = seg + 1;
    }
    proof {
        assert forall|j: int| 0 <= j < 43 implies all_canonical(#[trigger] cols[j]@) by {
            assert forall|r: int| 0 <= r < cols[j]@.len() implies #[trigger] cols[j]@[r] < MODULUS by {
                if j < 25 {
                    assert(all_canonical(rounds[j]@));
                    assert(rounds[j][r] == cols[j][r]);
                } else {
                    assert(cols[j][r] == periodic_spec(j, r));
                }
            }
        }
    }
    cols
}

/// The 44 boundary assertions: capacity and padding of both lanes on the
/// first row, the old and new roots, the start of the nullifier with its
/// domain anchored, the nullifier, and the limit.
pub open spec fn assertions_spec(pi: DoubleEntryPublicInputs) -> Seq<(usize, usize, u64)> {
    let z = seq![0u64, 0u64, 0u64, 0u64];
    pairs(4, 0, 0, z, 12, 0, z) + pairs(3, 5, 0, z, 17, 0, z) + pairs(3, 9, 0, z, 21, 0, z)
        + pairs(4, 4, ROW_S_ROOT, pi.root_old@, 16, ROW_R_ROOT, pi.root_new@)
        + run(4, 0, ROW_NULL_START, z) + run(1, 4, ROW_NULL_START, seq![NULLIFIER_DOMAIN])
        + run(3, 5, ROW_NULL_START, z) + run(3, 9, ROW_NULL_START, z)
        + run(4, 4, ROW_NULLIFIER, pi.nullifier@) + run(1, COL_LIM as int, 0, seq![pi.regulatory_limit])
}

/// The boundary assertions of a transfer.
pub fn assertions(pi: &DoubleEntryPublicInputs) -> (a: Vec<(usize, usize, u64)>)
    ensures
        a@ == assertions_spec(*pi),
        a.len() == 44,
{
    let z = vec![0u64, 0, 0, 0];
    let root_old = vec![pi.root_old[0], pi.root_old[1], pi.root_old[2], pi.root_old[3]];
    let root_new = vec![pi.root_new[0], pi.root_new[1], pi.root_new[2], pi.root_new[3]];
    let nullifier = vec![pi.nullifier[0], pi.nullifier[1], pi.nullifier[2], pi.nullifier[3]];
    let domain = vec![NULLIFIER_DOMAIN];
    let limit = vec![pi.regulatory_limit];
    assert(z@ =~= seq![0u64, 0u64, 0u64, 0u64]);
    assert(root_old@ =~= pi.root_old@);
    assert(root_new@ =~= pi.root_new@);
    assert(nullifier@ =~= pi.nullifier@);
    assert(domain@ =~= seq![NULLIFIER_DOMAIN]);
    assert(limit@ =~= seq![pi.regulatory_limit]);
    let mut a: Vec<(usize, usize, u64)> = Vec::new();
    push_pairs(&mut a, 4, 0, 0, &z, 12, 0, &z);
    push_pairs(&mut a, 3, 5, 0, &z, 17, 0, &z);
    push_pairs(&mut a, 3, 9, 0, &z, 21, 0, &z);
    push_pairs(&mut a, 4, 4, ROW_S_ROOT, &root_old, 16, ROW_R_ROOT, &root_new);
    push_run(&mut a, 4, 0, ROW_NULL_START, &z);
    push_run(&mut a, 1, 4, ROW_NULL_START, &domain);
    push_run(&mut a, 3, 5, ROW_NULL_START, &z);
    push_run(&mut a, 3, 9, ROW_NULL_START, &z);
    push_run(&mut a, 4, 4, ROW_NULLIFIER, &nullifier);
    push_run(&mut a, 1, COL_LIM, 0, &limit);
    a
}


/// The transfer keeps the money: with the amount credited equal to the
/// amount debited, on every row the carried new balances add up to the
/// carried old ones.
pub proof fn lemma_transfer_conserves(sender: PartyWitness, receiver: PartyWitness, amount: u64, limit: u64)
    ensures
        forall|r: int|
            #![trigger cell_spec(sender, receiver, amount, amount, limit, COL_S_BAL_NEW as int, r)]
            0 <= r < TRACE_LENGTH ==> add_spec(
                cell_spec(sender, receiver, amount, amount, limit, COL_S_BAL_NEW as int, r),
                cell_spec(sender, receiver, amount, amount, limit, COL_R_BAL_NEW as int, r),
            ) == add_spec(
                cell_spec(sender, receiver, amount, amount, limit, COL_S_BAL as int, r),
                cell_spec(sender, receiver, amount, amount, limit, COL_R_BAL as int, r),
            ),
{
    crate::circuit_settlement::lemma_transfer_conserves(sender.balance, sender.nonce, receiver.balance, amount, limit);
}


/// The number of transition constraints.
pub const NUM_CONSTRAINTS: usize = 113;

/// The residuals of constraints 24..=35.
#[verifier::opaque]
pub open spec fn residuals_0(cur: Seq<u64>, nxt: Seq<u64>, per: Seq<u64>) -> Seq<u64> {
    seq![
        mul_spec(add_spec(per[25], per[27]), nxt[0]),
        mul_spec(add_spec(per[25], per[27]), nxt[1]),
        mul_spec(add_spec(per[25], per[27]), nxt[2]),
        mul_spec(add_spec(per[25], per[27]), nxt[3]),
        mul_spec(add_spec(per[25], per[27]), nxt[12]),
        mul_spec(add_spec(per[25], per[27]), nxt[13]),
        mul_spec(add_spec(per[25], per[27]), nxt[14]),
        mul_spec(add_spec(per[25], per[27]), nxt[15]),
        mul_spec(add_spec(per[25], per[27]), add_spec(mul_spec(sub_spec(1u64, nxt[24]), sub_spec(nxt[4], cur[4])), mul_spec(nxt[24], sub_spec(nxt[8], cur[4])))),
        mul_spec(add_spec(per[25], per[27]), add_spec(mul_spec(sub_spec(1u64, nxt[24]), sub_spec(nxt[5], cur[5])), mul_spec(nxt[24], sub_spec(nxt[9], cur[5])))),
        mul_spec(add_spec(per[25], per[27]), add_spec(mul_spec(sub_spec(1u64, nxt[24]), sub_spec(nxt[6], cur[6])), mul_spec(nxt[24], sub_spec(nxt[10], cur[6])))),
        mul_spec(add_spec(per[25], per[27]), add_spec(mul_spec(sub_spec(1u64, nxt[24]), sub_spec(nxt[7], cur[7])), mul_spec(nxt[24], sub_spec(nxt[11], cur[7])))),
    ]
}

fn residuals_0_eval(cur: &Vec<u64>, nxt: &Vec<u64>, per: &Vec<u64>) -> (r: Vec<u64>)
    requires
        cur.len() == TRACE_WIDTH,
        nxt.len() == TRACE_WIDTH,
        per.len() == 43,
        all_canonical(cur@),
        all_canonical(nxt@),
        all_canonical(per@),
    ensures
        r@ == residuals_0(cur@, nxt@, per@),
        r.len() == 12,
{
    let r = vec![
        fmul(fadd(per[25], per[27]), nxt[0]),
        fmul(fadd(per[25], per[27]), nxt[1]),
        fmul(fadd(per[25], per[27]), nxt[2]),
        fmul(fadd(per[25], per[27]), nxt[3]),
        fmul(fadd(per[25], per[27]), nxt[12]),
        fmul(fadd(per[25], per[27]), nxt[13]),
        fmul(fadd(per[25], per[27]), nxt[14]),
        fmul(fadd(per[25], per[27]), nxt[15]),
        fmul(fadd(per[25], per[27]), fadd(fmul(fsub(1u64, nxt[24]), fsub(nxt[4], cur[4])), fmul(nxt[24], fsub(nxt[8], cur[4])))),
        fmul(fadd(per[25], per[27]), fadd(fmul(fsub(1u64, nxt[24]), fsub(nxt[5], cur[5])), fmul(nxt[24], fsub(nxt[9], cur[5])))),
        fmul(fadd(per[25], per[27]), fadd(fmul(fsub(1u64, nxt[24]), fsub(nxt[6], cur[6])), fmul(nxt[24], fsub(nxt[10], cur[6])))),
        fmul(fadd(per[25], per[27]), fadd(fmul(fsub(1u64, nxt[24]), fsub(nxt[7], cur[7])), fmul(nxt[24], fsub(nxt[11], cur[7])))),
    ];
    proof {
        reveal(residuals_0);
    }
    assert(r@ =~= residuals_0(cur@, nxt@, per@));
    r
}

/// The residuals of constraints 36..=47.
#[verifier::opaque]
pub open spec fn residuals_1(cur: Seq<u64>, nxt: Seq<u64>, per: Seq<u64>) -> Seq<u64> {
    seq![
        mul_spec(add_spec(per[25], per[27]), add_spec(mul_spec(sub_spec(1u64, nxt[24]), sub_spec(nxt[16], cur[16])), mul_spec(nxt[24], sub_spec(nxt[20], cur[16])))),
        mul_spec(add_spec(per[25], per[27]), add_spec(mul_spec(sub_spec(1u64, nxt[24]), sub_spec(nxt[17], cur[17])), mul_spec(nxt[24], sub_spec(nxt[21], cur[17])))),
        mul_spec(add_spec(per[25], per[27]), add_spec(mul_spec(sub_spec(1u64, nxt[24]), sub_spec(nxt[18], cur[18])), mul_spec(nxt[24], sub_spec(nxt[22], cur[18])))),
        mul_spec(add_spec(per[25], per[27]), add_spec(mul_spec(sub_spec(1u64, nxt[24]), sub_spec(nxt[19], cur[19])), mul_spec(nxt[24], sub_spec(nxt[23], cur[19])))),
        mul_spec(add_spec(per[25], per[27]), sub_spec(add_spec(mul_spec(sub_spec(1u64, nxt[24]), nxt[8]), mul_spec(nxt[24], nxt[4])), add_spec(mul_spec(sub_spec(1u64, nxt[24]), nxt[20]), mul_spec(nxt[24], nxt[16])))),
        mul_spec(add_spec(per[25], per[27]), sub_spec(add_spec(mul_spec(sub_spec(1u64, nxt[24]), nxt[9]), mul_spec(nxt[24], nxt[5])), add_spec(mul_spec(sub_spec(1u64, nxt[24]), nxt[21]), mul_spec(nxt[24], nxt[17])))),
        mul_spec(add_spec(per[25], per[27]), sub_spec(add_spec(mul_spec(sub_spec(1u64, nxt[24]), nxt[10]), mul_spec(nxt[24], nxt[6])), add_spec(mul_spec(sub_spec(1u64, nxt[24]), nxt[22]), mul_spec(nxt[24], nxt[18])))),
        mul_spec(add_spec(per[25], per[27]), sub_spec(add_spec(mul_spec(sub_spec(1u64, nxt[24]), nxt[11]), mul_spec(nxt[24], nxt[7])), add_spec(mul_spec(sub_spec(1u64, nxt[24]), nxt[23]), mul_spec(nxt[24], nxt[19])))),
        mul_spec(cur[24], sub_spec(cur[24], 1u64)),
        mul_spec(per[26], nxt[0]),
        mul_spec(per[26], nxt[1]),
        mul_spec(per[26], nxt[2]),
    ]
}

fn residuals_1_eval(cur: &Vec<u64>, nxt: &Vec<u64>, per: &Vec<u64>) -> (r: Vec<u64>)
    requires
        cur.len() == TRACE_WIDTH,
        nxt.len() == TRACE_WIDTH,
        per.len() == 43,
        all_canonical(cur@),
        all_canonical(nxt@),
        all_canonical(per@),
    ensures
        r@ == residuals_1(cur@, nxt@, per@),
        r.len() == 12,
{
    let r = vec![
        fmul(fadd(per[25], per[27]), fadd(fmul(fsub(1u64, nxt[24]), fsub(nxt[16], cur[16])), fmul(nxt[24], fsub(nxt[20], cur[16])))),
        fmul(fadd(per[25], per[27]), fadd(fmul(fsub(1u64, nxt[24]), fsub(nxt[17], cur[17])), fmul(nxt[24], fsub(nxt[21], cur[17])))),
        fmul(fadd(per[25], per[27]), fadd(fmul(fsub(1u64, nxt[24]), fsub(nxt[18], cur[18])), fmul(nxt[24], fsub(nxt[22], cur[18])))),
        fmul(fadd(per[25], per[27]), fadd(fmul(fsub(1u64, nxt[24]), fsub(nxt[19], cur[19])), fmul(nxt[24], fsub(nxt[23], cur[19])))),
        fmul(fadd(per[25], per[27]), fsub(fadd(fmul(fsub(1u64, nxt[24]), nxt[8]), fmul(nxt[24], nxt[4])), fadd(fmul(fsub(1u64, nxt[24]), nxt[20]), fmul(nxt[24], nxt[16])))),
        fmul(fadd(per[25], per[27]), fsub(fadd(fmul(fsub(1u64, nxt[24]), nxt[9]), fmul(nxt[24], nxt[5])), fadd(fmul(fsub(1u64, nxt[24]), nxt[21]), fmul(nxt[24], nxt[17])))),
        fmul(fadd(per[25], per[27]), fsub(fadd(fmul(fsub(1u64, nxt[24]), nxt[10]), fmul(nxt[24], nxt[6])), fadd(fmul(fsub(1u64, nxt[24]), nxt[22]), fmul(nxt[24], nxt[18])))),
        fmul(fadd(per[25], per[27]), fsub(fadd(fmul(fsub(1u64, nxt[24]), nxt[11]), fmul(nxt[24], nxt[7])), fadd(fmul(fsub(1u64, nxt[24]), nxt[23]), fmul(nxt[24], nxt[19])))),
        fmul(cur[24], fsub(cur[24], 1u64)),
        fmul(per[26], nxt[0]),
        fmul(per[26], nxt[1]),
        fmul(per[26], nxt[2]),
    ];
    proof {
        reveal(residuals_1);
    }
    assert(r@ =~= residuals_1(cur@, nxt@, per@));
    r
}

/// The residuals of constraints 48..=59.
#[verifier::opaque]
pub open spec fn residuals_2(cur: Seq<u64>, nxt: Seq<u64>, per: Seq<u64>) -> Seq<u64> {
    seq![
        mul_spec(per[26], nxt[3]),
        mul_spec(per[26], nxt[12]),
        mul_spec(per[26], nxt[13]),
        mul_spec(per[26], nxt[14]),
        mul_spec(per[26], nxt[15]),
        mul_spec(per[26], sub_spec(nxt[4], cur[4])),
        mul_spec(per[26], sub_spec(nxt[5], cur[5])),
        mul_spec(per[26], sub_spec(nxt[6], cur[6])),
        mul_spec(per[26], sub_spec(nxt[7], cur[7])),
        mul_spec(per[26], sub_spec(nxt[16], cur[16])),
        mul_spec(per[26], sub_spec(nxt[17], cur[17])),
        mul_spec(per[26], sub_spec(nxt[18], cur[18])),
    ]
}

fn residuals_2_eval(cur: &Vec<u64>, nxt: &Vec<u64>, per: &Vec<u64>) -> (r: Vec<u64>)
    requires
        cur.len() == TRACE_WIDTH,
        nxt.len() == TRACE_WIDTH,
        per.len() == 43,
        all_canonical(cur@),
        all_canonical(nxt@),
        all_canonical(per@),
    ensures
        r@ == residuals_2(cur@, nxt@, per@),
        r.len() == 12,
{
    let r = vec![
        fmul(per[26], nxt[3]),
        fmul(per[26], nxt[12]),
        fmul(per[26], nxt[13]),
        fmul(per[26], nxt[14]),
        fmul(per[26], nxt[15]),
        fmul(per[26], fsub(nxt[4], cur[4])),
        fmul(per[26], fsub(nxt[5], cur[5])),
        fmul(per[26], fsub(nxt[6], cur[6])),
        fmul(per[26], fsub(nxt[7], cur[7])),
        fmul(per[26], fsub(nxt[16], cur[16])),
        fmul(per[26], fsub(nxt[17], cur[17])),
        fmul(per[26], fsub(nxt[18], cur[18])),
    ];
    proof {
        reveal(residuals_2);
    }
    assert(r@ =~= residuals_2(cur@, nxt@, per@));
    r
}

/// The residuals of constraints 60..=71.
#[verifier::opaque]
pub open spec fn residuals_3(cur: Seq<u64>, nxt: Seq<u64>, per: Seq<u64>) -> Seq<u64> {
    seq![
        mul_spec(per[26], sub_spec(nxt[19], cur[19])),
        mul_spec(per[28], sub_spec(nxt[8], cur[27])),
        mul_spec(per[28], sub_spec(nxt[20], add_spec(cur[27], 1u64))),
        mul_spec(per[29], sub_spec(nxt[8], cur[31])),
        mul_spec(per[29], sub_spec(nxt[20], cur[31])),
        mul_spec(per[30], sub_spec(nxt[8], cur[27])),
        mul_spec(per[30], sub_spec(nxt[20], cur[27])),
        mul_spec(per[31], sub_spec(cur[4], cur[25])),
        mul_spec(per[31], sub_spec(cur[8], cur[26])),
        mul_spec(per[31], sub_spec(cur[16], cur[25])),
        mul_spec(per[31], sub_spec(cur[20], cur[28])),
        mul_spec(per[32], sub_spec(nxt[4], cur[29])),
    ]
}

fn residuals_3_eval(cur: &Vec<u64>, nxt: &Vec<u64>, per: &Vec<u64>) -> (r: Vec<u64>)
    requires
        cur.len() == TRACE_WIDTH,
        nxt.len() == TRACE_WIDTH,
        per.len() == 43,
        all_canonical(cur@),
        all_canonical(nxt@),
        all_canonical(per@),
    ensures
        r@ == residuals_3(cur@, nxt@, per@),
        r.len() == 12,
{
    let r = vec![
        fmul(per[26], fsub(nxt[19], cur[19])),
        fmul(per[28], fsub(nxt[8], cur[27])),
        fmul(per[28], fsub(nxt[20], fadd(cur[27], 1u64))),
        fmul(per[29], fsub(nxt[8], cur[31])),
        fmul(per[29], fsub(nxt[20], cur[31])),
        fmul(per[30], fsub(nxt[8], cur[27])),
        fmul(per[30], fsub(nxt[20], cur[27])),
        fmul(per[31], fsub(cur[4], cur[25])),
        fmul(per[31], fsub(cur[8], cur[26])),
        fmul(per[31], fsub(cur[16], cur[25])),
        fmul(per[31], fsub(cur[20], cur[28])),
        fmul(per[32], fsub(nxt[4], cur[29])),
    ];
    proof {
        reveal(residuals_3);
    }
    assert(r@ =~= residuals_3(cur@, nxt@, per@));
    r
}

/// The residuals of constraints 72..=83.
#[verifier::opaque]
pub open spec fn residuals_4(cur: Seq<u64>, nxt: Seq<u64>, per: Seq<u64>) -> Seq<u64> {
    seq![
        mul_spec(per[32], sub_spec(nxt[8], cur[30])),
        mul_spec(per[32], sub_spec(nxt[16], cur[29])),
        mul_spec(per[32], sub_spec(nxt[20], cur[32])),
        mul_spec(per[32], sub_spec(cur[35], cur[16])),
        mul_spec(per[32], sub_spec(cur[36], cur[17])),
        mul_spec(per[32], sub_spec(cur[37], cur[18])),
        mul_spec(per[32], sub_spec(cur[38], cur[19])),
        mul_spec(per[33], sub_spec(cur[35], cur[4])),
        mul_spec(per[33], sub_spec(cur[36], cur[5])),
        mul_spec(per[33], sub_spec(cur[37], cur[6])),
        mul_spec(per[33], sub_spec(cur[38], cur[7])),
        sub_spec(cur[28], sub_spec(cur[26], cur[33])),
    ]
}

fn residuals_4_eval(cur: &Vec<u64>, nxt: &Vec<u64>, per: &Vec<u64>) -> (r: Vec<u64>)
    requires
        cur.len() == TRACE_WIDTH,
        nxt.len() == TRACE_WIDTH,
        per.len() == 43,
        all_canonical(cur@),
        all_canonical(nxt@),
        all_canonical(per@),
    ensures
        r@ == residuals_4(cur@, nxt@, per@),
        r.len() == 12,
{
    let r = vec![
        fmul(per[32], fsub(nxt[8], cur[30])),
        fmul(per[32], fsub(nxt[16], cur[29])),
        fmul(per[32], fsub(nxt[20], cur[32])),
        fmul(per[32], fsub(cur[35], cur[16])),
        fmul(per[32], fsub(cur[36], cur[17])),
        fmul(per[32], fsub(cur[37], cur[18])),
        fmul(per[32], fsub(cur[38], cur[19])),
        fmul(per[33], fsub(cur[35], cur[4])),
        fmul(per[33], fsub(cur[36], cur[5])),
        fmul(per[33], fsub(cur[37], cur[6])),
        fmul(per[33], fsub(cur[38], cur[7])),
        fsub(cur[28], fsub(cur[26], cur[33])),
    ];
    proof {
        reveal(residuals_4);
    }
    assert(r@ =~= residuals_4(cur@, nxt@, per@));
    r
}

/// The residuals of constraints 84..=95.
#[verifier::opaque]
pub open spec fn residuals_5(cur: Seq<u64>, nxt: Seq<u64>, per: Seq<u64>) -> Seq<u64> {
    seq![
        sub_spec(cur[32], add_spec(cur[30], cur[33])),
        sub_spec(nxt[25], cur[25]),
        sub_spec(nxt[26], cur[26]),
        sub_spec(nxt[27], cur[27]),
        sub_spec(nxt[28], cur[28]),
        sub_spec(nxt[29], cur[29]),
        sub_spec(nxt[30], cur[30]),
        sub_spec(nxt[31], cur[31]),
        sub_spec(nxt[32], cur[32]),
        sub_spec(nxt[33], cur[33]),
        sub_spec(nxt[34], cur[34]),
        sub_spec(nxt[35], cur[35]),
    ]
}

fn residuals_5_eval(cur: &Vec<u64>, nxt: &Vec<u64>, per: &Vec<u64>) -> (r: Vec<u64>)
    requires
        cur.len() == TRACE_WIDTH,
        nxt.len() == TRACE_WIDTH,
        per.len() == 43,
        all_canonical(cur@),
        all_canonical(nxt@),
        all_canonical(per@),
    ensures
        r@ == residuals_5(cur@, nxt@, per@),
        r.len() == 12,
{
    let r = vec![
        fsub(cur[32], fadd(cur[30], cur[33])),
        fsub(nxt[25], cur[25]),
        fsub(nxt[26], cur[26]),
        fsub(nxt[27], cur[27]),
        fsub(nxt[28], cur[28]),
        fsub(nxt[29], cur[29]),
        fsub(nxt[30], cur[30]),
        fsub(nxt[31], cur[31]),
        fsub(nxt[32], cur[32]),
        fsub(nxt[33], cur[33]),
        fsub(nxt[34], cur[34]),
        fsub(nxt[35], cur[35]),
    ];
    proof {
        reveal(residuals_5);
    }
    assert(r@ =~= residuals_5(cur@, nxt@, per@));
    r
}

/// The residuals of constraints 96..=107.
#[verifier::opaque]
pub open spec fn residuals_6(cur: Seq<u64>, nxt: Seq<u64>, per: Seq<u64>) -> Seq<u64> {
    seq![
        sub_spec(nxt[36], cur[36]),
        sub_spec(nxt[37], cur[37]),
        sub_spec(nxt[38], cur[38]),
        mul_spec(per[33], sub_spec(nxt[8], cur[25])),
        mul_spec(per[33], sub_spec(nxt[20], cur[25])),
        mul_spec(cur[39], sub_spec(cur[39], 1u64)),
        mul_spec(nxt[39], sub_spec(nxt[39], 1u64)),
        mul_spec(per[34], cur[39]),
        mul_spec(per[34], cur[40]),
        mul_spec(per[35], sub_spec(nxt[40], add_spec(add_spec(cur[40], cur[40]), nxt[39]))),
        mul_spec(per[36], sub_spec(nxt[40], cur[26])),
        mul_spec(per[37], sub_spec(nxt[40], cur[30])),
    ]
}

fn residuals_6_eval(cur: &Vec<u64>, nxt: &Vec<u64>, per: &Vec<u64>) -> (r: Vec<u64>)
    requires
        cur.len() == TRACE_WIDTH,
        nxt.len() == TRACE_WIDTH,
        per.len() == 43,
        all_canonical(cur@),
        all_canonical(nxt@),
        all_canonical(per@),
    ensures
        r@ == residuals_6(cur@, nxt@, per@),
        r.len() == 12,
{
    let r = vec![
        fsub(nxt[36], cur[36]),
        fsub(nxt[37], cur[37]),
        fsub(nxt[38], cur[38]),
        fmul(per[33], fsub(nxt[8], cur[25])),
        fmul(per[33], fsub(nxt[20], cur[25])),
        fmul(cur[39], fsub(cur[39], 1u64)),
        fmul(nxt[39], fsub(nxt[39], 1u64)),
        fmul(per[34], cur[39]),
        fmul(per[34], cur[40]),
        fmul(per[35], fsub(nxt[40], fadd(fadd(cur[40], cur[40]), nxt[39]))),
        fmul(per[36], fsub(nxt[40], cur[26])),
        fmul(per[37], fsub(nxt[40], cur[30])),
    ];
    proof {
        reveal(residuals_6);
    }
    assert(r@ =~= residuals_6(cur@, nxt@, per@));
    r
}

/// The residuals of constraints 108..=112.
#[verifier::opaque]
pub open spec fn residuals_7(cur: Seq<u64>, nxt: Seq<u64>, per: Seq<u64>) -> Seq<u64> {
    seq![
        mul_spec(per[38], sub_spec(nxt[40], cur[33])),
        mul_spec(per[39], sub_spec(nxt[40], cur[34])),
        mul_spec(per[40], sub_spec(nxt[40], cur[28])),
        mul_spec(per[41], sub_spec(nxt[40], sub_spec(cur[34], cur[33]))),
        mul_spec(per[42], sub_spec(nxt[40], cur[32])),
    ]
}

fn residuals_7_eval(cur: &Vec<u64>, nxt: &Vec<u64>, per: &Vec<u64>) -> (r: Vec<u64>)
    requires
        cur.len() == TRACE_WIDTH,
        nxt.len() == TRACE_WIDTH,
        per.len() == 43,
        all_canonical(cur@),
        all_canonical(nxt@),
        all_canonical(per@),
    ensures
        r@ == residuals_7(cur@, nxt@, per@),
        r.len() == 5,
{
    let r = vec![
        fmul(per[38], fsub(nxt[40], cur[33])),
        fmul(per[39], fsub(nxt[40], cur[34])),
        fmul(per[40], fsub(nxt[40], cur[28])),
        fmul(per[41], fsub(nxt[40], fsub(cur[34], cur[33]))),
        fmul(per[42], fsub(nxt[40], cur[32])),
    ];
    proof {
        reveal(residuals_7);
    }
    assert(r@ =~= residuals_7(cur@, nxt@, per@));
    r
}

/// The residuals of all transition constraints of a step, in the order of
/// their indices: the rounds of lane A and of lane B, then the rest.
pub open spec fn residuals(cur: Seq<u64>, nxt: Seq<u64>, per: Seq<u64>) -> Seq<u64> {
    round_residuals_spec(cur, nxt, per, 0, 0, 1, 13) + round_residuals_spec(cur, nxt, per, 12, 0, 1, 13)
        + residuals_0(cur, nxt, per) + residuals_1(cur, nxt, per) + residuals_2(cur, nxt, per) + residuals_3(cur, nxt, per) + residuals_4(cur, nxt, per) + residuals_5(cur, nxt, per) + residuals_6(cur, nxt, per) + residuals_7(cur, nxt, per)
}

/// Constraint `k` of a step, over the current row, the next row and the
/// periodic values.
pub open spec fn constraint_spec(k: int, current: Seq<u64>, next: Seq<u64>, periodic: Seq<u64>) -> u64 {
    residuals(current, next, periodic)[k]
}

/// Evaluates the transition constraints of a step over the base field: a
/// step satisfies the AIR when every residual is zero.
pub fn evaluate_transition(current: &Vec<u64>, next: &Vec<u64>, periodic: &Vec<u64>) -> (result: Vec<u64>)
    requires
        current.len() == TRACE_WIDTH,
        next.len() == TRACE_WIDTH,
        periodic.len() == 43,
        all_canonical(current@),
        all_canonical(next@),
        all_canonical(periodic@),
    ensures
        result.len() == NUM_CONSTRAINTS,
        forall|k: int| 0 <= k < NUM_CONSTRAINTS ==> #[trigger] result[k] == constraint_spec(k, current@, next@, periodic@),
{
    let mut r = round_residuals(current, next, periodic, 0, 0, 1, 13);
    let mut lane_b = round_residuals(current, next, periodic, 12, 0, 1, 13);
    r.append(&mut lane_b);

    let mut p0 = residuals_0_eval(current, next, periodic);
    r.append(&mut p0);
    let mut p1 = residuals_1_eval(current, next, periodic);
    r.append(&mut p1);
    let mut p2 = residuals_2_eval(current, next, periodic);
    r.append(&mut p2);
    let mut p3 = residuals_3_eval(current, next, periodic);
    r.append(&mut p3);
    let mut p4 = residuals_4_eval(current, next, periodic);
    r.append(&mut p4);
    let mut p5 = residuals_5_eval(current, next, periodic);
    r.append(&mut p5);
    let mut p6 = residuals_6_eval(current, next, periodic);
    r.append(&mut p6);
    let mut p7 = residuals_7_eval(current, next, periodic);
    r.append(&mut p7);
    assert(r@ =~= residuals(current@, next@, periodic@));
    r
}


proof fn lemma_residuals_len_0(cur: Seq<u64>, nxt: Seq<u64>, per: Seq<u64>)
    ensures
        residuals_0(cur, nxt, per).len() == 12,
{
    reveal(residuals_0);
}

proof fn lemma_residuals_len_1(cur: Seq<u64>, nxt: Seq<u64>, per: Seq<u64>)
    ensures
        residuals_1(cur, nxt, per).len() == 12,
{
    reveal(residuals_1);
}

proof fn lemma_residuals_len_2(cur: Seq<u64>, nxt: Seq<u64>, per: Seq<u64>)
    ensures
        residuals_2(cur, nxt, per).len() == 12,
{
    reveal(residuals_2);
}

proof fn lemma_residuals_len_3(cur: Seq<u64>, nxt: Seq<u64>, per: Seq<u64>)
    ensures
        residuals_3(cur, nxt, per).len() == 12,
{
    reveal(residuals_3);
}

proof fn lemma_residuals_len_4(cur: Seq<u64>, nxt: Seq<u64>, per: Seq<u64>)
    ensures
        residuals_4(cur, nxt, per).len() == 12,
{
    reveal(residuals_4);
}

proof fn lemma_residuals_len_5(cur: Seq<u64>, nxt: Seq<u64>, per: Seq<u64>)
    ensures
        residuals_5(cur, nxt, per).len() == 12,
{
    reveal(residuals_5);
}



/// Constraint 83 of a step.
pub proof fn lemma_constraint_83(current: Seq<u64>, next: Seq<u64>, periodic: Seq<u64>)
    ensures
        constraint_spec(83, current, next, periodic) == sub_spec(current[28], sub_spec(current[26], current[33])),
{
    lemma_residuals_len_0(current, next, periodic);
    lemma_residuals_len_1(current, next, periodic);
    lemma_residuals_len_2(current, next, periodic);
    lemma_residuals_len_3(current, next, periodic);
    lemma_residuals_len_4(current, next, periodic);
    assert(constraint_spec(83, current, next, periodic) == residuals_4(current, next, periodic)[11]);
    reveal(residuals_4);
}

/// Constraint 84 of a step.
pub proof fn lemma_constraint_84(current: Seq<u64>, next: Seq<u64>, periodic: Seq<u64>)
    ensures
        constraint_spec(84, current, next, periodic) == sub_spec(current[32], add_spec(current[30], current[33])),
{
    lemma_residuals_len_0(current, next, periodic);
    lemma_residuals_len_1(current, next, periodic);
    lemma_residuals_len_2(current, next, periodic);
    lemma_residuals_len_3(current, next, periodic);
    lemma_residuals_len_4(current, next, periodic);
    lemma_residuals_len_5(current, next, periodic);
    assert(constraint_spec(84, current, next, periodic) == residuals_5(current, next, periodic)[0]);
    reveal(residuals_5);
}


/// What the constraints force on a step whose residuals are all zero: the
/// sender's new balance is the old one minus the amount and the
/// receiver's new balance the old one plus the amount, so the credit
/// equals the debit and the two balances keep their sum.
pub proof fn lemma_zero_residuals_force(current: Seq<u64>, next: Seq<u64>, periodic: Seq<u64>)
    requires
        current.len() == TRACE_WIDTH,
        next.len() == TRACE_WIDTH,
        periodic.len() == 43,
        all_canonical(current),
        all_canonical(next),
        all_canonical(periodic),
        forall|k: int| 0 <= k < NUM_CONSTRAINTS ==> #[trigger] constraint_spec(k, current, next, periodic) == 0,
    ensures
        current[COL_S_BAL_NEW as int] == sub_spec(current[COL_S_BAL as int], current[COL_AMT as int]),
        current[COL_R_BAL_NEW as int] == add_spec(current[COL_R_BAL as int], current[COL_AMT as int]),
        add_spec(current[COL_S_BAL_NEW as int], current[COL_R_BAL_NEW as int])
            == add_spec(current[COL_S_BAL as int], current[COL_R_BAL as int]),
{
    let cur = current;
    assert(constraint_spec(83, current, next, periodic) == 0);
    assert(constraint_spec(84, current, next, periodic) == 0);
    lemma_constraint_83(current, next, periodic);
    lemma_constraint_84(current, next, periodic);
    crate::constraints::lemma_reduce_canonical(cur[26] - cur[33]);
    crate::constraints::lemma_reduce_canonical(cur[30] + cur[33]);
    crate::constraints::lemma_equal(cur[28], sub_spec(cur[26], cur[33]));
    crate::constraints::lemma_equal(cur[32], add_spec(cur[30], cur[33]));
    crate::constraints::lemma_transfer_balances(cur[26], cur[30], cur[33]);
}


/// The periodic values of step `r`.
pub open spec fn periodic_row(r: int) -> Seq<u64> {
    Seq::new(43, |j: int| periodic_spec(j, r))
}

/// Every cycle of both hash lanes runs the rounds of the permutation.
pub open spec fn lanes_hold(sender: PartyWitness, receiver: PartyWitness, amount: u64, credited: u64, limit: u64) -> bool {
    let v = transfer_values(sender.balance, sender.nonce, receiver.balance, amount, credited, limit);
    &&& forall|c: nat| c <= lane_links(sender, receiver, v, false).len() ==> #[trigger] rounds_hold(cycle_start(lane_start(sender, v, false), lane_links(sender, receiver, v, false), c))
    &&& forall|c: nat| c <= lane_links(sender, receiver, v, true).len() ==> #[trigger] rounds_hold(cycle_start(lane_start(sender, v, true), lane_links(sender, receiver, v, true), c))
}

/// Every step of the trace satisfies the round constraints of both hash
/// lanes (constraints 0..24): on a round row each lane goes from one round
/// of its permutation to the next, with that round's constants in the
/// periodic values; elsewhere the round flag is off.
pub proof fn lemma_trace_satisfies_round_constraints(sender: PartyWitness, receiver: PartyWitness, amount: u64, credited: u64, limit: u64, t: Seq<Vec<u64>>, r: int)
    requires
        t.len() == TRACE_WIDTH,
        forall|col: int, q: int|
            0 <= col < TRACE_WIDTH && 0 <= q < TRACE_LENGTH ==> #[trigger] t[col][q] == cell_spec(sender, receiver, amount, credited, limit, col, q),
        lanes_hold(sender, receiver, amount, credited, limit),
        0 <= r < TRACE_LENGTH - 1,
    ensures
        forall|k: int| 0 <= k < 24 ==> #[trigger] constraint_spec(k, row_of(t, r), row_of(t, r + 1), periodic_row(r)) == 0,
{
    let v = transfer_values(sender.balance, sender.nonce, receiver.balance, amount, credited, limit);
    let cur = row_of(t, r);
    let nxt = row_of(t, r + 1);
    let per = periodic_row(r);
    let active = ROW_NULLIFIER as int + 1;
    assert forall|j: int| 0 <= j < 12 implies #[trigger] cur[0 + j] == lane_value(lane_start(sender, v, false), lane_links(sender, receiver, v, false), j, r) by {
        assert(cur[j] == t[j][r]);
    }
    assert forall|j: int| 0 <= j < 12 implies #[trigger] nxt[0 + j] == lane_value(lane_start(sender, v, false), lane_links(sender, receiver, v, false), j, r + 1) by {
        assert(nxt[j] == t[j][r + 1]);
    }
    assert forall|j: int| 0 <= j < 12 implies #[trigger] cur[12 + j] == lane_value(lane_start(sender, v, true), lane_links(sender, receiver, v, true), j, r) by {
        assert(cur[12 + j] == t[12 + j][r]);
    }
    assert forall|j: int| 0 <= j < 12 implies #[trigger] nxt[12 + j] == lane_value(lane_start(sender, v, true), lane_links(sender, receiver, v, true), j, r + 1) by {
        assert(nxt[12 + j] == t[12 + j][r + 1]);
    }
    assert(per[0] == crate::periodic::hash_flag_spec(active, r));
    assert forall|j: int| 0 <= j < 12 implies #[trigger] per[1 + j] == crate::periodic::ark_spec(false, j, active, r) by {
        assert(per[1 + j] == periodic_spec(1 + j, r));
    }
    assert forall|j: int| 0 <= j < 12 implies #[trigger] per[13 + j] == crate::periodic::ark_spec(true, j, active, r) by {
        assert(per[13 + j] == periodic_spec(13 + j, r));
    }
    crate::lane::lemma_lane_round_residuals(cur, nxt, per, 0, 0, 1, 13, lane_start(sender, v, false), lane_links(sender, receiver, v, false), active, r);
    crate::lane::lemma_lane_round_residuals(cur, nxt, per, 12, 0, 1, 13, lane_start(sender, v, true), lane_links(sender, receiver, v, true), active, r);
    assert forall|k: int| 0 <= k < 24 implies #[trigger] constraint_spec(k, cur, nxt, per) == 0 by {
        if k < 12 {
            assert(constraint_spec(k, cur, nxt, per) == crate::constraints::round_residual(cur, nxt, per, 0, 0, 1, 13, k));
        } else {
            assert(constraint_spec(k, cur, nxt, per) == crate::constraints::round_residual(cur, nxt, per, 12, 0, 1, 13, k - 12));
        }
    }
}

/// The honest inputs of a transfer: the balances and the limit fit in 63
/// bits, the amount is within the sender's balance and the limit, the
/// receiver is credited the amount, and the receiver's old leaf climbs to
/// the root that the sender's new leaf climbs to.
pub open spec fn honest_transfer(sender: PartyWitness, receiver: PartyWitness, amount: u64, credited: u64, limit: u64) -> bool {
    let v = transfer_values(sender.balance, sender.nonce, receiver.balance, amount, credited, limit);
    &&& v.s_bal < 0x8000_0000_0000_0000
    &&& v.lim < 0x8000_0000_0000_0000
    &&& v.amt <= v.s_bal
    &&& v.amt <= v.lim
    &&& v.r_bal + v.amt < 0x8000_0000_0000_0000
    &&& reduce(credited as int) == v.amt
    &&& root_of(party_leaf_spec(receiver.account_id, v.r_bal, receiver.nonce), receiver.path)
        == root_of(party_leaf_spec(sender.account_id, v.s_bal_new, v.s_nonce_new), sender.path)
}

/// The rows that end a level of a climb: the sender's leaf and levels,
/// then the receiver's.
pub open spec fn level_link_row(r: int) -> bool {
    r % 8 == 7 && ((15 <= r <= 263) || (287 <= r <= 535))
}

/// The range checks of an honest trace hold on every step: the seven
/// segments start from zero, take one bit per row, and end on the two
/// balances, the amount, the limit, the new sender balance, the room under
/// the limit and the new receiver balance.
#[verifier::spinoff_prover]
#[verifier::rlimit(80)]
proof fn lemma_trace_range_constraints(sender: PartyWitness, receiver: PartyWitness, amount: u64, credited: u64, limit: u64, t: Seq<Vec<u64>>, r: int)
    requires
        t.len() == TRACE_WIDTH,
        forall|col: int, q: int|
            0 <= col < TRACE_WIDTH && 0 <= q < TRACE_LENGTH ==> #[trigger] t[col][q] == cell_spec(sender, receiver, amount, credited, limit, col, q),
        honest_transfer(sender, receiver, amount, credited, limit),
        0 <= r < TRACE_LENGTH - 1,
    ensures
        forall|j: int| 5 <= j < 12 ==> #[trigger] residuals_6(row_of(t, r), row_of(t, r + 1), periodic_row(r))[j] == 0,
        forall|j: int| 0 <= j < 5 ==> #[trigger] residuals_7(row_of(t, r), row_of(t, r + 1), periodic_row(r))[j] == 0,
{
    let cur = row_of(t, r);
    let nxt = row_of(t, r + 1);
    let per = periodic_row(r);
    let p: nat = MODULUS as nat;
    let v = transfer_values(sender.balance, sender.nonce, receiver.balance, amount, credited, limit);
    vstd::arithmetic::div_mod::lemma_small_mod(0, p);
    vstd::arithmetic::div_mod::lemma_small_mod(1, p);
    vstd::arithmetic::div_mod::lemma_small_mod((v.s_bal - v.amt) as nat, p);
    vstd::arithmetic::div_mod::lemma_small_mod((v.lim - v.amt) as nat, p);
    vstd::arithmetic::div_mod::lemma_small_mod((v.r_bal + v.amt) as nat, p);
    let segs = segment_values_spec(v);
    assert(segs[4] == v.s_bal - v.amt && segs[5] == v.lim - v.amt && segs[6] == v.r_bal + v.amt);
    assert forall|s: int| 0 <= s < 7 implies #[trigger] segs[s] < 0x8000_0000_0000_0000 by {}
    assert forall|c: int| 0 <= c < TRACE_WIDTH implies #[trigger] cur[c] == t[c][r] && nxt[c] == t[c][r + 1] by {}
    assert forall|q: int| 0 <= q < TRACE_LENGTH implies (#[trigger] t[39][q] == (if q < 448 { seg_bit(segs[q / 64], 64, (q % 64) as nat) } else { 0u64 })
        && t[40][q] == (if q < 448 { reduce(seg_acc(segs[q / 64], 64, (q % 64) as nat) as int) } else { 0u64 })) by {
        assert(t[39][q] == cell_spec(sender, receiver, amount, credited, limit, 39, q));
        assert(t[40][q] == cell_spec(sender, receiver, amount, credited, limit, 40, q));
    }
    assert(cur[26] == v.s_bal && cur[30] == v.r_bal && cur[33] == v.amt && cur[34] == v.lim && cur[28] == segs[4] && cur[32] == segs[6]) by {
        assert(t[26][r] == cell_spec(sender, receiver, amount, credited, limit, 26, r));
        assert(t[30][r] == cell_spec(sender, receiver, amount, credited, limit, 30, r));
        assert(t[33][r] == cell_spec(sender, receiver, amount, credited, limit, 33, r));
        assert(t[34][r] == cell_spec(sender, receiver, amount, credited, limit, 34, r));
        assert(t[28][r] == cell_spec(sender, receiver, amount, credited, limit, 28, r));
        assert(t[32][r] == cell_spec(sender, receiver, amount, credited, limit, 32, r));
    }
    assert(sub_spec(cur[34], cur[33]) == segs[5]);
    assert forall|x: u64| #[trigger] mul_spec(0u64, x) == 0 by {
        assert(0u64 * x == 0);
    }
    assert forall|x: u64| #[trigger] sub_spec(x, x) == 0 by {}
    assert forall|q: int| 0 <= q < TRACE_LENGTH implies (#[trigger] t[39][q] == 0 || t[39][q] == 1) by {
        if q < 448 {
            crate::solvency::lemma_wide_segment(segs[q / 64], (q % 64) as nat);
        }
    }
    assert forall|x: u64| x == 0 || x == 1 implies #[trigger] mul_spec(x, sub_spec(x, 1u64)) == 0 by {
        if x == 1 {
            assert(sub_spec(1u64, 1u64) == 0);
            assert(1u64 * 0u64 == 0);
        }
    }
    assert(mul_spec(cur[39], sub_spec(cur[39], 1u64)) == 0);
    assert(mul_spec(nxt[39], sub_spec(nxt[39], 1u64)) == 0);
    let s_first: Seq<usize> = seq![0usize, 64, 128, 192, 256, 320, 384];
    assert(per[34] == selector_spec(s_first, r));
    assert(per[35] == continue_spec(NUM_SEGMENTS as int, SEGMENT_LENGTH as int, r));
    if r % 64 == 0 && r < 448 {
        assert(s_first[r / 64] == r);
        crate::solvency::lemma_wide_segment(segs[r / 64], 0);
        assert(cur[39] == 0 && cur[40] == 0);
    } else {
        assert forall|l: int| 0 <= l < s_first.len() implies s_first[l] != r by {}
        assert(per[34] == 0);
    }
    if r < 448 && r % 64 != 63 {
        let w = segs[r / 64];
        let q = r % 64;
        assert((r + 1) / 64 == r / 64 && (r + 1) % 64 == q + 1);
        crate::solvency::lemma_wide_segment(w, q as nat);
        crate::solvency::lemma_wide_segment(w, (q + 1) as nat);
        vstd::arithmetic::div_mod::lemma_small_mod(seg_acc(w, 64, q as nat) as nat, p);
        vstd::arithmetic::div_mod::lemma_small_mod(seg_acc(w, 64, (q + 1) as nat) as nat, p);
        assert(cur[40] == seg_acc(w, 64, q as nat));
        assert(nxt[40] == seg_acc(w, 64, (q + 1) as nat));
        assert(nxt[39] == seg_bit(w, 64, (q + 1) as nat));
        vstd::arithmetic::div_mod::lemma_small_mod((cur[40] + cur[40]) as nat, p);
        vstd::arithmetic::div_mod::lemma_small_mod((cur[40] + cur[40] + nxt[39]) as nat, p);
        assert(add_spec(add_spec(cur[40], cur[40]), nxt[39]) == nxt[40]);
    } else {
        assert(per[35] == 0);
    }
    let e0: Seq<usize> = seq![62usize];
    assert(per[36] == selector_spec(e0, r));
    if r == 62 {
        assert(e0[0] == 62);
        crate::solvency::lemma_wide_segment(segs[0], 63);
        vstd::arithmetic::div_mod::lemma_small_mod(segs[0] as nat, p);
        assert(nxt[40] == segs[0]);
    } else {
        assert(per[36] == 0);
    }
    let e1: Seq<usize> = seq![126usize];
    assert(per[37] == selector_spec(e1, r));
    if r == 126 {
        assert(e1[0] == 126);
        crate::solvency::lemma_wide_segment(segs[1], 63);
        vstd::arithmetic::div_mod::lemma_small_mod(segs[1] as nat, p);
        assert(nxt[40] == segs[1]);
    } else {
        assert(per[37] == 0);
    }
    let e2: Seq<usize> = seq![190usize];
    assert(per[38] == selector_spec(e2, r));
    if r == 190 {
        assert(e2[0] == 190);
        crate::solvency::lemma_wide_segment(segs[2], 63);
        vstd::arithmetic::div_mod::lemma_small_mod(segs[2] as nat, p);
        assert(nxt[40] == segs[2]);
    } else {
        assert(per[38] == 0);
    }
    let e3: Seq<usize> = seq![254usize];
    assert(per[39] == selector_spec(e3, r));
    if r == 254 {
        assert(e3[0] == 254);
        crate::solvency::lemma_wide_segment(segs[3], 63);
        vstd::arithmetic::div_mod::lemma_small_mod(segs[3] as nat, p);
        assert(nxt[40] == segs[3]);
    } else {
        assert(per[39] == 0);
    }
    let e4: Seq<usize> = seq![318usize];
    assert(per[40] == selector_spec(e4, r));
    if r == 318 {
        assert(e4[0] == 318);
        crate::solvency::lemma_wide_segment(segs[4], 63);
        vstd::arithmetic::div_mod::lemma_small_mod(segs[4] as nat, p);
        assert(nxt[40] == segs[4]);
    } else {
        assert(per[40] == 0);
    }
    let e5: Seq<usize> = seq![382usize];
    assert(per[41] == selector_spec(e5, r));
    if r == 382 {
        assert(e5[0] == 382);
        crate::solvency::lemma_wide_segment(segs[5], 63);
        vstd::arithmetic::div_mod::lemma_small_mod(segs[5] as nat, p);
        assert(nxt[40] == segs[5]);
    } else {
        assert(per[41] == 0);
    }
    let e6: Seq<usize> = seq![446usize];
    assert(per[42] == selector_spec(e6, r));
    if r == 446 {
        assert(e6[0] == 446);
        crate::solvency::lemma_wide_segment(segs[6], 63);
        vstd::arithmetic::div_mod::lemma_small_mod(segs[6] as nat, p);
        assert(nxt[40] == segs[6]);
    } else {
        assert(per[42] == 0);
    }
    reveal(residuals_6);
    reveal(residuals_7);
}

/// The cells of a level link of either climb: both lanes start from their
/// node and the same sibling, on the side the bit says.
#[verifier::spinoff_prover]
#[verifier::rlimit(80)]
proof fn lemma_level_link_facts(sender: PartyWitness, receiver: PartyWitness, amount: u64, credited: u64, limit: u64, t: Seq<Vec<u64>>, r: int)
    requires
        t.len() == TRACE_WIDTH,
        forall|col: int, q: int|
            0 <= col < TRACE_WIDTH && 0 <= q < TRACE_LENGTH ==> #[trigger] t[col][q] == cell_spec(sender, receiver, amount, credited, limit, col, q),
        party_ok(sender),
        party_ok(receiver),
        level_link_row(r),
    ensures
        ({
            let cur = row_of(t, r);
            let nxt = row_of(t, r + 1);
            &&& nxt[24] == 0 || nxt[24] == 1
            &&& forall|j: int| (0 <= j < 4 || 12 <= j < 16) ==> #[trigger] nxt[j] == 0
            &&& nxt[24] == 1 ==> forall|j: int| (8 <= j < 12 || 20 <= j < 24) ==> #[trigger] nxt[j] == cur[j - 4]
            &&& nxt[24] == 1 ==> forall|j: int| 4 <= j < 8 ==> #[trigger] nxt[j] == nxt[j + 12]
            &&& nxt[24] == 0 ==> forall|j: int| (4 <= j < 8 || 16 <= j < 20) ==> #[trigger] nxt[j] == cur[j]
            &&& nxt[24] == 0 ==> forall|j: int| 8 <= j < 12 ==> #[trigger] nxt[j] == nxt[j + 12]
        }),
{
    let cur = row_of(t, r);
    let nxt = row_of(t, r + 1);
    let v = transfer_values(sender.balance, sender.nonce, receiver.balance, amount, credited, limit);
    let sa = lane_start(sender, v, false);
    let sb = lane_start(sender, v, true);
    let la = lane_links(sender, receiver, v, false);
    let lb = lane_links(sender, receiver, v, true);
    assert forall|i: int| 0 <= i < 12 implies #[trigger] cur[i] == lane_value(sa, la, i, r) && nxt[i] == lane_value(sa, la, i, r + 1)
        && cur[12 + i] == lane_value(sb, lb, i, r) && nxt[12 + i] == lane_value(sb, lb, i, r + 1) by {
        assert(t[i][r] == cell_spec(sender, receiver, amount, credited, limit, i, r));
        assert(t[i][r + 1] == cell_spec(sender, receiver, amount, credited, limit, i, r + 1));
        assert(t[12 + i][r] == cell_spec(sender, receiver, amount, credited, limit, 12 + i, r));
        assert(t[12 + i][r + 1] == cell_spec(sender, receiver, amount, credited, limit, 12 + i, r + 1));
    }
    let c = r / 8;
    assert(r == 8 * c + 7 && (r + 1) / 8 == c + 1 && (r + 1) % 8 == 0);
    assert(la.len() == 69 && lb.len() == 69);
    let first = c <= 32;
    let sib = if first { sender.path.siblings@[c - 1] } else { receiver.path.siblings@[c - 35] };
    let b = if first { sender.path.is_right@[c - 1] } else { receiver.path.is_right@[c - 35] };
    assert(la[c] == Link::Place { other: sib, right: b });
    assert(lb[c] == Link::Place { other: sib, right: b });
    assert(nxt[24] == bit_spec(sender, receiver, r + 1)) by {
        assert(t[24][r + 1] == cell_spec(sender, receiver, amount, credited, limit, 24, r + 1));
    }
    assert(nxt[24] == if b { 1u64 } else { 0u64 });
    crate::lane::lemma_lane_link_row(sa, la, c as nat);
    crate::lane::lemma_lane_link_row(sb, lb, c as nat);
    lemma_lane_digest_row(sa, la, c as nat);
    lemma_lane_digest_row(sb, lb, c as nat);
    let da = cycle_digest(sa, la, c as nat);
    let db = cycle_digest(sb, lb, c as nat);
    assert(da.len() == 4 && db.len() == 4 && sib@.len() == 4);
    assert forall|i: int| 0 <= i < 12 implies #[trigger] nxt[i] == link_start(la[c], da)[i] && nxt[12 + i] == link_start(lb[c], db)[i] by {}
    assert forall|j: int| (4 <= j < 8 || 16 <= j < 20) implies #[trigger] cur[j] == (if j < 8 { da[j - 4] } else { db[j - 16] }) by {
        if j < 8 {
            assert(lane_value(sa, la, 4 + (j - 4), r) == da[j - 4]);
        } else {
            assert(lane_value(sb, lb, 4 + (j - 16), r) == db[j - 16]);
        }
    }
    assert forall|j: int| (0 <= j < 4 || 12 <= j < 16) implies #[trigger] nxt[j] == 0 by {
        if j >= 12 {
            assert(nxt[12 + (j - 12)] == link_start(lb[c], db)[j - 12]);
        }
    }
    if b {
        assert forall|j: int| (8 <= j < 12 || 20 <= j < 24) implies #[trigger] nxt[j] == cur[j - 4] by {
            if j >= 20 {
                assert(nxt[12 + (j - 12)] == link_start(lb[c], db)[j - 12]);
            }
        }
        assert forall|j: int| 4 <= j < 8 implies #[trigger] nxt[j] == nxt[j + 12] by {
            assert(nxt[12 + j] == link_start(lb[c], db)[j]);
        }
    } else {
        assert forall|j: int| (4 <= j < 8 || 16 <= j < 20) implies #[trigger] nxt[j] == cur[j] by {
            if j >= 16 {
                assert(nxt[12 + (j - 12)] == link_start(lb[c], db)[j - 12]);
            }
        }
        assert forall|j: int| 8 <= j < 12 implies #[trigger] nxt[j] == nxt[j + 12] by {
            assert(nxt[12 + j] == link_start(lb[c], db)[j]);
        }
    }
}

/// The cells after a leaf (rows 7, 279, 551): both lanes keep their digest
/// and take a nonce: the sender's (the next one in the new lane), the
/// receiver's, then the sender's for the nullifier.
#[verifier::spinoff_prover]
#[verifier::rlimit(80)]
proof fn lemma_nonce_link_facts(sender: PartyWitness, receiver: PartyWitness, amount: u64, credited: u64, limit: u64, t: Seq<Vec<u64>>, r: int)
    requires
        t.len() == TRACE_WIDTH,
        forall|col: int, q: int|
            0 <= col < TRACE_WIDTH && 0 <= q < TRACE_LENGTH ==> #[trigger] t[col][q] == cell_spec(sender, receiver, amount, credited, limit, col, q),
        r == 7 || r == 279 || r == 551,
    ensures
        ({
            let cur = row_of(t, r);
            let nxt = row_of(t, r + 1);
            &&& forall|j: int| (0 <= j < 4 || 12 <= j < 16) ==> #[trigger] nxt[j] == 0
            &&& forall|j: int| (4 <= j < 8 || 16 <= j < 20) ==> #[trigger] nxt[j] == cur[j]
            &&& r == 7 ==> nxt[8] == cur[27] && nxt[20] == add_spec(cur[27], 1u64)
            &&& r == 279 ==> nxt[8] == cur[31] && nxt[20] == cur[31]
            &&& r == 551 ==> nxt[8] == cur[27] && nxt[20] == cur[27]
        }),
{
    let cur = row_of(t, r);
    let nxt = row_of(t, r + 1);
    let v = transfer_values(sender.balance, sender.nonce, receiver.balance, amount, credited, limit);
    let sa = lane_start(sender, v, false);
    let sb = lane_start(sender, v, true);
    let la = lane_links(sender, receiver, v, false);
    let lb = lane_links(sender, receiver, v, true);
    assert forall|i: int| 0 <= i < 12 implies #[trigger] cur[i] == lane_value(sa, la, i, r) && nxt[i] == lane_value(sa, la, i, r + 1)
        && cur[12 + i] == lane_value(sb, lb, i, r) && nxt[12 + i] == lane_value(sb, lb, i, r + 1) by {
        assert(t[i][r] == cell_spec(sender, receiver, amount, credited, limit, i, r));
        assert(t[i][r + 1] == cell_spec(sender, receiver, amount, credited, limit, i, r + 1));
        assert(t[12 + i][r] == cell_spec(sender, receiver, amount, credited, limit, 12 + i, r));
        assert(t[12 + i][r + 1] == cell_spec(sender, receiver, amount, credited, limit, 12 + i, r + 1));
    }
    let c = r / 8;
    assert(r == 8 * c + 7 && (r + 1) / 8 == c + 1 && (r + 1) % 8 == 0);
    assert(la.len() == 69 && lb.len() == 69);
    assert(t[27][r] == cell_spec(sender, receiver, amount, credited, limit, 27, r));
    assert(t[31][r] == cell_spec(sender, receiver, amount, credited, limit, 31, r));
    let xa = if r == 7 { sender.nonce } else if r == 279 { receiver.nonce } else { sender.nonce };
    let xb = if r == 7 { v.s_nonce_new } else if r == 279 { receiver.nonce } else { sender.nonce };
    assert(la[c] == Link::Place { other: digest_arr(xa), right: false });
    assert(lb[c] == Link::Place { other: digest_arr(xb), right: false });
    crate::lane::lemma_lane_link_row(sa, la, c as nat);
    crate::lane::lemma_lane_link_row(sb, lb, c as nat);
    lemma_lane_digest_row(sa, la, c as nat);
    lemma_lane_digest_row(sb, lb, c as nat);
    let da = cycle_digest(sa, la, c as nat);
    let db = cycle_digest(sb, lb, c as nat);
    assert(da.len() == 4 && db.len() == 4);
    assert forall|i: int| 0 <= i < 12 implies #[trigger] nxt[i] == link_start(la[c], da)[i] && nxt[12 + i] == link_start(lb[c], db)[i] by {}
    assert forall|j: int| (0 <= j < 4 || 12 <= j < 16) implies #[trigger] nxt[j] == 0 by {
        if j >= 12 {
            assert(nxt[12 + (j - 12)] == link_start(lb[c], db)[j - 12]);
        }
    }
    assert forall|j: int| (4 <= j < 8 || 16 <= j < 20) implies #[trigger] nxt[j] == cur[j] by {
        if j < 8 {
            assert(lane_value(sa, la, 4 + (j - 4), r) == da[j - 4]);
        } else {
            assert(lane_value(sb, lb, 4 + (j - 16), r) == db[j - 16]);
            assert(nxt[12 + (j - 12)] == link_start(lb[c], db)[j - 12]);
        }
    }
    assert(nxt[20] == link_start(lb[c], db)[8]);
}

/// The cells after each root (rows 271 and 543): the receiver's leaf
/// starts from its identity and its old (A) or new (B) balance, then the
/// nullifier from its domain and the sender's identity; the carried
/// intermediate root is the new sender root in lane B at row 271 and, for
/// an honest transfer, the receiver's old root in lane A at row 543.
#[verifier::spinoff_prover]
#[verifier::rlimit(80)]
proof fn lemma_root_row_facts(sender: PartyWitness, receiver: PartyWitness, amount: u64, credited: u64, limit: u64, t: Seq<Vec<u64>>, r: int)
    requires
        t.len() == TRACE_WIDTH,
        forall|col: int, q: int|
            0 <= col < TRACE_WIDTH && 0 <= q < TRACE_LENGTH ==> #[trigger] t[col][q] == cell_spec(sender, receiver, amount, credited, limit, col, q),
        party_ok(sender),
        party_ok(receiver),
        honest_transfer(sender, receiver, amount, credited, limit),
        r == 271 || r == 543,
    ensures
        ({
            let cur = row_of(t, r);
            let nxt = row_of(t, r + 1);
            &&& r == 271 ==> nxt[4] == cur[29] && nxt[8] == cur[30] && nxt[16] == cur[29] && nxt[20] == cur[32]
            &&& r == 271 ==> forall|j: int| 16 <= j < 20 ==> #[trigger] cur[j] == cur[j + 19]
            &&& r == 543 ==> nxt[8] == cur[25] && nxt[20] == cur[25]
            &&& r == 543 ==> forall|j: int| 4 <= j < 8 ==> #[trigger] cur[j] == cur[j + 31]
        }),
{
    let cur = row_of(t, r);
    let nxt = row_of(t, r + 1);
    let v = transfer_values(sender.balance, sender.nonce, receiver.balance, amount, credited, limit);
    let sa = lane_start(sender, v, false);
    let sb = lane_start(sender, v, true);
    let la = lane_links(sender, receiver, v, false);
    let lb = lane_links(sender, receiver, v, true);
    assert forall|i: int| 0 <= i < 12 implies #[trigger] cur[i] == lane_value(sa, la, i, r) && nxt[i] == lane_value(sa, la, i, r + 1)
        && cur[12 + i] == lane_value(sb, lb, i, r) && nxt[12 + i] == lane_value(sb, lb, i, r + 1) by {
        assert(t[i][r] == cell_spec(sender, receiver, amount, credited, limit, i, r));
        assert(t[i][r + 1] == cell_spec(sender, receiver, amount, credited, limit, i, r + 1));
        assert(t[12 + i][r] == cell_spec(sender, receiver, amount, credited, limit, 12 + i, r));
        assert(t[12 + i][r + 1] == cell_spec(sender, receiver, amount, credited, limit, 12 + i, r + 1));
    }
    let c = r / 8;
    assert(r == 8 * c + 7 && (r + 1) / 8 == c + 1 && (r + 1) % 8 == 0);
    assert(la.len() == 69 && lb.len() == 69);
    assert(t[25][r] == cell_spec(sender, receiver, amount, credited, limit, 25, r));
    assert(t[29][r] == cell_spec(sender, receiver, amount, credited, limit, 29, r));
    assert(t[30][r] == cell_spec(sender, receiver, amount, credited, limit, 30, r));
    assert(t[32][r] == cell_spec(sender, receiver, amount, credited, limit, 32, r));
    crate::lane::lemma_lane_link_row(sa, la, c as nat);
    crate::lane::lemma_lane_link_row(sb, lb, c as nat);
    lemma_trace_landmarks(sender, receiver, amount, credited, limit);
    let d = root_of(party_leaf_spec(sender.account_id, v.s_bal_new, v.s_nonce_new), sender.path);
    assert forall|j: int| 35 <= j < 39 implies #[trigger] cur[j] == d[j - 35] by {
        assert(t[j][r] == cell_spec(sender, receiver, amount, credited, limit, j, r));
        assert(cell_spec(sender, receiver, amount, credited, limit, COL_ROOT_MID + (j - 35), r) == d[j - 35]);
    }
    if r == 271 {
        assert(la[c] == Link::Fresh { state: merge_arr(digest_arr(receiver.account_id), digest_arr(v.r_bal)) });
        assert(lb[c] == Link::Fresh { state: merge_arr(digest_arr(receiver.account_id), digest_arr(v.r_bal_new)) });
        assert(nxt[4] == link_start(la[c], cycle_digest(sa, la, c as nat))[4]);
        assert(nxt[8] == link_start(la[c], cycle_digest(sa, la, c as nat))[8]);
        assert(nxt[16] == link_start(lb[c], cycle_digest(sb, lb, c as nat))[4]);
        assert(nxt[20] == link_start(lb[c], cycle_digest(sb, lb, c as nat))[8]);
        assert forall|j: int| 16 <= j < 20 implies #[trigger] cur[j] == cur[j + 19] by {
            assert(cell_spec(sender, receiver, amount, credited, limit, 16 + (j - 16), ROW_S_ROOT as int) == d[j - 16]);
            assert(t[j][r] == cell_spec(sender, receiver, amount, credited, limit, j, r));
        }
    } else {
        assert(la[c] == Link::Fresh { state: merge_arr(digest_arr(NULLIFIER_DOMAIN), digest_arr(sender.account_id)) });
        assert(lb[c] == Link::Fresh { state: merge_arr(digest_arr(NULLIFIER_DOMAIN), digest_arr(sender.account_id)) });
        assert(nxt[8] == link_start(la[c], cycle_digest(sa, la, c as nat))[8]);
        assert(nxt[20] == link_start(lb[c], cycle_digest(sb, lb, c as nat))[8]);
        assert forall|j: int| 4 <= j < 8 implies #[trigger] cur[j] == cur[j + 31] by {
            assert(cell_spec(sender, receiver, amount, credited, limit, 4 + (j - 4), ROW_R_ROOT as int)
                == root_of(party_leaf_spec(receiver.account_id, v.r_bal, receiver.nonce), receiver.path)[j - 4]);
            assert(t[j][r] == cell_spec(sender, receiver, amount, credited, limit, j, r));
        }
    }
}

/// The cells of the first row: both lanes start from the sender's
/// identity, with its old (A) and new (B) balance.
#[verifier::spinoff_prover]
#[verifier::rlimit(40)]
proof fn lemma_first_row_facts(sender: PartyWitness, receiver: PartyWitness, amount: u64, credited: u64, limit: u64, t: Seq<Vec<u64>>)
    requires
        t.len() == TRACE_WIDTH,
        forall|col: int, q: int|
            0 <= col < TRACE_WIDTH && 0 <= q < TRACE_LENGTH ==> #[trigger] t[col][q] == cell_spec(sender, receiver, amount, credited, limit, col, q),
    ensures
        ({
            let cur = row_of(t, 0);
            &&& cur[4] == cur[25] && cur[8] == cur[26] && cur[16] == cur[25] && cur[20] == cur[28]
        }),
{
    let cur = row_of(t, 0);
    let v = transfer_values(sender.balance, sender.nonce, receiver.balance, amount, credited, limit);
    let sa = lane_start(sender, v, false);
    let sb = lane_start(sender, v, true);
    let la = lane_links(sender, receiver, v, false);
    let lb = lane_links(sender, receiver, v, true);
    assert(crate::rescue::rounds(cycle_start(sa, la, 0), 0) == sa);
    assert(crate::rescue::rounds(cycle_start(sb, lb, 0), 0) == sb);
    assert(t[4][0] == cell_spec(sender, receiver, amount, credited, limit, 4, 0));
    assert(t[8][0] == cell_spec(sender, receiver, amount, credited, limit, 8, 0));
    assert(t[16][0] == cell_spec(sender, receiver, amount, credited, limit, 16, 0));
    assert(t[20][0] == cell_spec(sender, receiver, amount, credited, limit, 20, 0));
    assert(t[25][0] == cell_spec(sender, receiver, amount, credited, limit, 25, 0));
    assert(t[26][0] == cell_spec(sender, receiver, amount, credited, limit, 26, 0));
    assert(t[28][0] == cell_spec(sender, receiver, amount, credited, limit, 28, 0));
}

/// The rows where a level of a climb links to the next inside the tree.
pub open spec fn merkle_row(r: int) -> bool {
    r % 8 == 7 && ((23 <= r <= 263) || (295 <= r <= 535))
}

/// The selectors of the links at step `r`.
#[verifier::spinoff_prover]
#[verifier::rlimit(40)]
proof fn lemma_link_selectors(r: int)
    requires
        0 <= r < TRACE_LENGTH - 1,
    ensures
        periodic_row(r)[25] == (if merkle_row(r) { 1u64 } else { 0u64 }),
        periodic_row(r)[26] == (if r == 7 || r == 279 || r == 551 { 1u64 } else { 0u64 }),
        periodic_row(r)[27] == (if r == 15 || r == 287 { 1u64 } else { 0u64 }),
        periodic_row(r)[28] == (if r == 7 { 1u64 } else { 0u64 }),
        periodic_row(r)[29] == (if r == 279 { 1u64 } else { 0u64 }),
        periodic_row(r)[30] == (if r == 551 { 1u64 } else { 0u64 }),
        periodic_row(r)[31] == (if r == 0 { 1u64 } else { 0u64 }),
        periodic_row(r)[32] == (if r == 271 { 1u64 } else { 0u64 }),
        periodic_row(r)[33] == (if r == 543 { 1u64 } else { 0u64 }),
{
    let per = periodic_row(r);
    let s26: Seq<usize> = seq![ROW_S_LEAF_LINK, ROW_R_LEAF_LINK, ROW_NULL_LINK];
    let s27: Seq<usize> = seq![ROW_S_LEAF_DONE, ROW_R_LEAF_DONE];
    let s28: Seq<usize> = seq![ROW_S_LEAF_LINK];
    let s29: Seq<usize> = seq![ROW_R_LEAF_LINK];
    let s30: Seq<usize> = seq![ROW_NULL_LINK];
    let s31: Seq<usize> = seq![0usize];
    let s32: Seq<usize> = seq![ROW_S_ROOT];
    let s33: Seq<usize> = seq![ROW_R_ROOT];
    assert(per[25] == selector_spec(merkle_link_rows(), r));
    assert(per[26] == selector_spec(s26, r));
    assert(per[27] == selector_spec(s27, r));
    assert(per[28] == selector_spec(s28, r));
    assert(per[29] == selector_spec(s29, r));
    assert(per[30] == selector_spec(s30, r));
    assert(per[31] == selector_spec(s31, r));
    assert(per[32] == selector_spec(s32, r));
    assert(per[33] == selector_spec(s33, r));
    if r == 7 {
        assert(s26[0] == r && s28[0] == r);
    }
    if r == 279 {
        assert(s26[1] == r && s29[0] == r);
    }
    if r == 551 {
        assert(s26[2] == r && s30[0] == r);
    }
    if r == 15 {
        assert(s27[0] == r);
    }
    if r == 287 {
        assert(s27[1] == r);
    }
    if r == 0 {
        assert(s31[0] == r);
    }
    if r == 271 {
        assert(s32[0] == r);
    }
    if r == 543 {
        assert(s33[0] == r);
    }
    let m = merkle_link_rows();
    assert(m.len() == 62);
    if merkle_row(r) {
        let c = r / 8;
        if c <= 32 {
            assert(m[c - 2] == cycle_end_rows(2, 31)[c - 2]);
            assert(m[c - 2] == r);
        } else {
            assert(m[31 + (c - 36)] == cycle_end_rows(36, 31)[c - 36]);
            assert(m[31 + (c - 36)] == r);
        }
    } else {
        assert forall|l: int| 0 <= l < m.len() implies m[l] != r by {
            if l < 31 {
                assert(m[l] == cycle_end_rows(2, 31)[l]);
            } else {
                assert(m[l] == cycle_end_rows(36, 31)[l - 31]);
            }
        }
    }
}

/// The residuals of the level links (constraints 24..45).
#[verifier::spinoff_prover]
#[verifier::rlimit(100)]
proof fn lemma_level_residuals(cur: Seq<u64>, nxt: Seq<u64>, per: Seq<u64>, r: int)
    requires
        cur.len() == TRACE_WIDTH,
        nxt.len() == TRACE_WIDTH,
        per.len() == 43,
        per[25] == (if merkle_row(r) { 1u64 } else { 0u64 }),
        per[27] == (if r == 15 || r == 287 { 1u64 } else { 0u64 }),
        level_link_row(r) ==> {
            &&& nxt[24] == 0 || nxt[24] == 1
            &&& forall|j: int| (0 <= j < 4 || 12 <= j < 16) ==> #[trigger] nxt[j] == 0
            &&& nxt[24] == 1 ==> forall|j: int| (8 <= j < 12 || 20 <= j < 24) ==> #[trigger] nxt[j] == cur[j - 4]
            &&& nxt[24] == 1 ==> forall|j: int| 4 <= j < 8 ==> #[trigger] nxt[j] == nxt[j + 12]
            &&& nxt[24] == 0 ==> forall|j: int| (4 <= j < 8 || 16 <= j < 20) ==> #[trigger] nxt[j] == cur[j]
            &&& nxt[24] == 0 ==> forall|j: int| 8 <= j < 12 ==> #[trigger] nxt[j] == nxt[j + 12]
        },
        cur[24] == 0 || cur[24] == 1,
    ensures
        forall|j: int| 0 <= j < 12 ==> #[trigger] residuals_0(cur, nxt, per)[j] == 0,
        forall|j: int| 0 <= j < 9 ==> #[trigger] residuals_1(cur, nxt, per)[j] == 0,
{
    let p: nat = MODULUS as nat;
    vstd::arithmetic::div_mod::lemma_small_mod(0, p);
    vstd::arithmetic::div_mod::lemma_small_mod(1, p);
    assert forall|x: u64| #[trigger] mul_spec(0u64, x) == 0 by {
        assert(0u64 * x == 0);
    }
    assert forall|x: u64| #[trigger] mul_spec(1u64, x) == reduce(x as int) by {
        assert(1u64 * x == x);
    }
    assert forall|x: u64| #[trigger] sub_spec(x, x) == 0 by {}
    assert(sub_spec(1u64, 1u64) == 0);
    assert(sub_spec(1u64, 0u64) == 1);
    assert(level_link_row(r) == (merkle_row(r) || r == 15 || r == 287));
    assert(add_spec(per[25], per[27]) == if level_link_row(r) { 1u64 } else { 0u64 }) by {
        vstd::arithmetic::div_mod::lemma_small_mod(0, p);
        vstd::arithmetic::div_mod::lemma_small_mod(1, p);
    }
    assert(mul_spec(cur[24], sub_spec(cur[24], 1u64)) == 0) by {
        if cur[24] == 1 {
            assert(sub_spec(1u64, 1u64) == 0);
        } else {
            assert(0u64 * sub_spec(cur[24], 1u64) == 0);
        }
    }
    assert forall|j: int| 0 <= j < 12 implies #[trigger] residuals_0(cur, nxt, per)[j] == 0 by {
        reveal(residuals_0);
    }
    assert forall|j: int| 0 <= j < 9 implies #[trigger] residuals_1(cur, nxt, per)[j] == 0 by {
        reveal(residuals_1);
    }
}

/// The residuals after the leaves (constraints 45..67).
#[verifier::spinoff_prover]
#[verifier::rlimit(80)]
proof fn lemma_nonce_residuals(cur: Seq<u64>, nxt: Seq<u64>, per: Seq<u64>, r: int)
    requires
        cur.len() == TRACE_WIDTH,
        nxt.len() == TRACE_WIDTH,
        per.len() == 43,
        per[26] == (if r == 7 || r == 279 || r == 551 { 1u64 } else { 0u64 }),
        per[28] == (if r == 7 { 1u64 } else { 0u64 }),
        per[29] == (if r == 279 { 1u64 } else { 0u64 }),
        per[30] == (if r == 551 { 1u64 } else { 0u64 }),
        r == 7 || r == 279 || r == 551 ==> {
            &&& forall|j: int| (0 <= j < 4 || 12 <= j < 16) ==> #[trigger] nxt[j] == 0
            &&& forall|j: int| (4 <= j < 8 || 16 <= j < 20) ==> #[trigger] nxt[j] == cur[j]
            &&& r == 7 ==> nxt[8] == cur[27] && nxt[20] == add_spec(cur[27], 1u64)
            &&& r == 279 ==> nxt[8] == cur[31] && nxt[20] == cur[31]
            &&& r == 551 ==> nxt[8] == cur[27] && nxt[20] == cur[27]
        },
    ensures
        forall|j: int| 9 <= j < 12 ==> #[trigger] residuals_1(cur, nxt, per)[j] == 0,
        forall|j: int| 0 <= j < 12 ==> #[trigger] residuals_2(cur, nxt, per)[j] == 0,
        forall|j: int| 0 <= j < 7 ==> #[trigger] residuals_3(cur, nxt, per)[j] == 0,
{
    let p: nat = MODULUS as nat;
    vstd::arithmetic::div_mod::lemma_small_mod(0, p);
    vstd::arithmetic::div_mod::lemma_small_mod(1, p);
    assert forall|x: u64| #[trigger] mul_spec(0u64, x) == 0 by {
        assert(0u64 * x == 0);
    }
    assert forall|x: u64| #[trigger] mul_spec(1u64, x) == reduce(x as int) by {
        assert(1u64 * x == x);
    }
    assert forall|x: u64| #[trigger] sub_spec(x, x) == 0 by {}
    assert(sub_spec(1u64, 1u64) == 0);
    assert(sub_spec(1u64, 0u64) == 1);
    assert forall|j: int| 9 <= j < 12 implies #[trigger] residuals_1(cur, nxt, per)[j] == 0 by {
        reveal(residuals_1);
    }
    assert forall|j: int| 0 <= j < 12 implies #[trigger] residuals_2(cur, nxt, per)[j] == 0 by {
        reveal(residuals_2);
    }
    assert forall|j: int| 0 <= j < 7 implies #[trigger] residuals_3(cur, nxt, per)[j] == 0 by {
        reveal(residuals_3);
    }
}

/// The residuals of the first row and of the rows after each root.
#[verifier::spinoff_prover]
#[verifier::rlimit(80)]
proof fn lemma_root_residuals(cur: Seq<u64>, nxt: Seq<u64>, per: Seq<u64>, r: int)
    requires
        cur.len() == TRACE_WIDTH,
        nxt.len() == TRACE_WIDTH,
        per.len() == 43,
        per[31] == (if r == 0 { 1u64 } else { 0u64 }),
        per[32] == (if r == 271 { 1u64 } else { 0u64 }),
        per[33] == (if r == 543 { 1u64 } else { 0u64 }),
        r == 0 ==> cur[4] == cur[25] && cur[8] == cur[26] && cur[16] == cur[25] && cur[20] == cur[28],
        r == 271 ==> nxt[4] == cur[29] && nxt[8] == cur[30] && nxt[16] == cur[29] && nxt[20] == cur[32],
        r == 271 ==> forall|j: int| 16 <= j < 20 ==> #[trigger] cur[j] == cur[j + 19],
        r == 543 ==> nxt[8] == cur[25] && nxt[20] == cur[25],
        r == 543 ==> forall|j: int| 4 <= j < 8 ==> #[trigger] cur[j] == cur[j + 31],
    ensures
        forall|j: int| 7 <= j < 12 ==> #[trigger] residuals_3(cur, nxt, per)[j] == 0,
        forall|j: int| 0 <= j < 11 ==> #[trigger] residuals_4(cur, nxt, per)[j] == 0,
        forall|j: int| 3 <= j < 5 ==> #[trigger] residuals_6(cur, nxt, per)[j] == 0,
{
    let p: nat = MODULUS as nat;
    vstd::arithmetic::div_mod::lemma_small_mod(0, p);
    vstd::arithmetic::div_mod::lemma_small_mod(1, p);
    assert forall|x: u64| #[trigger] mul_spec(0u64, x) == 0 by {
        assert(0u64 * x == 0);
    }
    assert forall|x: u64| #[trigger] mul_spec(1u64, x) == reduce(x as int) by {
        assert(1u64 * x == x);
    }
    assert forall|x: u64| #[trigger] sub_spec(x, x) == 0 by {}
    assert(sub_spec(1u64, 1u64) == 0);
    assert(sub_spec(1u64, 0u64) == 1);
    assert forall|j: int| 7 <= j < 12 implies #[trigger] residuals_3(cur, nxt, per)[j] == 0 by {
        reveal(residuals_3);
    }
    assert forall|j: int| 0 <= j < 11 implies #[trigger] residuals_4(cur, nxt, per)[j] == 0 by {
        reveal(residuals_4);
    }
    assert forall|j: int| 3 <= j < 5 implies #[trigger] residuals_6(cur, nxt, per)[j] == 0 by {
        reveal(residuals_6);
    }
}

/// The residuals of the balances and of the constant columns.
#[verifier::spinoff_prover]
#[verifier::rlimit(60)]
proof fn lemma_column_residuals(cur: Seq<u64>, nxt: Seq<u64>, per: Seq<u64>)
    requires
        cur.len() == TRACE_WIDTH,
        nxt.len() == TRACE_WIDTH,
        per.len() == 43,
        cur[28] == sub_spec(cur[26], cur[33]),
        cur[32] == add_spec(cur[30], cur[33]),
        forall|col: int| 25 <= col < 39 ==> #[trigger] sub_spec(nxt[col], cur[col]) == 0,
    ensures
        residuals_4(cur, nxt, per)[11] == 0,
        forall|j: int| 0 <= j < 12 ==> #[trigger] residuals_5(cur, nxt, per)[j] == 0,
        forall|j: int| 0 <= j < 3 ==> #[trigger] residuals_6(cur, nxt, per)[j] == 0,
{
    assert forall|x: u64| #[trigger] sub_spec(x, x) == 0 by {}
    assert(sub_spec(nxt[25], cur[25]) == 0);
    assert(sub_spec(nxt[26], cur[26]) == 0);
    assert(sub_spec(nxt[27], cur[27]) == 0);
    assert(sub_spec(nxt[28], cur[28]) == 0);
    assert(sub_spec(nxt[29], cur[29]) == 0);
    assert(sub_spec(nxt[30], cur[30]) == 0);
    assert(sub_spec(nxt[31], cur[31]) == 0);
    assert(sub_spec(nxt[32], cur[32]) == 0);
    assert(sub_spec(nxt[33], cur[33]) == 0);
    assert(sub_spec(nxt[34], cur[34]) == 0);
    assert(sub_spec(nxt[35], cur[35]) == 0);
    assert(sub_spec(nxt[36], cur[36]) == 0);
    assert(sub_spec(nxt[37], cur[37]) == 0);
    assert(sub_spec(nxt[38], cur[38]) == 0);
    assert(residuals_4(cur, nxt, per)[11] == 0) by {
        reveal(residuals_4);
    }
    assert forall|j: int| 0 <= j < 12 implies #[trigger] residuals_5(cur, nxt, per)[j] == 0 by {
        reveal(residuals_5);
    }
    assert forall|j: int| 0 <= j < 3 implies #[trigger] residuals_6(cur, nxt, per)[j] == 0 by {
        reveal(residuals_6);
    }
}

proof fn lemma_residuals_len_6(cur: Seq<u64>, nxt: Seq<u64>, per: Seq<u64>)
    ensures
        residuals_6(cur, nxt, per).len() == 12,
        residuals_7(cur, nxt, per).len() == 5,
{
    assert(residuals_6(cur, nxt, per).len() == 12) by {
        reveal(residuals_6);
    }
    assert(residuals_7(cur, nxt, per).len() == 5) by {
        reveal(residuals_7);
    }
}

/// Every step of an honest trace satisfies every transition constraint,
/// for an honest transfer: the rounds of both lanes, the nonces after the
/// leaves, both climbs with their shared siblings, the receiver's leaf and
/// the nullifier after the roots, the carried intermediate root, the
/// balances, the seven range checks, and the constant columns.
#[verifier::spinoff_prover]
#[verifier::rlimit(80)]
pub proof fn lemma_trace_satisfies_constraints(sender: PartyWitness, receiver: PartyWitness, amount: u64, credited: u64, limit: u64, t: Seq<Vec<u64>>, r: int)
    requires
        t.len() == TRACE_WIDTH,
        forall|col: int, q: int|
            0 <= col < TRACE_WIDTH && 0 <= q < TRACE_LENGTH ==> #[trigger] t[col][q] == cell_spec(sender, receiver, amount, credited, limit, col, q),
        lanes_hold(sender, receiver, amount, credited, limit),
        party_ok(sender),
        party_ok(receiver),
        honest_transfer(sender, receiver, amount, credited, limit),
        0 <= r < TRACE_LENGTH - 1,
    ensures
        forall|k: int| 0 <= k < NUM_CONSTRAINTS ==> #[trigger] constraint_spec(k, row_of(t, r), row_of(t, r + 1), periodic_row(r)) == 0,
{
    let cur = row_of(t, r);
    let nxt = row_of(t, r + 1);
    let per = periodic_row(r);
    let v = transfer_values(sender.balance, sender.nonce, receiver.balance, amount, credited, limit);
    lemma_trace_satisfies_round_constraints(sender, receiver, amount, credited, limit, t, r);
    lemma_trace_range_constraints(sender, receiver, amount, credited, limit, t, r);
    lemma_link_selectors(r);
    if level_link_row(r) {
        lemma_level_link_facts(sender, receiver, amount, credited, limit, t, r);
    }
    if r == 7 || r == 279 || r == 551 {
        lemma_nonce_link_facts(sender, receiver, amount, credited, limit, t, r);
    }
    if r == 271 || r == 543 {
        lemma_root_row_facts(sender, receiver, amount, credited, limit, t, r);
    }
    if r == 0 {
        lemma_first_row_facts(sender, receiver, amount, credited, limit, t);
    }
    assert(cur[24] == 0 || cur[24] == 1) by {
        assert(t[24][r] == cell_spec(sender, receiver, amount, credited, limit, 24, r));
    }
    assert(cur[28] == sub_spec(cur[26], cur[33]) && cur[32] == add_spec(cur[30], cur[33])) by {
        assert(t[26][r] == cell_spec(sender, receiver, amount, credited, limit, 26, r));
        assert(t[28][r] == cell_spec(sender, receiver, amount, credited, limit, 28, r));
        assert(t[30][r] == cell_spec(sender, receiver, amount, credited, limit, 30, r));
        assert(t[32][r] == cell_spec(sender, receiver, amount, credited, limit, 32, r));
        assert(t[33][r] == cell_spec(sender, receiver, amount, credited, limit, 33, r));
    }
    assert forall|col: int| 25 <= col < 39 implies #[trigger] sub_spec(nxt[col], cur[col]) == 0 by {
        assert(t[col][r] == cell_spec(sender, receiver, amount, credited, limit, col, r));
        assert(t[col][r + 1] == cell_spec(sender, receiver, amount, credited, limit, col, r + 1));
    }
    lemma_level_residuals(cur, nxt, per, r);
    lemma_nonce_residuals(cur, nxt, per, r);
    lemma_root_residuals(cur, nxt, per, r);
    lemma_column_residuals(cur, nxt, per);
    lemma_residuals_len_0(cur, nxt, per);
    lemma_residuals_len_1(cur, nxt, per);
    lemma_residuals_len_2(cur, nxt, per);
    lemma_residuals_len_3(cur, nxt, per);
    lemma_residuals_len_4(cur, nxt, per);
    lemma_residuals_len_5(cur, nxt, per);
    lemma_residuals_len_6(cur, nxt, per);
    assert forall|k: int| 24 <= k < NUM_CONSTRAINTS implies #[trigger] constraint_spec(k, cur, nxt, per) == 0 by {
        if k < 36 {
            assert(constraint_spec(k, cur, nxt, per) == residuals_0(cur, nxt, per)[k - 24]);
        } else if k < 48 {
            assert(constraint_spec(k, cur, nxt, per) == residuals_1(cur, nxt, per)[k - 36]);
        } else if k < 60 {
            assert(constraint_spec(k, cur, nxt, per) == residuals_2(cur, nxt, per)[k - 48]);
        } else if k < 72 {
            assert(constraint_spec(k, cur, nxt, per) == residuals_3(cur, nxt, per)[k - 60]);
        } else if k < 84 {
            assert(constraint_spec(k, cur, nxt, per) == residuals_4(cur, nxt, per)[k - 72]);
        } else if k < 96 {
            assert(constraint_spec(k, cur, nxt, per) == residuals_5(cur, nxt, per)[k - 84]);
        } else if k < 108 {
            assert(constraint_spec(k, cur, nxt, per) == residuals_6(cur, nxt, per)[k - 96]);
        } else {
            assert(constraint_spec(k, cur, nxt, per) == residuals_7(cur, nxt, per)[k - 108]);
        }
    }
}

#[verifier::spinoff_prover]
#[verifier::rlimit(100)]
proof fn lemma_accepted_constraint_101(cur: Seq<u64>, nxt: Seq<u64>, per: Seq<u64>)
    requires
        cur.len() == TRACE_WIDTH,
        nxt.len() == TRACE_WIDTH,
        all_canonical(cur),
        all_canonical(nxt),
        constraint_spec(101, cur, nxt, per) == 0,
    ensures
        cur[39] <= 1,
{
    lemma_residuals_len_0(cur, nxt, per);
    lemma_residuals_len_1(cur, nxt, per);
    lemma_residuals_len_2(cur, nxt, per);
    lemma_residuals_len_3(cur, nxt, per);
    lemma_residuals_len_4(cur, nxt, per);
    lemma_residuals_len_5(cur, nxt, per);
    lemma_residuals_len_6(cur, nxt, per);
    assert(constraint_spec(101, cur, nxt, per) == residuals_6(cur, nxt, per)[5]);
    reveal(residuals_6);
    lemma_field_bit(cur[39]);
}

#[verifier::spinoff_prover]
#[verifier::rlimit(100)]
proof fn lemma_accepted_constraint_104(cur: Seq<u64>, nxt: Seq<u64>, per: Seq<u64>)
    requires
        cur.len() == TRACE_WIDTH,
        nxt.len() == TRACE_WIDTH,
        all_canonical(cur),
        all_canonical(nxt),
        constraint_spec(104, cur, nxt, per) == 0,
    ensures
        per[34] == 1 ==> cur[40] == 0,
{
    lemma_residuals_len_0(cur, nxt, per);
    lemma_residuals_len_1(cur, nxt, per);
    lemma_residuals_len_2(cur, nxt, per);
    lemma_residuals_len_3(cur, nxt, per);
    lemma_residuals_len_4(cur, nxt, per);
    lemma_residuals_len_5(cur, nxt, per);
    lemma_residuals_len_6(cur, nxt, per);
    assert(constraint_spec(104, cur, nxt, per) == residuals_6(cur, nxt, per)[8]);
    reveal(residuals_6);
    if per[34] == 1 {
        lemma_selected(cur[40]);
    }
}

#[verifier::spinoff_prover]
#[verifier::rlimit(100)]
proof fn lemma_accepted_constraint_105(cur: Seq<u64>, nxt: Seq<u64>, per: Seq<u64>)
    requires
        cur.len() == TRACE_WIDTH,
        nxt.len() == TRACE_WIDTH,
        all_canonical(cur),
        all_canonical(nxt),
        constraint_spec(105, cur, nxt, per) == 0,
    ensures
        per[35] == 1 ==> nxt[40] == add_spec(add_spec(cur[40], cur[40]), nxt[39]),
{
    lemma_residuals_len_0(cur, nxt, per);
    lemma_residuals_len_1(cur, nxt, per);
    lemma_residuals_len_2(cur, nxt, per);
    lemma_residuals_len_3(cur, nxt, per);
    lemma_residuals_len_4(cur, nxt, per);
    lemma_residuals_len_5(cur, nxt, per);
    lemma_residuals_len_6(cur, nxt, per);
    assert(constraint_spec(105, cur, nxt, per) == residuals_6(cur, nxt, per)[9]);
    reveal(residuals_6);
    lemma_reduce_canonical(cur[40] + cur[40]);
    lemma_reduce_canonical(add_spec(cur[40], cur[40]) + nxt[39]);
    if per[35] == 1 {
        lemma_selected_equal(per[35], nxt[40], add_spec(add_spec(cur[40], cur[40]), nxt[39]));
    }
}

#[verifier::spinoff_prover]
#[verifier::rlimit(100)]
proof fn lemma_accepted_constraint_106(cur: Seq<u64>, nxt: Seq<u64>, per: Seq<u64>)
    requires
        cur.len() == TRACE_WIDTH,
        nxt.len() == TRACE_WIDTH,
        all_canonical(cur),
        all_canonical(nxt),
        constraint_spec(106, cur, nxt, per) == 0,
    ensures
        per[36] == 1 ==> nxt[40] == cur[26],
{
    lemma_residuals_len_0(cur, nxt, per);
    lemma_residuals_len_1(cur, nxt, per);
    lemma_residuals_len_2(cur, nxt, per);
    lemma_residuals_len_3(cur, nxt, per);
    lemma_residuals_len_4(cur, nxt, per);
    lemma_residuals_len_5(cur, nxt, per);
    lemma_residuals_len_6(cur, nxt, per);
    assert(constraint_spec(106, cur, nxt, per) == residuals_6(cur, nxt, per)[10]);
    reveal(residuals_6);
    if per[36] == 1 {
        lemma_selected_equal(per[36], nxt[40], cur[26]);
    }
}

#[verifier::spinoff_prover]
#[verifier::rlimit(100)]
proof fn lemma_accepted_constraint_107(cur: Seq<u64>, nxt: Seq<u64>, per: Seq<u64>)
    requires
        cur.len() == TRACE_WIDTH,
        nxt.len() == TRACE_WIDTH,
        all_canonical(cur),
        all_canonical(nxt),
        constraint_spec(107, cur, nxt, per) == 0,
    ensures
        per[37] == 1 ==> nxt[40] == cur[30],
{
    lemma_residuals_len_0(cur, nxt, per);
    lemma_residuals_len_1(cur, nxt, per);
    lemma_residuals_len_2(cur, nxt, per);
    lemma_residuals_len_3(cur, nxt, per);
    lemma_residuals_len_4(cur, nxt, per);
    lemma_residuals_len_5(cur, nxt, per);
    lemma_residuals_len_6(cur, nxt, per);
    assert(constraint_spec(107, cur, nxt, per) == residuals_6(cur, nxt, per)[11]);
    reveal(residuals_6);
    if per[37] == 1 {
        lemma_selected_equal(per[37], nxt[40], cur[30]);
    }
}

#[verifier::spinoff_prover]
#[verifier::rlimit(100)]
proof fn lemma_accepted_constraint_108(cur: Seq<u64>, nxt: Seq<u64>, per: Seq<u64>)
    requires
        cur.len() == TRACE_WIDTH,
        nxt.len() == TRACE_WIDTH,
        all_canonical(cur),
        all_canonical(nxt),
        constraint_spec(108, cur, nxt, per) == 0,
    ensures
        per[38] == 1 ==> nxt[40] == cur[33],
{
    lemma_residuals_len_0(cur, nxt, per);
    lemma_residuals_len_1(cur, nxt, per);
    lemma_residuals_len_2(cur, nxt, per);
    lemma_residuals_len_3(cur, nxt, per);
    lemma_residuals_len_4(cur, nxt, per);
    lemma_residuals_len_5(cur, nxt, per);
    lemma_residuals_len_6(cur, nxt, per);
    assert(constraint_spec(108, cur, nxt, per) == residuals_7(cur, nxt, per)[0]);
    reveal(residuals_7);
    if per[38] == 1 {
        lemma_selected_equal(per[38], nxt[40], cur[33]);
    }
}

#[verifier::spinoff_prover]
#[verifier::rlimit(100)]
proof fn lemma_accepted_constraint_109(cur: Seq<u64>, nxt: Seq<u64>, per: Seq<u64>)
    requires
        cur.len() == TRACE_WIDTH,
        nxt.len() == TRACE_WIDTH,
        all_canonical(cur),
        all_canonical(nxt),
        constraint_spec(109, cur, nxt, per) == 0,
    ensures
        per[39] == 1 ==> nxt[40] == cur[34],
{
    lemma_residuals_len_0(cur, nxt, per);
    lemma_residuals_len_1(cur, nxt, per);
    lemma_residuals_len_2(cur, nxt, per);
    lemma_residuals_len_3(cur, nxt, per);
    lemma_residuals_len_4(cur, nxt, per);
    lemma_residuals_len_5(cur, nxt, per);
    lemma_residuals_len_6(cur, nxt, per);
    assert(constraint_spec(109, cur, nxt, per) == residuals_7(cur, nxt, per)[1]);
    reveal(residuals_7);
    if per[39] == 1 {
        lemma_selected_equal(per[39], nxt[40], cur[34]);
    }
}

#[verifier::spinoff_prover]
#[verifier::rlimit(100)]
proof fn lemma_accepted_constraint_110(cur: Seq<u64>, nxt: Seq<u64>, per: Seq<u64>)
    requires
        cur.len() == TRACE_WIDTH,
        nxt.len() == TRACE_WIDTH,
        all_canonical(cur),
        all_canonical(nxt),
        constraint_spec(110, cur, nxt, per) == 0,
    ensures
        per[40] == 1 ==> nxt[40] == cur[28],
{
    lemma_residuals_len_0(cur, nxt, per);
    lemma_residuals_len_1(cur, nxt, per);
    lemma_residuals_len_2(cur, nxt, per);
    lemma_residuals_len_3(cur, nxt, per);
    lemma_residuals_len_4(cur, nxt, per);
    lemma_residuals_len_5(cur, nxt, per);
    lemma_residuals_len_6(cur, nxt, per);
    assert(constraint_spec(110, cur, nxt, per) == residuals_7(cur, nxt, per)[2]);
    reveal(residuals_7);
    if per[40] == 1 {
        lemma_selected_equal(per[40], nxt[40], cur[28]);
    }
}

#[verifier::spinoff_prover]
#[verifier::rlimit(100)]
proof fn lemma_accepted_constraint_111(cur: Seq<u64>, nxt: Seq<u64>, per: Seq<u64>)
    requires
        cur.len() == TRACE_WIDTH,
        nxt.len() == TRACE_WIDTH,
        all_canonical(cur),
        all_canonical(nxt),
        constraint_spec(111, cur, nxt, per) == 0,
    ensures
        per[41] == 1 ==> nxt[40] == sub_spec(cur[34], cur[33]),
{
    lemma_residuals_len_0(cur, nxt, per);
    lemma_residuals_len_1(cur, nxt, per);
    lemma_residuals_len_2(cur, nxt, per);
    lemma_residuals_len_3(cur, nxt, per);
    lemma_residuals_len_4(cur, nxt, per);
    lemma_residuals_len_5(cur, nxt, per);
    lemma_residuals_len_6(cur, nxt, per);
    assert(constraint_spec(111, cur, nxt, per) == residuals_7(cur, nxt, per)[3]);
    reveal(residuals_7);
    lemma_reduce_canonical(cur[34] - cur[33]);
    if per[41] == 1 {
        lemma_selected_equal(per[41], nxt[40], sub_spec(cur[34], cur[33]));
    }
}

#[verifier::spinoff_prover]
#[verifier::rlimit(100)]
proof fn lemma_accepted_constraint_112(cur: Seq<u64>, nxt: Seq<u64>, per: Seq<u64>)
    requires
        cur.len() == TRACE_WIDTH,
        nxt.len() == TRACE_WIDTH,
        all_canonical(cur),
        all_canonical(nxt),
        constraint_spec(112, cur, nxt, per) == 0,
    ensures
        per[42] == 1 ==> nxt[40] == cur[32],
{
    lemma_residuals_len_0(cur, nxt, per);
    lemma_residuals_len_1(cur, nxt, per);
    lemma_residuals_len_2(cur, nxt, per);
    lemma_residuals_len_3(cur, nxt, per);
    lemma_residuals_len_4(cur, nxt, per);
    lemma_residuals_len_5(cur, nxt, per);
    lemma_residuals_len_6(cur, nxt, per);
    assert(constraint_spec(112, cur, nxt, per) == residuals_7(cur, nxt, per)[4]);
    reveal(residuals_7);
    if per[42] == 1 {
        lemma_selected_equal(per[42], nxt[40], cur[32]);
    }
}

#[verifier::spinoff_prover]
#[verifier::rlimit(100)]
proof fn lemma_accepted_constraint_86(cur: Seq<u64>, nxt: Seq<u64>, per: Seq<u64>)
    requires
        cur.len() == TRACE_WIDTH,
        nxt.len() == TRACE_WIDTH,
        all_canonical(cur),
        all_canonical(nxt),
        constraint_spec(86, cur, nxt, per) == 0,
    ensures
        nxt[26] == cur[26],
{
    lemma_residuals_len_0(cur, nxt, per);
    lemma_residuals_len_1(cur, nxt, per);
    lemma_residuals_len_2(cur, nxt, per);
    lemma_residuals_len_3(cur, nxt, per);
    lemma_residuals_len_4(cur, nxt, per);
    lemma_residuals_len_5(cur, nxt, per);
    lemma_residuals_len_6(cur, nxt, per);
    assert(constraint_spec(86, cur, nxt, per) == residuals_5(cur, nxt, per)[2]);
    reveal(residuals_5);
    lemma_equal(nxt[26], cur[26]);
}

#[verifier::spinoff_prover]
#[verifier::rlimit(100)]
proof fn lemma_accepted_constraint_88(cur: Seq<u64>, nxt: Seq<u64>, per: Seq<u64>)
    requires
        cur.len() == TRACE_WIDTH,
        nxt.len() == TRACE_WIDTH,
        all_canonical(cur),
        all_canonical(nxt),
        constraint_spec(88, cur, nxt, per) == 0,
    ensures
        nxt[28] == cur[28],
{
    lemma_residuals_len_0(cur, nxt, per);
    lemma_residuals_len_1(cur, nxt, per);
    lemma_residuals_len_2(cur, nxt, per);
    lemma_residuals_len_3(cur, nxt, per);
    lemma_residuals_len_4(cur, nxt, per);
    lemma_residuals_len_5(cur, nxt, per);
    lemma_residuals_len_6(cur, nxt, per);
    assert(constraint_spec(88, cur, nxt, per) == residuals_5(cur, nxt, per)[4]);
    reveal(residuals_5);
    lemma_equal(nxt[28], cur[28]);
}

#[verifier::spinoff_prover]
#[verifier::rlimit(100)]
proof fn lemma_accepted_constraint_90(cur: Seq<u64>, nxt: Seq<u64>, per: Seq<u64>)
    requires
        cur.len() == TRACE_WIDTH,
        nxt.len() == TRACE_WIDTH,
        all_canonical(cur),
        all_canonical(nxt),
        constraint_spec(90, cur, nxt, per) == 0,
    ensures
        nxt[30] == cur[30],
{
    lemma_residuals_len_0(cur, nxt, per);
    lemma_residuals_len_1(cur, nxt, per);
    lemma_residuals_len_2(cur, nxt, per);
    lemma_residuals_len_3(cur, nxt, per);
    lemma_residuals_len_4(cur, nxt, per);
    lemma_residuals_len_5(cur, nxt, per);
    lemma_residuals_len_6(cur, nxt, per);
    assert(constraint_spec(90, cur, nxt, per) == residuals_5(cur, nxt, per)[6]);
    reveal(residuals_5);
    lemma_equal(nxt[30], cur[30]);
}

#[verifier::spinoff_prover]
#[verifier::rlimit(100)]
proof fn lemma_accepted_constraint_92(cur: Seq<u64>, nxt: Seq<u64>, per: Seq<u64>)
    requires
        cur.len() == TRACE_WIDTH,
        nxt.len() == TRACE_WIDTH,
        all_canonical(cur),
        all_canonical(nxt),
        constraint_spec(92, cur, nxt, per) == 0,
    ensures
        nxt[32] == cur[32],
{
    lemma_residuals_len_0(cur, nxt, per);
    lemma_residuals_len_1(cur, nxt, per);
    lemma_residuals_len_2(cur, nxt, per);
    lemma_residuals_len_3(cur, nxt, per);
    lemma_residuals_len_4(cur, nxt, per);
    lemma_residuals_len_5(cur, nxt, per);
    lemma_residuals_len_6(cur, nxt, per);
    assert(constraint_spec(92, cur, nxt, per) == residuals_5(cur, nxt, per)[8]);
    reveal(residuals_5);
    lemma_equal(nxt[32], cur[32]);
}

#[verifier::spinoff_prover]
#[verifier::rlimit(100)]
proof fn lemma_accepted_constraint_93(cur: Seq<u64>, nxt: Seq<u64>, per: Seq<u64>)
    requires
        cur.len() == TRACE_WIDTH,
        nxt.len() == TRACE_WIDTH,
        all_canonical(cur),
        all_canonical(nxt),
        constraint_spec(93, cur, nxt, per) == 0,
    ensures
        nxt[33] == cur[33],
{
    lemma_residuals_len_0(cur, nxt, per);
    lemma_residuals_len_1(cur, nxt, per);
    lemma_residuals_len_2(cur, nxt, per);
    lemma_residuals_len_3(cur, nxt, per);
    lemma_residuals_len_4(cur, nxt, per);
    lemma_residuals_len_5(cur, nxt, per);
    lemma_residuals_len_6(cur, nxt, per);
    assert(constraint_spec(93, cur, nxt, per) == residuals_5(cur, nxt, per)[9]);
    reveal(residuals_5);
    lemma_equal(nxt[33], cur[33]);
}

#[verifier::spinoff_prover]
#[verifier::rlimit(100)]
proof fn lemma_accepted_constraint_94(cur: Seq<u64>, nxt: Seq<u64>, per: Seq<u64>)
    requires
        cur.len() == TRACE_WIDTH,
        nxt.len() == TRACE_WIDTH,
        all_canonical(cur),
        all_canonical(nxt),
        constraint_spec(94, cur, nxt, per) == 0,
    ensures
        nxt[34] == cur[34],
{
    lemma_residuals_len_0(cur, nxt, per);
    lemma_residuals_len_1(cur, nxt, per);
    lemma_residuals_len_2(cur, nxt, per);
    lemma_residuals_len_3(cur, nxt, per);
    lemma_residuals_len_4(cur, nxt, per);
    lemma_residuals_len_5(cur, nxt, per);
    lemma_residuals_len_6(cur, nxt, per);
    assert(constraint_spec(94, cur, nxt, per) == residuals_5(cur, nxt, per)[10]);
    reveal(residuals_5);
    lemma_equal(nxt[34], cur[34]);
}

#[verifier::spinoff_prover]
#[verifier::rlimit(100)]
proof fn lemma_accepted_constraint_83(cur: Seq<u64>, nxt: Seq<u64>, per: Seq<u64>)
    requires
        cur.len() == TRACE_WIDTH,
        nxt.len() == TRACE_WIDTH,
        all_canonical(cur),
        all_canonical(nxt),
        constraint_spec(83, cur, nxt, per) == 0,
    ensures
        cur[28] == sub_spec(cur[26], cur[33]),
{
    lemma_residuals_len_0(cur, nxt, per);
    lemma_residuals_len_1(cur, nxt, per);
    lemma_residuals_len_2(cur, nxt, per);
    lemma_residuals_len_3(cur, nxt, per);
    lemma_residuals_len_4(cur, nxt, per);
    lemma_residuals_len_5(cur, nxt, per);
    lemma_residuals_len_6(cur, nxt, per);
    assert(constraint_spec(83, cur, nxt, per) == residuals_4(cur, nxt, per)[11]);
    reveal(residuals_4);
    lemma_reduce_canonical(cur[26] - cur[33]);
    lemma_equal(cur[28], sub_spec(cur[26], cur[33]));
}

#[verifier::spinoff_prover]
#[verifier::rlimit(100)]
proof fn lemma_accepted_constraint_84(cur: Seq<u64>, nxt: Seq<u64>, per: Seq<u64>)
    requires
        cur.len() == TRACE_WIDTH,
        nxt.len() == TRACE_WIDTH,
        all_canonical(cur),
        all_canonical(nxt),
        constraint_spec(84, cur, nxt, per) == 0,
    ensures
        cur[32] == add_spec(cur[30], cur[33]),
{
    lemma_residuals_len_0(cur, nxt, per);
    lemma_residuals_len_1(cur, nxt, per);
    lemma_residuals_len_2(cur, nxt, per);
    lemma_residuals_len_3(cur, nxt, per);
    lemma_residuals_len_4(cur, nxt, per);
    lemma_residuals_len_5(cur, nxt, per);
    lemma_residuals_len_6(cur, nxt, per);
    assert(constraint_spec(84, cur, nxt, per) == residuals_5(cur, nxt, per)[0]);
    reveal(residuals_5);
    lemma_reduce_canonical(cur[30] + cur[33]);
    lemma_equal(cur[32], add_spec(cur[30], cur[33]));
}

/// What the range-check constraints of one accepted step say: on the
/// first row of a segment the accumulator is zero, inside a segment the
/// next accumulator doubles it and adds the next bit, on the row before a
/// segment ends its accumulator is the value checked there, the
/// new balances are the debit and the credit, and the balances, amount
/// and limit keep their values.
pub open spec fn range_step_facts(cur: Seq<u64>, nxt: Seq<u64>, per: Seq<u64>) -> bool {
    &&& cur[39] <= 1
    &&& per[34] == 1 ==> cur[40] == 0
    &&& per[35] == 1 ==> nxt[40] == add_spec(add_spec(cur[40], cur[40]), nxt[39])
    &&& per[36] == 1 ==> nxt[40] == cur[26]
    &&& per[37] == 1 ==> nxt[40] == cur[30]
    &&& per[38] == 1 ==> nxt[40] == cur[33]
    &&& per[39] == 1 ==> nxt[40] == cur[34]
    &&& per[40] == 1 ==> nxt[40] == cur[28]
    &&& per[41] == 1 ==> nxt[40] == sub_spec(cur[34], cur[33])
    &&& per[42] == 1 ==> nxt[40] == cur[32]
    &&& nxt[26] == cur[26]
    &&& nxt[28] == cur[28]
    &&& nxt[30] == cur[30]
    &&& nxt[32] == cur[32]
    &&& nxt[33] == cur[33]
    &&& nxt[34] == cur[34]
    &&& cur[28] == sub_spec(cur[26], cur[33])
    &&& cur[32] == add_spec(cur[30], cur[33])
}

#[verifier::spinoff_prover]
#[verifier::rlimit(100)]
proof fn lemma_accepted_range_step(cur: Seq<u64>, nxt: Seq<u64>, per: Seq<u64>)
    requires
        cur.len() == TRACE_WIDTH,
        nxt.len() == TRACE_WIDTH,
        all_canonical(cur),
        all_canonical(nxt),
        forall|k: int| 0 <= k < NUM_CONSTRAINTS ==> #[trigger] constraint_spec(k, cur, nxt, per) == 0,
    ensures
        range_step_facts(cur, nxt, per),
{

    lemma_accepted_constraint_101(cur, nxt, per);
    lemma_accepted_constraint_104(cur, nxt, per);
    lemma_accepted_constraint_105(cur, nxt, per);
    lemma_accepted_constraint_106(cur, nxt, per);
    lemma_accepted_constraint_107(cur, nxt, per);
    lemma_accepted_constraint_108(cur, nxt, per);
    lemma_accepted_constraint_109(cur, nxt, per);
    lemma_accepted_constraint_110(cur, nxt, per);
    lemma_accepted_constraint_111(cur, nxt, per);
    lemma_accepted_constraint_112(cur, nxt, per);
    lemma_accepted_constraint_86(cur, nxt, per);
    lemma_accepted_constraint_88(cur, nxt, per);
    lemma_accepted_constraint_90(cur, nxt, per);
    lemma_accepted_constraint_92(cur, nxt, per);
    lemma_accepted_constraint_93(cur, nxt, per);
    lemma_accepted_constraint_94(cur, nxt, per);
    lemma_accepted_constraint_83(cur, nxt, per);
    lemma_accepted_constraint_84(cur, nxt, per);


}

/// The range-check segment starting on row `s` of an accepted trace ends
/// on a value below `2^63`.
#[verifier::spinoff_prover]
#[verifier::rlimit(100)]
proof fn lemma_accepted_range_segment(t: Seq<Vec<u64>>, s: int)
    requires
        t.len() == TRACE_WIDTH,
        columns_shape(t, TRACE_LENGTH as nat),
        forall|r: int| #![trigger periodic_row(r)] 0 <= r < TRACE_LENGTH - 1 ==> range_step_facts(row_of(t, r), row_of(t, r + 1), periodic_row(r)),
        s == 0 || s == 64 || s == 128 || s == 192 || s == 256 || s == 320 || s == 384,
        s + 64 < TRACE_LENGTH,
    ensures
        t[40][s + 63] < 0x8000_0000_0000_0000,
{
    let bits = t[39]@;
    let accs = t[40]@;
    let firsts: Seq<usize> = seq![0usize, 64, 128, 192, 256, 320, 384];
    assert(firsts[s / 64] == s);
    assert(range_step_facts(row_of(t, s), row_of(t, s + 1), periodic_row(s)));
    assert(periodic_row(s)[34] == periodic_spec(34, s));
    assert(periodic_row(s)[34] == 1);
    assert(row_of(t, s)[40] == accs[s]);
    assert forall|i: int| s <= i < s + 63 implies #[trigger] accs[i + 1] == add_spec(add_spec(accs[i], accs[i]), bits[i + 1]) by {
        assert(range_step_facts(row_of(t, i), row_of(t, i + 1), periodic_row(i)));
        assert(i % 64 != 63);
        assert(periodic_row(i)[35] == periodic_spec(35, i));
        assert(periodic_row(i)[35] == 1);
        assert(row_of(t, i)[40] == accs[i]);
        assert(row_of(t, i + 1)[40] == accs[i + 1]);
        assert(row_of(t, i + 1)[39] == bits[i + 1]);
    }
    assert forall|i: int| s <= i < s + 64 implies #[trigger] bits[i] <= 1 by {
        assert(range_step_facts(row_of(t, i), row_of(t, i + 1), periodic_row(i)));
        assert(row_of(t, i)[39] == bits[i]);
    }
    lemma_accepted_segment(bits, accs, s);
}

/// What an accepted double-entry trace proves. Take any trace whose every
/// step satisfies every transition constraint with the periodic values of
/// `periodic_columns` (the field is prime, so `b * (b - 1) = 0` makes each
/// range-check cell a bit). Its seven range-check segments end on the
/// sender's balance, the receiver's balance, the amount, the limit, the
/// sender's new balance (`balance - amount` in the field), `limit - amount`
/// and the receiver's new balance of its first row, each below `2^63`. So
/// the amount is at most the sender's balance and at most the regulatory
/// limit, for every amount up to `p - 2^63`: an overdraft has no accepted
/// trace.
#[verifier::spinoff_prover]
#[verifier::rlimit(100)]
pub proof fn lemma_accepted_transfer_is_covered(t: Seq<Vec<u64>>)
    requires
        t.len() == TRACE_WIDTH,
        columns_shape(t, TRACE_LENGTH as nat),
        forall|r: int, k: int|
            0 <= r < TRACE_LENGTH - 1 && 0 <= k < NUM_CONSTRAINTS ==> #[trigger] constraint_spec(
                k,
                row_of(t, r),
                row_of(t, r + 1),
                periodic_row(r),
            ) == 0,
    ensures
        t[40][63] == t[26][0],
        t[40][127] == t[30][0],
        t[40][191] == t[33][0],
        t[40][255] == t[34][0],
        t[40][319] == t[28][0],
        t[40][383] == sub_spec(t[34][0], t[33][0]),
        t[40][447] == t[32][0],
        t[28][0] == sub_spec(t[26][0], t[33][0]),
        t[32][0] == add_spec(t[30][0], t[33][0]),
        t[26][0] < 0x8000_0000_0000_0000,
        t[30][0] < 0x8000_0000_0000_0000,
        t[33][0] < 0x8000_0000_0000_0000,
        t[34][0] < 0x8000_0000_0000_0000,
        t[28][0] < 0x8000_0000_0000_0000,
        sub_spec(t[34][0], t[33][0]) < 0x8000_0000_0000_0000,
        t[32][0] < 0x8000_0000_0000_0000,
        t[33][0] <= MODULUS - 0x8000_0000_0000_0000 ==> t[33][0] <= t[26][0] && t[33][0] <= t[34][0],
{
    assert forall|r: int| #![trigger periodic_row(r)] 0 <= r < TRACE_LENGTH - 1 implies range_step_facts(row_of(t, r), row_of(t, r + 1), periodic_row(r)) by {
        let cur = row_of(t, r);
        let nxt = row_of(t, r + 1);
        assert forall|k: int| 0 <= k < NUM_CONSTRAINTS implies #[trigger] constraint_spec(k, cur, nxt, periodic_row(r)) == 0 by {
            assert(constraint_spec(k, row_of(t, r), row_of(t, r + 1), periodic_row(r)) == 0);
        }
        assert forall|c: int| 0 <= c < TRACE_WIDTH implies #[trigger] cur[c] < MODULUS && nxt[c] < MODULUS by {
            assert(all_canonical(t[c]@));
        }
        lemma_accepted_range_step(cur, nxt, periodic_row(r));
    }
    assert forall|q: int| 0 <= q < 447 implies #[trigger] t[26]@[q + 1] == t[26]@[q] by {
        assert(range_step_facts(row_of(t, q), row_of(t, q + 1), periodic_row(q)));
    }
    lemma_column_kept(t[26]@, 446);
    assert forall|q: int| 0 <= q < 447 implies #[trigger] t[28]@[q + 1] == t[28]@[q] by {
        assert(range_step_facts(row_of(t, q), row_of(t, q + 1), periodic_row(q)));
    }
    lemma_column_kept(t[28]@, 446);
    assert forall|q: int| 0 <= q < 447 implies #[trigger] t[30]@[q + 1] == t[30]@[q] by {
        assert(range_step_facts(row_of(t, q), row_of(t, q + 1), periodic_row(q)));
    }
    lemma_column_kept(t[30]@, 446);
    assert forall|q: int| 0 <= q < 447 implies #[trigger] t[32]@[q + 1] == t[32]@[q] by {
        assert(range_step_facts(row_of(t, q), row_of(t, q + 1), periodic_row(q)));
    }
    lemma_column_kept(t[32]@, 446);
    assert forall|q: int| 0 <= q < 447 implies #[trigger] t[33]@[q + 1] == t[33]@[q] by {
        assert(range_step_facts(row_of(t, q), row_of(t, q + 1), periodic_row(q)));
    }
    lemma_column_kept(t[33]@, 446);
    assert forall|q: int| 0 <= q < 447 implies #[trigger] t[34]@[q + 1] == t[34]@[q] by {
        assert(range_step_facts(row_of(t, q), row_of(t, q + 1), periodic_row(q)));
    }
    lemma_column_kept(t[34]@, 446);
    assert(periodic_row(62)[36] == 1) by {
        let one: Seq<usize> = seq![(64 * (36 - 35) - 2) as usize];
        assert(one[0] == 62);
        assert(periodic_row(62)[36] == selector_spec(one, 62));
    }
    assert(range_step_facts(row_of(t, 62), row_of(t, 63), periodic_row(62)));
    assert(periodic_row(126)[37] == 1) by {
        let one: Seq<usize> = seq![(64 * (37 - 35) - 2) as usize];
        assert(one[0] == 126);
        assert(periodic_row(126)[37] == selector_spec(one, 126));
    }
    assert(range_step_facts(row_of(t, 126), row_of(t, 127), periodic_row(126)));
    assert(periodic_row(190)[38] == 1) by {
        let one: Seq<usize> = seq![(64 * (38 - 35) - 2) as usize];
        assert(one[0] == 190);
        assert(periodic_row(190)[38] == selector_spec(one, 190));
    }
    assert(range_step_facts(row_of(t, 190), row_of(t, 191), periodic_row(190)));
    assert(periodic_row(254)[39] == 1) by {
        let one: Seq<usize> = seq![(64 * (39 - 35) - 2) as usize];
        assert(one[0] == 254);
        assert(periodic_row(254)[39] == selector_spec(one, 254));
    }
    assert(range_step_facts(row_of(t, 254), row_of(t, 255), periodic_row(254)));
    assert(periodic_row(318)[40] == 1) by {
        let one: Seq<usize> = seq![(64 * (40 - 35) - 2) as usize];
        assert(one[0] == 318);
        assert(periodic_row(318)[40] == selector_spec(one, 318));
    }
    assert(range_step_facts(row_of(t, 318), row_of(t, 319), periodic_row(318)));
    assert(periodic_row(382)[41] == 1) by {
        let one: Seq<usize> = seq![(64 * (41 - 35) - 2) as usize];
        assert(one[0] == 382);
        assert(periodic_row(382)[41] == selector_spec(one, 382));
    }
    assert(range_step_facts(row_of(t, 382), row_of(t, 383), periodic_row(382)));
    assert(periodic_row(446)[42] == 1) by {
        let one: Seq<usize> = seq![(64 * (42 - 35) - 2) as usize];
        assert(one[0] == 446);
        assert(periodic_row(446)[42] == selector_spec(one, 446));
    }
    assert(range_step_facts(row_of(t, 446), row_of(t, 447), periodic_row(446)));
    lemma_accepted_range_segment(t, 0);
    lemma_accepted_range_segment(t, 64);
    lemma_accepted_range_segment(t, 128);
    lemma_accepted_range_segment(t, 192);
    lemma_accepted_range_segment(t, 256);
    lemma_accepted_range_segment(t, 320);
    lemma_accepted_range_segment(t, 384);
    assert(range_step_facts(row_of(t, 0), row_of(t, 1), periodic_row(0)));
    assert(t[26]@[62] == t[26]@[0] && t[30]@[126] == t[30]@[0] && t[33]@[190] == t[33]@[0]);
    assert(t[34]@[254] == t[34]@[0] && t[28]@[318] == t[28]@[0] && t[34]@[382] == t[34]@[0]);
    assert(t[33]@[382] == t[33]@[0] && t[32]@[446] == t[32]@[0]);
    assert(all_canonical(t[26]@) && all_canonical(t[34]@));
    if t[33][0] <= MODULUS - 0x8000_0000_0000_0000 {
        lemma_checked_difference(t[26][0], t[33][0]);
        lemma_checked_difference(t[34][0], t[33][0]);
    }
}

} // verus!
