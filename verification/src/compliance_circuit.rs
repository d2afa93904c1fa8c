//! The compliance circuit in one trace: solvency (`amount <= balance`,
//! `amount <= limit`), membership of the account leaf in the state tree,
//! and the nullifier of the account.
//!
//! Columns: 0..12 the hash lane, 12 the direction bit of the tree level,
//! 13..15 the range-check bit and accumulator, 15..20 the values carried
//! unchanged through the whole trace.

use vstd::prelude::*;
use crate::domains::NULLIFIER_DOMAIN;
use crate::constraints::{lemma_equal, lemma_reduce_canonical, lemma_selected, lemma_selected_equal, rounds_hold, round_residuals, round_residuals_spec};
use crate::field::{MODULUS, add_spec, all_canonical, fadd, felt, fmul, fsub, mul_spec, reduce, sub_spec};
use crate::lane::{cycle_digest, cycle_start, is_lane, lane_state, link_start, run_lane, Link, links_canonical, CYCLE_LENGTH};
use crate::merkle::{climb_levels, climb_spec, climb_step, lemma_lane_climb, links_climb, place_state, sibling_seqs, siblings_canonical, MerklePath};
use crate::prime::lemma_field_bit;
use crate::rescue::{as_digest, as_digest_spec, digest_of, lemma_digest_row, merge_spec, merge_state, native_merge, rounds, Digest};
use crate::solvency::{lemma_accepted_segment, lemma_checked_difference, seg_acc, seg_bit, segment_columns};
use crate::trace::{lemma_column_kept, row_of, columns_shape, constant_column, cycle_bit_column, cycle_bit_spec, lane_columns};
use crate::boundary::{push_run, run};
use crate::periodic::{ark_spec, continue_column, continue_spec, hash_flag_spec, round_columns, selector_column, selector_spec};

verus! {

pub const TREE_DEPTH: usize = 32;
/// Hash cycles: 2 (leaf) + 32 (tree) + 2 (nullifier).
pub const HASH_CYCLES: usize = 36;
/// Active rows of the hash lane.
pub const HASH_ROWS: usize = 288;
pub const TRACE_LENGTH: usize = 512;
pub const SEGMENT_LENGTH: usize = 64;
pub const MAX_VALUE: u64 = 0x7FFF_FFFF_FFFF_FFFF;

pub const TRACE_WIDTH: usize = 20;
pub const COL_MBIT: usize = 12;
pub const COL_SBIT: usize = 13;
pub const COL_SACC: usize = 14;
pub const COL_ACCOUNT: usize = 15;
pub const COL_BAL: usize = 16;
pub const COL_AMT: usize = 17;
pub const COL_LIM: usize = 18;
pub const COL_NONCE: usize = 19;

pub const ROW_LEAF_LINK_1: usize = 7;
pub const ROW_ROOT: usize = 271;
pub const ROW_NULL_START: usize = 272;
pub const ROW_NULL_LINK: usize = 279;
pub const ROW_NULLIFIER: usize = 287;

/// `Rescue(Rescue(account, balance), nonce)`.
pub open spec fn leaf_spec(account_id: u64, balance: u64, nonce: u64) -> Seq<u64> {
    merge_spec(merge_spec(as_digest_spec(account_id), as_digest_spec(balance)), as_digest_spec(nonce))
}

/// `Rescue(Rescue(NULLIFIER_DOMAIN, account), nonce)`.
pub open spec fn nullifier_spec(account_id: u64, nonce: u64) -> Seq<u64> {
    merge_spec(
        merge_spec(as_digest_spec(NULLIFIER_DOMAIN), as_digest_spec(account_id)),
        as_digest_spec(nonce),
    )
}

/// The root reached from `leaf` along the 32 levels of `path`.
pub open spec fn root_spec(leaf: Seq<u64>, path: MerklePath) -> Seq<u64> {
    climb_spec(leaf, sibling_seqs(path.siblings@), path.is_right@, TREE_DEPTH as nat)
}

pub open spec fn path_ok(path: MerklePath) -> bool {
    &&& path.siblings.len() == TREE_DEPTH
    &&& path.is_right.len() == TREE_DEPTH
    &&& siblings_canonical(path.siblings@)
}

/// Native leaf: `Rescue(Rescue(account, balance), nonce)`.
pub fn native_leaf(account_id: u64, balance: u64, nonce: u64) -> (r: Digest)
    requires
        account_id < MODULUS,
        balance < MODULUS,
        nonce < MODULUS,
    ensures
        r@ == leaf_spec(account_id, balance, nonce),
        all_canonical(r@),
{
    let inner = native_merge(&as_digest(account_id), &as_digest(balance));
    native_merge(&inner, &as_digest(nonce))
}

/// Native nullifier: `Rescue(Rescue(NULLIFIER_DOMAIN, account), nonce)`.
pub fn native_nullifier(account_id: u64, nonce: u64) -> (r: Digest)
    requires
        account_id < MODULUS,
        nonce < MODULUS,
    ensures
        r@ == nullifier_spec(account_id, nonce),
        all_canonical(r@),
{
    let domain = as_digest(NULLIFIER_DOMAIN);
    let inner = native_merge(&domain, &as_digest(account_id));
    native_merge(&inner, &as_digest(nonce))
}

/// Native root, climbing the path from the leaf.
pub fn native_root(leaf: &Digest, path: &MerklePath) -> (r: Digest)
    requires
        all_canonical(leaf@),
        siblings_canonical(path.siblings@),
        path.siblings.len() >= TREE_DEPTH,
        path.is_right.len() >= TREE_DEPTH,
    ensures
        r@ == climb_spec(leaf@, sibling_seqs(path.siblings@), path.is_right@, TREE_DEPTH as nat),
        all_canonical(r@),
{
    climb_levels(leaf, &path.siblings, &path.is_right, TREE_DEPTH)
}

/// The start state of hash cycle `c`: the inner leaf, the leaf, the 32
/// tree levels, the inner nullifier and the nullifier.
pub open spec fn cycle_start_spec(account_id: u64, balance: u64, nonce: u64, path: MerklePath, c: int) -> Seq<u64> {
    let leaf = leaf_spec(account_id, balance, nonce);
    let sibs = sibling_seqs(path.siblings@);
    if c == 0 {
        merge_state(as_digest_spec(account_id), as_digest_spec(balance))
    } else if c == 1 {
        merge_state(merge_spec(as_digest_spec(account_id), as_digest_spec(balance)), as_digest_spec(nonce))
    } else if 2 <= c < 34 {
        place_state(climb_spec(leaf, sibs, path.is_right@, (c - 2) as nat), sibs[c - 2], path.is_right@[c - 2])
    } else if c == 34 {
        merge_state(as_digest_spec(NULLIFIER_DOMAIN), as_digest_spec(account_id))
    } else {
        merge_state(
            merge_spec(as_digest_spec(NULLIFIER_DOMAIN), as_digest_spec(account_id)),
            as_digest_spec(nonce),
        )
    }
}

/// The value of the trace at column `col` and row `r`.
pub open spec fn cell_spec(
    account_id: u64,
    balance: u64,
    nonce: u64,
    amount: u64,
    limit: u64,
    path: MerklePath,
    col: int,
    r: int,
) -> u64 {
    let bal = reduce(balance as int);
    let amt = reduce(amount as int);
    let lim = reduce(limit as int);
    let segs = seq![balance, amount, sub_spec(bal, amt), sub_spec(lim, amt)];
    if col < 12 {
        if r < HASH_ROWS {
            rounds(cycle_start_spec(account_id, bal, nonce, path, r / 8), (r % 8) as nat)[col]
        } else {
            0
        }
    } else if col == COL_MBIT {
        cycle_bit_spec(path.is_right@, 2, r)
    } else if col == COL_SBIT {
        if r < 256 {
            seg_bit(segs[r / 64], 64, (r % 64) as nat)
        } else {
            0
        }
    } else if col == COL_SACC {
        if r < 256 {
            reduce(seg_acc(segs[r / 64], 64, (r % 64) as nat) as int)
        } else {
            0
        }
    } else if col == COL_ACCOUNT {
        account_id
    } else if col == COL_BAL {
        bal
    } else if col == COL_AMT {
        amt
    } else if col == COL_LIM {
        lim
    } else {
        nonce
    }
}

proof fn lemma_lane_matches(
    account_id: u64,
    balance: u64,
    nonce: u64,
    path: MerklePath,
    s0: Seq<u64>,
    links: Seq<Link>,
    c: nat,
)
    requires
        c < HASH_CYCLES,
        links.len() == HASH_CYCLES - 1,
        s0 == merge_state(as_digest_spec(account_id), as_digest_spec(balance)),
        forall|d: Seq<u64>| #[trigger] link_start(links[0], d) == merge_state(d, as_digest_spec(nonce)),
        links_climb(links, 1, sibling_seqs(path.siblings@), path.is_right@, TREE_DEPTH as nat),
        forall|d: Seq<u64>|
            #[trigger] link_start(links[33], d) == merge_state(
                as_digest_spec(NULLIFIER_DOMAIN),
                as_digest_spec(account_id),
            ),
        forall|d: Seq<u64>| #[trigger] link_start(links[34], d) == merge_state(d, as_digest_spec(nonce)),
    ensures
        cycle_start(s0, links, c) == cycle_start_spec(account_id, balance, nonce, path, c as int),
    decreases c,
{
    let sibs = sibling_seqs(path.siblings@);
    let bits = path.is_right@;
    if c == 0 {
    } else if c == 1 {
        assert(cycle_start(s0, links, 1) == link_start(links[0], digest_of(cycle_start(s0, links, 0))));
    } else if 2 <= c < 34 {
        lemma_lane_matches(account_id, balance, nonce, path, s0, links, 1);
        assert(cycle_digest(s0, links, 1) == leaf_spec(account_id, balance, nonce));
        lemma_lane_climb(s0, links, 1, sibs, bits, TREE_DEPTH as nat, (c - 2) as nat);
    } else if c == 34 {
        assert(cycle_start(s0, links, 34) == link_start(links[33], digest_of(cycle_start(s0, links, 33))));
    } else {
        lemma_lane_matches(account_id, balance, nonce, path, s0, links, 34);
        assert(cycle_start(s0, links, 35) == link_start(links[34], digest_of(cycle_start(s0, links, 34))));
    }
}

/// The hash lane of the circuit.
fn compliance_lane(account_id: u64, bal: u64, nonce: u64, path: &MerklePath) -> (lane: Vec<[u64; 12]>)
    requires
        account_id < MODULUS,
        bal < MODULUS,
        nonce < MODULUS,
        path_ok(*path),
    ensures
        lane.len() == HASH_ROWS,
        forall|r: int| 0 <= r < lane.len() ==> all_canonical(#[trigger] lane[r]@),
        forall|c: nat, k: nat|
            c < HASH_CYCLES && k < CYCLE_LENGTH ==> #[trigger] lane[(CYCLE_LENGTH * c + k) as int]@ == rounds(
                cycle_start_spec(account_id, bal, nonce, *path, c as int),
                k,
            ),
        forall|c: nat| c < HASH_CYCLES ==> #[trigger] rounds_hold(cycle_start_spec(account_id, bal, nonce, *path, c as int)),
{
    let s0: [u64; 12] = [0, 0, 0, 0, account_id, 0, 0, 0, bal, 0, 0, 0];
    assert(s0@ =~= merge_state(as_digest_spec(account_id), as_digest_spec(bal)));
    let mut links: Vec<Link> = Vec::new();
    links.push(Link::Place { other: as_digest(nonce), right: false });
    let mut level: usize = 0;
    while level < TREE_DEPTH
        invariant
            level <= TREE_DEPTH,
            path_ok(*path),
            nonce < MODULUS,
            links.len() == 1 + level,
            links_canonical(links@),
            forall|d: Seq<u64>| #[trigger] link_start(links@[0], d) == merge_state(d, as_digest_spec(nonce)),
            links_climb(links@, 1, sibling_seqs(path.siblings@), path.is_right@, level as nat),
        decreases TREE_DEPTH - level,
    {
        let ghost before = links@;
        links.push(Link::Place { other: path.siblings[level], right: path.is_right[level] });
        assert(all_canonical(path.siblings@[level as int]@));
        assert forall|i: nat, d: Seq<u64>|
            i < level + 1 implies #[trigger] link_start(links@[(1 + i) as int], d) == place_state(
            d,
            sibling_seqs(path.siblings@)[i as int],
            path.is_right@[i as int],
        ) by {
            if i < level {
                assert(links@[(1 + i) as int] == before[(1 + i) as int]);
            }
        }
        assert(links@[0] == before[0]);
        level = level + 1;
    }
    let ghost climbed = links@;
    links.push(Link::Fresh { state: [0, 0, 0, 0, NULLIFIER_DOMAIN, 0, 0, 0, account_id, 0, 0, 0] });
    links.push(Link::Place { other: as_digest(nonce), right: false });
    proof {
        assert(links@[0] == climbed[0]);
        assert forall|i: nat, d: Seq<u64>|
            i < TREE_DEPTH implies #[trigger] link_start(links@[(1 + i) as int], d) == place_state(
            d,
            sibling_seqs(path.siblings@)[i as int],
            path.is_right@[i as int],
        ) by {
            assert(links@[(1 + i) as int] == climbed[(1 + i) as int]);
        }
        assert forall|d: Seq<u64>| #[trigger] link_start(links@[33], d) == merge_state(
            as_digest_spec(NULLIFIER_DOMAIN),
            as_digest_spec(account_id),
        ) by {
            assert(link_start(links@[33], d) =~= merge_state(
                as_digest_spec(NULLIFIER_DOMAIN),
                as_digest_spec(account_id),
            ));
        }
        assert(links_canonical(links@)) by {
            assert forall|i: int| 0 <= i < links@.len() implies #[trigger] crate::lane::link_canonical(links@[i]) by {
                if i < 33 {
                    assert(links@[i] == climbed[i]);
                }
            }
        }
    }
    let lane = run_lane(&s0, &links);
    proof {
        assert forall|c: nat, k: nat|
            c < HASH_CYCLES && k < CYCLE_LENGTH implies #[trigger] lane@[(CYCLE_LENGTH * c + k) as int]@ == rounds(
            cycle_start_spec(account_id, bal, nonce, *path, c as int),
            k,
        ) by {
            lemma_lane_matches(account_id, bal, nonce, *path, s0@, links@, c);
        }
        assert forall|c: nat| c < HASH_CYCLES implies #[trigger] rounds_hold(cycle_start_spec(account_id, bal, nonce, *path, c as int)) by {
            lemma_lane_matches(account_id, bal, nonce, *path, s0@, links@, c);
            assert(lane@[(CYCLE_LENGTH * c + 0) as int]@ == rounds(cycle_start_spec(account_id, bal, nonce, *path, c as int), 0));
            assert(lane@[(CYCLE_LENGTH * c + 0) as int]@ == lane_state(s0@, links@, c, 0));
            assert(rounds_hold(cycle_start(s0@, links@, c)));
        }
    }
    lane
}

/// Builds the full trace, column by column. It does not check the inputs:
/// a trace for an insolvent or over-limit transfer is built just the same,
/// and the circuit's constraints are what reject it.
pub fn build_trace(
    account_id: u64,
    balance: u64,
    nonce: u64,
    amount: u64,
    limit: u64,
    path: &MerklePath,
) -> (cols: Vec<Vec<u64>>)
    requires
        account_id < MODULUS,
        nonce < MODULUS,
        path_ok(*path),
    ensures
        cols.len() == TRACE_WIDTH,
        columns_shape(cols@, TRACE_LENGTH as nat),
        forall|col: int, r: int|
            0 <= col < TRACE_WIDTH && 0 <= r < TRACE_LENGTH ==> #[trigger] cols[col][r] == cell_spec(
                account_id,
                balance,
                nonce,
                amount,
                limit,
                *path,
                col,
                r,
            ),
        forall|r: int, k: int|
            0 <= r < TRACE_LENGTH - 1 && 0 <= k < 12 ==> #[trigger] constraint_spec(
                k,
                row_of(cols@, r),
                row_of(cols@, r + 1),
                periodic_row(r),
            ) == 0,
        within_limits(balance, amount, limit) ==> forall|r: int, k: int|
            0 <= r < TRACE_LENGTH - 1 && 0 <= k < NUM_CONSTRAINTS ==> #[trigger] constraint_spec(
                k,
                row_of(cols@, r),
                row_of(cols@, r + 1),
                periodic_row(r),
            ) == 0,
{
    let c_bal = felt(balance);
    let c_amt = felt(amount);
    let c_lim = felt(limit);
    let diff_bal = fsub(c_bal, c_amt);
    let diff_lim = fsub(c_lim, c_amt);
    let segment_values: Vec<u64> = vec![balance, amount, diff_bal, diff_lim];
    let ghost segs = seq![balance, amount, sub_spec(c_bal, c_amt), sub_spec(c_lim, c_amt)];
    assert(segment_values@ =~= segs);

    let lane = compliance_lane(account_id, c_bal, nonce, path);
    let mut cols = lane_columns(&lane, TRACE_LENGTH);
    cols.push(cycle_bit_column(&path.is_right, 2, TRACE_LENGTH));
    let (bit_col, acc_col) = segment_columns(&segment_values, SEGMENT_LENGTH, TRACE_LENGTH);
    cols.push(bit_col);
    cols.push(acc_col);
    cols.push(constant_column(account_id, TRACE_LENGTH));
    cols.push(constant_column(c_bal, TRACE_LENGTH));
    cols.push(constant_column(c_amt, TRACE_LENGTH));
    cols.push(constant_column(c_lim, TRACE_LENGTH));
    cols.push(constant_column(nonce, TRACE_LENGTH));
    proof {
        assert forall|col: int, r: int|
            0 <= col < TRACE_WIDTH && 0 <= r < TRACE_LENGTH implies #[trigger] cols[col][r] == cell_spec(
            account_id,
            balance,
            nonce,
            amount,
            limit,
            *path,
            col,
            r,
        ) by {
            if col < 12 && r < HASH_ROWS {
                let c = r / 8;
                let k = r % 8;
                assert(r == CYCLE_LENGTH * (c as nat) + (k as nat));
                assert(lane@[(CYCLE_LENGTH * (c as nat) + (k as nat)) as int]@ == rounds(
                    cycle_start_spec(account_id, c_bal, nonce, *path, c),
                    k as nat,
                ));
            } else if (col == COL_SBIT || col == COL_SACC) && r < 256 {
                let s = r / 64;
                let p = r % 64;
                assert(r == s * 64 + p);
            }
        }
    }
    proof {
        assert forall|r: int, k: int|
            0 <= r < TRACE_LENGTH - 1 && 0 <= k < 12 implies #[trigger] constraint_spec(
            k,
            row_of(cols@, r),
            row_of(cols@, r + 1),
            periodic_row(r),
        ) == 0 by {
            lemma_trace_satisfies_round_constraints(account_id, balance, nonce, amount, limit, *path, cols@, r);
        }
        if within_limits(balance, amount, limit) {
            assert forall|r: int, k: int|
                0 <= r < TRACE_LENGTH - 1 && 0 <= k < NUM_CONSTRAINTS implies #[trigger] constraint_spec(
                k,
                row_of(cols@, r),
                row_of(cols@, r + 1),
                periodic_row(r),
            ) == 0 by {
                lemma_trace_satisfies_constraints(account_id, balance, nonce, amount, limit, *path, cols@, r);
            }
        }
    }
    cols
}

/// Where the trace shows the native computations: the leaf at row 15, the
/// root at row 271, the nullifier at row 287, the balance and the amount
/// at the ends of their range-check segments, the limit in its column.
pub proof fn lemma_trace_landmarks(
    account_id: u64,
    balance: u64,
    nonce: u64,
    amount: u64,
    limit: u64,
    path: MerklePath,
)
    requires
        path_ok(path),
    ensures
        forall|i: int|
            0 <= i < 4 ==> #[trigger] cell_spec(account_id, balance, nonce, amount, limit, path, 4 + i, 15)
                == leaf_spec(account_id, reduce(balance as int), nonce)[i],
        forall|i: int|
            0 <= i < 4 ==> #[trigger] cell_spec(account_id, balance, nonce, amount, limit, path, 4 + i, ROW_ROOT as int)
                == root_spec(leaf_spec(account_id, reduce(balance as int), nonce), path)[i],
        forall|i: int|
            0 <= i < 4 ==> #[trigger] cell_spec(
                account_id,
                balance,
                nonce,
                amount,
                limit,
                path,
                4 + i,
                ROW_NULLIFIER as int,
            ) == nullifier_spec(account_id, nonce)[i],
        cell_spec(account_id, balance, nonce, amount, limit, path, COL_SACC as int, 63) == reduce(balance as int),
        cell_spec(account_id, balance, nonce, amount, limit, path, COL_SACC as int, 127) == reduce(amount as int),
        cell_spec(account_id, balance, nonce, amount, limit, path, COL_LIM as int, 0) == reduce(limit as int),
{
    let bal = reduce(balance as int);
    let leaf = leaf_spec(account_id, bal, nonce);
    let sibs = sibling_seqs(path.siblings@);
    assert(15int / 8 == 1 && 15int % 8 == 7);
    assert forall|i: int|
        0 <= i < 4 implies #[trigger] cell_spec(account_id, balance, nonce, amount, limit, path, 4 + i, 15)
            == leaf_spec(account_id, bal, nonce)[i] by {
        let st = cycle_start_spec(account_id, bal, nonce, path, 1);
        assert(rounds(st, 7) == crate::rescue::permutation(st));
    }
    assert forall|i: int|
        0 <= i < 4 implies #[trigger] cell_spec(account_id, balance, nonce, amount, limit, path, 4 + i, ROW_ROOT as int)
            == root_spec(leaf, path)[i] by {
        let st = cycle_start_spec(account_id, bal, nonce, path, 33);
        assert(rounds(st, 7) == crate::rescue::permutation(st));
        assert(climb_spec(leaf, sibs, path.is_right@, 32) == climb_step(
            climb_spec(leaf, sibs, path.is_right@, 31),
            sibs[31],
            path.is_right@[31],
        ));
    }
    assert(climb_spec(leaf, sibs, path.is_right@, 32) == climb_step(
        climb_spec(leaf, sibs, path.is_right@, 31),
        sibs[31],
        path.is_right@[31],
    ));
    assert((ROW_ROOT as int) / 8 == 33 && (ROW_ROOT as int) % 8 == 7);
    assert((ROW_NULLIFIER as int) / 8 == 35 && (ROW_NULLIFIER as int) % 8 == 7);
    assert(crate::solvency::low_bits(balance, 64) == balance);
    assert(crate::solvency::low_bits(amount, 64) == amount);
    assert((balance >> 0u64) == balance) by (bit_vector);
    assert((amount >> 0u64) == amount) by (bit_vector);
}

/// The public inputs: the state root, the regulatory limit, the nullifier.
#[derive(Clone, Debug)]
pub struct CompliancePublicInputs {
    pub state_root: Digest,
    pub regulatory_limit: u64,
    pub nullifier: Digest,
}

impl CompliancePublicInputs {
    /// Root, limit, nullifier, in that order.
    pub fn to_elements(&self) -> (r: Vec<u64>)
        ensures
            r@ == self.state_root@ + seq![self.regulatory_limit] + self.nullifier@,
    {
        let r = vec![
            self.state_root[0],
            self.state_root[1],
            self.state_root[2],
            self.state_root[3],
            self.regulatory_limit,
            self.nullifier[0],
            self.nullifier[1],
            self.nullifier[2],
            self.nullifier[3],
        ];
        assert(r@ =~= self.state_root@ + seq![self.regulatory_limit] + self.nullifier@);
        r
    }
}

/// The public inputs a trace shows: the root at row 271, the limit in its
/// column, the nullifier at row 287.
pub fn public_inputs_of(trace: &Vec<Vec<u64>>) -> (pi: CompliancePublicInputs)
    requires
        trace.len() == TRACE_WIDTH,
        columns_shape(trace@, TRACE_LENGTH as nat),
    ensures
        forall|i: int| 0 <= i < 4 ==> #[trigger] pi.state_root[i] == trace[4 + i][ROW_ROOT as int],
        pi.regulatory_limit == trace[COL_LIM as int][0],
        forall|i: int| 0 <= i < 4 ==> #[trigger] pi.nullifier[i] == trace[4 + i][ROW_NULLIFIER as int],
{
    CompliancePublicInputs {
        state_root: [trace[4][ROW_ROOT], trace[5][ROW_ROOT], trace[6][ROW_ROOT], trace[7][ROW_ROOT]],
        regulatory_limit: trace[COL_LIM][0],
        nullifier: [
            trace[4][ROW_NULLIFIER],
            trace[5][ROW_NULLIFIER],
            trace[6][ROW_NULLIFIER],
            trace[7][ROW_NULLIFIER],
        ],
    }
}

/// Rows of the tree-level links: the last row of cycles 1..33.
pub open spec fn merkle_link_rows() -> Seq<usize> {
    Seq::new(TREE_DEPTH as nat, |l: int| (8 * (2 + l) - 1) as usize)
}

/// The value of periodic column `j` at row `r`.
pub open spec fn periodic_spec(j: int, r: int) -> u64 {
    if j == 0 {
        hash_flag_spec(HASH_ROWS as int, r)
    } else if j < 13 {
        ark_spec(false, j - 1, HASH_ROWS as int, r)
    } else if j < 25 {
        ark_spec(true, j - 13, HASH_ROWS as int, r)
    } else if j == 25 {
        selector_spec(seq![ROW_LEAF_LINK_1, ROW_NULL_LINK], r)
    } else if j == 26 {
        selector_spec(merkle_link_rows(), r)
    } else if j == 27 {
        selector_spec(seq![ROW_ROOT], r)
    } else if j == 28 {
        selector_spec(seq![0usize], r)
    } else if j == 29 {
        selector_spec(seq![0usize, 64, 128, 192], r)
    } else if j == 30 {
        continue_spec(4, SEGMENT_LENGTH as int, r)
    } else {
        selector_spec(seq![(64 * (j - 30) - 2) as usize], r)
    }
}

/// The 35 periodic columns, each as long as the trace.
pub fn periodic_columns() -> (cols: Vec<Vec<u64>>)
    ensures
        cols.len() == 35,
        forall|j: int| 0 <= j < 35 ==> (#[trigger] cols[j]).len() == TRACE_LENGTH,
        forall|j: int, r: int| 0 <= j < 35 && 0 <= r < TRACE_LENGTH ==> #[trigger] cols[j][r] == periodic_spec(j, r),
        forall|j: int| 0 <= j < 35 ==> all_canonical(#[trigger] cols[j]@),
{
    let mut cols = round_columns(HASH_ROWS, TRACE_LENGTH);
    let ghost rounds = cols@;
    let link_left = vec![ROW_LEAF_LINK_1, ROW_NULL_LINK];
    assert(link_left@ =~= seq![ROW_LEAF_LINK_1, ROW_NULL_LINK]);
    cols.push(selector_column(&link_left, TRACE_LENGTH));
    let mut merkle_rows: Vec<usize> = Vec::new();
    let mut level: usize = 0;
    while level < TREE_DEPTH
        invariant
            level <= TREE_DEPTH,
            merkle_rows@ =~= merkle_link_rows().subrange(0, level as int),
        decreases TREE_DEPTH - level,
    {
        merkle_rows.push((2 + level) * CYCLE_LENGTH - 1);
        level = level + 1;
    }
    assert(merkle_rows@ =~= merkle_link_rows());
    cols.push(selector_column(&merkle_rows, TRACE_LENGTH));
    let root_rows = vec![ROW_ROOT];
    assert(root_rows@ =~= seq![ROW_ROOT]);
    cols.push(selector_column(&root_rows, TRACE_LENGTH));
    let first_rows = vec![0usize];
    assert(first_rows@ =~= seq![0usize]);
    cols.push(selector_column(&first_rows, TRACE_LENGTH));
    let seg_rows = vec![0usize, 64, 128, 192];
    assert(seg_rows@ =~= seq![0usize, 64, 128, 192]);
    cols.push(selector_column(&seg_rows, TRACE_LENGTH));
    cols.push(continue_column(4, SEGMENT_LENGTH, TRACE_LENGTH));
    let mut seg: usize = 0;
    while seg < 4
        invariant
            seg <= 4,
            cols.len() == 31 + seg,
            forall|j: int| 0 <= j < cols.len() ==> (#[trigger] cols[j]).len() == TRACE_LENGTH,
            forall|j: int, r: int|
                0 <= j < cols.len() && 0 <= r < TRACE_LENGTH ==> #[trigger] cols[j][r] == periodic_spec(j, r),
        decreases 4 - seg,
    {
        let row: usize = (seg + 1) * SEGMENT_LENGTH - 2;
        let rows = vec![row];
        assert(rows@ =~= seq![(64 * ((31 + seg) as int - 30) - 2) as usize]);
        cols.push(selector_column(&rows, TRACE_LENGTH));
        seg = seg + 1;
    }
    proof {
        assert forall|j: int| 0 <= j < 35 implies all_canonical(#[trigger] cols[j]@) by {
            assert forall|r: int| 0 <= r < cols[j]@.len() implies #[trigger] cols[j]@[r] < MODULUS by {
                if j < 25 {
                    assert(all_canonical(rounds[j]@));
                    assert(rounds[j][r] == cols[j][r]);
                } else {
                    assert(cols[j][r] == periodic_spec(j, r));
                }
            }
        }
    }
    cols
}


/// The 30 boundary assertions: capacity and padding on the first row, the
/// public root, the start of the nullifier with its domain anchored, the
/// public nullifier, and the public limit.
pub open spec fn assertions_spec(pi: CompliancePublicInputs) -> Seq<(usize, usize, u64)> {
    let z = seq![0u64, 0u64, 0u64, 0u64];
    run(4, 0, 0, z) + run(3, 5, 0, z) + run(3, 9, 0, z) + run(4, 4, ROW_ROOT, pi.state_root@)
        + run(4, 0, ROW_NULL_START, z) + run(1, 4, ROW_NULL_START, seq![NULLIFIER_DOMAIN])
        + run(3, 5, ROW_NULL_START, z) + run(3, 9, ROW_NULL_START, z) + run(4, 4, ROW_NULLIFIER, pi.nullifier@)
        + run(1, COL_LIM as int, 0, seq![pi.regulatory_limit])
}

/// The boundary assertions of a compliance proof.
pub fn assertions(pi: &CompliancePublicInputs) -> (a: Vec<(usize, usize, u64)>)
    ensures
        a@ == assertions_spec(*pi),
        a.len() == 30,
{
    let z = vec![0u64, 0, 0, 0];
    let root = vec![pi.state_root[0], pi.state_root[1], pi.state_root[2], pi.state_root[3]];
    let nullifier = vec![pi.nullifier[0], pi.nullifier[1], pi.nullifier[2], pi.nullifier[3]];
    let domain = vec![NULLIFIER_DOMAIN];
    let limit = vec![pi.regulatory_limit];
    assert(z@ =~= seq![0u64, 0u64, 0u64, 0u64]);
    assert(root@ =~= pi.state_root@);
    assert(nullifier@ =~= pi.nullifier@);
    assert(domain@ =~= seq![NULLIFIER_DOMAIN]);
    assert(limit@ =~= seq![pi.regulatory_limit]);
    let mut a: Vec<(usize, usize, u64)> = Vec::new();
    push_run(&mut a, 4, 0, 0, &z);
    push_run(&mut a, 3, 5, 0, &z);
    push_run(&mut a, 3, 9, 0, &z);
    push_run(&mut a, 4, 4, ROW_ROOT, &root);
    push_run(&mut a, 4, 0, ROW_NULL_START, &z);
    push_run(&mut a, 1, 4, ROW_NULL_START, &domain);
    push_run(&mut a, 3, 5, ROW_NULL_START, &z);
    push_run(&mut a, 3, 9, ROW_NULL_START, &z);
    push_run(&mut a, 4, 4, ROW_NULLIFIER, &nullifier);
    push_run(&mut a, 1, COL_LIM, 0, &limit);
    a
}


/// The number of transition constraints.
pub const NUM_CONSTRAINTS: usize = 50;

/// The residuals of constraints 12..=23.
#[verifier::opaque]
pub open spec fn residuals_0(cur: Seq<u64>, nxt: Seq<u64>, per: Seq<u64>) -> Seq<u64> {
    seq![
        mul_spec(per[25], nxt[0]),
        mul_spec(per[25], nxt[1]),
        mul_spec(per[25], nxt[2]),
        mul_spec(per[25], nxt[3]),
        mul_spec(per[25], sub_spec(nxt[4], cur[4])),
        mul_spec(per[25], sub_spec(nxt[5], cur[5])),
        mul_spec(per[25], sub_spec(nxt[6], cur[6])),
        mul_spec(per[25], sub_spec(nxt[7], cur[7])),
        mul_spec(per[25], sub_spec(nxt[8], cur[19])),
        mul_spec(per[25], nxt[9]),
        mul_spec(per[25], nxt[10]),
        mul_spec(per[25], nxt[11]),
    ]
}

fn residuals_0_eval(cur: &Vec<u64>, nxt: &Vec<u64>, per: &Vec<u64>) -> (r: Vec<u64>)
    requires
        cur.len() == TRACE_WIDTH,
        nxt.len() == TRACE_WIDTH,
        per.len() == 35,
        all_canonical(cur@),
        all_canonical(nxt@),
        all_canonical(per@),
    ensures
        r@ == residuals_0(cur@, nxt@, per@),
        r.len() == 12,
{
    let r = vec![
        fmul(per[25], nxt[0]),
        fmul(per[25], nxt[1]),
        fmul(per[25], nxt[2]),
        fmul(per[25], nxt[3]),
        fmul(per[25], fsub(nxt[4], cur[4])),
        fmul(per[25], fsub(nxt[5], cur[5])),
        fmul(per[25], fsub(nxt[6], cur[6])),
        fmul(per[25], fsub(nxt[7], cur[7])),
        fmul(per[25], fsub(nxt[8], cur[19])),
        fmul(per[25], nxt[9]),
        fmul(per[25], nxt[10]),
        fmul(per[25], nxt[11]),
    ];
    proof {
        reveal(residuals_0);
    }
    assert(r@ =~= residuals_0(cur@, nxt@, per@));
    r
}

/// The residuals of constraints 24..=35.
#[verifier::opaque]
pub open spec fn residuals_1(cur: Seq<u64>, nxt: Seq<u64>, per: Seq<u64>) -> Seq<u64> {
    seq![
        mul_spec(per[26], nxt[0]),
        mul_spec(per[26], nxt[1]),
        mul_spec(per[26], nxt[2]),
        mul_spec(per[26], nxt[3]),
        mul_spec(per[26], add_spec(mul_spec(sub_spec(1u64, nxt[12]), sub_spec(nxt[4], cur[4])), mul_spec(nxt[12], sub_spec(nxt[8], cur[4])))),
        mul_spec(per[26], add_spec(mul_spec(sub_spec(1u64, nxt[12]), sub_spec(nxt[5], cur[5])), mul_spec(nxt[12], sub_spec(nxt[9], cur[5])))),
        mul_spec(per[26], add_spec(mul_spec(sub_spec(1u64, nxt[12]), sub_spec(nxt[6], cur[6])), mul_spec(nxt[12], sub_spec(nxt[10], cur[6])))),
        mul_spec(per[26], add_spec(mul_spec(sub_spec(1u64, nxt[12]), sub_spec(nxt[7], cur[7])), mul_spec(nxt[12], sub_spec(nxt[11], cur[7])))),
        mul_spec(per[27], sub_spec(nxt[8], cur[15])),
        mul_spec(per[28], sub_spec(cur[4], cur[15])),
        mul_spec(per[28], sub_spec(cur[8], cur[16])),
        mul_spec(cur[12], sub_spec(cur[12], 1u64)),
    ]
}

fn residuals_1_eval(cur: &Vec<u64>, nxt: &Vec<u64>, per: &Vec<u64>) -> (r: Vec<u64>)
    requires
        cur.len() == TRACE_WIDTH,
        nxt.len() == TRACE_WIDTH,
        per.len() == 35,
        all_canonical(cur@),
        all_canonical(nxt@),
        all_canonical(per@),
    ensures
        r@ == residuals_1(cur@, nxt@, per@),
        r.len() == 12,
{
    let r = vec![
        fmul(per[26], nxt[0]),
        fmul(per[26], nxt[1]),
        fmul(per[26], nxt[2]),
        fmul(per[26], nxt[3]),
        fmul(per[26], fadd(fmul(fsub(1u64, nxt[12]), fsub(nxt[4], cur[4])), fmul(nxt[12], fsub(nxt[8], cur[4])))),
        fmul(per[26], fadd(fmul(fsub(1u64, nxt[12]), fsub(nxt[5], cur[5])), fmul(nxt[12], fsub(nxt[9], cur[5])))),
        fmul(per[26], fadd(fmul(fsub(1u64, nxt[12]), fsub(nxt[6], cur[6])), fmul(nxt[12], fsub(nxt[10], cur[6])))),
        fmul(per[26], fadd(fmul(fsub(1u64, nxt[12]), fsub(nxt[7], cur[7])), fmul(nxt[12], fsub(nxt[11], cur[7])))),
        fmul(per[27], fsub(nxt[8], cur[15])),
        fmul(per[28], fsub(cur[4], cur[15])),
        fmul(per[28], fsub(cur[8], cur[16])),
        fmul(cur[12], fsub(cur[12], 1u64)),
    ];
    proof {
        reveal(residuals_1);
    }
    assert(r@ =~= residuals_1(cur@, nxt@, per@));
    r
}

/// The residuals of constraints 36..=47.
#[verifier::opaque]
pub open spec fn residuals_2(cur: Seq<u64>, nxt: Seq<u64>, per: Seq<u64>) -> Seq<u64> {
    seq![
        mul_spec(cur[13], sub_spec(cur[13], 1u64)),
        mul_spec(nxt[13], sub_spec(nxt[13], 1u64)),
        mul_spec(per[29], cur[13]),
        mul_spec(per[29], cur[14]),
        mul_spec(per[30], sub_spec(nxt[14], add_spec(add_spec(cur[14], cur[14]), nxt[13]))),
        mul_spec(per[31], sub_spec(nxt[14], cur[16])),
        mul_spec(per[32], sub_spec(nxt[14], cur[17])),
        mul_spec(per[33], sub_spec(nxt[14], sub_spec(cur[16], cur[17]))),
        mul_spec(per[34], sub_spec(nxt[14], sub_spec(cur[18], cur[17]))),
        sub_spec(nxt[15], cur[15]),
        sub_spec(nxt[16], cur[16]),
        sub_spec(nxt[17], cur[17]),
    ]
}

fn residuals_2_eval(cur: &Vec<u64>, nxt: &Vec<u64>, per: &Vec<u64>) -> (r: Vec<u64>)
    requires
        cur.len() == TRACE_WIDTH,
        nxt.len() == TRACE_WIDTH,
        per.len() == 35,
        all_canonical(cur@),
        all_canonical(nxt@),
        all_canonical(per@),
    ensures
        r@ == residuals_2(cur@, nxt@, per@),
        r.len() == 12,
{
    let r = vec![
        fmul(cur[13], fsub(cur[13], 1u64)),
        fmul(nxt[13], fsub(nxt[13], 1u64)),
        fmul(per[29], cur[13]),
        fmul(per[29], cur[14]),
        fmul(per[30], fsub(nxt[14], fadd(fadd(cur[14], cur[14]), nxt[13]))),
        fmul(per[31], fsub(nxt[14], cur[16])),
        fmul(per[32], fsub(nxt[14], cur[17])),
        fmul(per[33], fsub(nxt[14], fsub(cur[16], cur[17]))),
        fmul(per[34], fsub(nxt[14], fsub(cur[18], cur[17]))),
        fsub(nxt[15], cur[15]),
        fsub(nxt[16], cur[16]),
        fsub(nxt[17], cur[17]),
    ];
    proof {
        reveal(residuals_2);
    }
    assert(r@ =~= residuals_2(cur@, nxt@, per@));
    r
}

/// The residuals of constraints 48..=49.
#[verifier::opaque]
pub open spec fn residuals_3(cur: Seq<u64>, nxt: Seq<u64>, per: Seq<u64>) -> Seq<u64> {
    seq![
        sub_spec(nxt[18], cur[18]),
        sub_spec(nxt[19], cur[19]),
    ]
}

fn residuals_3_eval(cur: &Vec<u64>, nxt: &Vec<u64>, per: &Vec<u64>) -> (r: Vec<u64>)
    requires
        cur.len() == TRACE_WIDTH,
        nxt.len() == TRACE_WIDTH,
        per.len() == 35,
        all_canonical(cur@),
        all_canonical(nxt@),
        all_canonical(per@),
    ensures
        r@ == residuals_3(cur@, nxt@, per@),
        r.len() == 2,
{
    let r = vec![
        fsub(nxt[18], cur[18]),
        fsub(nxt[19], cur[19]),
    ];
    proof {
        reveal(residuals_3);
    }
    assert(r@ =~= residuals_3(cur@, nxt@, per@));
    r
}

/// The residuals of all transition constraints of a step, in the order of
/// their indices: the rounds of the hash lane, then the rest.
pub open spec fn residuals(cur: Seq<u64>, nxt: Seq<u64>, per: Seq<u64>) -> Seq<u64> {
    round_residuals_spec(cur, nxt, per, 0, 0, 1, 13)
        + residuals_0(cur, nxt, per) + residuals_1(cur, nxt, per) + residuals_2(cur, nxt, per) + residuals_3(cur, nxt, per)
}

/// Constraint `k` of a step, over the current row, the next row and the
/// periodic values.
pub open spec fn constraint_spec(k: int, current: Seq<u64>, next: Seq<u64>, periodic: Seq<u64>) -> u64 {
    residuals(current, next, periodic)[k]
}

/// Evaluates the transition constraints of a step over the base field: a
/// step satisfies the AIR when every residual is zero.
pub fn evaluate_transition(current: &Vec<u64>, next: &Vec<u64>, periodic: &Vec<u64>) -> (result: Vec<u64>)
    requires
        current.len() == TRACE_WIDTH,
        next.len() == TRACE_WIDTH,
        periodic.len() == 35,
        all_canonical(current@),
        all_canonical(next@),
        all_canonical(periodic@),
    ensures
        result.len() == NUM_CONSTRAINTS,
        forall|k: int| 0 <= k < NUM_CONSTRAINTS ==> #[trigger] result[k] == constraint_spec(k, current@, next@, periodic@),
{
    let mut r = round_residuals(current, next, periodic, 0, 0, 1, 13);

    let mut p0 = residuals_0_eval(current, next, periodic);
    r.append(&mut p0);
    let mut p1 = residuals_1_eval(current, next, periodic);
    r.append(&mut p1);
    let mut p2 = residuals_2_eval(current, next, periodic);
    r.append(&mut p2);
    let mut p3 = residuals_3_eval(current, next, periodic);
    r.append(&mut p3);
    assert(r@ =~= residuals(current@, next@, periodic@));
    r
}







/// The periodic values of step `r`.
pub open spec fn periodic_row(r: int) -> Seq<u64> {
    Seq::new(35, |j: int| periodic_spec(j, r))
}

/// Every step of the trace satisfies the round constraints of the hash
/// lanes (constraints 0..12): on a round row a lane goes from one round
/// of its permutation to the next, with that round's constants in the
/// periodic values; elsewhere the round flag is off.
pub proof fn lemma_trace_satisfies_round_constraints(account_id: u64, balance: u64, nonce: u64, amount: u64, limit: u64, path: MerklePath, t: Seq<Vec<u64>>, r: int)
    requires
        t.len() == TRACE_WIDTH,
        forall|col: int, q: int|
            0 <= col < TRACE_WIDTH && 0 <= q < TRACE_LENGTH ==> #[trigger] t[col][q] == cell_spec(account_id, balance, nonce, amount, limit, path, col, q),
        forall|c: nat| c < HASH_CYCLES ==> #[trigger] rounds_hold(cycle_start_spec(account_id, reduce(balance as int), nonce, path, c as int)),
        0 <= r < TRACE_LENGTH - 1,
    ensures
        forall|k: int| 0 <= k < 12 ==> #[trigger] constraint_spec(k, row_of(t, r), row_of(t, r + 1), periodic_row(r)) == 0,
{
    let cur = row_of(t, r);
    let nxt = row_of(t, r + 1);
    let per = periodic_row(r);
    let active = HASH_ROWS as int;
    assert(per[0] == crate::periodic::hash_flag_spec(active, r));
    assert forall|j: int| 0 <= j < 12 implies #[trigger] per[1 + j] == crate::periodic::ark_spec(false, j, active, r) by {
        assert(per[1 + j] == periodic_spec(1 + j, r));
    }
    assert forall|j: int| 0 <= j < 12 implies #[trigger] per[13 + j] == crate::periodic::ark_spec(true, j, active, r) by {
        assert(per[13 + j] == periodic_spec(13 + j, r));
    }
    if r < active && r % 8 < 7 {
        assert((r + 1) / 8 == r / 8 && (r + 1) % 8 == r % 8 + 1);
        assert(rounds_hold(cycle_start_spec(account_id, reduce(balance as int), nonce, path, r / 8)));
        assert forall|j: int| 0 <= j < 12 implies #[trigger] cur[0 + j] == rounds(cycle_start_spec(account_id, reduce(balance as int), nonce, path, r / 8), (r % 8) as nat)[j] by {
            assert(cur[0 + j] == t[0 + j][r]);
            assert(t[0 + j][r] == rounds(cycle_start_spec(account_id, reduce(balance as int), nonce, path, r / 8), (r % 8) as nat)[j]);
        }
        assert forall|j: int| 0 <= j < 12 implies #[trigger] nxt[0 + j] == rounds(cycle_start_spec(account_id, reduce(balance as int), nonce, path, r / 8), (r % 8 + 1) as nat)[j] by {
            assert(nxt[0 + j] == t[0 + j][r + 1]);
            assert(t[0 + j][r + 1] == rounds(cycle_start_spec(account_id, reduce(balance as int), nonce, path, (r + 1) / 8), ((r + 1) % 8) as nat)[j]);
        }
    }
    crate::lane::lemma_rounds_round_residuals(cur, nxt, per, 0, 0, 1, 13, cycle_start_spec(account_id, reduce(balance as int), nonce, path, r / 8), active, r);
    assert forall|k: int| 0 <= k < 12 implies #[trigger] constraint_spec(k, cur, nxt, per) == 0 by {
        assert(constraint_spec(k, cur, nxt, per) == crate::constraints::round_residual(cur, nxt, per, 0, 0, 1, 13, k));
    }
}

/// The honest inputs of a compliance proof: the balance and the limit fit
/// in 63 bits and the amount is within both.
pub open spec fn within_limits(balance: u64, amount: u64, limit: u64) -> bool {
    &&& balance <= MAX_VALUE
    &&& limit <= MAX_VALUE
    &&& amount <= balance
    &&& amount <= limit
}

/// The range checks of an honest trace hold on every step: the bits are
/// bits, each of the four segments starts from zero, the accumulator takes
/// one bit per row, and the segments end on the balance, the amount, the
/// balance after the amount and the room under the limit.
#[verifier::spinoff_prover]
#[verifier::rlimit(60)]
proof fn lemma_trace_range_constraints(account_id: u64, balance: u64, nonce: u64, amount: u64, limit: u64, path: MerklePath, t: Seq<Vec<u64>>, r: int)
    requires
        t.len() == TRACE_WIDTH,
        forall|col: int, q: int|
            0 <= col < TRACE_WIDTH && 0 <= q < TRACE_LENGTH ==> #[trigger] t[col][q] == cell_spec(account_id, balance, nonce, amount, limit, path, col, q),
        within_limits(balance, amount, limit),
        0 <= r < TRACE_LENGTH - 1,
    ensures
        forall|j: int| 0 <= j < 9 ==> #[trigger] residuals_2(row_of(t, r), row_of(t, r + 1), periodic_row(r))[j] == 0,
{
    let cur = row_of(t, r);
    let nxt = row_of(t, r + 1);
    let per = periodic_row(r);
    let p: nat = MODULUS as nat;
    vstd::arithmetic::div_mod::lemma_small_mod(0, p);
    vstd::arithmetic::div_mod::lemma_small_mod(1, p);
    vstd::arithmetic::div_mod::lemma_small_mod(balance as nat, p);
    vstd::arithmetic::div_mod::lemma_small_mod(amount as nat, p);
    vstd::arithmetic::div_mod::lemma_small_mod(limit as nat, p);
    vstd::arithmetic::div_mod::lemma_small_mod((balance - amount) as nat, p);
    vstd::arithmetic::div_mod::lemma_small_mod((limit - amount) as nat, p);
    let segs = seq![balance, amount, sub_spec(balance, amount), sub_spec(limit, amount)];
    assert(segs[2] == balance - amount && segs[3] == limit - amount);
    assert forall|s: int| 0 <= s < 4 implies #[trigger] segs[s] < 0x8000_0000_0000_0000 by {}
    assert forall|c: int| 0 <= c < TRACE_WIDTH implies #[trigger] cur[c] == t[c][r] && nxt[c] == t[c][r + 1] by {}
    assert forall|q: int| 0 <= q < TRACE_LENGTH implies (#[trigger] t[13][q] == (if q < 256 { seg_bit(segs[q / 64], 64, (q % 64) as nat) } else { 0u64 })
        && t[14][q] == (if q < 256 { reduce(seg_acc(segs[q / 64], 64, (q % 64) as nat) as int) } else { 0u64 })) by {
        assert(t[13][q] == cell_spec(account_id, balance, nonce, amount, limit, path, 13, q));
        assert(t[14][q] == cell_spec(account_id, balance, nonce, amount, limit, path, 14, q));
    }
    assert(cur[16] == balance && cur[17] == amount && cur[18] == limit) by {
        assert(t[16][r] == cell_spec(account_id, balance, nonce, amount, limit, path, 16, r));
        assert(t[17][r] == cell_spec(account_id, balance, nonce, amount, limit, path, 17, r));
        assert(t[18][r] == cell_spec(account_id, balance, nonce, amount, limit, path, 18, r));
    }
    assert forall|x: u64| #[trigger] mul_spec(0u64, x) == 0 by {
        assert(0u64 * x == 0);
    }
    assert forall|x: u64| #[trigger] sub_spec(x, x) == 0 by {}
    // The bit column holds bits.
    assert forall|q: int| 0 <= q < TRACE_LENGTH implies (#[trigger] t[13][q] == 0 || t[13][q] == 1) by {
        if q < 256 {
            crate::solvency::lemma_wide_segment(segs[q / 64], (q % 64) as nat);
        }
    }
    assert forall|x: u64| x == 0 || x == 1 implies #[trigger] mul_spec(x, sub_spec(x, 1u64)) == 0 by {
        if x == 1 {
            assert(sub_spec(1u64, 1u64) == 0);
            assert(1u64 * 0u64 == 0);
        }
    }
    assert(mul_spec(cur[13], sub_spec(cur[13], 1u64)) == 0);
    assert(mul_spec(nxt[13], sub_spec(nxt[13], 1u64)) == 0);
    // The periodic selectors.
    let s_first: Seq<usize> = seq![0usize, 64, 128, 192];
    let s62: Seq<usize> = seq![62usize];
    let s126: Seq<usize> = seq![126usize];
    let s190: Seq<usize> = seq![190usize];
    let s254: Seq<usize> = seq![254usize];
    assert(per[29] == selector_spec(s_first, r));
    assert(per[30] == continue_spec(4, SEGMENT_LENGTH as int, r));
    assert(per[31] == selector_spec(s62, r));
    assert(per[32] == selector_spec(s126, r));
    assert(per[33] == selector_spec(s190, r));
    assert(per[34] == selector_spec(s254, r));
    if r == 0 || r == 64 || r == 128 || r == 192 {
        crate::solvency::lemma_wide_segment(segs[r / 64], 0);
        assert(cur[13] == 0 && cur[14] == 0);
    } else {
        assert(per[29] == 0);
    }
    if r < 256 && r % 64 != 63 {
        let v = segs[r / 64];
        let q = r % 64;
        assert((r + 1) / 64 == r / 64 && (r + 1) % 64 == q + 1);
        crate::solvency::lemma_wide_segment(v, q as nat);
        crate::solvency::lemma_wide_segment(v, (q + 1) as nat);
        vstd::arithmetic::div_mod::lemma_small_mod(seg_acc(v, 64, q as nat) as nat, p);
        vstd::arithmetic::div_mod::lemma_small_mod(seg_acc(v, 64, (q + 1) as nat) as nat, p);
        assert(cur[14] == seg_acc(v, 64, q as nat));
        assert(nxt[14] == seg_acc(v, 64, (q + 1) as nat));
        assert(nxt[13] == seg_bit(v, 64, (q + 1) as nat));
        vstd::arithmetic::div_mod::lemma_small_mod((cur[14] + cur[14]) as nat, p);
        vstd::arithmetic::div_mod::lemma_small_mod((cur[14] + cur[14] + nxt[13]) as nat, p);
        assert(add_spec(add_spec(cur[14], cur[14]), nxt[13]) == nxt[14]);
    } else {
        assert(per[30] == 0);
    }
    if r == 62 || r == 126 || r == 190 || r == 254 {
        if r == 62 {
            assert(s62[0] == 62);
        } else if r == 126 {
            assert(s126[0] == 126);
        } else if r == 190 {
            assert(s190[0] == 190);
        } else {
            assert(s254[0] == 254);
        }
        let v = segs[r / 64];
        crate::solvency::lemma_wide_segment(v, 63);
        vstd::arithmetic::div_mod::lemma_small_mod(v as nat, p);
        assert(nxt[14] == v);
    }
    if r != 62 {
        assert(per[31] == 0);
    }
    if r != 126 {
        assert(per[32] == 0);
    }
    if r != 190 {
        assert(per[33] == 0);
    }
    if r != 254 {
        assert(per[34] == 0);
    }
    reveal(residuals_2);
}

/// The links of an honest trace hold on every step: the leaf and the
/// nullifier each chain their two hashes, the next level of the climb
/// starts from the node climbed so far on the side its bit says, the
/// nullifier starts from the account after the root, the account and the
/// balance enter the leaf on the first row, the climb bits are bits, and
/// the public columns stay constant.
#[verifier::spinoff_prover]
#[verifier::rlimit(80)]
proof fn lemma_trace_link_constraints(account_id: u64, balance: u64, nonce: u64, amount: u64, limit: u64, path: MerklePath, t: Seq<Vec<u64>>, r: int)
    requires
        t.len() == TRACE_WIDTH,
        forall|col: int, q: int|
            0 <= col < TRACE_WIDTH && 0 <= q < TRACE_LENGTH ==> #[trigger] t[col][q] == cell_spec(account_id, balance, nonce, amount, limit, path, col, q),
        path_ok(path),
        0 <= r < TRACE_LENGTH - 1,
    ensures
        forall|j: int| 0 <= j < 12 ==> #[trigger] residuals_0(row_of(t, r), row_of(t, r + 1), periodic_row(r))[j] == 0,
        forall|j: int| 0 <= j < 12 ==> #[trigger] residuals_1(row_of(t, r), row_of(t, r + 1), periodic_row(r))[j] == 0,
        forall|j: int| 9 <= j < 12 ==> #[trigger] residuals_2(row_of(t, r), row_of(t, r + 1), periodic_row(r))[j] == 0,
        forall|j: int| 0 <= j < 2 ==> #[trigger] residuals_3(row_of(t, r), row_of(t, r + 1), periodic_row(r))[j] == 0,
{
    let cur = row_of(t, r);
    let nxt = row_of(t, r + 1);
    let per = periodic_row(r);
    let p: nat = MODULUS as nat;
    let bal = reduce(balance as int);
    let bits = path.is_right@;
    let sibs = sibling_seqs(path.siblings@);
    let leaf = leaf_spec(account_id, bal, nonce);
    vstd::arithmetic::div_mod::lemma_small_mod(0, p);
    vstd::arithmetic::div_mod::lemma_small_mod(1, p);
    assert forall|x: u64| #[trigger] mul_spec(0u64, x) == 0 by {
        assert(0u64 * x == 0);
    }
    assert(mul_spec(1u64, 0u64) == 0) by {
        assert(1u64 * 0u64 == 0);
    }
    assert forall|x: u64| #[trigger] sub_spec(x, x) == 0 by {}
    assert forall|c: int| 0 <= c < TRACE_WIDTH implies #[trigger] cur[c] == t[c][r] && nxt[c] == t[c][r + 1] by {}
    assert forall|i: int, q: int| 0 <= i < 12 && 0 <= q < TRACE_LENGTH implies #[trigger] t[i][q] == (if q < HASH_ROWS {
        rounds(cycle_start_spec(account_id, bal, nonce, path, q / 8), (q % 8) as nat)[i]
    } else {
        0u64
    }) by {
        assert(t[i][q] == cell_spec(account_id, balance, nonce, amount, limit, path, i, q));
    }
    assert forall|q: int| 0 <= q < TRACE_LENGTH implies #[trigger] t[12][q] == cycle_bit_spec(bits, 2, q) && t[15][q] == account_id
        && t[16][q] == bal && t[19][q] == nonce by {
        assert(t[12][q] == cell_spec(account_id, balance, nonce, amount, limit, path, 12, q));
        assert(t[15][q] == cell_spec(account_id, balance, nonce, amount, limit, path, 15, q));
        assert(t[16][q] == cell_spec(account_id, balance, nonce, amount, limit, path, 16, q));
        assert(t[19][q] == cell_spec(account_id, balance, nonce, amount, limit, path, 19, q));
    }
    assert forall|col: int| 15 <= col < 20 implies #[trigger] sub_spec(nxt[col], cur[col]) == 0 by {
        assert(t[col][r] == cell_spec(account_id, balance, nonce, amount, limit, path, col, r));
        assert(t[col][r + 1] == cell_spec(account_id, balance, nonce, amount, limit, path, col, r + 1));
    }
    // The periodic selectors.
    let s_leaf: Seq<usize> = seq![ROW_LEAF_LINK_1, ROW_NULL_LINK];
    let s_root: Seq<usize> = seq![ROW_ROOT];
    let s0: Seq<usize> = seq![0usize];
    assert(per[25] == selector_spec(s_leaf, r));
    assert(per[26] == selector_spec(merkle_link_rows(), r));
    assert(per[27] == selector_spec(s_root, r));
    assert(per[28] == selector_spec(s0, r));
    if r == 7 {
        assert(s_leaf[0] == 7);
    }
    if r == 279 {
        assert(s_leaf[1] == 279);
    }
    assert(per[25] == if r == 7 || r == 279 { 1u64 } else { 0u64 });
    if r == 271 {
        assert(s_root[0] == 271);
    }
    assert(per[27] == if r == 271 { 1u64 } else { 0u64 });
    if r == 0 {
        assert(s0[0] == 0);
    }
    assert(per[28] == if r == 0 { 1u64 } else { 0u64 });
    let mlink = r % 8 == 7 && 15 <= r <= 263;
    if mlink {
        let l = (r + 1) / 8 - 2;
        assert(merkle_link_rows()[l] == r);
    } else {
        assert forall|l: int| 0 <= l < merkle_link_rows().len() implies merkle_link_rows()[l] != r by {}
    }
    assert(per[26] == if mlink { 1u64 } else { 0u64 });
    // The climb bit is a bit.
    assert(cur[12] == 0 || cur[12] == 1);
    assert(mul_spec(cur[12], sub_spec(cur[12], 1u64)) == 0) by {
        if cur[12] == 1 {
            assert(sub_spec(1u64, 1u64) == 0);
        } else {
            assert(0u64 * sub_spec(cur[12], 1u64) == 0);
        }
    }
    // The account and the balance enter the leaf on the first row.
    if r == 0 {
        assert(cur[4] == rounds(cycle_start_spec(account_id, bal, nonce, path, 0), 0)[4]);
        assert(cur[8] == rounds(cycle_start_spec(account_id, bal, nonce, path, 0), 0)[8]);
    }
    // The nullifier starts from the account after the root.
    if r == 271 {
        assert(nxt[8] == rounds(cycle_start_spec(account_id, bal, nonce, path, 34), 0)[8]);
    }
    // The two hashes of the leaf, and of the nullifier, chain.
    if r == 7 || r == 279 {
        let c = r / 8;
        let start = cycle_start_spec(account_id, bal, nonce, path, c);
        let next_start = cycle_start_spec(account_id, bal, nonce, path, c + 1);
        lemma_digest_row(start);
        assert(next_start == merge_state(digest_of(start), as_digest_spec(nonce)));
        assert forall|i: int| 0 <= i < 4 implies #[trigger] cur[4 + i] == digest_of(start)[i] by {
            assert(cur[4 + i] == rounds(start, 7)[4 + i]);
        }
        assert forall|i: int| 0 <= i < 12 implies #[trigger] nxt[i] == next_start[i] by {
            assert(nxt[i] == rounds(next_start, 0)[i]);
        }
    }
    // A level of the climb starts from the node climbed so far.
    if mlink {
        let c = r / 8;
        let l = c - 1;
        assert(1 <= c <= 32 && r == 8 * c + 7);
        assert((r + 1) / 8 == c + 1 && (r + 1) % 8 == 0);
        let d = climb_spec(leaf, sibs, bits, l as nat);
        let start = cycle_start_spec(account_id, bal, nonce, path, c);
        let next_start = cycle_start_spec(account_id, bal, nonce, path, c + 1);
        assert(next_start == place_state(d, sibs[l], bits[l]));
        lemma_digest_row(start);
        assert(digest_of(start) == d) by {
            if l > 0 {
                assert(digest_of(start) == climb_step(climb_spec(leaf, sibs, bits, (l - 1) as nat), sibs[l - 1], bits[l - 1]));
            }
        }
        assert(sibs[l].len() == 4);
        assert(d.len() == 4);
        assert forall|i: int| 0 <= i < 4 implies #[trigger] cur[4 + i] == d[i] by {
            assert(cur[4 + i] == rounds(start, 7)[4 + i]);
        }
        assert forall|i: int| 0 <= i < 12 implies #[trigger] nxt[i] == next_start[i] by {
            assert(nxt[i] == rounds(next_start, 0)[i]);
        }
        assert(nxt[12] == if bits[l] { 1u64 } else { 0u64 });
        if bits[l] {
            assert(sub_spec(1u64, nxt[12]) == 0);
            assert(1u64 * 0u64 == 0);
        } else {
            assert(sub_spec(1u64, nxt[12]) == 1);
            assert(1u64 * 0u64 == 0);
        }
    }
    reveal(residuals_0);
    reveal(residuals_1);
    reveal(residuals_2);
    reveal(residuals_3);
}

/// The lengths of the groups of residuals after the rounds.
#[verifier::spinoff_prover]
#[verifier::rlimit(100)]
proof fn lemma_residuals_len(cur: Seq<u64>, nxt: Seq<u64>, per: Seq<u64>)
    ensures
        residuals_0(cur, nxt, per).len() == 12,
        residuals_1(cur, nxt, per).len() == 12,
        residuals_2(cur, nxt, per).len() == 12,
        residuals_3(cur, nxt, per).len() == 2,
{
    assert(residuals_0(cur, nxt, per).len() == 12) by {
        reveal(residuals_0);
    }
    assert(residuals_1(cur, nxt, per).len() == 12) by {
        reveal(residuals_1);
    }
    assert(residuals_2(cur, nxt, per).len() == 12) by {
        reveal(residuals_2);
    }
    assert(residuals_3(cur, nxt, per).len() == 2) by {
        reveal(residuals_3);
    }
}

/// Every step of an honest trace satisfies every transition constraint,
/// when the balance and the limit fit in 63 bits and the amount is within
/// both: the rounds of the lane, the links of its hashes and of the climb,
/// the account and balance on the first row, the range checks, and the
/// constant columns.
#[verifier::spinoff_prover]
#[verifier::rlimit(60)]
pub proof fn lemma_trace_satisfies_constraints(account_id: u64, balance: u64, nonce: u64, amount: u64, limit: u64, path: MerklePath, t: Seq<Vec<u64>>, r: int)
    requires
        t.len() == TRACE_WIDTH,
        forall|col: int, q: int|
            0 <= col < TRACE_WIDTH && 0 <= q < TRACE_LENGTH ==> #[trigger] t[col][q] == cell_spec(account_id, balance, nonce, amount, limit, path, col, q),
        forall|c: nat| c < HASH_CYCLES ==> #[trigger] rounds_hold(cycle_start_spec(account_id, reduce(balance as int), nonce, path, c as int)),
        path_ok(path),
        within_limits(balance, amount, limit),
        0 <= r < TRACE_LENGTH - 1,
    ensures
        forall|k: int| 0 <= k < NUM_CONSTRAINTS ==> #[trigger] constraint_spec(k, row_of(t, r), row_of(t, r + 1), periodic_row(r)) == 0,
{
    let cur = row_of(t, r);
    let nxt = row_of(t, r + 1);
    let per = periodic_row(r);
    lemma_trace_satisfies_round_constraints(account_id, balance, nonce, amount, limit, path, t, r);
    lemma_trace_link_constraints(account_id, balance, nonce, amount, limit, path, t, r);
    lemma_trace_range_constraints(account_id, balance, nonce, amount, limit, path, t, r);
    lemma_residuals_len(cur, nxt, per);
    assert forall|k: int| 12 <= k < NUM_CONSTRAINTS implies #[trigger] constraint_spec(k, cur, nxt, per) == 0 by {
        if k < 24 {
            assert(constraint_spec(k, cur, nxt, per) == residuals_0(cur, nxt, per)[k - 12]);
        } else if k < 36 {
            assert(constraint_spec(k, cur, nxt, per) == residuals_1(cur, nxt, per)[k - 24]);
        } else if k < 48 {
            assert(constraint_spec(k, cur, nxt, per) == residuals_2(cur, nxt, per)[k - 36]);
        } else {
            assert(constraint_spec(k, cur, nxt, per) == residuals_3(cur, nxt, per)[k - 48]);
        }
    }
}

/// What the range-check constraints of one accepted step say: the bit is
/// a bit, on the first row of a segment the accumulator is zero, inside a segment the
/// next accumulator doubles it and adds the next bit, on the row before
/// a segment ends its accumulator is the value checked there, and the
/// balance, amount and limit columns keep their values.
pub open spec fn range_step_facts(cur: Seq<u64>, nxt: Seq<u64>, per: Seq<u64>) -> bool {
    &&& cur[13] <= 1
    &&& per[29] == 1 ==> cur[14] == 0
    &&& per[30] == 1 ==> nxt[14] == add_spec(add_spec(cur[14], cur[14]), nxt[13])
    &&& per[31] == 1 ==> nxt[14] == cur[16]
    &&& per[32] == 1 ==> nxt[14] == cur[17]
    &&& per[33] == 1 ==> nxt[14] == sub_spec(cur[16], cur[17])
    &&& per[34] == 1 ==> nxt[14] == sub_spec(cur[18], cur[17])
    &&& nxt[16] == cur[16]
    &&& nxt[17] == cur[17]
    &&& nxt[18] == cur[18]
}

#[verifier::spinoff_prover]
#[verifier::rlimit(100)]
proof fn lemma_accepted_range_step(cur: Seq<u64>, nxt: Seq<u64>, per: Seq<u64>)
    requires
        cur.len() == TRACE_WIDTH,
        nxt.len() == TRACE_WIDTH,
        all_canonical(cur),
        all_canonical(nxt),
        forall|k: int| 0 <= k < NUM_CONSTRAINTS ==> #[trigger] constraint_spec(k, cur, nxt, per) == 0,
    ensures
        range_step_facts(cur, nxt, per),
{
    lemma_residuals_len(cur, nxt, per);
    let g = residuals_2(cur, nxt, per);
    let h = residuals_3(cur, nxt, per);
    assert forall|j: int| 0 <= j < 12 implies #[trigger] g[j] == 0 by {
        assert(constraint_spec(36 + j, cur, nxt, per) == g[j]);
    }
    assert(constraint_spec(48, cur, nxt, per) == h[0]);
    assert(h[0] == 0);
    reveal(residuals_2);
    reveal(residuals_3);
    lemma_field_bit(cur[13]);
    lemma_reduce_canonical(cur[14] + cur[14]);
    lemma_reduce_canonical(add_spec(cur[14], cur[14]) + nxt[13]);
    lemma_reduce_canonical(cur[16] - cur[17]);
    lemma_reduce_canonical(cur[18] - cur[17]);
    if per[29] == 1 {
        lemma_selected(cur[14]);
    }
    if per[30] == 1 {
        lemma_selected_equal(per[30], nxt[14], add_spec(add_spec(cur[14], cur[14]), nxt[13]));
    }
    if per[31] == 1 {
        lemma_selected_equal(per[31], nxt[14], cur[16]);
    }
    if per[32] == 1 {
        lemma_selected_equal(per[32], nxt[14], cur[17]);
    }
    if per[33] == 1 {
        lemma_selected_equal(per[33], nxt[14], sub_spec(cur[16], cur[17]));
    }
    if per[34] == 1 {
        lemma_selected_equal(per[34], nxt[14], sub_spec(cur[18], cur[17]));
    }
    lemma_equal(nxt[16], cur[16]);
    lemma_equal(nxt[17], cur[17]);
    lemma_equal(nxt[18], cur[18]);
}

/// The range-check segment starting on row `s` of an accepted trace ends
/// on a value below `2^63`.
#[verifier::spinoff_prover]
#[verifier::rlimit(100)]
proof fn lemma_accepted_range_segment(t: Seq<Vec<u64>>, s: int)
    requires
        t.len() == TRACE_WIDTH,
        columns_shape(t, TRACE_LENGTH as nat),
        forall|r: int| 0 <= r < TRACE_LENGTH - 1 ==> #[trigger] range_step_facts(row_of(t, r), row_of(t, r + 1), periodic_row(r)),
        s == 0 || s == 64 || s == 128 || s == 192,
    ensures
        t[14][s + 63] < 0x8000_0000_0000_0000,
{
    let bits = t[13]@;
    let accs = t[14]@;
    let firsts: Seq<usize> = seq![0usize, 64, 128, 192];
    assert(firsts[s / 64] == s);
    assert(range_step_facts(row_of(t, s), row_of(t, s + 1), periodic_row(s)));
    assert(periodic_row(s)[29] == 1);
    assert(row_of(t, s)[14] == accs[s]);
    assert forall|i: int| s <= i < s + 63 implies #[trigger] accs[i + 1] == add_spec(add_spec(accs[i], accs[i]), bits[i + 1]) by {
        assert(range_step_facts(row_of(t, i), row_of(t, i + 1), periodic_row(i)));
        assert(i % 64 != 63);
        assert(periodic_row(i)[30] == continue_spec(4, SEGMENT_LENGTH as int, i));
        assert(periodic_row(i)[30] == 1);
        assert(row_of(t, i)[14] == accs[i]);
        assert(row_of(t, i + 1)[14] == accs[i + 1]);
        assert(row_of(t, i + 1)[13] == bits[i + 1]);
    }
    assert forall|i: int| s <= i < s + 64 implies #[trigger] bits[i] <= 1 by {
        assert(range_step_facts(row_of(t, i), row_of(t, i + 1), periodic_row(i)));
        assert(row_of(t, i)[13] == bits[i]);
    }
    lemma_accepted_segment(bits, accs, s);
}

/// What an accepted compliance trace proves. Take any trace whose every
/// step satisfies every transition constraint with the periodic values of
/// `periodic_columns` (the field is prime, so `b * (b - 1) = 0` makes each
/// range-check cell a bit). Its four range-check segments end on the balance, the amount,
/// `balance - amount` and `limit - amount` of its first row (in the
/// field), each below `2^63`. So the amount is at most the balance and at
/// most the regulatory limit, for every amount up to `p - 2^63`: an
/// over-limit or overdrawn payment has no accepted trace.
#[verifier::spinoff_prover]
#[verifier::rlimit(100)]
pub proof fn lemma_accepted_trace_within_limits(t: Seq<Vec<u64>>)
    requires
        t.len() == TRACE_WIDTH,
        columns_shape(t, TRACE_LENGTH as nat),
        forall|r: int, k: int|
            0 <= r < TRACE_LENGTH - 1 && 0 <= k < NUM_CONSTRAINTS ==> #[trigger] constraint_spec(
                k,
                row_of(t, r),
                row_of(t, r + 1),
                periodic_row(r),
            ) == 0,
    ensures
        t[14][63] == t[COL_BAL as int][0],
        t[14][127] == t[COL_AMT as int][0],
        t[14][191] == sub_spec(t[COL_BAL as int][0], t[COL_AMT as int][0]),
        t[14][255] == sub_spec(t[COL_LIM as int][0], t[COL_AMT as int][0]),
        t[COL_BAL as int][0] < 0x8000_0000_0000_0000,
        t[COL_AMT as int][0] < 0x8000_0000_0000_0000,
        sub_spec(t[COL_BAL as int][0], t[COL_AMT as int][0]) < 0x8000_0000_0000_0000,
        sub_spec(t[COL_LIM as int][0], t[COL_AMT as int][0]) < 0x8000_0000_0000_0000,
        t[COL_AMT as int][0] <= MODULUS - 0x8000_0000_0000_0000 ==> t[COL_AMT as int][0] <= t[COL_BAL as int][0]
            && t[COL_AMT as int][0] <= t[COL_LIM as int][0],
{
    assert forall|r: int| #![trigger periodic_row(r)] 0 <= r < TRACE_LENGTH - 1 implies range_step_facts(row_of(t, r), row_of(t, r + 1), periodic_row(r)) by {
        let cur = row_of(t, r);
        let nxt = row_of(t, r + 1);
        assert forall|k: int| 0 <= k < NUM_CONSTRAINTS implies #[trigger] constraint_spec(k, cur, nxt, periodic_row(r)) == 0 by {
            assert(constraint_spec(k, row_of(t, r), row_of(t, r + 1), periodic_row(r)) == 0);
        }
        assert forall|c: int| 0 <= c < TRACE_WIDTH implies #[trigger] cur[c] < MODULUS && nxt[c] < MODULUS by {
            assert(all_canonical(t[c]@));
        }
        lemma_accepted_range_step(cur, nxt, periodic_row(r));
    }
    let bal = t[COL_BAL as int]@;
    let amt = t[COL_AMT as int]@;
    let lim = t[COL_LIM as int]@;
    assert forall|q: int| 0 <= q < 255 implies #[trigger] bal[q + 1] == bal[q] by {
        assert(range_step_facts(row_of(t, q), row_of(t, q + 1), periodic_row(q)));
    }
    assert forall|q: int| 0 <= q < 255 implies #[trigger] amt[q + 1] == amt[q] by {
        assert(range_step_facts(row_of(t, q), row_of(t, q + 1), periodic_row(q)));
    }
    assert forall|q: int| 0 <= q < 255 implies #[trigger] lim[q + 1] == lim[q] by {
        assert(range_step_facts(row_of(t, q), row_of(t, q + 1), periodic_row(q)));
    }
    lemma_column_kept(bal, 254);
    lemma_column_kept(amt, 254);
    lemma_column_kept(lim, 254);
    assert(periodic_row(62)[31] == 1) by {
        let one: Seq<usize> = seq![(64 * (31 - 30) - 2) as usize];
        assert(one[0] == 62);
        assert(periodic_row(62)[31] == selector_spec(one, 62));
    }
    assert(range_step_facts(row_of(t, 62), row_of(t, 63), periodic_row(62)));
    assert(periodic_row(126)[32] == 1) by {
        let one: Seq<usize> = seq![(64 * (32 - 30) - 2) as usize];
        assert(one[0] == 126);
        assert(periodic_row(126)[32] == selector_spec(one, 126));
    }
    assert(range_step_facts(row_of(t, 126), row_of(t, 127), periodic_row(126)));
    assert(periodic_row(190)[33] == 1) by {
        let one: Seq<usize> = seq![(64 * (33 - 30) - 2) as usize];
        assert(one[0] == 190);
        assert(periodic_row(190)[33] == selector_spec(one, 190));
    }
    assert(range_step_facts(row_of(t, 190), row_of(t, 191), periodic_row(190)));
    assert(periodic_row(254)[34] == 1) by {
        let one: Seq<usize> = seq![(64 * (34 - 30) - 2) as usize];
        assert(one[0] == 254);
        assert(periodic_row(254)[34] == selector_spec(one, 254));
    }
    assert(range_step_facts(row_of(t, 254), row_of(t, 255), periodic_row(254)));
    assert(bal[62] == bal[0] && amt[126] == amt[0] && bal[190] == bal[0] && amt[190] == amt[0]);
    assert(lim[254] == lim[0] && amt[254] == amt[0]);
    lemma_accepted_range_segment(t, 0);
    lemma_accepted_range_segment(t, 64);
    lemma_accepted_range_segment(t, 128);
    lemma_accepted_range_segment(t, 192);
    assert(all_canonical(bal) && all_canonical(lim));
    assert(bal[0] < MODULUS && lim[0] < MODULUS);
    if amt[0] <= MODULUS - 0x8000_0000_0000_0000 {
        lemma_checked_difference(bal[0], amt[0]);
        lemma_checked_difference(lim[0], amt[0]);
    }
}

} // verus!
