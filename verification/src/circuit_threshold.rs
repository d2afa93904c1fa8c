//! Two-of-N issuance authority: two distinct custodians of a committed set
//! authorise. Each lane derives a custodian identity from its key and
//! climbs the four levels of the custodian tree; the indices are rebuilt
//! from the direction bits and range-checked so that `index_a < index_b`.
//!
//! Columns: 0..12 lane A, 12..24 lane B, 24/25 direction bits, 26/27 keys,
//! 28/29 declared indices, 30/31 index accumulators, 32/33 range-check bit
//! and accumulator.

use vstd::prelude::*;
use crate::domains::CUSTODIAN_DOMAIN;
use crate::constraints::{lemma_equal, lemma_reduce_canonical, lemma_selected, lemma_selected_equal, rounds_hold, round_residuals, round_residuals_spec};
use crate::field::{MODULUS, add_spec, all_canonical, fadd, felt, fmul, fsub, mul_spec, reduce, sub_spec};
use crate::lane::CYCLE_LENGTH;
use crate::merkle::{climb_lane, climb_lane_start, climb_levels, climb_spec, climb_step, place_state, sibling_seqs, siblings_canonical};
use crate::periodic::{ark_spec, bits_value, continue_column, continue_spec, hash_flag_spec, index_acc_column, levels_done, point_column, point_spec, round_columns, selector_column, selector_spec};
use vstd::arithmetic::power2::pow2;
use crate::prime::lemma_field_bit;
use crate::rescue::{lemma_digest_row, as_digest, as_digest_spec, digest_of, merge_spec, merge_state, native_merge, rounds, Digest};
use crate::solvency::{lemma_accepted_run, lemma_checked_gap, seg_acc, seg_bit, segment_columns};
use crate::trace::{lemma_column_kept, row_of, columns_shape, constant_column, cycle_bit_column, cycle_bit_spec, lane_columns};

verus! {

pub const CYCLE: usize = 8;
pub const TRACE_LENGTH: usize = 64;
/// Depth of the custodian tree: up to 16 custodians.
pub const CUSTODIAN_DEPTH: usize = 4;
/// Bits of the range checks: the indices are small.
pub const SEGMENT_LENGTH: usize = 8;
/// Segments: index A, index B, and `B - A - 1`.
pub const NUM_SEGMENTS: usize = 3;

pub const LANE_B: usize = 12;
pub const COL_BIT_A: usize = 24;
pub const COL_BIT_B: usize = 25;
pub const COL_KEY_A: usize = 26;
pub const COL_KEY_B: usize = 27;
pub const COL_IDX_A: usize = 28;
pub const COL_IDX_B: usize = 29;
pub const COL_ACC_A: usize = 30;
pub const COL_ACC_B: usize = 31;
pub const COL_SBIT: usize = 32;
pub const COL_SACC: usize = 33;
pub const TRACE_WIDTH: usize = 34;

/// Last active row: the root of the custodian set.
pub const ROW_ROOT: usize = 39;

/// A custodian's public identity: `Rescue(CUSTODIAN_DOMAIN, key)`.
pub open spec fn custodian_id_spec(key: u64) -> Seq<u64> {
    merge_spec(as_digest_spec(CUSTODIAN_DOMAIN), as_digest_spec(key))
}

/// Public identity of a custodian from its key.
pub fn derive_custodian_id(key: u64) -> (r: Digest)
    requires
        key < MODULUS,
    ensures
        r@ == custodian_id_spec(key),
        all_canonical(r@),
{
    native_merge(&as_digest(CUSTODIAN_DOMAIN), &as_digest(key))
}

/// Authentication path inside the custodian set.
#[derive(Clone, Debug)]
pub struct CustodianPath {
    pub siblings: Vec<Digest>,
    pub is_right: Vec<bool>,
}

/// Leaf `j` of the custodian tree: the identity of key `j`, or zero past
/// the last key.
pub open spec fn custodian_leaf(keys: Seq<u64>, j: int) -> Seq<u64> {
    if 0 <= j < keys.len() {
        custodian_id_spec(keys[j])
    } else {
        seq![0u64, 0u64, 0u64, 0u64]
    }
}

/// Node `j` of level `l` of the custodian tree (level 0 holds the leaves).
pub open spec fn tree_node(keys: Seq<u64>, l: nat, j: int) -> Seq<u64>
    decreases l,
{
    if l == 0 {
        custodian_leaf(keys, j)
    } else {
        merge_spec(tree_node(keys, (l - 1) as nat, 2 * j), tree_node(keys, (l - 1) as nat, 2 * j + 1))
    }
}

/// The number of nodes at level `l` of the custodian tree.
pub open spec fn level_size(l: int) -> int {
    if l <= 0 {
        16
    } else if l == 1 {
        8
    } else if l == 2 {
        4
    } else if l == 3 {
        2
    } else {
        1
    }
}

/// The position, at level `l`, of the node above leaf `i`.
pub open spec fn node_index(i: int, l: nat) -> int
    decreases l,
{
    if l == 0 {
        i
    } else {
        node_index(i, (l - 1) as nat) / 2
    }
}

/// The other child of the same parent.
pub open spec fn sibling_index(j: int) -> int {
    if j % 2 == 0 {
        j + 1
    } else {
        j - 1
    }
}

/// The path of leaf `i`: its sibling at each level, and whether it is the
/// right child there.
pub open spec fn is_path_of(keys: Seq<u64>, i: int, path: CustodianPath) -> bool {
    &&& path.siblings.len() == CUSTODIAN_DEPTH
    &&& path.is_right.len() == CUSTODIAN_DEPTH
    &&& forall|l: int|
        0 <= l < CUSTODIAN_DEPTH ==> #[trigger] path.siblings[l]@ == tree_node(
            keys,
            l as nat,
            sibling_index(node_index(i, l as nat)),
        )
    &&& forall|l: int| 0 <= l < CUSTODIAN_DEPTH ==> #[trigger] path.is_right[l] == (node_index(i, l as nat) % 2 == 1)
}

/// Climbing the path of leaf `i` for `l` levels reaches the node above it
/// at level `l`; after four levels, the root.
pub proof fn lemma_path_climbs_to_node(keys: Seq<u64>, i: int, path: CustodianPath, l: nat)
    requires
        0 <= i,
        is_path_of(keys, i, path),
        l <= CUSTODIAN_DEPTH,
    ensures
        climb_spec(custodian_leaf(keys, i), sibling_seqs(path.siblings@), path.is_right@, l) == tree_node(
            keys,
            l,
            node_index(i, l),
        ),
    decreases l,
{
    if l > 0 {
        let m = (l - 1) as nat;
        lemma_path_climbs_to_node(keys, i, path, m);
        let j = node_index(i, m);
        assert(path.siblings[m as int]@ == tree_node(keys, m, sibling_index(j)));
        assert(sibling_seqs(path.siblings@)[m as int] == path.siblings@[m as int]@);
        assert(node_index(i, l) == j / 2);
        if j % 2 == 0 {
            assert(2 * (j / 2) == j);
        } else {
            assert(2 * (j / 2) == j - 1);
        }
    }
}

/// Builds the custodian set: its root, and the path of each custodian. The
/// set holds 16 positions; the unused ones are zero leaves.
pub fn build_custodian_set(keys: &Vec<u64>) -> (r: (Digest, Vec<CustodianPath>))
    requires
        keys.len() <= 16,
        all_canonical(keys@),
    ensures
        r.0@ == tree_node(keys@, CUSTODIAN_DEPTH as nat, 0),
        r.1.len() == keys.len(),
        forall|i: int| 0 <= i < keys.len() ==> is_path_of(keys@, i, #[trigger] r.1[i]),
        forall|i: int| 0 <= i < keys.len() ==> siblings_canonical((#[trigger] r.1[i]).siblings@),
{
    let mut leaves: Vec<Digest> = Vec::new();
    let mut j: usize = 0;
    while j < 16
        invariant
            j <= 16,
            keys.len() <= 16,
            all_canonical(keys@),
            leaves.len() == j,
            forall|jj: int| 0 <= jj < j ==> (#[trigger] leaves[jj])@ == tree_node(keys@, 0, jj),
            forall|jj: int| 0 <= jj < j ==> all_canonical((#[trigger] leaves[jj])@),
        decreases 16 - j,
    {
        if j < keys.len() {
            leaves.push(derive_custodian_id(keys[j]));
        } else {
            let z: Digest = [0, 0, 0, 0];
            assert(z@ =~= seq![0u64, 0u64, 0u64, 0u64]);
            leaves.push(z);
        }
        j = j + 1;
    }
    let mut levels: Vec<Vec<Digest>> = Vec::new();
    levels.push(leaves);
    let mut size: usize = 16;
    let mut l: usize = 0;
    while l < CUSTODIAN_DEPTH
        invariant
            l <= CUSTODIAN_DEPTH,
            levels.len() == l + 1,
            size == level_size(l as int),
            forall|ll: int| 0 <= ll <= l ==> (#[trigger] levels[ll]).len() == level_size(ll),
            forall|ll: int, jj: int|
                0 <= ll <= l && 0 <= jj < levels[ll].len() ==> (#[trigger] levels[ll][jj])@ == tree_node(
                    keys@,
                    ll as nat,
                    jj,
                ),
            forall|ll: int, jj: int|
                0 <= ll <= l && 0 <= jj < levels[ll].len() ==> all_canonical((#[trigger] levels[ll][jj])@),
        decreases CUSTODIAN_DEPTH - l,
    {
        let mut next: Vec<Digest> = Vec::new();
        let half: usize = size / 2;
        let mut jj: usize = 0;
        while jj < half
            invariant
                jj <= half,
                half * 2 == size,
                levels.len() == l + 1,
                levels[l as int].len() == size,
                l < CUSTODIAN_DEPTH,
                forall|j2: int| 0 <= j2 < size ==> (#[trigger] levels[l as int][j2])@ == tree_node(keys@, l as nat, j2),
                forall|j2: int| 0 <= j2 < size ==> all_canonical((#[trigger] levels[l as int][j2])@),
                next.len() == jj,
                forall|j2: int| 0 <= j2 < jj ==> (#[trigger] next[j2])@ == tree_node(keys@, (l + 1) as nat, j2),
                forall|j2: int| 0 <= j2 < jj ==> all_canonical((#[trigger] next[j2])@),
            decreases half - jj,
        {
            let m = native_merge(&levels[l][2 * jj], &levels[l][2 * jj + 1]);
            next.push(m);
            jj = jj + 1;
        }
        levels.push(next);
        size = half;
        l = l + 1;
    }
    let root = levels[CUSTODIAN_DEPTH][0];

    let mut paths: Vec<CustodianPath> = Vec::new();
    let mut index: usize = 0;
    while index < keys.len()
        invariant
            index <= keys.len(),
            keys.len() <= 16,
            levels.len() == 5,
            forall|ll: int| 0 <= ll <= 4 ==> (#[trigger] levels[ll]).len() == level_size(ll),
            forall|ll: int, jj: int|
                0 <= ll <= 4 && 0 <= jj < levels[ll].len() ==> (#[trigger] levels[ll][jj])@ == tree_node(
                    keys@,
                    ll as nat,
                    jj,
                ),
            forall|ll: int, jj: int|
                0 <= ll <= 4 && 0 <= jj < levels[ll].len() ==> all_canonical((#[trigger] levels[ll][jj])@),
            paths.len() == index,
            forall|i: int| 0 <= i < index ==> is_path_of(keys@, i, #[trigger] paths[i]),
            forall|i: int| 0 <= i < index ==> siblings_canonical((#[trigger] paths[i]).siblings@),
        decreases keys.len() - index,
    {
        let mut siblings: Vec<Digest> = Vec::new();
        let mut is_right: Vec<bool> = Vec::new();
        let mut idx: usize = index;
        let mut level: usize = 0;
        while level < CUSTODIAN_DEPTH
            invariant
                level <= CUSTODIAN_DEPTH,
                index < 16,
                idx as int == node_index(index as int, level as nat),
                idx < level_size(level as int),
                levels.len() == 5,
                forall|ll: int| 0 <= ll <= 4 ==> (#[trigger] levels[ll]).len() == level_size(ll),
                forall|ll: int, jj: int|
                    0 <= ll <= 4 && 0 <= jj < levels[ll].len() ==> (#[trigger] levels[ll][jj])@ == tree_node(
                        keys@,
                        ll as nat,
                        jj,
                    ),
                forall|ll: int, jj: int|
                    0 <= ll <= 4 && 0 <= jj < levels[ll].len() ==> all_canonical((#[trigger] levels[ll][jj])@),
                siblings.len() == level,
                is_right.len() == level,
                forall|l2: int|
                    0 <= l2 < level ==> #[trigger] siblings[l2]@ == tree_node(
                        keys@,
                        l2 as nat,
                        sibling_index(node_index(index as int, l2 as nat)),
                    ),
                forall|l2: int| 0 <= l2 < level ==> all_canonical((#[trigger] siblings[l2])@),
                forall|l2: int|
                    0 <= l2 < level ==> #[trigger] is_right[l2] == (node_index(index as int, l2 as nat) % 2 == 1),
            decreases CUSTODIAN_DEPTH - level,
        {
            let sib: usize = if idx % 2 == 0 { idx + 1 } else { idx - 1 };
            siblings.push(levels[level][sib]);
            is_right.push(idx % 2 == 1);
            idx = idx / 2;
            level = level + 1;
        }
        paths.push(CustodianPath { siblings, is_right });
        index = index + 1;
    }
    (root, paths)
}

/// Climbs an identity up the four levels of the custodian set.
pub fn climb(leaf: &Digest, path: &CustodianPath) -> (r: Digest)
    requires
        all_canonical(leaf@),
        siblings_canonical(path.siblings@),
        path.siblings.len() >= CUSTODIAN_DEPTH,
        path.is_right.len() >= CUSTODIAN_DEPTH,
    ensures
        r@ == climb_spec(leaf@, sibling_seqs(path.siblings@), path.is_right@, CUSTODIAN_DEPTH as nat),
        all_canonical(r@),
{
    climb_levels(leaf, &path.siblings, &path.is_right, CUSTODIAN_DEPTH)
}


/// A custodian path the circuit can climb: four levels, canonical siblings.
pub open spec fn path_ok(path: CustodianPath) -> bool {
    &&& path.siblings.len() >= CUSTODIAN_DEPTH
    &&& path.is_right.len() >= CUSTODIAN_DEPTH
    &&& siblings_canonical(path.siblings@)
}

/// The start state of cycle `c` of a lane: the identity derivation, then
/// one level of the custodian tree per cycle.
pub open spec fn lane_start_spec(key: u64, path: CustodianPath, c: int) -> Seq<u64> {
    climb_lane_start(
        merge_state(as_digest_spec(CUSTODIAN_DOMAIN), as_digest_spec(key)),
        sibling_seqs(path.siblings@),
        path.is_right@,
        c,
    )
}

/// The value of a lane column at row `r`.
pub open spec fn lane_cell(key: u64, path: CustodianPath, i: int, r: int) -> u64 {
    if r <= ROW_ROOT {
        rounds(lane_start_spec(key, path, r / 8), (r % 8) as nat)[i]
    } else {
        0
    }
}

/// The values the range checks cover: both indices and `B - A - 1`.
pub open spec fn segment_values_spec(index_a: u64, index_b: u64) -> Seq<u64> {
    seq![index_a, index_b, sub_spec(sub_spec(reduce(index_b as int), reduce(index_a as int)), 1)]
}

/// The value of the trace at column `col` and row `r`.
pub open spec fn cell_spec(
    key_a: u64,
    index_a: u64,
    path_a: CustodianPath,
    key_b: u64,
    index_b: u64,
    path_b: CustodianPath,
    col: int,
    r: int,
) -> u64 {
    let segs = segment_values_spec(index_a, index_b);
    if col < LANE_B {
        lane_cell(key_a, path_a, col, r)
    } else if col < 24 {
        lane_cell(key_b, path_b, col - LANE_B, r)
    } else if col == COL_BIT_A {
        cycle_bit_spec(path_a.is_right@.subrange(0, 4), 1, r)
    } else if col == COL_BIT_B {
        cycle_bit_spec(path_b.is_right@.subrange(0, 4), 1, r)
    } else if col == COL_KEY_A {
        key_a
    } else if col == COL_KEY_B {
        key_b
    } else if col == COL_IDX_A {
        reduce(index_a as int)
    } else if col == COL_IDX_B {
        reduce(index_b as int)
    } else if col == COL_ACC_A {
        reduce(bits_value(path_a.is_right@, levels_done(r, 4) as nat))
    } else if col == COL_ACC_B {
        reduce(bits_value(path_b.is_right@, levels_done(r, 4) as nat))
    } else if col == COL_SBIT {
        if r < 24 {
            seg_bit(segs[r / 8], 8, (r % 8) as nat)
        } else {
            0
        }
    } else {
        if r < 24 {
            reduce(seg_acc(segs[r / 8], 8, (r % 8) as nat) as int)
        } else {
            0
        }
    }
}

pub(crate) fn threshold_lane(key: u64, path: &CustodianPath) -> (lane: Vec<[u64; 12]>)
    requires
        key < MODULUS,
        path_ok(*path),
    ensures
        lane.len() == ROW_ROOT + 1,
        forall|r: int| 0 <= r < lane.len() ==> all_canonical(#[trigger] lane[r]@),
        forall|r: int| 0 <= r <= ROW_ROOT ==> #[trigger] lane[r]@ == rounds(lane_start_spec(key, *path, r / 8), (r % 8) as nat),
        forall|c: int| 0 <= c <= CUSTODIAN_DEPTH ==> #[trigger] rounds_hold(lane_start_spec(key, *path, c)),
{
    let s0: [u64; 12] = [0, 0, 0, 0, CUSTODIAN_DOMAIN, 0, 0, 0, key, 0, 0, 0];
    assert(s0@ =~= merge_state(as_digest_spec(CUSTODIAN_DOMAIN), as_digest_spec(key)));
    let lane = climb_lane(&s0, &path.siblings, &path.is_right, CUSTODIAN_DEPTH);
    assert forall|r: int| 0 <= r <= ROW_ROOT implies #[trigger] lane@[r]@ == rounds(lane_start_spec(key, *path, r / 8), (r % 8) as nat) by {
        let c = r / 8;
        let k = r % 8;
        assert(r == CYCLE_LENGTH * (c as nat) + (k as nat));
    }
    assert forall|c: int| 0 <= c <= CUSTODIAN_DEPTH implies #[trigger] rounds_hold(lane_start_spec(key, *path, c)) by {
        assert(rounds_hold(climb_lane_start(s0@, sibling_seqs(path.siblings@), path.is_right@, (c as nat) as int)));
    }
    lane
}

/// Builds the trace of a two-of-N authorisation. It does not check that
/// `index_a < index_b`: a trace with equal or reversed indices is built
/// just the same, and the range check on `B - A - 1` is what rejects it.
pub fn build_trace(
    key_a: u64,
    index_a: u64,
    path_a: &CustodianPath,
    key_b: u64,
    index_b: u64,
    path_b: &CustodianPath,
) -> (cols: Vec<Vec<u64>>)
    requires
        key_a < MODULUS,
        key_b < MODULUS,
        path_ok(*path_a),
        path_ok(*path_b),
    ensures
        cols.len() == TRACE_WIDTH,
        columns_shape(cols@, TRACE_LENGTH as nat),
        forall|col: int, r: int|
            0 <= col < TRACE_WIDTH && 0 <= r < TRACE_LENGTH ==> #[trigger] cols[col][r] == cell_spec(
                key_a,
                index_a,
                *path_a,
                key_b,
                index_b,
                *path_b,
                col,
                r,
            ),
        forall|r: int, k: int|
            0 <= r < TRACE_LENGTH - 1 && 0 <= k < 24 ==> #[trigger] constraint_spec(
                k,
                row_of(cols@, r),
                row_of(cols@, r + 1),
                periodic_row(r),
            ) == 0,
        index_a as int == bits_value(path_a.is_right@, 4) && index_b as int == bits_value(path_b.is_right@, 4)
            && index_a < index_b ==> forall|r: int, k: int|
            0 <= r < TRACE_LENGTH - 1 && 0 <= k < NUM_CONSTRAINTS ==> #[trigger] constraint_spec(
                k,
                row_of(cols@, r),
                row_of(cols@, r + 1),
                periodic_row(r),
            ) == 0,
{
    let lane_a = threshold_lane(key_a, path_a);
    let lane_b = threshold_lane(key_b, path_b);
    let mut cols = lane_columns(&lane_a, TRACE_LENGTH);
    let mut cols_b = lane_columns(&lane_b, TRACE_LENGTH);
    cols.append(&mut cols_b);

    let mut bits_a: Vec<bool> = Vec::new();
    let mut bits_b: Vec<bool> = Vec::new();
    let mut level: usize = 0;
    while level < CUSTODIAN_DEPTH
        invariant
            level <= CUSTODIAN_DEPTH,
            path_ok(*path_a),
            path_ok(*path_b),
            bits_a@ =~= path_a.is_right@.subrange(0, level as int),
            bits_b@ =~= path_b.is_right@.subrange(0, level as int),
        decreases CUSTODIAN_DEPTH - level,
    {
        bits_a.push(path_a.is_right[level]);
        bits_b.push(path_b.is_right[level]);
        level = level + 1;
    }
    cols.push(cycle_bit_column(&bits_a, 1, TRACE_LENGTH));
    cols.push(cycle_bit_column(&bits_b, 1, TRACE_LENGTH));
    cols.push(constant_column(key_a, TRACE_LENGTH));
    cols.push(constant_column(key_b, TRACE_LENGTH));
    let idx_a = felt(index_a);
    let idx_b = felt(index_b);
    cols.push(constant_column(idx_a, TRACE_LENGTH));
    cols.push(constant_column(idx_b, TRACE_LENGTH));
    cols.push(index_acc_column(&path_a.is_right, CUSTODIAN_DEPTH, TRACE_LENGTH));
    cols.push(index_acc_column(&path_b.is_right, CUSTODIAN_DEPTH, TRACE_LENGTH));

    let diff = fsub(fsub(idx_b, idx_a), 1);
    let segment_values: Vec<u64> = vec![index_a, index_b, diff];
    assert(segment_values@ =~= segment_values_spec(index_a, index_b));
    let (bit_col, acc_col) = segment_columns(&segment_values, SEGMENT_LENGTH, TRACE_LENGTH);
    cols.push(bit_col);
    cols.push(acc_col);
    proof {
        assert forall|col: int, r: int|
            0 <= col < TRACE_WIDTH && 0 <= r < TRACE_LENGTH implies #[trigger] cols[col][r] == cell_spec(
            key_a,
            index_a,
            *path_a,
            key_b,
            index_b,
            *path_b,
            col,
            r,
        ) by {
            if (col == COL_SBIT || col == COL_SACC) && r < 24 {
                let s = r / 8;
                let p = r % 8;
                assert(r == s * 8 + p);
            }
        }
        assert(columns_shape(cols@, TRACE_LENGTH as nat));
    }
    proof {
        assert forall|r: int, k: int|
            0 <= r < TRACE_LENGTH - 1 && 0 <= k < 24 implies #[trigger] constraint_spec(
            k,
            row_of(cols@, r),
            row_of(cols@, r + 1),
            periodic_row(r),
        ) == 0 by {
            lemma_trace_satisfies_round_constraints(key_a, index_a, *path_a, key_b, index_b, *path_b, cols@, r);
        }
        if index_a as int == bits_value(path_a.is_right@, 4) && index_b as int == bits_value(path_b.is_right@, 4)
            && index_a < index_b {
            assert forall|r: int, k: int|
                0 <= r < TRACE_LENGTH - 1 && 0 <= k < NUM_CONSTRAINTS implies #[trigger] constraint_spec(
                k,
                row_of(cols@, r),
                row_of(cols@, r + 1),
                periodic_row(r),
            ) == 0 by {
                lemma_trace_satisfies_constraints(key_a, index_a, *path_a, key_b, index_b, *path_b, cols@, r);
            }
        }
    }
    cols
}


/// The climbed root of a lane: the identity of `key` taken up the four
/// levels of `path`.
pub open spec fn lane_root_spec(key: u64, path: CustodianPath) -> Seq<u64> {
    climb_spec(custodian_id_spec(key), sibling_seqs(path.siblings@), path.is_right@, CUSTODIAN_DEPTH as nat)
}

/// Where the trace shows the native computations: each lane's root row
/// holds the identity climbed up its path, and the index accumulators end
/// on the value of the direction bits.
pub proof fn lemma_trace_landmarks(
    key_a: u64,
    index_a: u64,
    path_a: CustodianPath,
    key_b: u64,
    index_b: u64,
    path_b: CustodianPath,
)
    requires
        path_ok(path_a),
        path_ok(path_b),
    ensures
        forall|i: int|
            0 <= i < 4 ==> #[trigger] cell_spec(key_a, index_a, path_a, key_b, index_b, path_b, 4 + i, ROW_ROOT as int)
                == lane_root_spec(key_a, path_a)[i],
        forall|i: int|
            0 <= i < 4 ==> #[trigger] cell_spec(
                key_a,
                index_a,
                path_a,
                key_b,
                index_b,
                path_b,
                LANE_B + 4 + i,
                ROW_ROOT as int,
            ) == lane_root_spec(key_b, path_b)[i],
        cell_spec(key_a, index_a, path_a, key_b, index_b, path_b, COL_ACC_A as int, ROW_ROOT as int) == reduce(
            bits_value(path_a.is_right@, 4),
        ),
        cell_spec(key_a, index_a, path_a, key_b, index_b, path_b, COL_ACC_B as int, ROW_ROOT as int) == reduce(
            bits_value(path_b.is_right@, 4),
        ),
{
    assert((ROW_ROOT as int) / 8 == 4 && (ROW_ROOT as int) % 8 == 7);
    let sa = lane_start_spec(key_a, path_a, 4);
    let sb = lane_start_spec(key_b, path_b, 4);
    lemma_digest_row(sa);
    lemma_digest_row(sb);
    let ida = custodian_id_spec(key_a);
    let idb = custodian_id_spec(key_b);
    assert(digest_of(merge_state(as_digest_spec(CUSTODIAN_DOMAIN), as_digest_spec(key_a))) == ida);
    assert(digest_of(merge_state(as_digest_spec(CUSTODIAN_DOMAIN), as_digest_spec(key_b))) == idb);
    assert(climb_spec(ida, sibling_seqs(path_a.siblings@), path_a.is_right@, 4) == climb_step(
        climb_spec(ida, sibling_seqs(path_a.siblings@), path_a.is_right@, 3),
        sibling_seqs(path_a.siblings@)[3],
        path_a.is_right@[3],
    ));
    assert(climb_spec(idb, sibling_seqs(path_b.siblings@), path_b.is_right@, 4) == climb_step(
        climb_spec(idb, sibling_seqs(path_b.siblings@), path_b.is_right@, 3),
        sibling_seqs(path_b.siblings@)[3],
        path_b.is_right@[3],
    ));
}

/// The public input: the root of the authorised custodian set. The
/// indices and keys of the signers stay private.
#[derive(Clone, Debug)]
pub struct ThresholdPublicInputs {
    pub custodian_set_root: Digest,
}

impl ThresholdPublicInputs {
    pub fn to_elements(&self) -> (r: Vec<u64>)
        ensures
            r@ == self.custodian_set_root@,
    {
        let r = vec![
            self.custodian_set_root[0],
            self.custodian_set_root[1],
            self.custodian_set_root[2],
            self.custodian_set_root[3],
        ];
        assert(r@ =~= self.custodian_set_root@);
        r
    }
}

/// The public input a trace shows: lane A's state at the root row.
pub fn public_inputs_of(trace: &Vec<Vec<u64>>) -> (pi: ThresholdPublicInputs)
    requires
        trace.len() == TRACE_WIDTH,
        columns_shape(trace@, TRACE_LENGTH as nat),
    ensures
        forall|i: int| 0 <= i < 4 ==> #[trigger] pi.custodian_set_root[i] == trace[4 + i][ROW_ROOT as int],
{
    ThresholdPublicInputs {
        custodian_set_root: [trace[4][ROW_ROOT], trace[5][ROW_ROOT], trace[6][ROW_ROOT], trace[7][ROW_ROOT]],
    }
}

/// Tree links: the last row of cycles 0..4.
pub open spec fn tree_link_points() -> Seq<(usize, u64)> {
    seq![(7usize, 1u64), (15usize, 1u64), (23usize, 1u64), (31usize, 1u64)]
}

/// Powers of two on the tree links: level `l` weighs `2^l`.
pub open spec fn pow2_points() -> Seq<(usize, u64)> {
    seq![(7usize, 1u64), (15usize, 2u64), (23usize, 4u64), (31usize, 8u64)]
}

/// The value of periodic column `j` at row `r`.
pub open spec fn periodic_spec(j: int, r: int) -> u64 {
    if j == 0 {
        hash_flag_spec(ROW_ROOT + 1, r)
    } else if j < 13 {
        ark_spec(false, j - 1, ROW_ROOT + 1, r)
    } else if j < 25 {
        ark_spec(true, j - 13, ROW_ROOT + 1, r)
    } else if j == 25 {
        point_spec(tree_link_points(), r)
    } else if j == 26 {
        point_spec(pow2_points(), r)
    } else if j == 27 {
        selector_spec(seq![0usize], r)
    } else if j == 28 {
        selector_spec(seq![ROW_ROOT], r)
    } else if j == 29 {
        selector_spec(seq![0usize, 8, 16], r)
    } else if j == 30 {
        continue_spec(NUM_SEGMENTS as int, SEGMENT_LENGTH as int, r)
    } else {
        selector_spec(seq![(8 * (j - 30) - 2) as usize], r)
    }
}

/// The 34 periodic columns.
pub fn periodic_columns() -> (cols: Vec<Vec<u64>>)
    ensures
        cols.len() == 34,
        forall|j: int| 0 <= j < 34 ==> (#[trigger] cols[j]).len() == TRACE_LENGTH,
        forall|j: int, r: int| 0 <= j < 34 && 0 <= r < TRACE_LENGTH ==> #[trigger] cols[j][r] == periodic_spec(j, r),
        forall|j: int| 0 <= j < 34 ==> all_canonical(#[trigger] cols[j]@),
{
    let mut cols = round_columns(ROW_ROOT + 1, TRACE_LENGTH);
    let ghost rounds = cols@;
    let links = vec![(7usize, 1u64), (15usize, 1u64), (23usize, 1u64), (31usize, 1u64)];
    assert(links@ =~= tree_link_points());
    cols.push(point_column(&links, TRACE_LENGTH));
    let pows = vec![(7usize, 1u64), (15usize, 2u64), (23usize, 4u64), (31usize, 8u64)];
    assert(pows@ =~= pow2_points());
    cols.push(point_column(&pows, TRACE_LENGTH));
    let first = vec![0usize];
    assert(first@ =~= seq![0usize]);
    cols.push(selector_column(&first, TRACE_LENGTH));
    let root = vec![ROW_ROOT];
    assert(root@ =~= seq![ROW_ROOT]);
    cols.push(selector_column(&root, TRACE_LENGTH));
    let starts = vec![0usize, 8, 16];
    assert(starts@ =~= seq![0usize, 8, 16]);
    cols.push(selector_column(&starts, TRACE_LENGTH));
    cols.push(continue_column(NUM_SEGMENTS, SEGMENT_LENGTH, TRACE_LENGTH));
    let mut seg: usize = 0;
    while seg < NUM_SEGMENTS
        invariant
            seg <= NUM_SEGMENTS,
            cols.len() == 31 + seg,
            forall|j: int| 0 <= j < cols.len() ==> (#[trigger] cols[j]).len() == TRACE_LENGTH,
            forall|j: int, r: int|
                0 <= j < cols.len() && 0 <= r < TRACE_LENGTH ==> #[trigger] cols[j][r] == periodic_spec(j, r),
        decreases NUM_SEGMENTS - seg,
    {
        let rows = vec![(seg + 1) * SEGMENT_LENGTH - 2];
        assert(rows@ =~= seq![(8 * ((31 + seg) as int - 30) - 2) as usize]);
        cols.push(selector_column(&rows, TRACE_LENGTH));
        seg = seg + 1;
    }
    proof {
        assert forall|j: int| 0 <= j < 34 implies all_canonical(#[trigger] cols[j]@) by {
            assert forall|r: int| 0 <= r < cols[j]@.len() implies #[trigger] cols[j]@[r] < MODULUS by {
                if j < 25 {
                    assert(all_canonical(rounds[j]@));
                    assert(rounds[j][r] == cols[j][r]);
                } else {
                    reveal_with_fuel(point_spec, 5);
                    assert(cols[j][r] == periodic_spec(j, r));
                }
            }
        }
    }
    cols
}

/// Assertion `j`: (column, row, value).
pub open spec fn assertion_spec(root: Seq<u64>, j: int) -> (usize, usize, u64) {
    if j < 8 {
        if j % 2 == 0 {
            ((j / 2) as usize, 0usize, 0u64)
        } else {
            ((LANE_B + j / 2) as usize, 0usize, 0u64)
        }
    } else if j == 8 {
        (4usize, 0usize, CUSTODIAN_DOMAIN)
    } else if j == 9 {
        ((LANE_B + 4) as usize, 0usize, CUSTODIAN_DOMAIN)
    } else if j < 16 {
        if j % 2 == 0 {
            ((5 + (j - 10) / 2) as usize, 0usize, 0u64)
        } else {
            ((LANE_B + 5 + (j - 10) / 2) as usize, 0usize, 0u64)
        }
    } else if j == 16 {
        (COL_ACC_A, 0usize, 0u64)
    } else if j == 17 {
        (COL_ACC_B, 0usize, 0u64)
    } else {
        if j % 2 == 0 {
            ((4 + (j - 18) / 2) as usize, ROW_ROOT, root[(j - 18) / 2])
        } else {
            ((LANE_B + 4 + (j - 18) / 2) as usize, ROW_ROOT, root[(j - 18) / 2])
        }
    }
}

/// The 26 boundary assertions: zero capacity and padding, the anchored
/// domain, zero accumulators at row 0, and both lanes ending on the
/// declared set root.
pub fn assertions(pi: &ThresholdPublicInputs) -> (a: Vec<(usize, usize, u64)>)
    ensures
        a.len() == 26,
        forall|j: int| 0 <= j < 26 ==> #[trigger] a[j] == assertion_spec(pi.custodian_set_root@, j),
{
    let mut a: Vec<(usize, usize, u64)> = Vec::new();
    let ghost root = pi.custodian_set_root@;
    let mut i: usize = 0;
    while i < 4
        invariant
            i <= 4,
            a.len() == 2 * i,
            forall|j: int| 0 <= j < a.len() ==> #[trigger] a[j] == assertion_spec(root, j),
        decreases 4 - i,
    {
        a.push((i, 0, 0));
        a.push((LANE_B + i, 0, 0));
        i = i + 1;
    }
    a.push((4, 0, CUSTODIAN_DOMAIN));
    a.push((LANE_B + 4, 0, CUSTODIAN_DOMAIN));
    let mut i: usize = 5;
    while i < 8
        invariant
            5 <= i <= 8,
            a.len() == 10 + 2 * (i - 5),
            forall|j: int| 0 <= j < a.len() ==> #[trigger] a[j] == assertion_spec(root, j),
        decreases 8 - i,
    {
        a.push((i, 0, 0));
        a.push((LANE_B + i, 0, 0));
        i = i + 1;
    }
    a.push((COL_ACC_A, 0, 0));
    a.push((COL_ACC_B, 0, 0));
    let mut i: usize = 0;
    while i < 4
        invariant
            i <= 4,
            a.len() == 18 + 2 * i,
            root == pi.custodian_set_root@,
            forall|j: int| 0 <= j < a.len() ==> #[trigger] a[j] == assertion_spec(root, j),
        decreases 4 - i,
    {
        a.push((4 + i, ROW_ROOT, pi.custodian_set_root[i]));
        a.push((LANE_B + 4 + i, ROW_ROOT, pi.custodian_set_root[i]));
        i = i + 1;
    }
    a
}


/// The order check of the threshold. For two indices of at most eight
/// bits, the value `B - A - 1` (in the field) has at most eight bits, and
/// so passes its range check, exactly when `A < B`: the same custodian
/// counted twice, or two custodians in reversed order, wrap to a value of
/// 64 bits. The accumulator the trace builds at the end of that segment
/// equals the value exactly then.
pub proof fn lemma_order_check(index_a: u64, index_b: u64)
    requires
        index_a < 256,
        index_b < 256,
    ensures
        (segment_values_spec(index_a, index_b)[2] < 256) <==> index_a < index_b,
        index_a < index_b ==> segment_values_spec(index_a, index_b)[2] == index_b - index_a - 1,
        (seg_acc(segment_values_spec(index_a, index_b)[2], 8, 7) == segment_values_spec(index_a, index_b)[2])
            <==> index_a < index_b,
{
    let p: int = MODULUS as int;
    assert(reduce(index_a as int) == index_a) by {
        vstd::arithmetic::div_mod::lemma_small_mod(index_a as nat, p as nat);
    }
    assert(reduce(index_b as int) == index_b) by {
        vstd::arithmetic::div_mod::lemma_small_mod(index_b as nat, p as nat);
    }
    let d1 = sub_spec(index_b, index_a);
    if index_a < index_b {
        vstd::arithmetic::div_mod::lemma_small_mod((index_b - index_a) as nat, p as nat);
        assert(d1 == index_b - index_a);
        vstd::arithmetic::div_mod::lemma_small_mod((d1 - 1) as nat, p as nat);
    } else if index_a == index_b {
        assert(d1 == 0) by {
            vstd::arithmetic::div_mod::lemma_small_mod(0, p as nat);
        }
        vstd::arithmetic::div_mod::lemma_mod_add_multiples_vanish(-1, p);
        vstd::arithmetic::div_mod::lemma_small_mod((p - 1) as nat, p as nat);
    } else {
        let g: int = index_a - index_b;
        vstd::arithmetic::div_mod::lemma_mod_add_multiples_vanish(-g, p);
        vstd::arithmetic::div_mod::lemma_small_mod((p - g) as nat, p as nat);
        assert(d1 == p - g);
        vstd::arithmetic::div_mod::lemma_small_mod((p - g - 1) as nat, p as nat);
    }
    let v = segment_values_spec(index_a, index_b)[2];
    assert(v == sub_spec(d1, 1));
    assert(seg_acc(v, 8, 7) == v & 255u64) by {
        assert(v >> 0u64 == v) by (bit_vector);
        assert(((1u64 << 8u64) - 1) as u64 == 255u64) by (bit_vector);
        assert((v & 255u64) >> 0u64 == v & 255u64) by (bit_vector);
    }
    assert((v & 255u64) == v <==> v < 256) by (bit_vector);
}


/// The number of transition constraints.
pub const NUM_CONSTRAINTS: usize = 60;

/// The residuals of constraints 24..=35.
#[verifier::opaque]
pub open spec fn residuals_0(cur: Seq<u64>, nxt: Seq<u64>, per: Seq<u64>) -> Seq<u64> {
    seq![
        mul_spec(per[25], nxt[0]),
        mul_spec(per[25], nxt[1]),
        mul_spec(per[25], nxt[2]),
        mul_spec(per[25], nxt[3]),
        mul_spec(per[25], nxt[12]),
        mul_spec(per[25], nxt[13]),
        mul_spec(per[25], nxt[14]),
        mul_spec(per[25], nxt[15]),
        mul_spec(per[25], add_spec(mul_spec(sub_spec(1u64, nxt[24]), sub_spec(nxt[4], cur[4])), mul_spec(nxt[24], sub_spec(nxt[8], cur[4])))),
        mul_spec(per[25], add_spec(mul_spec(sub_spec(1u64, nxt[24]), sub_spec(nxt[5], cur[5])), mul_spec(nxt[24], sub_spec(nxt[9], cur[5])))),
        mul_spec(per[25], add_spec(mul_spec(sub_spec(1u64, nxt[24]), sub_spec(nxt[6], cur[6])), mul_spec(nxt[24], sub_spec(nxt[10], cur[6])))),
        mul_spec(per[25], add_spec(mul_spec(sub_spec(1u64, nxt[24]), sub_spec(nxt[7], cur[7])), mul_spec(nxt[24], sub_spec(nxt[11], cur[7])))),
    ]
}

fn residuals_0_eval(cur: &Vec<u64>, nxt: &Vec<u64>, per: &Vec<u64>) -> (r: Vec<u64>)
    requires
        cur.len() == TRACE_WIDTH,
        nxt.len() == TRACE_WIDTH,
        per.len() == 34,
        all_canonical(cur@),
        all_canonical(nxt@),
        all_canonical(per@),
    ensures
        r@ == residuals_0(cur@, nxt@, per@),
        r.len() == 12,
{
    let r = vec![
        fmul(per[25], nxt[0]),
        fmul(per[25], nxt[1]),
        fmul(per[25], nxt[2]),
        fmul(per[25], nxt[3]),
        fmul(per[25], nxt[12]),
        fmul(per[25], nxt[13]),
        fmul(per[25], nxt[14]),
        fmul(per[25], nxt[15]),
        fmul(per[25], fadd(fmul(fsub(1u64, nxt[24]), fsub(nxt[4], cur[4])), fmul(nxt[24], fsub(nxt[8], cur[4])))),
        fmul(per[25], fadd(fmul(fsub(1u64, nxt[24]), fsub(nxt[5], cur[5])), fmul(nxt[24], fsub(nxt[9], cur[5])))),
        fmul(per[25], fadd(fmul(fsub(1u64, nxt[24]), fsub(nxt[6], cur[6])), fmul(nxt[24], fsub(nxt[10], cur[6])))),
        fmul(per[25], fadd(fmul(fsub(1u64, nxt[24]), fsub(nxt[7], cur[7])), fmul(nxt[24], fsub(nxt[11], cur[7])))),
    ];
    proof {
        reveal(residuals_0);
    }
    assert(r@ =~= residuals_0(cur@, nxt@, per@));
    r
}

/// The residuals of constraints 36..=47.
#[verifier::opaque]
pub open spec fn residuals_1(cur: Seq<u64>, nxt: Seq<u64>, per: Seq<u64>) -> Seq<u64> {
    seq![
        mul_spec(per[25], add_spec(mul_spec(sub_spec(1u64, nxt[25]), sub_spec(nxt[16], cur[16])), mul_spec(nxt[25], sub_spec(nxt[20], cur[16])))),
        mul_spec(per[25], add_spec(mul_spec(sub_spec(1u64, nxt[25]), sub_spec(nxt[17], cur[17])), mul_spec(nxt[25], sub_spec(nxt[21], cur[17])))),
        mul_spec(per[25], add_spec(mul_spec(sub_spec(1u64, nxt[25]), sub_spec(nxt[18], cur[18])), mul_spec(nxt[25], sub_spec(nxt[22], cur[18])))),
        mul_spec(per[25], add_spec(mul_spec(sub_spec(1u64, nxt[25]), sub_spec(nxt[19], cur[19])), mul_spec(nxt[25], sub_spec(nxt[23], cur[19])))),
        mul_spec(cur[24], sub_spec(cur[24], 1u64)),
        mul_spec(cur[25], sub_spec(cur[25], 1u64)),
        mul_spec(per[27], sub_spec(cur[8], cur[26])),
        mul_spec(per[27], sub_spec(cur[20], cur[27])),
        mul_spec(per[25], sub_spec(nxt[30], add_spec(cur[30], mul_spec(nxt[24], per[26])))),
        mul_spec(per[25], sub_spec(nxt[31], add_spec(cur[31], mul_spec(nxt[25], per[26])))),
        mul_spec(per[28], sub_spec(cur[30], cur[28])),
        mul_spec(per[28], sub_spec(cur[31], cur[29])),
    ]
}

fn residuals_1_eval(cur: &Vec<u64>, nxt: &Vec<u64>, per: &Vec<u64>) -> (r: Vec<u64>)
    requires
        cur.len() == TRACE_WIDTH,
        nxt.len() == TRACE_WIDTH,
        per.len() == 34,
        all_canonical(cur@),
        all_canonical(nxt@),
        all_canonical(per@),
    ensures
        r@ == residuals_1(cur@, nxt@, per@),
        r.len() == 12,
{
    let r = vec![
        fmul(per[25], fadd(fmul(fsub(1u64, nxt[25]), fsub(nxt[16], cur[16])), fmul(nxt[25], fsub(nxt[20], cur[16])))),
        fmul(per[25], fadd(fmul(fsub(1u64, nxt[25]), fsub(nxt[17], cur[17])), fmul(nxt[25], fsub(nxt[21], cur[17])))),
        fmul(per[25], fadd(fmul(fsub(1u64, nxt[25]), fsub(nxt[18], cur[18])), fmul(nxt[25], fsub(nxt[22], cur[18])))),
        fmul(per[25], fadd(fmul(fsub(1u64, nxt[25]), fsub(nxt[19], cur[19])), fmul(nxt[25], fsub(nxt[23], cur[19])))),
        fmul(cur[24], fsub(cur[24], 1u64)),
        fmul(cur[25], fsub(cur[25], 1u64)),
        fmul(per[27], fsub(cur[8], cur[26])),
        fmul(per[27], fsub(cur[20], cur[27])),
        fmul(per[25], fsub(nxt[30], fadd(cur[30], fmul(nxt[24], per[26])))),
        fmul(per[25], fsub(nxt[31], fadd(cur[31], fmul(nxt[25], per[26])))),
        fmul(per[28], fsub(cur[30], cur[28])),
        fmul(per[28], fsub(cur[31], cur[29])),
    ];
    proof {
        reveal(residuals_1);
    }
    assert(r@ =~= residuals_1(cur@, nxt@, per@));
    r
}

/// The residuals of constraints 48..=59.
#[verifier::opaque]
pub open spec fn residuals_2(cur: Seq<u64>, nxt: Seq<u64>, per: Seq<u64>) -> Seq<u64> {
    seq![
        sub_spec(nxt[26], cur[26]),
        sub_spec(nxt[27], cur[27]),
        sub_spec(nxt[28], cur[28]),
        sub_spec(nxt[29], cur[29]),
        mul_spec(cur[32], sub_spec(cur[32], 1u64)),
        mul_spec(nxt[32], sub_spec(nxt[32], 1u64)),
        mul_spec(per[29], cur[32]),
        mul_spec(per[29], cur[33]),
        mul_spec(per[30], sub_spec(nxt[33], add_spec(add_spec(cur[33], cur[33]), nxt[32]))),
        mul_spec(per[31], sub_spec(nxt[33], cur[28])),
        mul_spec(per[32], sub_spec(nxt[33], cur[29])),
        mul_spec(per[33], sub_spec(nxt[33], sub_spec(sub_spec(cur[29], cur[28]), 1u64))),
    ]
}

fn residuals_2_eval(cur: &Vec<u64>, nxt: &Vec<u64>, per: &Vec<u64>) -> (r: Vec<u64>)
    requires
        cur.len() == TRACE_WIDTH,
        nxt.len() == TRACE_WIDTH,
        per.len() == 34,
        all_canonical(cur@),
        all_canonical(nxt@),
        all_canonical(per@),
    ensures
        r@ == residuals_2(cur@, nxt@, per@),
        r.len() == 12,
{
    let r = vec![
        fsub(nxt[26], cur[26]),
        fsub(nxt[27], cur[27]),
        fsub(nxt[28], cur[28]),
        fsub(nxt[29], cur[29]),
        fmul(cur[32], fsub(cur[32], 1u64)),
        fmul(nxt[32], fsub(nxt[32], 1u64)),
        fmul(per[29], cur[32]),
        fmul(per[29], cur[33]),
        fmul(per[30], fsub(nxt[33], fadd(fadd(cur[33], cur[33]), nxt[32]))),
        fmul(per[31], fsub(nxt[33], cur[28])),
        fmul(per[32], fsub(nxt[33], cur[29])),
        fmul(per[33], fsub(nxt[33], fsub(fsub(cur[29], cur[28]), 1u64))),
    ];
    proof {
        reveal(residuals_2);
    }
    assert(r@ =~= residuals_2(cur@, nxt@, per@));
    r
}

/// The residuals of all transition constraints of a step, in the order of
/// their indices: the rounds of lane A and of lane B, then the rest.
pub open spec fn residuals(cur: Seq<u64>, nxt: Seq<u64>, per: Seq<u64>) -> Seq<u64> {
    round_residuals_spec(cur, nxt, per, 0, 0, 1, 13) + round_residuals_spec(cur, nxt, per, 12, 0, 1, 13)
        + residuals_0(cur, nxt, per) + residuals_1(cur, nxt, per) + residuals_2(cur, nxt, per)
}

/// Constraint `k` of a step, over the current row, the next row and the
/// periodic values.
pub open spec fn constraint_spec(k: int, current: Seq<u64>, next: Seq<u64>, periodic: Seq<u64>) -> u64 {
    residuals(current, next, periodic)[k]
}

/// Evaluates the transition constraints of a step over the base field: a
/// step satisfies the AIR when every residual is zero.
pub fn evaluate_transition(current: &Vec<u64>, next: &Vec<u64>, periodic: &Vec<u64>) -> (result: Vec<u64>)
    requires
        current.len() == TRACE_WIDTH,
        next.len() == TRACE_WIDTH,
        periodic.len() == 34,
        all_canonical(current@),
        all_canonical(next@),
        all_canonical(periodic@),
    ensures
        result.len() == NUM_CONSTRAINTS,
        forall|k: int| 0 <= k < NUM_CONSTRAINTS ==> #[trigger] result[k] == constraint_spec(k, current@, next@, periodic@),
{
    let mut r = round_residuals(current, next, periodic, 0, 0, 1, 13);
    let mut lane_b = round_residuals(current, next, periodic, 12, 0, 1, 13);
    r.append(&mut lane_b);

    let mut p0 = residuals_0_eval(current, next, periodic);
    r.append(&mut p0);
    let mut p1 = residuals_1_eval(current, next, periodic);
    r.append(&mut p1);
    let mut p2 = residuals_2_eval(current, next, periodic);
    r.append(&mut p2);
    assert(r@ =~= residuals(current@, next@, periodic@));
    r
}






/// The periodic values of step `r`.
pub open spec fn periodic_row(r: int) -> Seq<u64> {
    Seq::new(34, |j: int| periodic_spec(j, r))
}

/// Every step of the trace satisfies the round constraints of the hash
/// lanes (constraints 0..24): on a round row a lane goes from one round
/// of its permutation to the next, with that round's constants in the
/// periodic values; elsewhere the round flag is off.
pub proof fn lemma_trace_satisfies_round_constraints(key_a: u64, index_a: u64, path_a: CustodianPath, key_b: u64, index_b: u64, path_b: CustodianPath, t: Seq<Vec<u64>>, r: int)
    requires
        t.len() == TRACE_WIDTH,
        forall|col: int, q: int|
            0 <= col < TRACE_WIDTH && 0 <= q < TRACE_LENGTH ==> #[trigger] t[col][q] == cell_spec(key_a, index_a, path_a, key_b, index_b, path_b, col, q),
        forall|c: int| 0 <= c <= CUSTODIAN_DEPTH ==> #[trigger] rounds_hold(lane_start_spec(key_a, path_a, c)) && rounds_hold(lane_start_spec(key_b, path_b, c)),
        0 <= r < TRACE_LENGTH - 1,
    ensures
        forall|k: int| 0 <= k < 24 ==> #[trigger] constraint_spec(k, row_of(t, r), row_of(t, r + 1), periodic_row(r)) == 0,
{
    let cur = row_of(t, r);
    let nxt = row_of(t, r + 1);
    let per = periodic_row(r);
    let active = ROW_ROOT as int + 1;
    assert(per[0] == crate::periodic::hash_flag_spec(active, r));
    assert forall|j: int| 0 <= j < 12 implies #[trigger] per[1 + j] == crate::periodic::ark_spec(false, j, active, r) by {
        assert(per[1 + j] == periodic_spec(1 + j, r));
    }
    assert forall|j: int| 0 <= j < 12 implies #[trigger] per[13 + j] == crate::periodic::ark_spec(true, j, active, r) by {
        assert(per[13 + j] == periodic_spec(13 + j, r));
    }
    if r < active && r % 8 < 7 {
        assert((r + 1) / 8 == r / 8 && (r + 1) % 8 == r % 8 + 1);
        assert(rounds_hold(lane_start_spec(key_a, path_a, r / 8)));
        assert forall|j: int| 0 <= j < 12 implies #[trigger] cur[0 + j] == rounds(lane_start_spec(key_a, path_a, r / 8), (r % 8) as nat)[j] by {
            assert(cur[0 + j] == t[0 + j][r]);
            assert(t[0 + j][r] == lane_cell(key_a, path_a, j, r));
        }
        assert forall|j: int| 0 <= j < 12 implies #[trigger] nxt[0 + j] == rounds(lane_start_spec(key_a, path_a, r / 8), (r % 8 + 1) as nat)[j] by {
            assert(nxt[0 + j] == t[0 + j][r + 1]);
            assert(t[0 + j][r + 1] == lane_cell(key_a, path_a, j, (r + 1)));
        }
    }
    crate::lane::lemma_rounds_round_residuals(cur, nxt, per, 0, 0, 1, 13, lane_start_spec(key_a, path_a, r / 8), active, r);
    if r < active && r % 8 < 7 {
        assert((r + 1) / 8 == r / 8 && (r + 1) % 8 == r % 8 + 1);
        assert(rounds_hold(lane_start_spec(key_b, path_b, r / 8)));
        assert forall|j: int| 0 <= j < 12 implies #[trigger] cur[12 + j] == rounds(lane_start_spec(key_b, path_b, r / 8), (r % 8) as nat)[j] by {
            assert(cur[12 + j] == t[12 + j][r]);
            assert(t[12 + j][r] == lane_cell(key_b, path_b, j, r));
        }
        assert forall|j: int| 0 <= j < 12 implies #[trigger] nxt[12 + j] == rounds(lane_start_spec(key_b, path_b, r / 8), (r % 8 + 1) as nat)[j] by {
            assert(nxt[12 + j] == t[12 + j][r + 1]);
            assert(t[12 + j][r + 1] == lane_cell(key_b, path_b, j, (r + 1)));
        }
    }
    crate::lane::lemma_rounds_round_residuals(cur, nxt, per, 12, 0, 1, 13, lane_start_spec(key_b, path_b, r / 8), active, r);
    assert forall|k: int| 0 <= k < 24 implies #[trigger] constraint_spec(k, cur, nxt, per) == 0 by {
        if k < 12 {
            assert(constraint_spec(k, cur, nxt, per) == crate::constraints::round_residual(cur, nxt, per, 0, 0, 1, 13, k));
        } else {
            assert(constraint_spec(k, cur, nxt, per) == crate::constraints::round_residual(cur, nxt, per, 12, 0, 1, 13, k - 12));
        }
    }
}

/// A value of at most seven bits, in a segment of eight rows: its bits are
/// bits, the first is zero, the accumulator fits in a byte, takes one bit
/// per row, and ends on the value.
proof fn lemma_small_segment(v: u64, q: nat)
    requires
        v < 128,
        q < 8,
    ensures
        seg_bit(v, 8, q) <= 1,
        seg_bit(v, 8, 0) == 0,
        seg_acc(v, 8, 0) == 0,
        seg_acc(v, 8, q) < 256,
        seg_acc(v, 8, 7) == v,
        q >= 1 ==> seg_acc(v, 8, q) as int == 2 * seg_acc(v, 8, (q - 1) as nat) + seg_bit(v, 8, q),
{
    let k: u64 = (7 - q) as u64;
    assert((v >> k) & 1u64 <= 1u64) by (bit_vector);
    assert((v >> 7u64) & 1u64 == 0u64) by (bit_vector)
        requires
            v < 128u64,
    ;
    assert(((1u64 << 8u64) - 1) as u64 == 255u64) by (bit_vector);
    assert((v & 255u64) >> k <= 255u64) by (bit_vector);
    assert((v & 255u64) >> 0u64 == v) by (bit_vector)
        requires
            v < 128u64,
    ;
    crate::solvency::lemma_acc_first(v, 8);
    if q >= 1 {
        crate::solvency::lemma_acc_step(v, 8, q as u64);
    }
}

/// The range checks of an honest trace hold on every step (constraints
/// 52..60): the bits are bits, each segment starts from zero, the
/// accumulator takes one bit per row, and the three segments end on the
/// two indices and on `B - A - 1`.
#[verifier::spinoff_prover]
#[verifier::rlimit(40)]
proof fn lemma_trace_range_constraints(key_a: u64, index_a: u64, path_a: CustodianPath, key_b: u64, index_b: u64, path_b: CustodianPath, t: Seq<Vec<u64>>, r: int)
    requires
        t.len() == TRACE_WIDTH,
        forall|col: int, q: int|
            0 <= col < TRACE_WIDTH && 0 <= q < TRACE_LENGTH ==> #[trigger] t[col][q] == cell_spec(key_a, index_a, path_a, key_b, index_b, path_b, col, q),
        index_a < index_b < 128,
        0 <= r < TRACE_LENGTH - 1,
    ensures
        forall|k: int| 52 <= k < NUM_CONSTRAINTS ==> #[trigger] constraint_spec(k, row_of(t, r), row_of(t, r + 1), periodic_row(r)) == 0,
{
    let cur = row_of(t, r);
    let nxt = row_of(t, r + 1);
    let per = periodic_row(r);
    let p: nat = MODULUS as nat;
    let segs = segment_values_spec(index_a, index_b);
    assert forall|c: int| 0 <= c < TRACE_WIDTH implies #[trigger] cur[c] == t[c][r] && nxt[c] == t[c][r + 1] by {}
    lemma_order_check(index_a, index_b);
    vstd::arithmetic::div_mod::lemma_small_mod(0, p);
    vstd::arithmetic::div_mod::lemma_small_mod(1, p);
    vstd::arithmetic::div_mod::lemma_small_mod(index_a as nat, p);
    vstd::arithmetic::div_mod::lemma_small_mod(index_b as nat, p);
    assert(segs[0] < 128 && segs[1] < 128 && segs[2] < 128);
    assert(cur[28] == index_a && cur[29] == index_b);
    assert(sub_spec(sub_spec(cur[29], cur[28]), 1u64) == segs[2]);
    assert forall|x: u64| #[trigger] mul_spec(0u64, x) == 0 by {
        assert(0u64 * x == 0);
    }
    assert forall|x: u64| #[trigger] sub_spec(x, x) == 0 by {}
    // The bit column holds bits.
    assert forall|q: int| 0 <= q < TRACE_LENGTH implies (#[trigger] t[32][q] == 0 || t[32][q] == 1) by {
        if q < 24 {
            lemma_small_segment(segs[q / 8], (q % 8) as nat);
        }
    }
    assert forall|x: u64| x == 0 || x == 1 implies #[trigger] mul_spec(x, sub_spec(x, 1u64)) == 0 by {
        if x == 1 {
            assert(sub_spec(1u64, 1u64) == 0);
            assert(1u64 * 0u64 == 0);
        }
    }
    assert(mul_spec(cur[32], sub_spec(cur[32], 1u64)) == 0);
    assert(mul_spec(nxt[32], sub_spec(nxt[32], 1u64)) == 0);
    // The periodic selectors.
    let s_first: Seq<usize> = seq![0usize, 8, 16];
    let s6: Seq<usize> = seq![6usize];
    let s14: Seq<usize> = seq![14usize];
    let s22: Seq<usize> = seq![22usize];
    assert(per[29] == selector_spec(s_first, r));
    assert(per[30] == continue_spec(NUM_SEGMENTS as int, SEGMENT_LENGTH as int, r));
    assert(per[31] == selector_spec(s6, r));
    assert(per[32] == selector_spec(s14, r));
    assert(per[33] == selector_spec(s22, r));
    if r == 0 || r == 8 || r == 16 {
        lemma_small_segment(segs[r / 8], 0);
        assert(cur[32] == 0 && cur[33] == 0);
    } else {
        assert(per[29] == 0);
    }
    if r < 24 && r % 8 != 7 {
        let v = segs[r / 8];
        let q = r % 8;
        assert((r + 1) / 8 == r / 8 && (r + 1) % 8 == q + 1);
        lemma_small_segment(v, q as nat);
        lemma_small_segment(v, (q + 1) as nat);
        vstd::arithmetic::div_mod::lemma_small_mod(seg_acc(v, 8, q as nat) as nat, p);
        vstd::arithmetic::div_mod::lemma_small_mod(seg_acc(v, 8, (q + 1) as nat) as nat, p);
        assert(cur[33] == seg_acc(v, 8, q as nat));
        assert(nxt[33] == seg_acc(v, 8, (q + 1) as nat));
        assert(nxt[32] == seg_bit(v, 8, (q + 1) as nat));
        vstd::arithmetic::div_mod::lemma_small_mod((cur[33] + cur[33]) as nat, p);
        vstd::arithmetic::div_mod::lemma_small_mod((cur[33] + cur[33] + nxt[32]) as nat, p);
        assert(add_spec(add_spec(cur[33], cur[33]), nxt[32]) == nxt[33]);
    } else {
        assert(per[30] == 0);
    }
    if r == 6 || r == 14 || r == 22 {
        if r == 6 {
            assert(s6[0] == 6);
        } else if r == 14 {
            assert(s14[0] == 14);
        } else {
            assert(s22[0] == 22);
        }
        let v = segs[r / 8];
        lemma_small_segment(v, 7);
        vstd::arithmetic::div_mod::lemma_small_mod(v as nat, p);
        assert(nxt[33] == v);
    }
    if r != 6 {
        assert(per[31] == 0);
    }
    if r != 14 {
        assert(per[32] == 0);
    }
    if r != 22 {
        assert(per[33] == 0);
    }
    reveal(residuals_0);
    reveal(residuals_1);
    reveal(residuals_2);
    assert forall|k: int| 52 <= k < NUM_CONSTRAINTS implies #[trigger] constraint_spec(k, cur, nxt, per) == 0 by {
        assert(constraint_spec(k, cur, nxt, per) == residuals_2(cur, nxt, per)[k - 48]);
    }
}

/// The steps of one custodian's columns in an honest trace: at each tree
/// link the next level starts from the node climbed so far, on the side
/// the direction bit says, and the accumulator takes the bit's weight; the
/// direction bits are bits; the key enters the identity on the first row;
/// the accumulator ends on the declared index; the key and the index stay
/// constant. `lane`, `bit`, `kcol`, `icol` and `acol` are the columns of
/// the hash lane, the direction bit, the key, the index and the
/// accumulator.
#[verifier::spinoff_prover]
#[verifier::rlimit(60)]
pub proof fn lemma_custodian_steps(
    key: u64,
    index: u64,
    path: CustodianPath,
    t: Seq<Vec<u64>>,
    r: int,
    lane: int,
    bit: int,
    kcol: int,
    icol: int,
    acol: int,
)
    requires
        path_ok(path),
        reduce(index as int) == reduce(bits_value(path.is_right@, 4)),
        0 <= r < TRACE_LENGTH - 1,
        0 <= lane && lane + 12 <= t.len(),
        0 <= bit < t.len(),
        0 <= kcol < t.len(),
        0 <= icol < t.len(),
        0 <= acol < t.len(),
        forall|i: int, q: int| 0 <= i < 12 && 0 <= q < TRACE_LENGTH ==> #[trigger] t[lane + i][q] == lane_cell(key, path, i, q),
        forall|q: int| 0 <= q < TRACE_LENGTH ==> #[trigger] t[bit][q] == cycle_bit_spec(path.is_right@.subrange(0, 4), 1, q),
        forall|q: int| 0 <= q < TRACE_LENGTH ==> #[trigger] t[kcol][q] == key,
        forall|q: int| 0 <= q < TRACE_LENGTH ==> #[trigger] t[icol][q] == reduce(index as int),
        forall|q: int| 0 <= q < TRACE_LENGTH ==> #[trigger] t[acol][q] == reduce(bits_value(path.is_right@, levels_done(q, 4) as nat)),
    ensures
        ({
            let cur = row_of(t, r);
            let nxt = row_of(t, r + 1);
            let per = periodic_row(r);
            &&& mul_spec(per[25], nxt[lane + 0]) == 0
            &&& mul_spec(per[25], nxt[lane + 1]) == 0
            &&& mul_spec(per[25], nxt[lane + 2]) == 0
            &&& mul_spec(per[25], nxt[lane + 3]) == 0
            &&& mul_spec(per[25], add_spec(mul_spec(sub_spec(1u64, nxt[bit]), sub_spec(nxt[lane + 4], cur[lane + 4])), mul_spec(nxt[bit], sub_spec(nxt[lane + 8], cur[lane + 4])))) == 0
            &&& mul_spec(per[25], add_spec(mul_spec(sub_spec(1u64, nxt[bit]), sub_spec(nxt[lane + 5], cur[lane + 5])), mul_spec(nxt[bit], sub_spec(nxt[lane + 9], cur[lane + 5])))) == 0
            &&& mul_spec(per[25], add_spec(mul_spec(sub_spec(1u64, nxt[bit]), sub_spec(nxt[lane + 6], cur[lane + 6])), mul_spec(nxt[bit], sub_spec(nxt[lane + 10], cur[lane + 6])))) == 0
            &&& mul_spec(per[25], add_spec(mul_spec(sub_spec(1u64, nxt[bit]), sub_spec(nxt[lane + 7], cur[lane + 7])), mul_spec(nxt[bit], sub_spec(nxt[lane + 11], cur[lane + 7])))) == 0
            &&& mul_spec(cur[bit], sub_spec(cur[bit], 1u64)) == 0
            &&& mul_spec(per[27], sub_spec(cur[lane + 8], cur[kcol])) == 0
            &&& mul_spec(per[25], sub_spec(nxt[acol], add_spec(cur[acol], mul_spec(nxt[bit], per[26])))) == 0
            &&& mul_spec(per[28], sub_spec(cur[acol], cur[icol])) == 0
            &&& sub_spec(nxt[kcol], cur[kcol]) == 0
            &&& sub_spec(nxt[icol], cur[icol]) == 0
        }),
{
    let cur = row_of(t, r);
    let nxt = row_of(t, r + 1);
    let per = periodic_row(r);
    let p: nat = MODULUS as nat;
    let bits = path.is_right@;
    let sibs = sibling_seqs(path.siblings@);
    vstd::arithmetic::div_mod::lemma_small_mod(0, p);
    vstd::arithmetic::div_mod::lemma_small_mod(1, p);
    vstd::arithmetic::power2::lemma2_to64();
    assert forall|x: u64| #[trigger] mul_spec(0u64, x) == 0 by {
        assert(0u64 * x == 0);
    }
    assert(mul_spec(1u64, 0u64) == 0) by {
        assert(1u64 * 0u64 == 0);
    }
    assert forall|x: u64| #[trigger] sub_spec(x, x) == 0 by {}
    assert forall|i: int| 0 <= i < 12 implies #[trigger] cur[lane + i] == lane_cell(key, path, i, r) && nxt[lane + i] == lane_cell(key, path, i, r + 1) by {
        assert(cur[lane + i] == t[lane + i][r]);
        assert(nxt[lane + i] == t[lane + i][r + 1]);
    }
    assert(cur[bit] == t[bit][r] && nxt[bit] == t[bit][r + 1]);
    assert(cur[kcol] == key && nxt[kcol] == key);
    assert(cur[icol] == t[icol][r] && nxt[icol] == t[icol][r + 1]);
    assert(cur[acol] == t[acol][r] && nxt[acol] == t[acol][r + 1]);
    reveal_with_fuel(point_spec, 5);
    let link = r == 7 || r == 15 || r == 23 || r == 31;
    assert(per[25] == point_spec(tree_link_points(), r));
    assert(per[26] == point_spec(pow2_points(), r));
    assert(per[25] == if link { 1u64 } else { 0u64 });
    let s0: Seq<usize> = seq![0usize];
    let s39: Seq<usize> = seq![39usize];
    assert(per[27] == selector_spec(s0, r));
    assert(per[28] == selector_spec(s39, r));
    if r == 0 {
        assert(s0[0] == 0);
    }
    if r == 39 {
        assert(s39[0] == 39);
    }
    assert(per[27] == if r == 0 { 1u64 } else { 0u64 });
    assert(per[28] == if r == 39 { 1u64 } else { 0u64 });
    // The direction bit is a bit.
    assert(cur[bit] == 0 || cur[bit] == 1);
    assert(mul_spec(cur[bit], sub_spec(cur[bit], 1u64)) == 0) by {
        if cur[bit] == 1 {
            assert(sub_spec(1u64, 1u64) == 0);
        } else {
            assert(0u64 * sub_spec(cur[bit], 1u64) == 0);
        }
    }
    // The key enters on the first row.
    if r == 0 {
        assert(cur[lane + 8] == rounds(lane_start_spec(key, path, 0), 0)[8]);
        assert(cur[lane + 8] == key);
    }
    // The accumulator ends on the index.
    reveal_with_fuel(bits_value, 5);
    assert(0 <= bits_value(bits, 4) < 16);
    vstd::arithmetic::div_mod::lemma_small_mod(bits_value(bits, 4) as nat, p);
    if r == 39 {
        assert(cur[acol] == reduce(bits_value(bits, levels_done(39, 4) as nat)));
        assert(cur[icol] == reduce(index as int));
    }
    if link {
        let c = r / 8;
        assert(0 <= c < 4 && r == 8 * c + 7);
        assert((r + 1) / 8 == c + 1 && (r + 1) % 8 == 0);
        let d = climb_spec(digest_of(merge_state(as_digest_spec(CUSTODIAN_DOMAIN), as_digest_spec(key))), sibs, bits, c as nat);
        let next_start = lane_start_spec(key, path, c + 1);
        assert(next_start == place_state(d, sibs[c], bits[c]));
        // The node climbed so far is the digest of the cycle.
        let start = lane_start_spec(key, path, c);
        lemma_digest_row(start);
        assert(digest_of(start) == d) by {
            if c > 0 {
                assert(digest_of(start) == climb_step(
                    climb_spec(digest_of(merge_state(as_digest_spec(CUSTODIAN_DOMAIN), as_digest_spec(key))), sibs, bits, (c - 1) as nat),
                    sibs[c - 1],
                    bits[c - 1],
                ));
            }
        }
        assert(sibs[c].len() == 4);
        assert(d.len() == 4);
        assert forall|i: int| 0 <= i < 4 implies #[trigger] cur[lane + 4 + i] == d[i] by {
            assert(cur[lane + (4 + i)] == rounds(start, 7)[4 + i]);
        }
        assert forall|i: int| 0 <= i < 12 implies #[trigger] nxt[lane + i] == next_start[i] by {
            assert(nxt[lane + i] == rounds(next_start, 0)[i]);
        }
        assert(nxt[bit] == if bits[c] { 1u64 } else { 0u64 });
        assert forall|i: int| 0 <= i < 4 implies #[trigger] nxt[lane + i] == 0 by {}
        assert forall|i: int| 0 <= i < 4 implies (bits[c] ==> #[trigger] nxt[lane + 8 + i] == cur[lane + 4 + i]) && (!bits[c] ==> nxt[lane + 4 + i] == cur[lane + 4 + i]) by {
            assert(nxt[lane + (8 + i)] == next_start[8 + i]);
            assert(nxt[lane + (4 + i)] == next_start[4 + i]);
        }
        // The accumulator takes the bit's weight.
        assert(cur[acol] == reduce(bits_value(bits, c as nat)));
        assert(nxt[acol] == reduce(bits_value(bits, (c + 1) as nat)));
        assert(per[26] == pow2(c as nat));
        assert(0 <= bits_value(bits, c as nat) < 16);
        assert(0 <= bits_value(bits, (c + 1) as nat) < 16);
        vstd::arithmetic::div_mod::lemma_small_mod(bits_value(bits, c as nat) as nat, p);
        vstd::arithmetic::div_mod::lemma_small_mod(bits_value(bits, (c + 1) as nat) as nat, p);
        vstd::arithmetic::div_mod::lemma_small_mod(pow2(c as nat), p);
        vstd::arithmetic::div_mod::lemma_small_mod((bits_value(bits, c as nat) + pow2(c as nat)) as nat, p);
        assert(mul_spec(nxt[bit], per[26]) == if bits[c] { pow2(c as nat) as u64 } else { 0u64 }) by {
            if bits[c] {
                assert(1u64 * per[26] == per[26]);
            } else {
                assert(0u64 * per[26] == 0);
            }
        }
        assert(sub_spec(nxt[acol], add_spec(cur[acol], mul_spec(nxt[bit], per[26]))) == 0);
        if bits[c] {
            assert(sub_spec(1u64, nxt[bit]) == 0);
            assert(1u64 * 0u64 == 0);
        } else {
            assert(sub_spec(1u64, nxt[bit]) == 1);
            assert(1u64 * 0u64 == 0);
        }
    }
}

/// The lengths of the three groups of residuals after the rounds.
#[verifier::spinoff_prover]
#[verifier::rlimit(100)]
proof fn lemma_residuals_len(cur: Seq<u64>, nxt: Seq<u64>, per: Seq<u64>)
    ensures
        residuals_0(cur, nxt, per).len() == 12,
        residuals_1(cur, nxt, per).len() == 12,
        residuals_2(cur, nxt, per).len() == 12,
{
    assert(residuals_0(cur, nxt, per).len() == 12) by {
        reveal(residuals_0);
    }
    assert(residuals_1(cur, nxt, per).len() == 12) by {
        reveal(residuals_1);
    }
    assert(residuals_2(cur, nxt, per).len() == 12) by {
        reveal(residuals_2);
    }
}

/// What the custodian columns of a step give, constraint by constraint:
/// with the facts of `lemma_custodian_steps` for both custodians, the
/// constraints of the links, bits, keys, accumulators and constant
/// columns (24..52) are zero.
#[verifier::spinoff_prover]
#[verifier::rlimit(100)]
proof fn lemma_custodian_residuals(cur: Seq<u64>, nxt: Seq<u64>, per: Seq<u64>)
    requires
        cur.len() == TRACE_WIDTH,
        nxt.len() == TRACE_WIDTH,
        per.len() == 34,
        mul_spec(per[25], nxt[0]) == 0,
        mul_spec(per[25], nxt[1]) == 0,
        mul_spec(per[25], nxt[2]) == 0,
        mul_spec(per[25], nxt[3]) == 0,
        mul_spec(per[25], add_spec(mul_spec(sub_spec(1u64, nxt[24]), sub_spec(nxt[4], cur[4])), mul_spec(nxt[24], sub_spec(nxt[8], cur[4])))) == 0,
        mul_spec(per[25], add_spec(mul_spec(sub_spec(1u64, nxt[24]), sub_spec(nxt[5], cur[5])), mul_spec(nxt[24], sub_spec(nxt[9], cur[5])))) == 0,
        mul_spec(per[25], add_spec(mul_spec(sub_spec(1u64, nxt[24]), sub_spec(nxt[6], cur[6])), mul_spec(nxt[24], sub_spec(nxt[10], cur[6])))) == 0,
        mul_spec(per[25], add_spec(mul_spec(sub_spec(1u64, nxt[24]), sub_spec(nxt[7], cur[7])), mul_spec(nxt[24], sub_spec(nxt[11], cur[7])))) == 0,
        mul_spec(per[25], nxt[12]) == 0,
        mul_spec(per[25], nxt[13]) == 0,
        mul_spec(per[25], nxt[14]) == 0,
        mul_spec(per[25], nxt[15]) == 0,
        mul_spec(per[25], add_spec(mul_spec(sub_spec(1u64, nxt[25]), sub_spec(nxt[16], cur[16])), mul_spec(nxt[25], sub_spec(nxt[20], cur[16])))) == 0,
        mul_spec(per[25], add_spec(mul_spec(sub_spec(1u64, nxt[25]), sub_spec(nxt[17], cur[17])), mul_spec(nxt[25], sub_spec(nxt[21], cur[17])))) == 0,
        mul_spec(per[25], add_spec(mul_spec(sub_spec(1u64, nxt[25]), sub_spec(nxt[18], cur[18])), mul_spec(nxt[25], sub_spec(nxt[22], cur[18])))) == 0,
        mul_spec(per[25], add_spec(mul_spec(sub_spec(1u64, nxt[25]), sub_spec(nxt[19], cur[19])), mul_spec(nxt[25], sub_spec(nxt[23], cur[19])))) == 0,
        mul_spec(cur[24], sub_spec(cur[24], 1u64)) == 0,
        mul_spec(cur[25], sub_spec(cur[25], 1u64)) == 0,
        mul_spec(per[27], sub_spec(cur[8], cur[26])) == 0,
        mul_spec(per[27], sub_spec(cur[20], cur[27])) == 0,
        mul_spec(per[25], sub_spec(nxt[30], add_spec(cur[30], mul_spec(nxt[24], per[26])))) == 0,
        mul_spec(per[25], sub_spec(nxt[31], add_spec(cur[31], mul_spec(nxt[25], per[26])))) == 0,
        mul_spec(per[28], sub_spec(cur[30], cur[28])) == 0,
        mul_spec(per[28], sub_spec(cur[31], cur[29])) == 0,
        sub_spec(nxt[26], cur[26]) == 0,
        sub_spec(nxt[27], cur[27]) == 0,
        sub_spec(nxt[28], cur[28]) == 0,
        sub_spec(nxt[29], cur[29]) == 0,
    ensures
        forall|k: int| 24 <= k < 52 ==> #[trigger] constraint_spec(k, cur, nxt, per) == 0,
{
    lemma_residuals_len(cur, nxt, per);
    assert forall|j: int| 0 <= j < 12 implies #[trigger] residuals_0(cur, nxt, per)[j] == 0 by {
        reveal(residuals_0);
    }
    assert forall|j: int| 0 <= j < 12 implies #[trigger] residuals_1(cur, nxt, per)[j] == 0 by {
        reveal(residuals_1);
    }
    assert forall|j: int| 0 <= j < 4 implies #[trigger] residuals_2(cur, nxt, per)[j] == 0 by {
        reveal(residuals_2);
    }
    assert forall|k: int| 24 <= k < 52 implies #[trigger] constraint_spec(k, cur, nxt, per) == 0 by {
        if k < 36 {
            assert(constraint_spec(k, cur, nxt, per) == residuals_0(cur, nxt, per)[k - 24]);
        } else if k < 48 {
            assert(constraint_spec(k, cur, nxt, per) == residuals_1(cur, nxt, per)[k - 36]);
        } else {
            assert(constraint_spec(k, cur, nxt, per) == residuals_2(cur, nxt, per)[k - 48]);
        }
    }
}

/// Every step of an honest trace satisfies every transition constraint,
/// when the declared indices are the positions the paths prove and the
/// first is below the second: the rounds of both lanes, the links and
/// accumulators of both climbs, the keys on the first row, the indices on
/// the root row, and the range checks of both indices and of `B - A - 1`.
#[verifier::spinoff_prover]
#[verifier::rlimit(80)]
pub proof fn lemma_trace_satisfies_constraints(
    key_a: u64,
    index_a: u64,
    path_a: CustodianPath,
    key_b: u64,
    index_b: u64,
    path_b: CustodianPath,
    t: Seq<Vec<u64>>,
    r: int,
)
    requires
        t.len() == TRACE_WIDTH,
        forall|col: int, q: int|
            0 <= col < TRACE_WIDTH && 0 <= q < TRACE_LENGTH ==> #[trigger] t[col][q] == cell_spec(key_a, index_a, path_a, key_b, index_b, path_b, col, q),
        forall|c: int| 0 <= c <= CUSTODIAN_DEPTH ==> #[trigger] rounds_hold(lane_start_spec(key_a, path_a, c)) && rounds_hold(lane_start_spec(key_b, path_b, c)),
        path_ok(path_a),
        path_ok(path_b),
        index_a as int == bits_value(path_a.is_right@, 4),
        index_b as int == bits_value(path_b.is_right@, 4),
        index_a < index_b,
        0 <= r < TRACE_LENGTH - 1,
    ensures
        forall|k: int| 0 <= k < NUM_CONSTRAINTS ==> #[trigger] constraint_spec(k, row_of(t, r), row_of(t, r + 1), periodic_row(r)) == 0,
{
    let cur = row_of(t, r);
    let nxt = row_of(t, r + 1);
    let per = periodic_row(r);
    reveal_with_fuel(bits_value, 5);
    vstd::arithmetic::power2::lemma2_to64();
    assert(bits_value(path_b.is_right@, 4) < 16);
    lemma_trace_satisfies_round_constraints(key_a, index_a, path_a, key_b, index_b, path_b, t, r);
    lemma_trace_range_constraints(key_a, index_a, path_a, key_b, index_b, path_b, t, r);
    assert forall|i: int, q: int| 0 <= i < 12 && 0 <= q < TRACE_LENGTH implies #[trigger] t[0 + i][q] == lane_cell(key_a, path_a, i, q) by {
        assert(t[i][q] == cell_spec(key_a, index_a, path_a, key_b, index_b, path_b, i, q));
    }
    assert forall|i: int, q: int| 0 <= i < 12 && 0 <= q < TRACE_LENGTH implies #[trigger] t[12 + i][q] == lane_cell(key_b, path_b, i, q) by {
        assert(t[12 + i][q] == cell_spec(key_a, index_a, path_a, key_b, index_b, path_b, 12 + i, q));
    }
    assert forall|q: int| 0 <= q < TRACE_LENGTH implies
        #[trigger] t[COL_BIT_A as int][q] == cycle_bit_spec(path_a.is_right@.subrange(0, 4), 1, q)
        && t[COL_KEY_A as int][q] == key_a
        && t[COL_IDX_A as int][q] == reduce(index_a as int)
        && t[COL_ACC_A as int][q] == reduce(bits_value(path_a.is_right@, levels_done(q, 4) as nat))
        && t[COL_BIT_B as int][q] == cycle_bit_spec(path_b.is_right@.subrange(0, 4), 1, q)
        && t[COL_KEY_B as int][q] == key_b
        && t[COL_IDX_B as int][q] == reduce(index_b as int)
        && t[COL_ACC_B as int][q] == reduce(bits_value(path_b.is_right@, levels_done(q, 4) as nat)) by {
        assert(t[COL_BIT_A as int][q] == cell_spec(key_a, index_a, path_a, key_b, index_b, path_b, COL_BIT_A as int, q));
        assert(t[COL_KEY_A as int][q] == cell_spec(key_a, index_a, path_a, key_b, index_b, path_b, COL_KEY_A as int, q));
        assert(t[COL_IDX_A as int][q] == cell_spec(key_a, index_a, path_a, key_b, index_b, path_b, COL_IDX_A as int, q));
        assert(t[COL_ACC_A as int][q] == cell_spec(key_a, index_a, path_a, key_b, index_b, path_b, COL_ACC_A as int, q));
        assert(t[COL_BIT_B as int][q] == cell_spec(key_a, index_a, path_a, key_b, index_b, path_b, COL_BIT_B as int, q));
        assert(t[COL_KEY_B as int][q] == cell_spec(key_a, index_a, path_a, key_b, index_b, path_b, COL_KEY_B as int, q));
        assert(t[COL_IDX_B as int][q] == cell_spec(key_a, index_a, path_a, key_b, index_b, path_b, COL_IDX_B as int, q));
        assert(t[COL_ACC_B as int][q] == cell_spec(key_a, index_a, path_a, key_b, index_b, path_b, COL_ACC_B as int, q));
    }
    lemma_custodian_steps(key_a, index_a, path_a, t, r, 0, COL_BIT_A as int, COL_KEY_A as int, COL_IDX_A as int, COL_ACC_A as int);
    lemma_custodian_steps(key_b, index_b, path_b, t, r, 12, COL_BIT_B as int, COL_KEY_B as int, COL_IDX_B as int, COL_ACC_B as int);
    lemma_custodian_residuals(cur, nxt, per);
    assert forall|k: int| 0 <= k < NUM_CONSTRAINTS implies #[trigger] constraint_spec(k, cur, nxt, per) == 0 by {
        if 24 <= k < 52 {
            assert(constraint_spec(k, cur, nxt, per) == 0);
        }
    }
}

#[verifier::spinoff_prover]
#[verifier::rlimit(100)]
proof fn lemma_accepted_constraint_52(cur: Seq<u64>, nxt: Seq<u64>, per: Seq<u64>)
    requires
        cur.len() == TRACE_WIDTH,
        nxt.len() == TRACE_WIDTH,
        all_canonical(cur),
        all_canonical(nxt),
        constraint_spec(52, cur, nxt, per) == 0,
    ensures
        cur[32] <= 1,
{
    lemma_residuals_len(cur, nxt, per);
    assert(constraint_spec(52, cur, nxt, per) == residuals_2(cur, nxt, per)[4]);
    reveal(residuals_2);
    lemma_field_bit(cur[32]);
}

#[verifier::spinoff_prover]
#[verifier::rlimit(100)]
proof fn lemma_accepted_constraint_55(cur: Seq<u64>, nxt: Seq<u64>, per: Seq<u64>)
    requires
        cur.len() == TRACE_WIDTH,
        nxt.len() == TRACE_WIDTH,
        all_canonical(cur),
        all_canonical(nxt),
        constraint_spec(55, cur, nxt, per) == 0,
    ensures
        per[29] == 1 ==> cur[33] == 0,
{
    lemma_residuals_len(cur, nxt, per);
    assert(constraint_spec(55, cur, nxt, per) == residuals_2(cur, nxt, per)[7]);
    reveal(residuals_2);
    if per[29] == 1 {
        lemma_selected(cur[33]);
    }
}

#[verifier::spinoff_prover]
#[verifier::rlimit(100)]
proof fn lemma_accepted_constraint_56(cur: Seq<u64>, nxt: Seq<u64>, per: Seq<u64>)
    requires
        cur.len() == TRACE_WIDTH,
        nxt.len() == TRACE_WIDTH,
        all_canonical(cur),
        all_canonical(nxt),
        constraint_spec(56, cur, nxt, per) == 0,
    ensures
        per[30] == 1 ==> nxt[33] == add_spec(add_spec(cur[33], cur[33]), nxt[32]),
{
    lemma_residuals_len(cur, nxt, per);
    assert(constraint_spec(56, cur, nxt, per) == residuals_2(cur, nxt, per)[8]);
    reveal(residuals_2);
    lemma_reduce_canonical(cur[33] + cur[33]);
    lemma_reduce_canonical(add_spec(cur[33], cur[33]) + nxt[32]);
    if per[30] == 1 {
        lemma_selected_equal(per[30], nxt[33], add_spec(add_spec(cur[33], cur[33]), nxt[32]));
    }
}

#[verifier::spinoff_prover]
#[verifier::rlimit(100)]
proof fn lemma_accepted_constraint_57(cur: Seq<u64>, nxt: Seq<u64>, per: Seq<u64>)
    requires
        cur.len() == TRACE_WIDTH,
        nxt.len() == TRACE_WIDTH,
        all_canonical(cur),
        all_canonical(nxt),
        constraint_spec(57, cur, nxt, per) == 0,
    ensures
        per[31] == 1 ==> nxt[33] == cur[28],
{
    lemma_residuals_len(cur, nxt, per);
    assert(constraint_spec(57, cur, nxt, per) == residuals_2(cur, nxt, per)[9]);
    reveal(residuals_2);
    if per[31] == 1 {
        lemma_selected_equal(per[31], nxt[33], cur[28]);
    }
}

#[verifier::spinoff_prover]
#[verifier::rlimit(100)]
proof fn lemma_accepted_constraint_58(cur: Seq<u64>, nxt: Seq<u64>, per: Seq<u64>)
    requires
        cur.len() == TRACE_WIDTH,
        nxt.len() == TRACE_WIDTH,
        all_canonical(cur),
        all_canonical(nxt),
        constraint_spec(58, cur, nxt, per) == 0,
    ensures
        per[32] == 1 ==> nxt[33] == cur[29],
{
    lemma_residuals_len(cur, nxt, per);
    assert(constraint_spec(58, cur, nxt, per) == residuals_2(cur, nxt, per)[10]);
    reveal(residuals_2);
    if per[32] == 1 {
        lemma_selected_equal(per[32], nxt[33], cur[29]);
    }
}

#[verifier::spinoff_prover]
#[verifier::rlimit(100)]
proof fn lemma_accepted_constraint_59(cur: Seq<u64>, nxt: Seq<u64>, per: Seq<u64>)
    requires
        cur.len() == TRACE_WIDTH,
        nxt.len() == TRACE_WIDTH,
        all_canonical(cur),
        all_canonical(nxt),
        constraint_spec(59, cur, nxt, per) == 0,
    ensures
        per[33] == 1 ==> nxt[33] == sub_spec(sub_spec(cur[29], cur[28]), 1u64),
{
    lemma_residuals_len(cur, nxt, per);
    assert(constraint_spec(59, cur, nxt, per) == residuals_2(cur, nxt, per)[11]);
    reveal(residuals_2);
    lemma_reduce_canonical(cur[29] - cur[28]);
    lemma_reduce_canonical(sub_spec(cur[29], cur[28]) - 1);
    if per[33] == 1 {
        lemma_selected_equal(per[33], nxt[33], sub_spec(sub_spec(cur[29], cur[28]), 1u64));
    }
}

#[verifier::spinoff_prover]
#[verifier::rlimit(100)]
proof fn lemma_accepted_constraint_50(cur: Seq<u64>, nxt: Seq<u64>, per: Seq<u64>)
    requires
        cur.len() == TRACE_WIDTH,
        nxt.len() == TRACE_WIDTH,
        all_canonical(cur),
        all_canonical(nxt),
        constraint_spec(50, cur, nxt, per) == 0,
    ensures
        nxt[28] == cur[28],
{
    lemma_residuals_len(cur, nxt, per);
    assert(constraint_spec(50, cur, nxt, per) == residuals_2(cur, nxt, per)[2]);
    reveal(residuals_2);
    lemma_equal(nxt[28], cur[28]);
}

#[verifier::spinoff_prover]
#[verifier::rlimit(100)]
proof fn lemma_accepted_constraint_51(cur: Seq<u64>, nxt: Seq<u64>, per: Seq<u64>)
    requires
        cur.len() == TRACE_WIDTH,
        nxt.len() == TRACE_WIDTH,
        all_canonical(cur),
        all_canonical(nxt),
        constraint_spec(51, cur, nxt, per) == 0,
    ensures
        nxt[29] == cur[29],
{
    lemma_residuals_len(cur, nxt, per);
    assert(constraint_spec(51, cur, nxt, per) == residuals_2(cur, nxt, per)[3]);
    reveal(residuals_2);
    lemma_equal(nxt[29], cur[29]);
}

/// What the range-check constraints of one accepted step say: on the
/// first row of a segment the accumulator is zero, inside a segment the
/// next accumulator doubles it and adds the next bit, on the row before a
/// segment ends its accumulator is the value checked there, and the
/// two custodians' indices keep their values.
pub open spec fn range_step_facts(cur: Seq<u64>, nxt: Seq<u64>, per: Seq<u64>) -> bool {
    &&& cur[32] <= 1
    &&& per[29] == 1 ==> cur[33] == 0
    &&& per[30] == 1 ==> nxt[33] == add_spec(add_spec(cur[33], cur[33]), nxt[32])
    &&& per[31] == 1 ==> nxt[33] == cur[28]
    &&& per[32] == 1 ==> nxt[33] == cur[29]
    &&& per[33] == 1 ==> nxt[33] == sub_spec(sub_spec(cur[29], cur[28]), 1u64)
    &&& nxt[28] == cur[28]
    &&& nxt[29] == cur[29]
}

#[verifier::spinoff_prover]
#[verifier::rlimit(100)]
proof fn lemma_accepted_range_step(cur: Seq<u64>, nxt: Seq<u64>, per: Seq<u64>)
    requires
        cur.len() == TRACE_WIDTH,
        nxt.len() == TRACE_WIDTH,
        all_canonical(cur),
        all_canonical(nxt),
        forall|k: int| 0 <= k < NUM_CONSTRAINTS ==> #[trigger] constraint_spec(k, cur, nxt, per) == 0,
    ensures
        range_step_facts(cur, nxt, per),
{

    lemma_accepted_constraint_52(cur, nxt, per);
    lemma_accepted_constraint_55(cur, nxt, per);
    lemma_accepted_constraint_56(cur, nxt, per);
    lemma_accepted_constraint_57(cur, nxt, per);
    lemma_accepted_constraint_58(cur, nxt, per);
    lemma_accepted_constraint_59(cur, nxt, per);
    lemma_accepted_constraint_50(cur, nxt, per);
    lemma_accepted_constraint_51(cur, nxt, per);


}

/// The range-check segment starting on row `s` of an accepted trace ends
/// on a value below `2^7`.
#[verifier::spinoff_prover]
#[verifier::rlimit(100)]
proof fn lemma_accepted_range_segment(t: Seq<Vec<u64>>, s: int)
    requires
        t.len() == TRACE_WIDTH,
        columns_shape(t, TRACE_LENGTH as nat),
        forall|r: int| #![trigger periodic_row(r)] 0 <= r < TRACE_LENGTH - 1 ==> range_step_facts(row_of(t, r), row_of(t, r + 1), periodic_row(r)),
        s == 0 || s == 8 || s == 16,
        s + 8 < TRACE_LENGTH,
    ensures
        t[33][s + 7] < 128,
{
    let bits = t[32]@;
    let accs = t[33]@;
    let firsts: Seq<usize> = seq![0usize, 8, 16];
    assert(firsts[s / 8] == s);
    assert(range_step_facts(row_of(t, s), row_of(t, s + 1), periodic_row(s)));
    assert(periodic_row(s)[29] == periodic_spec(29, s));
    assert(periodic_row(s)[29] == 1);
    assert(row_of(t, s)[33] == accs[s]);
    assert forall|i: int| s <= i < s + 7 implies #[trigger] accs[i + 1] == add_spec(add_spec(accs[i], accs[i]), bits[i + 1]) by {
        assert(range_step_facts(row_of(t, i), row_of(t, i + 1), periodic_row(i)));
        assert(i % 8 != 7);
        assert(periodic_row(i)[30] == periodic_spec(30, i));
        assert(periodic_row(i)[30] == 1);
        assert(row_of(t, i)[33] == accs[i]);
        assert(row_of(t, i + 1)[33] == accs[i + 1]);
        assert(row_of(t, i + 1)[32] == bits[i + 1]);
    }
    assert forall|i: int| s <= i < s + 8 implies #[trigger] bits[i] <= 1 by {
        assert(range_step_facts(row_of(t, i), row_of(t, i + 1), periodic_row(i)));
        assert(row_of(t, i)[32] == bits[i]);
    }
    lemma_accepted_run(bits, accs, s, 8);
    assert(vstd::arithmetic::power2::pow2(7) == 128) by {
        vstd::arithmetic::power2::lemma2_to64();
    }
}

/// What an accepted threshold trace proves. Take any trace whose every step
/// satisfies every transition constraint with the periodic values of
/// `periodic_columns` (the field is prime, so `b * (b - 1) = 0` makes each
/// range-check cell a bit). Its three range-check segments of eight rows
/// end on the first and the second custodian's index and on `index_b -
/// index_a - 1` (in the field) of its first row, each below `2^7`. So the
/// first index is below the second: the same custodian cannot count twice.
#[verifier::spinoff_prover]
#[verifier::rlimit(100)]
pub proof fn lemma_accepted_threshold_has_two_custodians(t: Seq<Vec<u64>>)
    requires
        t.len() == TRACE_WIDTH,
        columns_shape(t, TRACE_LENGTH as nat),
        forall|r: int, k: int|
            0 <= r < TRACE_LENGTH - 1 && 0 <= k < NUM_CONSTRAINTS ==> #[trigger] constraint_spec(
                k,
                row_of(t, r),
                row_of(t, r + 1),
                periodic_row(r),
            ) == 0,
    ensures
        t[33][7] == t[28][0],
        t[33][15] == t[29][0],
        t[33][23] == sub_spec(sub_spec(t[29][0], t[28][0]), 1u64),
        t[28][0] < 128,
        t[29][0] < 128,
        sub_spec(sub_spec(t[29][0], t[28][0]), 1u64) < 128,
        t[28][0] < t[29][0],
{
    assert forall|r: int| #![trigger periodic_row(r)] 0 <= r < TRACE_LENGTH - 1 implies range_step_facts(row_of(t, r), row_of(t, r + 1), periodic_row(r)) by {
        let cur = row_of(t, r);
        let nxt = row_of(t, r + 1);
        assert forall|k: int| 0 <= k < NUM_CONSTRAINTS implies #[trigger] constraint_spec(k, cur, nxt, periodic_row(r)) == 0 by {
            assert(constraint_spec(k, row_of(t, r), row_of(t, r + 1), periodic_row(r)) == 0);
        }
        assert forall|c: int| 0 <= c < TRACE_WIDTH implies #[trigger] cur[c] < MODULUS && nxt[c] < MODULUS by {
            assert(all_canonical(t[c]@));
        }
        lemma_accepted_range_step(cur, nxt, periodic_row(r));
    }
    assert forall|q: int| 0 <= q < 23 implies #[trigger] t[28]@[q + 1] == t[28]@[q] by {
        assert(range_step_facts(row_of(t, q), row_of(t, q + 1), periodic_row(q)));
    }
    lemma_column_kept(t[28]@, 22);
    assert forall|q: int| 0 <= q < 23 implies #[trigger] t[29]@[q + 1] == t[29]@[q] by {
        assert(range_step_facts(row_of(t, q), row_of(t, q + 1), periodic_row(q)));
    }
    lemma_column_kept(t[29]@, 22);
    assert(periodic_row(6)[31] == 1) by {
        let one: Seq<usize> = seq![(8 * (31 - 30) - 2) as usize];
        assert(one[0] == 6);
        assert(periodic_row(6)[31] == selector_spec(one, 6));
    }
    assert(range_step_facts(row_of(t, 6), row_of(t, 7), periodic_row(6)));
    assert(periodic_row(14)[32] == 1) by {
        let one: Seq<usize> = seq![(8 * (32 - 30) - 2) as usize];
        assert(one[0] == 14);
        assert(periodic_row(14)[32] == selector_spec(one, 14));
    }
    assert(range_step_facts(row_of(t, 14), row_of(t, 15), periodic_row(14)));
    assert(periodic_row(22)[33] == 1) by {
        let one: Seq<usize> = seq![(8 * (33 - 30) - 2) as usize];
        assert(one[0] == 22);
        assert(periodic_row(22)[33] == selector_spec(one, 22));
    }
    assert(range_step_facts(row_of(t, 22), row_of(t, 23), periodic_row(22)));
    lemma_accepted_range_segment(t, 0);
    lemma_accepted_range_segment(t, 8);
    lemma_accepted_range_segment(t, 16);
    assert(t[28]@[6] == t[28]@[0] && t[29]@[14] == t[29]@[0]);
    assert(t[28]@[22] == t[28]@[0] && t[29]@[22] == t[29]@[0]);
    assert(all_canonical(t[29]@));
    lemma_checked_gap(t[29][0], t[28][0]);
}

} // verus!
