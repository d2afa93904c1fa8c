//! One custodian's authorisation of ONE operation, with a nullifier in
//! place of the public index: the identity of the key climbs the custodian
//! set, and `H(NULLIFIER_DOMAIN, key ; operation)` is published. Two
//! authorisations meet the threshold when they are on the expected set and
//! operation and their nullifiers differ.
//!
//! Columns: 0..12 the hash lane, 12 the direction bit, 13 the key, 14..18
//! the operation commitment.

use vstd::prelude::*;
use crate::circuit_threshold::{lane_root_spec, lane_start_spec, path_ok, CustodianPath, CUSTODIAN_DEPTH, ROW_ROOT};
use crate::domains::CUSTODIAN_DOMAIN;
use crate::constraints::{rounds_hold, round_residuals, round_residuals_spec};
use crate::field::{MODULUS, add_spec, all_canonical, fadd, felt, fmul, fsub, mul_spec, reduce, sub_spec};
use crate::lane::{is_lane, lane_state, run_lane, Link, CYCLE_LENGTH};
use crate::periodic::{ark_spec, hash_flag_spec, point_column, point_spec, round_columns, selector_column, selector_spec};
use crate::rescue::{apply_permutation, as_digest_spec, digest_of, lemma_digest_row, merge_spec, merge_state, native_merge, permutation, rounds, Digest};
use crate::merkle::{climb_spec, climb_step, place_state, sibling_seqs};
use crate::trace::{row_of, columns_shape, constant_column, cycle_bit_column, cycle_bit_spec, lane_columns};

verus! {

/// Domain of the nullifier, distinct from that of custodian identities.
pub const NULLIFIER_DOMAIN: u64 = 0x4E554C4C;

pub const TRACE_LENGTH: usize = 64;
pub const COL_BIT: usize = 12;
pub const COL_KEY: usize = 13;
pub const COL_OP: usize = 14;
pub const TRACE_WIDTH: usize = 18;

/// Row whose state holds the nullifier: its hash starts at row 40, the
/// first free row after the root, and runs its seven rounds to row 46.
pub const ROW_NULL: usize = 47;

/// Number of transition constraints of the circuit.
pub const NUM_CONSTRAINTS: usize = 39;

/// Operation domains: one per kind of operation, so that an authorisation
/// of one kind cannot stand for another.
pub const OP_MINT: u64 = 0x4D494E54;
pub const OP_MINT_PENDING: u64 = 0x4D504E44;
pub const OP_FREEZE: u64 = 0x46525A45;
pub const OP_RECOVERY: u64 = 0x5245434F;
pub const OP_GOVERNANCE: u64 = 0x474F5652;

/// The eight rate elements of chunk `k` of `elems`, zero past the end.
pub open spec fn chunk_rate(elems: Seq<u64>, k: int) -> Seq<u64> {
    Seq::new(8, |i: int| if 8 * k + i < elems.len() { elems[8 * k + i] } else { 0u64 })
}

/// The sponge state after absorbing the first `k` chunks: the domain in
/// the first capacity element, each chunk overwriting the rate before a
/// permutation.
pub open spec fn sponge_state(domain: u64, elems: Seq<u64>, k: nat) -> Seq<u64>
    decreases k,
{
    if k == 0 {
        seq![reduce(domain as int), 0u64, 0u64, 0u64, 0u64, 0u64, 0u64, 0u64, 0u64, 0u64, 0u64, 0u64]
    } else {
        let s = sponge_state(domain, elems, (k - 1) as nat);
        permutation(seq![s[0], s[1], s[2], s[3]] + chunk_rate(elems, k - 1))
    }
}

/// The number of chunks of eight in `n` elements, and at least one, so
/// that the domain always goes through a permutation.
pub open spec fn num_chunks(n: nat) -> nat {
    if n == 0 {
        1
    } else {
        ((n + 7) / 8) as nat
    }
}

/// The commitment to an operation: elements 4..8 of the final sponge state.
pub open spec fn commit_spec(domain: u64, elems: Seq<u64>) -> Seq<u64> {
    let s = sponge_state(domain, elems, num_chunks(elems.len()));
    seq![s[4], s[5], s[6], s[7]]
}

/// Sums up the parameters of an operation in a digest the custodians sign.
/// At least one chunk is absorbed, so the domain reaches the digest even
/// when there are no parameters. The padding is by zeros and there is no
/// length in the state, so the commitment assumes a fixed number of
/// parameters per domain.
pub fn commit_operation(domain: u64, elements: &[u64]) -> (r: Digest)
    requires
        all_canonical(elements@),
    ensures
        r@ == commit_spec(domain, elements@),
        all_canonical(r@),
{
    let mut state: [u64; 12] = [felt(domain), 0, 0, 0, 0, 0, 0, 0, 0, 0, 0, 0];
    assert(state@ =~= sponge_state(domain, elements@, 0));
    let n = elements.len();
    let chunks: usize = if n == 0 {
        1
    } else if n % 8 == 0 {
        n / 8
    } else {
        n / 8 + 1
    };
    assert(chunks == num_chunks(n as nat)) by (nonlinear_arith)
        requires
            chunks == (if n == 0 { 1int } else if n % 8 == 0 { n as int / 8 } else { n as int / 8 + 1 }),
    ;
    let mut k: usize = 0;
    while k < chunks
        invariant
            k <= chunks,
            chunks == num_chunks(n as nat),
            chunks == (if n == 0 { 1int } else if n % 8 == 0 { n as int / 8 } else { n as int / 8 + 1 }),
            n == elements.len(),
            all_canonical(elements@),
            state@ == sponge_state(domain, elements@, k as nat),
            all_canonical(state@),
        decreases chunks - k,
    {
        assert(8 * k <= n) by (nonlinear_arith)
            requires
                k < chunks,
                chunks == (if n == 0 { 1int } else if n % 8 == 0 { n as int / 8 } else { n as int / 8 + 1 }),
        ;
        let base: usize = 8 * k;
        let mut next: [u64; 12] = [state[0], state[1], state[2], state[3], 0, 0, 0, 0, 0, 0, 0, 0];
        let mut i: usize = 0;
        while i < 8
            invariant
                i <= 8,
                base == 8 * k,
                base <= n,
                n == elements.len(),
                all_canonical(elements@),
                all_canonical(state@),
                forall|j: int| 0 <= j < 4 ==> next@[j] == state@[j],
                forall|j: int| 0 <= j < i ==> #[trigger] next@[4 + j] == chunk_rate(elements@, k as int)[j],
                forall|j: int| i <= j < 8 ==> #[trigger] next@[4 + j] == 0,
            decreases 8 - i,
        {
            let v: u64 = if i < n - base { elements[base + i] } else { 0 };
            next[4 + i] = v;
            i = i + 1;
        }
        assert forall|j: int| 4 <= j < 12 implies next@[j] == chunk_rate(elements@, k as int)[j - 4] by {
            assert(next@[4 + (j - 4)] == chunk_rate(elements@, k as int)[j - 4]);
        }
        assert(next@ =~= seq![state@[0], state@[1], state@[2], state@[3]] + chunk_rate(elements@, k as int));
        apply_permutation(&mut next);
        state = next;
        k = k + 1;
    }
    let r = [state[4], state[5], state[6], state[7]];
    assert(r@ =~= commit_spec(domain, elements@));
    r
}

/// Two parameter lists whose chunks agree up to chunk `k` give the same
/// sponge state after `k` chunks.
proof fn lemma_sponge_agrees(domain: u64, e1: Seq<u64>, e2: Seq<u64>, k: nat)
    requires
        forall|j: int| 0 <= j < k ==> #[trigger] chunk_rate(e1, j) == chunk_rate(e2, j),
    ensures
        sponge_state(domain, e1, k) == sponge_state(domain, e2, k),
    decreases k,
{
    if k > 0 {
        lemma_sponge_agrees(domain, e1, e2, (k - 1) as nat);
        assert(chunk_rate(e1, k - 1) == chunk_rate(e2, k - 1));
    }
}

/// The commitment carries no length: parameters padded with zeros up to
/// the end of their last chunk commit to the same digest (`[a]` and
/// `[a, 0]` collide). This is why each domain has a fixed number of
/// parameters.
pub proof fn lemma_zero_padding_collides(domain: u64, elems: Seq<u64>, k: nat)
    requires
        elems.len() % 8 != 0,
        k <= 8 - elems.len() % 8,
    ensures
        commit_spec(domain, elems + Seq::new(k, |i: int| 0u64)) == commit_spec(domain, elems),
{
    let n = elems.len();
    let padded = elems + Seq::new(k, |i: int| 0u64);
    assert(num_chunks(n + k) == num_chunks(n)) by (nonlinear_arith)
        requires
            n % 8 != 0,
            k <= 8 - n % 8,
            num_chunks(n + k) == (if n + k == 0 { 1 } else { ((n + k + 7) / 8) as nat }),
            num_chunks(n) == (if n == 0 { 1 } else { ((n + 7) / 8) as nat }),
    ;
    assert forall|j: int| 0 <= j < num_chunks(n) implies #[trigger] chunk_rate(padded, j) == chunk_rate(elems, j) by {
        assert(chunk_rate(padded, j) =~= chunk_rate(elems, j));
    }
    lemma_sponge_agrees(domain, padded, elems, num_chunks(n));
}

/// `[NULLIFIER_DOMAIN, key, 0, 0]`: the left half of the nullifier state.
pub open spec fn nullifier_left(key: u64) -> Seq<u64> {
    seq![NULLIFIER_DOMAIN, key, 0u64, 0u64]
}

/// A custodian's nullifier for one operation.
pub open spec fn nullifier_spec(key: u64, operation: Seq<u64>) -> Seq<u64> {
    merge_spec(nullifier_left(key), operation)
}

/// The nullifier of a custodian for a given operation: one permutation over
/// the domain and the key on the left, the operation on the right.
pub fn derive_nullifier(key: u64, operation: &Digest) -> (r: Digest)
    requires
        key < MODULUS,
        all_canonical(operation@),
    ensures
        r@ == nullifier_spec(key, operation@),
        all_canonical(r@),
{
    let left: Digest = [NULLIFIER_DOMAIN, key, 0, 0];
    assert(left@ =~= nullifier_left(key));
    native_merge(&left, operation)
}

/// The value of the lane at row `r`: the climb to the root, then the
/// nullifier hash in rows 40..48.
pub open spec fn lane_value(key: u64, path: CustodianPath, operation: Seq<u64>, i: int, r: int) -> u64 {
    if r <= ROW_ROOT {
        rounds(lane_start_spec(key, path, r / 8), (r % 8) as nat)[i]
    } else if r <= ROW_NULL {
        rounds(merge_state(nullifier_left(key), operation), (r - 40) as nat)[i]
    } else {
        0
    }
}

/// The value of the trace at column `col` and row `r`.
pub open spec fn cell_spec(key: u64, path: CustodianPath, operation: Seq<u64>, col: int, r: int) -> u64 {
    if col < 12 {
        lane_value(key, path, operation, col, r)
    } else if col == COL_BIT {
        cycle_bit_spec(path.is_right@.subrange(0, 4), 1, r)
    } else if col == COL_KEY {
        key
    } else {
        operation[col - COL_OP]
    }
}

/// Builds the trace: the climb into the custodian set, then the nullifier.
pub fn build_trace(key: u64, path: &CustodianPath, operation: &Digest) -> (cols: Vec<Vec<u64>>)
    requires
        key < MODULUS,
        path_ok(*path),
        all_canonical(operation@),
    ensures
        cols.len() == TRACE_WIDTH,
        columns_shape(cols@, TRACE_LENGTH as nat),
        forall|col: int, r: int|
            0 <= col < TRACE_WIDTH && 0 <= r < TRACE_LENGTH ==> #[trigger] cols[col][r] == cell_spec(
                key,
                *path,
                operation@,
                col,
                r,
            ),
        forall|r: int, k: int|
            0 <= r < TRACE_LENGTH - 1 && 0 <= k < NUM_CONSTRAINTS ==> #[trigger] constraint_spec(
                k,
                row_of(cols@, r),
                row_of(cols@, r + 1),
                periodic_row(r),
            ) == 0,
{
    let mut lane = crate::circuit_threshold::threshold_lane(key, path);
    let null_state: [u64; 12] = [
        0, 0, 0, 0, NULLIFIER_DOMAIN, key, 0, 0, operation[0], operation[1], operation[2], operation[3],
    ];
    assert(null_state@ =~= merge_state(nullifier_left(key), operation@));
    let no_links: Vec<Link> = Vec::new();
    let mut null_lane = run_lane(&null_state, &no_links);
    proof {
        assert forall|k: nat| k < 8 implies #[trigger] null_lane@[k as int]@ == rounds(
            merge_state(nullifier_left(key), operation@),
            k,
        ) by {
            assert(null_lane@[(CYCLE_LENGTH * 0 + k) as int]@ == lane_state(null_state@, no_links@, 0, k));
        }
    }
    let ghost climb_rows = lane@;
    lane.append(&mut null_lane);
    let mut cols = lane_columns(&lane, TRACE_LENGTH);
    let mut bits: Vec<bool> = Vec::new();
    let mut level: usize = 0;
    while level < CUSTODIAN_DEPTH
        invariant
            level <= CUSTODIAN_DEPTH,
            path_ok(*path),
            bits@ =~= path.is_right@.subrange(0, level as int),
        decreases CUSTODIAN_DEPTH - level,
    {
        bits.push(path.is_right[level]);
        level = level + 1;
    }
    cols.push(cycle_bit_column(&bits, 1, TRACE_LENGTH));
    cols.push(constant_column(key, TRACE_LENGTH));
    let mut i: usize = 0;
    while i < 4
        invariant
            i <= 4,
            all_canonical(operation@),
            cols.len() == COL_OP + i,
            columns_shape(cols@, TRACE_LENGTH as nat),
            forall|col: int, r: int|
                0 <= col < cols.len() && 0 <= r < TRACE_LENGTH ==> #[trigger] cols[col][r] == cell_spec(
                    key,
                    *path,
                    operation@,
                    col,
                    r,
                ),
        decreases 4 - i,
    {
        cols.push(constant_column(operation[i], TRACE_LENGTH));
        i = i + 1;
    }
    proof {
        assert(rounds_hold(crate::lane::cycle_start(null_state@, no_links@, 0)));
        assert forall|r: int, k: int|
            0 <= r < TRACE_LENGTH - 1 && 0 <= k < NUM_CONSTRAINTS implies #[trigger] constraint_spec(
            k,
            row_of(cols@, r),
            row_of(cols@, r + 1),
            periodic_row(r),
        ) == 0 by {
            lemma_trace_satisfies_constraints(key, *path, operation@, cols@, r);
        }
    }
    cols
}


/// The root row holds the identity climbed up the path; the nullifier row
/// holds the custodian's nullifier for the operation.
pub proof fn lemma_trace_landmarks(key: u64, path: CustodianPath, operation: Seq<u64>)
    requires
        path_ok(path),
    ensures
        forall|i: int| 0 <= i < 4 ==> #[trigger] cell_spec(key, path, operation, 4 + i, ROW_ROOT as int) == lane_root_spec(key, path)[i],
        forall|i: int| 0 <= i < 4 ==> #[trigger] cell_spec(key, path, operation, 4 + i, ROW_NULL as int) == nullifier_spec(key, operation)[i],
{
    crate::circuit_threshold::lemma_trace_landmarks(key, 0, path, key, 0, path);
    assert forall|i: int| 0 <= i < 4 implies #[trigger] cell_spec(key, path, operation, 4 + i, ROW_ROOT as int) == lane_root_spec(key, path)[i] by {
        assert(crate::circuit_threshold::cell_spec(key, 0, path, key, 0, path, 4 + i, ROW_ROOT as int)
            == lane_root_spec(key, path)[i]);
    }
    lemma_digest_row(merge_state(nullifier_left(key), operation));
}

/// The public inputs: the custodian set root, the nullifier, and the
/// commitment to the authorised operation. The index stays private.
#[derive(Clone, Debug)]
pub struct NullifierThresholdPublicInputs {
    pub custodian_set_root: Digest,
    pub nullifier: Digest,
    pub operation: Digest,
}

impl NullifierThresholdPublicInputs {
    pub fn to_elements(&self) -> (r: Vec<u64>)
        ensures
            r@ == self.custodian_set_root@ + self.nullifier@ + self.operation@,
    {
        let mut r: Vec<u64> = Vec::new();
        let mut i: usize = 0;
        while i < 4
            invariant
                i <= 4,
                r@ =~= self.custodian_set_root@.subrange(0, i as int),
            decreases 4 - i,
        {
            r.push(self.custodian_set_root[i]);
            i = i + 1;
        }
        let mut i: usize = 0;
        while i < 4
            invariant
                i <= 4,
                r@ =~= self.custodian_set_root@ + self.nullifier@.subrange(0, i as int),
            decreases 4 - i,
        {
            r.push(self.nullifier[i]);
            i = i + 1;
        }
        let mut i: usize = 0;
        while i < 4
            invariant
                i <= 4,
                r@ =~= self.custodian_set_root@ + self.nullifier@ + self.operation@.subrange(0, i as int),
            decreases 4 - i,
        {
            r.push(self.operation[i]);
            i = i + 1;
        }
        r
    }
}

/// The public inputs a trace shows: the root row, the nullifier row, and
/// the operation columns at row 0.
pub fn public_inputs_of(trace: &Vec<Vec<u64>>) -> (pi: NullifierThresholdPublicInputs)
    requires
        trace.len() == TRACE_WIDTH,
        columns_shape(trace@, TRACE_LENGTH as nat),
    ensures
        forall|i: int| 0 <= i < 4 ==> #[trigger] pi.custodian_set_root[i] == trace[4 + i][ROW_ROOT as int],
        forall|i: int| 0 <= i < 4 ==> #[trigger] pi.nullifier[i] == trace[4 + i][ROW_NULL as int],
        forall|i: int| 0 <= i < 4 ==> #[trigger] pi.operation[i] == trace[COL_OP + i][0],
{
    NullifierThresholdPublicInputs {
        custodian_set_root: [trace[4][ROW_ROOT], trace[5][ROW_ROOT], trace[6][ROW_ROOT], trace[7][ROW_ROOT]],
        nullifier: [trace[4][ROW_NULL], trace[5][ROW_NULL], trace[6][ROW_NULL], trace[7][ROW_NULL]],
        operation: [trace[COL_OP][0], trace[COL_OP + 1][0], trace[COL_OP + 2][0], trace[COL_OP + 3][0]],
    }
}

/// The value of periodic column `j` at row `r`.
pub open spec fn periodic_spec(j: int, r: int) -> u64 {
    if j == 0 {
        hash_flag_spec(ROW_NULL + 1, r)
    } else if j < 13 {
        ark_spec(false, j - 1, ROW_NULL + 1, r)
    } else if j < 25 {
        ark_spec(true, j - 13, ROW_NULL + 1, r)
    } else if j == 25 {
        point_spec(crate::circuit_threshold::tree_link_points(), r)
    } else if j == 26 {
        selector_spec(seq![0usize], r)
    } else {
        selector_spec(seq![ROW_ROOT], r)
    }
}

/// The 28 periodic columns: rounds, tree links, first row, and the restart
/// of the state for the nullifier on the transition 39 to 40.
pub fn periodic_columns() -> (cols: Vec<Vec<u64>>)
    ensures
        cols.len() == 28,
        forall|j: int| 0 <= j < 28 ==> (#[trigger] cols[j]).len() == TRACE_LENGTH,
        forall|j: int, r: int| 0 <= j < 28 && 0 <= r < TRACE_LENGTH ==> #[trigger] cols[j][r] == periodic_spec(j, r),
        forall|j: int| 0 <= j < 28 ==> all_canonical(#[trigger] cols[j]@),
{
    let mut cols = round_columns(ROW_NULL + 1, TRACE_LENGTH);
    let ghost rounds = cols@;
    let links = vec![(7usize, 1u64), (15usize, 1u64), (23usize, 1u64), (31usize, 1u64)];
    assert(links@ =~= crate::circuit_threshold::tree_link_points());
    cols.push(point_column(&links, TRACE_LENGTH));
    let first = vec![0usize];
    assert(first@ =~= seq![0usize]);
    cols.push(selector_column(&first, TRACE_LENGTH));
    let root = vec![ROW_ROOT];
    assert(root@ =~= seq![ROW_ROOT]);
    cols.push(selector_column(&root, TRACE_LENGTH));
    proof {
        assert forall|j: int| 0 <= j < 28 implies all_canonical(#[trigger] cols[j]@) by {
            assert forall|r: int| 0 <= r < cols[j]@.len() implies #[trigger] cols[j]@[r] < MODULUS by {
                if j < 25 {
                    assert(all_canonical(rounds[j]@));
                    assert(rounds[j][r] == cols[j][r]);
                } else {
                    reveal_with_fuel(point_spec, 5);
                    assert(cols[j][r] == periodic_spec(j, r));
                }
            }
        }
    }
    cols
}

/// Assertion `j`: (column, row, value).
pub open spec fn assertion_spec(pi: NullifierThresholdPublicInputs, j: int) -> (usize, usize, u64) {
    if j < 4 {
        (j as usize, 0usize, 0u64)
    } else if j == 4 {
        (4usize, 0usize, CUSTODIAN_DOMAIN)
    } else if j < 8 {
        (j as usize, 0usize, 0u64)
    } else if j < 12 {
        ((4 + j - 8) as usize, ROW_ROOT, pi.custodian_set_root@[j - 8])
    } else if j < 16 {
        ((4 + j - 12) as usize, ROW_NULL, pi.nullifier@[j - 12])
    } else {
        ((COL_OP + j - 16) as usize, 0usize, pi.operation@[j - 16])
    }
}

/// The 20 boundary assertions.
pub fn assertions(pi: &NullifierThresholdPublicInputs) -> (a: Vec<(usize, usize, u64)>)
    ensures
        a.len() == 20,
        forall|j: int| 0 <= j < 20 ==> #[trigger] a[j] == assertion_spec(*pi, j),
{
    let mut a: Vec<(usize, usize, u64)> = Vec::new();
    let mut i: usize = 0;
    while i < 4
        invariant
            i <= 4,
            a.len() == i,
            forall|j: int| 0 <= j < a.len() ==> #[trigger] a[j] == assertion_spec(*pi, j),
        decreases 4 - i,
    {
        a.push((i, 0, 0));
        i = i + 1;
    }
    a.push((4, 0, CUSTODIAN_DOMAIN));
    let mut i: usize = 5;
    while i < 8
        invariant
            5 <= i <= 8,
            a.len() == i,
            forall|j: int| 0 <= j < a.len() ==> #[trigger] a[j] == assertion_spec(*pi, j),
        decreases 8 - i,
    {
        a.push((i, 0, 0));
        i = i + 1;
    }
    let mut i: usize = 0;
    while i < 4
        invariant
            i <= 4,
            a.len() == 8 + i,
            forall|j: int| 0 <= j < a.len() ==> #[trigger] a[j] == assertion_spec(*pi, j),
        decreases 4 - i,
    {
        a.push((4 + i, ROW_ROOT, pi.custodian_set_root[i]));
        i = i + 1;
    }
    let mut i: usize = 0;
    while i < 4
        invariant
            i <= 4,
            a.len() == 12 + i,
            forall|j: int| 0 <= j < a.len() ==> #[trigger] a[j] == assertion_spec(*pi, j),
        decreases 4 - i,
    {
        a.push((4 + i, ROW_NULL, pi.nullifier[i]));
        i = i + 1;
    }
    let mut i: usize = 0;
    while i < 4
        invariant
            i <= 4,
            a.len() == 16 + i,
            forall|j: int| 0 <= j < a.len() ==> #[trigger] a[j] == assertion_spec(*pi, j),
        decreases 4 - i,
    {
        a.push((COL_OP + i, 0, pi.operation[i]));
        i = i + 1;
    }
    a
}

/// Why a pair of authorisations is refused.
#[derive(Debug, Clone, Copy, PartialEq, Eq, Structural)]
pub enum PairRejection {
    /// One of the two proofs does not verify.
    InvalidProof,
    /// Both come from the same custodian: the same nullifier.
    SameCustodian,
    /// A proof authorises another operation.
    WrongOperation,
    /// A proof shows membership of another custodian set.
    WrongCustodianSet,
}

/// Digest equality.
pub fn digest_eq(a: &Digest, b: &Digest) -> (r: bool)
    ensures
        r == (a@ == b@),
{
    let r = a[0] == b[0] && a[1] == b[1] && a[2] == b[2] && a[3] == b[3];
    if r {
        assert(a@ =~= b@);
    }
    r
}

/// The checks on the public inputs of a pair, in order: both on the
/// expected custodian set, both on the expected operation, two different
/// nullifiers.
pub open spec fn pair_inputs_verdict(
    a: NullifierThresholdPublicInputs,
    b: NullifierThresholdPublicInputs,
    expected_root: Seq<u64>,
    expected_operation: Seq<u64>,
) -> Result<(), PairRejection> {
    if a.custodian_set_root@ != expected_root || b.custodian_set_root@ != expected_root {
        Err(PairRejection::WrongCustodianSet)
    } else if a.operation@ != expected_operation || b.operation@ != expected_operation {
        Err(PairRejection::WrongOperation)
    } else if a.nullifier@ == b.nullifier@ {
        Err(PairRejection::SameCustodian)
    } else {
        Ok(())
    }
}

/// Checks the public inputs of a pair of authorisations against the set
/// root and the operation that the caller expects.
pub fn check_pair_inputs(
    inputs_a: &NullifierThresholdPublicInputs,
    inputs_b: &NullifierThresholdPublicInputs,
    expected_root: &Digest,
    expected_operation: &Digest,
) -> (r: Result<(), PairRejection>)
    ensures
        r == pair_inputs_verdict(*inputs_a, *inputs_b, expected_root@, expected_operation@),
{
    if !digest_eq(&inputs_a.custodian_set_root, expected_root) || !digest_eq(
        &inputs_b.custodian_set_root,
        expected_root,
    ) {
        return Err(PairRejection::WrongCustodianSet);
    }
    if !digest_eq(&inputs_a.operation, expected_operation) || !digest_eq(&inputs_b.operation, expected_operation) {
        return Err(PairRejection::WrongOperation);
    }
    if digest_eq(&inputs_a.nullifier, &inputs_b.nullifier) {
        return Err(PairRejection::SameCustodian);
    }
    Ok(())
}

/// The decision on a pair: the input checks first, then both proofs.
pub open spec fn pair_decision(
    a: NullifierThresholdPublicInputs,
    b: NullifierThresholdPublicInputs,
    expected_root: Seq<u64>,
    expected_operation: Seq<u64>,
    proof_a_valid: bool,
    proof_b_valid: bool,
) -> Result<(), PairRejection> {
    match pair_inputs_verdict(a, b, expected_root, expected_operation) {
        Err(e) => Err(e),
        Ok(_) => if proof_a_valid && proof_b_valid {
            Ok(())
        } else {
            Err(PairRejection::InvalidProof)
        },
    }
}

/// Decides whether a pair of authorisations meets the two-of-N threshold,
/// given whether each proof verifies: the input checks first, then both
/// proofs valid.
pub fn decide_threshold_pair(
    inputs_a: &NullifierThresholdPublicInputs,
    inputs_b: &NullifierThresholdPublicInputs,
    expected_root: &Digest,
    expected_operation: &Digest,
    proof_a_valid: bool,
    proof_b_valid: bool,
) -> (r: Result<(), PairRejection>)
    ensures
        r == pair_decision(*inputs_a, *inputs_b, expected_root@, expected_operation@, proof_a_valid, proof_b_valid),
{
    match check_pair_inputs(inputs_a, inputs_b, expected_root, expected_operation) {
        Err(e) => Err(e),
        Ok(()) => if proof_a_valid && proof_b_valid {
            Ok(())
        } else {
            Err(PairRejection::InvalidProof)
        },
    }
}


/// The threshold is a threshold: a pair is accepted exactly when both
/// proofs verify, both show membership of the expected custodian set,
/// both authorise the expected operation, and their nullifiers differ, so
/// that they come from two different custodians.
pub proof fn lemma_pair_accepted_iff(
    a: NullifierThresholdPublicInputs,
    b: NullifierThresholdPublicInputs,
    expected_root: Seq<u64>,
    expected_operation: Seq<u64>,
    proof_a_valid: bool,
    proof_b_valid: bool,
)
    ensures
        pair_decision(a, b, expected_root, expected_operation, proof_a_valid, proof_b_valid) is Ok <==> {
            &&& proof_a_valid
            &&& proof_b_valid
            &&& a.custodian_set_root@ == expected_root
            &&& b.custodian_set_root@ == expected_root
            &&& a.operation@ == expected_operation
            &&& b.operation@ == expected_operation
            &&& a.nullifier@ != b.nullifier@
        },
{
}



/// The residuals of constraints 12..=23.
#[verifier::opaque]
pub open spec fn residuals_0(cur: Seq<u64>, nxt: Seq<u64>, per: Seq<u64>) -> Seq<u64> {
    seq![
        mul_spec(per[25], nxt[0]),
        mul_spec(per[25], nxt[1]),
        mul_spec(per[25], nxt[2]),
        mul_spec(per[25], nxt[3]),
        mul_spec(per[25], add_spec(mul_spec(sub_spec(1u64, nxt[12]), sub_spec(nxt[4], cur[4])), mul_spec(nxt[12], sub_spec(nxt[8], cur[4])))),
        mul_spec(per[25], add_spec(mul_spec(sub_spec(1u64, nxt[12]), sub_spec(nxt[5], cur[5])), mul_spec(nxt[12], sub_spec(nxt[9], cur[5])))),
        mul_spec(per[25], add_spec(mul_spec(sub_spec(1u64, nxt[12]), sub_spec(nxt[6], cur[6])), mul_spec(nxt[12], sub_spec(nxt[10], cur[6])))),
        mul_spec(per[25], add_spec(mul_spec(sub_spec(1u64, nxt[12]), sub_spec(nxt[7], cur[7])), mul_spec(nxt[12], sub_spec(nxt[11], cur[7])))),
        mul_spec(cur[12], sub_spec(cur[12], 1u64)),
        mul_spec(per[26], sub_spec(cur[8], cur[13])),
        sub_spec(nxt[13], cur[13]),
        sub_spec(nxt[14], cur[14]),
    ]
}

fn residuals_0_eval(cur: &Vec<u64>, nxt: &Vec<u64>, per: &Vec<u64>) -> (r: Vec<u64>)
    requires
        cur.len() == TRACE_WIDTH,
        nxt.len() == TRACE_WIDTH,
        per.len() == 28,
        all_canonical(cur@),
        all_canonical(nxt@),
        all_canonical(per@),
    ensures
        r@ == residuals_0(cur@, nxt@, per@),
        r.len() == 12,
{
    let r = vec![
        fmul(per[25], nxt[0]),
        fmul(per[25], nxt[1]),
        fmul(per[25], nxt[2]),
        fmul(per[25], nxt[3]),
        fmul(per[25], fadd(fmul(fsub(1u64, nxt[12]), fsub(nxt[4], cur[4])), fmul(nxt[12], fsub(nxt[8], cur[4])))),
        fmul(per[25], fadd(fmul(fsub(1u64, nxt[12]), fsub(nxt[5], cur[5])), fmul(nxt[12], fsub(nxt[9], cur[5])))),
        fmul(per[25], fadd(fmul(fsub(1u64, nxt[12]), fsub(nxt[6], cur[6])), fmul(nxt[12], fsub(nxt[10], cur[6])))),
        fmul(per[25], fadd(fmul(fsub(1u64, nxt[12]), fsub(nxt[7], cur[7])), fmul(nxt[12], fsub(nxt[11], cur[7])))),
        fmul(cur[12], fsub(cur[12], 1u64)),
        fmul(per[26], fsub(cur[8], cur[13])),
        fsub(nxt[13], cur[13]),
        fsub(nxt[14], cur[14]),
    ];
    proof {
        reveal(residuals_0);
    }
    assert(r@ =~= residuals_0(cur@, nxt@, per@));
    r
}

/// The residuals of constraints 24..=35.
#[verifier::opaque]
pub open spec fn residuals_1(cur: Seq<u64>, nxt: Seq<u64>, per: Seq<u64>) -> Seq<u64> {
    seq![
        sub_spec(nxt[15], cur[15]),
        sub_spec(nxt[16], cur[16]),
        sub_spec(nxt[17], cur[17]),
        mul_spec(per[27], nxt[0]),
        mul_spec(per[27], nxt[1]),
        mul_spec(per[27], nxt[2]),
        mul_spec(per[27], nxt[3]),
        mul_spec(per[27], sub_spec(nxt[4], 1314212940u64)),
        mul_spec(per[27], sub_spec(nxt[5], cur[13])),
        mul_spec(per[27], nxt[6]),
        mul_spec(per[27], nxt[7]),
        mul_spec(per[27], sub_spec(nxt[8], cur[14])),
    ]
}

fn residuals_1_eval(cur: &Vec<u64>, nxt: &Vec<u64>, per: &Vec<u64>) -> (r: Vec<u64>)
    requires
        cur.len() == TRACE_WIDTH,
        nxt.len() == TRACE_WIDTH,
        per.len() == 28,
        all_canonical(cur@),
        all_canonical(nxt@),
        all_canonical(per@),
    ensures
        r@ == residuals_1(cur@, nxt@, per@),
        r.len() == 12,
{
    let r = vec![
        fsub(nxt[15], cur[15]),
        fsub(nxt[16], cur[16]),
        fsub(nxt[17], cur[17]),
        fmul(per[27], nxt[0]),
        fmul(per[27], nxt[1]),
        fmul(per[27], nxt[2]),
        fmul(per[27], nxt[3]),
        fmul(per[27], fsub(nxt[4], 1314212940u64)),
        fmul(per[27], fsub(nxt[5], cur[13])),
        fmul(per[27], nxt[6]),
        fmul(per[27], nxt[7]),
        fmul(per[27], fsub(nxt[8], cur[14])),
    ];
    proof {
        reveal(residuals_1);
    }
    assert(r@ =~= residuals_1(cur@, nxt@, per@));
    r
}

/// The residuals of constraints 36..=38.
#[verifier::opaque]
pub open spec fn residuals_2(cur: Seq<u64>, nxt: Seq<u64>, per: Seq<u64>) -> Seq<u64> {
    seq![
        mul_spec(per[27], sub_spec(nxt[9], cur[15])),
        mul_spec(per[27], sub_spec(nxt[10], cur[16])),
        mul_spec(per[27], sub_spec(nxt[11], cur[17])),
    ]
}

fn residuals_2_eval(cur: &Vec<u64>, nxt: &Vec<u64>, per: &Vec<u64>) -> (r: Vec<u64>)
    requires
        cur.len() == TRACE_WIDTH,
        nxt.len() == TRACE_WIDTH,
        per.len() == 28,
        all_canonical(cur@),
        all_canonical(nxt@),
        all_canonical(per@),
    ensures
        r@ == residuals_2(cur@, nxt@, per@),
        r.len() == 3,
{
    let r = vec![
        fmul(per[27], fsub(nxt[9], cur[15])),
        fmul(per[27], fsub(nxt[10], cur[16])),
        fmul(per[27], fsub(nxt[11], cur[17])),
    ];
    proof {
        reveal(residuals_2);
    }
    assert(r@ =~= residuals_2(cur@, nxt@, per@));
    r
}

/// The residuals of all transition constraints of a step, in the order of
/// their indices: the rounds of the hash lane, then the rest.
pub open spec fn residuals(cur: Seq<u64>, nxt: Seq<u64>, per: Seq<u64>) -> Seq<u64> {
    round_residuals_spec(cur, nxt, per, 0, 0, 1, 13)
        + residuals_0(cur, nxt, per) + residuals_1(cur, nxt, per) + residuals_2(cur, nxt, per)
}

/// Constraint `k` of a step, over the current row, the next row and the
/// periodic values.
pub open spec fn constraint_spec(k: int, current: Seq<u64>, next: Seq<u64>, periodic: Seq<u64>) -> u64 {
    residuals(current, next, periodic)[k]
}

/// Evaluates the transition constraints of a step over the base field: a
/// step satisfies the AIR when every residual is zero.
pub fn evaluate_transition(current: &Vec<u64>, next: &Vec<u64>, periodic: &Vec<u64>) -> (result: Vec<u64>)
    requires
        current.len() == TRACE_WIDTH,
        next.len() == TRACE_WIDTH,
        periodic.len() == 28,
        all_canonical(current@),
        all_canonical(next@),
        all_canonical(periodic@),
    ensures
        result.len() == NUM_CONSTRAINTS,
        forall|k: int| 0 <= k < NUM_CONSTRAINTS ==> #[trigger] result[k] == constraint_spec(k, current@, next@, periodic@),
{
    let mut r = round_residuals(current, next, periodic, 0, 0, 1, 13);

    let mut p0 = residuals_0_eval(current, next, periodic);
    r.append(&mut p0);
    let mut p1 = residuals_1_eval(current, next, periodic);
    r.append(&mut p1);
    let mut p2 = residuals_2_eval(current, next, periodic);
    r.append(&mut p2);
    assert(r@ =~= residuals(current@, next@, periodic@));
    r
}






/// The periodic values of step `r`.
pub open spec fn periodic_row(r: int) -> Seq<u64> {
    Seq::new(28, |j: int| periodic_spec(j, r))
}

/// Every step of the trace satisfies the round constraints of the hash
/// lanes (constraints 0..12): on a round row a lane goes from one round
/// of its permutation to the next, with that round's constants in the
/// periodic values; elsewhere the round flag is off.
pub proof fn lemma_trace_satisfies_round_constraints(key: u64, path: CustodianPath, operation: Seq<u64>, t: Seq<Vec<u64>>, r: int)
    requires
        t.len() == TRACE_WIDTH,
        forall|col: int, q: int|
            0 <= col < TRACE_WIDTH && 0 <= q < TRACE_LENGTH ==> #[trigger] t[col][q] == cell_spec(key, path, operation, col, q),
        (forall|c: int| 0 <= c <= CUSTODIAN_DEPTH ==> #[trigger] rounds_hold(lane_start_spec(key, path, c))) && rounds_hold(merge_state(nullifier_left(key), operation)),
        0 <= r < TRACE_LENGTH - 1,
    ensures
        forall|k: int| 0 <= k < 12 ==> #[trigger] constraint_spec(k, row_of(t, r), row_of(t, r + 1), periodic_row(r)) == 0,
{
    let cur = row_of(t, r);
    let nxt = row_of(t, r + 1);
    let per = periodic_row(r);
    let active = ROW_NULL as int + 1;
    assert(per[0] == crate::periodic::hash_flag_spec(active, r));
    assert forall|j: int| 0 <= j < 12 implies #[trigger] per[1 + j] == crate::periodic::ark_spec(false, j, active, r) by {
        assert(per[1 + j] == periodic_spec(1 + j, r));
    }
    assert forall|j: int| 0 <= j < 12 implies #[trigger] per[13 + j] == crate::periodic::ark_spec(true, j, active, r) by {
        assert(per[13 + j] == periodic_spec(13 + j, r));
    }
    if r < active && r % 8 < 7 {
        assert((r + 1) / 8 == r / 8 && (r + 1) % 8 == r % 8 + 1);
        assert(rounds_hold((if r < 40 { lane_start_spec(key, path, r / 8) } else { merge_state(nullifier_left(key), operation) })));
        assert forall|j: int| 0 <= j < 12 implies #[trigger] cur[0 + j] == rounds((if r < 40 { lane_start_spec(key, path, r / 8) } else { merge_state(nullifier_left(key), operation) }), (r % 8) as nat)[j] by {
            assert(cur[0 + j] == t[0 + j][r]);
            assert(t[0 + j][r] == lane_value(key, path, operation, j, r));
        }
        assert forall|j: int| 0 <= j < 12 implies #[trigger] nxt[0 + j] == rounds((if r < 40 { lane_start_spec(key, path, r / 8) } else { merge_state(nullifier_left(key), operation) }), (r % 8 + 1) as nat)[j] by {
            assert(nxt[0 + j] == t[0 + j][r + 1]);
            assert(t[0 + j][r + 1] == lane_value(key, path, operation, j, (r + 1)));
        }
    }
    crate::lane::lemma_rounds_round_residuals(cur, nxt, per, 0, 0, 1, 13, (if r < 40 { lane_start_spec(key, path, r / 8) } else { merge_state(nullifier_left(key), operation) }), active, r);
    assert forall|k: int| 0 <= k < 12 implies #[trigger] constraint_spec(k, cur, nxt, per) == 0 by {
        assert(constraint_spec(k, cur, nxt, per) == crate::constraints::round_residual(cur, nxt, per, 0, 0, 1, 13, k));
    }
}

/// Every step of an honest trace satisfies every transition constraint:
/// the rounds of the lane; at each tree link the next level starts from
/// the node climbed so far, on the side the direction bit says; the
/// direction bits are bits; the key enters the identity on the first row;
/// after the root the nullifier hash starts from its domain, the key and
/// the operation; and the key and the operation stay constant.
#[verifier::spinoff_prover]
#[verifier::rlimit(80)]
pub proof fn lemma_trace_satisfies_constraints(key: u64, path: CustodianPath, operation: Seq<u64>, t: Seq<Vec<u64>>, r: int)
    requires
        t.len() == TRACE_WIDTH,
        forall|col: int, q: int|
            0 <= col < TRACE_WIDTH && 0 <= q < TRACE_LENGTH ==> #[trigger] t[col][q] == cell_spec(key, path, operation, col, q),
        forall|c: int| 0 <= c <= CUSTODIAN_DEPTH ==> #[trigger] rounds_hold(lane_start_spec(key, path, c)),
        rounds_hold(merge_state(nullifier_left(key), operation)),
        path_ok(path),
        operation.len() == 4,
        0 <= r < TRACE_LENGTH - 1,
    ensures
        forall|k: int| 0 <= k < NUM_CONSTRAINTS ==> #[trigger] constraint_spec(k, row_of(t, r), row_of(t, r + 1), periodic_row(r)) == 0,
{
    lemma_trace_satisfies_round_constraints(key, path, operation, t, r);
    let cur = row_of(t, r);
    let nxt = row_of(t, r + 1);
    let per = periodic_row(r);
    let p: nat = MODULUS as nat;
    let bits = path.is_right@;
    let sibs = sibling_seqs(path.siblings@);
    vstd::arithmetic::div_mod::lemma_small_mod(0, p);
    vstd::arithmetic::div_mod::lemma_small_mod(1, p);
    assert forall|x: u64| #[trigger] mul_spec(0u64, x) == 0 by {
        assert(0u64 * x == 0);
    }
    assert forall|x: u64| #[trigger] mul_spec(1u64, x) == reduce(x as int) by {
        assert(1u64 * x == x);
    }
    assert forall|x: u64| #[trigger] sub_spec(x, x) == 0 by {}
    assert forall|c: int| 0 <= c < TRACE_WIDTH implies #[trigger] cur[c] == t[c][r] && nxt[c] == t[c][r + 1] by {}
    reveal_with_fuel(point_spec, 5);
    let link = r == 7 || r == 15 || r == 23 || r == 31;
    assert(per[25] == point_spec(crate::circuit_threshold::tree_link_points(), r));
    assert(per[25] == if link { 1u64 } else { 0u64 });
    let s0: Seq<usize> = seq![0usize];
    let s39: Seq<usize> = seq![39usize];
    assert(per[26] == selector_spec(s0, r));
    assert(per[27] == selector_spec(s39, r));
    if r == 0 {
        assert(s0[0] == 0);
    }
    if r == 39 {
        assert(s39[0] == 39);
    }
    assert(per[26] == if r == 0 { 1u64 } else { 0u64 });
    assert(per[27] == if r == 39 { 1u64 } else { 0u64 });
    // The direction bit is a bit.
    assert(cur[12] == 0 || cur[12] == 1);
    assert(mul_spec(cur[12], sub_spec(cur[12], 1u64)) == 0) by {
        if cur[12] == 1 {
            assert(sub_spec(1u64, 1u64) == 0);
        } else {
            assert(0u64 * sub_spec(cur[12], 1u64) == 0);
        }
    }
    // The key enters on the first row.
    if r == 0 {
        assert(cur[8] == rounds(lane_start_spec(key, path, 0), 0)[8]);
        assert(cur[8] == key);
    }
    // After the root, the nullifier hash starts.
    if r == 39 {
        let ns = merge_state(nullifier_left(key), operation);
        assert forall|i: int| 0 <= i < 12 implies #[trigger] nxt[i] == ns[i] by {
            assert(nxt[i] == rounds(ns, 0)[i]);
        }
        assert(nxt[4] == NULLIFIER_DOMAIN);
        assert(nxt[5] == key);
        assert forall|i: int| 0 <= i < 4 implies #[trigger] nxt[8 + i] == cur[14 + i] by {
            assert(cur[14 + i] == operation[i]);
        }
    }
    if link {
        let c = r / 8;
        assert(0 <= c < 4 && r == 8 * c + 7);
        assert((r + 1) / 8 == c + 1 && (r + 1) % 8 == 0);
        let d = climb_spec(digest_of(merge_state(as_digest_spec(CUSTODIAN_DOMAIN), as_digest_spec(key))), sibs, bits, c as nat);
        let next_start = lane_start_spec(key, path, c + 1);
        assert(next_start == place_state(d, sibs[c], bits[c]));
        // The node climbed so far is the digest of the cycle.
        let start = lane_start_spec(key, path, c);
        lemma_digest_row(start);
        assert(digest_of(start) == d) by {
            if c > 0 {
                assert(digest_of(start) == climb_step(
                    climb_spec(digest_of(merge_state(as_digest_spec(CUSTODIAN_DOMAIN), as_digest_spec(key))), sibs, bits, (c - 1) as nat),
                    sibs[c - 1],
                    bits[c - 1],
                ));
            }
        }
        assert(sibs[c].len() == 4);
        assert(d.len() == 4);
        assert forall|i: int| 0 <= i < 4 implies #[trigger] cur[4 + i] == d[i] by {
            assert(cur[4 + i] == rounds(start, 7)[4 + i]);
        }
        assert forall|i: int| 0 <= i < 12 implies #[trigger] nxt[i] == next_start[i] by {
            assert(nxt[i] == rounds(next_start, 0)[i]);
        }
        assert(nxt[12] == if bits[c] { 1u64 } else { 0u64 });
        assert forall|i: int| 0 <= i < 4 implies #[trigger] nxt[i] == 0 by {}
        assert forall|i: int| 0 <= i < 4 implies (bits[c] ==> #[trigger] nxt[8 + i] == cur[4 + i]) && (!bits[c] ==> nxt[4 + i] == cur[4 + i]) by {}
        if bits[c] {
            assert(sub_spec(1u64, nxt[12]) == 0);
            assert(1u64 * 0u64 == 0);
        } else {
            assert(sub_spec(1u64, nxt[12]) == 1);
            assert(1u64 * 0u64 == 0);
        }
    }
    reveal(residuals_0);
    reveal(residuals_1);
    reveal(residuals_2);
    assert forall|k: int| 12 <= k < NUM_CONSTRAINTS implies #[trigger] constraint_spec(k, cur, nxt, per) == 0 by {
        if k < 24 {
            assert(constraint_spec(k, cur, nxt, per) == residuals_0(cur, nxt, per)[k - 12]);
        } else if k < 36 {
            assert(constraint_spec(k, cur, nxt, per) == residuals_1(cur, nxt, per)[k - 24]);
        } else {
            assert(constraint_spec(k, cur, nxt, per) == residuals_2(cur, nxt, per)[k - 36]);
        }
    }
}

} // verus!
