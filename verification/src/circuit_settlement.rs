//! Settlement with spending authority: a double-entry transfer where the
//! sender proves knowledge of the spend key behind its identity, publishes
//! a nullifier derived from that key, inserts it in the nullifier tree,
//! and shows it is not in the frozen tree.
//!
//! Identities are full four-element digests: `pk = H(SPEND_KEY_DOMAIN, sk)`,
//! `leaf = H(H(pk, balance), nonce)`, `nullifier = H(H(NULLIFIER_DOMAIN, sk), nonce)`.

use vstd::prelude::*;
use crate::domains::{LEAF_SALT_DOMAIN, NULLIFIER_DOMAIN, SPEND_KEY_DOMAIN, VIEW_KEY_DOMAIN};
use crate::constraints::{lemma_equal, lemma_reduce_canonical, lemma_selected, lemma_selected_equal, rounds_hold, round_residuals, round_residuals_spec};
use crate::field::{MODULUS, add_spec, all_canonical, fadd, felt, fmul, fsub, mul_spec, reduce, sub_spec};
use crate::lane::{cycle_start, link_start, lemma_append_link, lemma_fresh_link, lemma_lane_digest_row, cycle_digest, lane_value, links_canonical, link_canonical, program_columns, Link, CYCLE_LENGTH};
use crate::merkle::{lemma_links_climb, climb_step, place_state, climb_levels, climb_links, climb_spec, push_climb_links, sibling_seqs, siblings_canonical, MerklePath, TREE_DEPTH};
use crate::prime::lemma_field_bit;
use crate::rescue::{lemma_digest_arr, lemma_merge_arr, digest_of, as_digest, as_digest_spec, digest_arr, merge_arr, merge_spec, merge_state, merge_state_of, native_merge, Digest};
use crate::boundary::{pairs, push_pairs, push_run, run};
use crate::periodic::{ark_spec, continue_column, continue_spec, cycle_end_rows, hash_flag_spec, push_cycle_end_rows, push_row_selector, round_columns, selector_column, selector_spec};
use crate::solvency::{lemma_accepted_segment, lemma_checked_difference, seg_acc, seg_bit, segment_columns};
use crate::trace::{lemma_column_kept, row_of, columns_shape, constant_column, cycle_bit_column, cycle_bit_spec, overlay_columns, prefix_bits};

verus! {

/// Depth of the frozen-accounts tree.
pub const FROZEN_DEPTH: usize = 24;

/// `H(SPEND_KEY_DOMAIN, key)` for a four-element key.
pub open spec fn public_id_wide_spec(spend_key: Seq<u64>) -> Seq<u64> {
    merge_spec(as_digest_spec(SPEND_KEY_DOMAIN), spend_key)
}

/// `H(H(NULLIFIER_DOMAIN, key), nonce)` for a four-element key.
pub open spec fn nullifier_wide_spec(spend_key: Seq<u64>, nonce: u64) -> Seq<u64> {
    merge_spec(merge_spec(as_digest_spec(NULLIFIER_DOMAIN), spend_key), as_digest_spec(nonce))
}

/// `H(H(pk, balance), nonce)`.
pub open spec fn leaf_spec(public_id: Seq<u64>, balance: u64, nonce: u64) -> Seq<u64> {
    merge_spec(merge_spec(public_id, as_digest_spec(balance)), as_digest_spec(nonce))
}

/// The salt of a leaf, from a four-element key.
pub open spec fn leaf_salt_wide_spec(spend_key: Seq<u64>) -> Seq<u64> {
    merge_spec(as_digest_spec(LEAF_SALT_DOMAIN), spend_key)
}

/// A salted leaf: the leaf compressed with its salt.
pub open spec fn leaf_salted_spec(public_id: Seq<u64>, balance: u64, nonce: u64, salt: Seq<u64>) -> Seq<u64> {
    merge_spec(leaf_spec(public_id, balance, nonce), salt)
}

/// The view key, from a four-element key.
pub open spec fn view_key_wide_spec(spend_key: Seq<u64>) -> Seq<u64> {
    merge_spec(as_digest_spec(VIEW_KEY_DOMAIN), spend_key)
}

/// The stored view identifier of a view key.
pub open spec fn view_id_spec(view_key: Seq<u64>) -> Seq<u64> {
    merge_spec(as_digest_spec(VIEW_KEY_DOMAIN), view_key)
}

/// Account identity from a spend key: the full digest.
pub fn derive_public_id(spend_key: u64) -> (r: Digest)
    requires
        spend_key < MODULUS,
    ensures
        r@ == public_id_wide_spec(as_digest_spec(spend_key)),
        all_canonical(r@),
{
    native_merge(&as_digest(SPEND_KEY_DOMAIN), &as_digest(spend_key))
}

/// Identity from a four-element key. A one-element key padded with zeros
/// gives the same identity as the narrow derivation.
pub fn derive_public_id_wide(spend_key: &Digest) -> (r: Digest)
    requires
        all_canonical(spend_key@),
    ensures
        r@ == public_id_wide_spec(spend_key@),
        all_canonical(r@),
{
    native_merge(&as_digest(SPEND_KEY_DOMAIN), spend_key)
}

/// Nullifier from a four-element key.
pub fn native_nullifier_wide(spend_key: &Digest, nonce: u64) -> (r: Digest)
    requires
        all_canonical(spend_key@),
        nonce < MODULUS,
    ensures
        r@ == nullifier_wide_spec(spend_key@, nonce),
        all_canonical(r@),
{
    let inner = native_merge(&as_digest(NULLIFIER_DOMAIN), spend_key);
    native_merge(&inner, &as_digest(nonce))
}

/// Account leaf: `H(H(pk, balance), nonce)`.
pub fn native_leaf(public_id: &Digest, balance: u64, nonce: u64) -> (r: Digest)
    requires
        all_canonical(public_id@),
        balance < MODULUS,
        nonce < MODULUS,
    ensures
        r@ == leaf_spec(public_id@, balance, nonce),
        all_canonical(r@),
{
    let inner = native_merge(public_id, &as_digest(balance));
    native_merge(&inner, &as_digest(nonce))
}

/// Nullifier from the KEY, not from the public identity.
pub fn native_nullifier(spend_key: u64, nonce: u64) -> (r: Digest)
    requires
        spend_key < MODULUS,
        nonce < MODULUS,
    ensures
        r@ == nullifier_wide_spec(as_digest_spec(spend_key), nonce),
        all_canonical(r@),
{
    let inner = native_merge(&as_digest(NULLIFIER_DOMAIN), &as_digest(spend_key));
    native_merge(&inner, &as_digest(nonce))
}

/// Climbs a leaf up the 32 levels of the account tree.
pub fn native_climb(leaf: &Digest, path: &MerklePath) -> (r: Digest)
    requires
        all_canonical(leaf@),
        siblings_canonical(path.siblings@),
        path.siblings.len() >= TREE_DEPTH,
        path.is_right.len() >= TREE_DEPTH,
    ensures
        r@ == climb_spec(leaf@, sibling_seqs(path.siblings@), path.is_right@, TREE_DEPTH as nat),
        all_canonical(r@),
{
    climb_levels(leaf, &path.siblings, &path.is_right, TREE_DEPTH)
}

/// Leaf salt, derived from the four-element spend key.
pub fn derive_leaf_salt_wide(spend_key: &Digest) -> (r: Digest)
    requires
        all_canonical(spend_key@),
    ensures
        r@ == leaf_salt_wide_spec(spend_key@),
        all_canonical(r@),
{
    native_merge(&as_digest(LEAF_SALT_DOMAIN), spend_key)
}

/// Leaf salt of a one-element key: that of the key padded with zeros.
pub fn derive_leaf_salt(spend_key: u64) -> (r: Digest)
    requires
        spend_key < MODULUS,
    ensures
        r@ == leaf_salt_wide_spec(as_digest_spec(spend_key)),
        all_canonical(r@),
{
    derive_leaf_salt_wide(&as_digest(spend_key))
}

/// Salted leaf: the old leaf with one more compression, with the salt.
pub fn native_leaf_salted(public_id: &Digest, balance: u64, nonce: u64, leaf_salt: &Digest) -> (r: Digest)
    requires
        all_canonical(public_id@),
        balance < MODULUS,
        nonce < MODULUS,
        all_canonical(leaf_salt@),
    ensures
        r@ == leaf_salted_spec(public_id@, balance, nonce, leaf_salt@),
        all_canonical(r@),
{
    let leaf = native_leaf(public_id, balance, nonce);
    native_merge(&leaf, leaf_salt)
}

/// View key: a read credential derived from the spend key.
pub fn derive_view_key(spend_key: u64) -> (r: Digest)
    requires
        spend_key < MODULUS,
    ensures
        r@ == view_key_wide_spec(as_digest_spec(spend_key)),
        all_canonical(r@),
{
    native_merge(&as_digest(VIEW_KEY_DOMAIN), &as_digest(spend_key))
}

/// The view identifier of a presented view key.
pub fn view_id_from_view_key(view_key: &Digest) -> (r: Digest)
    requires
        all_canonical(view_key@),
    ensures
        r@ == view_id_spec(view_key@),
        all_canonical(r@),
{
    native_merge(&as_digest(VIEW_KEY_DOMAIN), view_key)
}

/// View key from a four-element spend key.
pub fn derive_view_key_wide(spend_key: &Digest) -> (r: Digest)
    requires
        all_canonical(spend_key@),
    ensures
        r@ == view_key_wide_spec(spend_key@),
        all_canonical(r@),
{
    native_merge(&as_digest(VIEW_KEY_DOMAIN), spend_key)
}

/// The stored view identifier of a four-element spend key.
pub fn view_id_of_wide(spend_key: &Digest) -> (r: Digest)
    requires
        all_canonical(spend_key@),
    ensures
        r@ == view_id_spec(view_key_wide_spec(spend_key@)),
        all_canonical(r@),
{
    let vk = derive_view_key_wide(spend_key);
    native_merge(&as_digest(VIEW_KEY_DOMAIN), &vk)
}

/// The stored view identifier: the hash of the view key.
pub fn view_id_of(spend_key: u64) -> (r: Digest)
    requires
        spend_key < MODULUS,
    ensures
        r@ == view_id_spec(view_key_wide_spec(as_digest_spec(spend_key))),
        all_canonical(r@),
{
    let vk = derive_view_key(spend_key);
    native_merge(&as_digest(VIEW_KEY_DOMAIN), &vk)
}

/// A one-element key and that key padded with zeros to four elements are
/// the same account: same identity, nullifiers, salt, view key and view
/// identifier.
pub proof fn lemma_wide_generalises_narrow(spend_key: u64, nonce: u64)
    ensures
        public_id_wide_spec(as_digest_spec(spend_key)) == public_id_wide_spec(seq![spend_key, 0u64, 0u64, 0u64]),
        nullifier_wide_spec(as_digest_spec(spend_key), nonce) == nullifier_wide_spec(
            seq![spend_key, 0u64, 0u64, 0u64],
            nonce,
        ),
        leaf_salt_wide_spec(as_digest_spec(spend_key)) == leaf_salt_wide_spec(seq![spend_key, 0u64, 0u64, 0u64]),
        view_key_wide_spec(as_digest_spec(spend_key)) == view_key_wide_spec(seq![spend_key, 0u64, 0u64, 0u64]),
{
}


pub const CYCLE: usize = 8;
pub const TRACE_LENGTH: usize = 1024;
pub const SEGMENT_LENGTH: usize = 64;
pub const NUM_SEGMENTS: usize = 7;

pub const LANE_B: usize = 12;
pub const COL_BIT: usize = 24;
pub const COL_S_KEY: usize = 25;
pub const COL_S_ID: usize = 29;
pub const COL_S_BAL: usize = 33;
pub const COL_S_NONCE: usize = 34;
pub const COL_S_BAL_NEW: usize = 35;
pub const COL_R_ID: usize = 36;
pub const COL_R_BAL: usize = 40;
pub const COL_R_NONCE: usize = 41;
pub const COL_R_BAL_NEW: usize = 42;
pub const COL_AMT: usize = 43;
pub const COL_LIM: usize = 44;
pub const COL_ROOT_MID: usize = 45;
pub const COL_SBIT: usize = 49;
pub const COL_SACC: usize = 50;
pub const COL_FBIT: usize = 51;
pub const TRACE_WIDTH: usize = 52;

pub const ROW_S_LEAF_LINK: usize = 7;
pub const ROW_S_LEAF_DONE: usize = 15;
pub const ROW_S_ROOT: usize = 271;
pub const ROW_R_LEAF_LINK: usize = 279;
pub const ROW_R_LEAF_DONE: usize = 287;
pub const ROW_R_ROOT: usize = 543;
pub const ROW_PK_START: usize = 544;
pub const ROW_PK_DONE: usize = 551;
pub const ROW_NULL_START: usize = 552;
pub const ROW_NULL_LINK: usize = 559;
pub const ROW_NULLIFIER: usize = 567;
pub const ROW_NULL_ROOT: usize = 823;
pub const ROW_FROZEN_ROOT: usize = 1015;

/// The sender's witness: the four-element spend key among them.
#[derive(Clone, Debug)]
pub struct SenderWitness {
    pub spend_key: Digest,
    pub balance: u64,
    pub nonce: u64,
    pub path: MerklePath,
}

/// The receiver's witness: no key, receiving needs no authority.
#[derive(Clone, Debug)]
pub struct ReceiverWitness {
    pub public_id: Digest,
    pub balance: u64,
    pub nonce: u64,
    pub path: MerklePath,
}

/// The state that places `d` next to its sibling, as an array.
pub open spec fn place_arr(d: Digest, sib: Digest, right: bool) -> [u64; 12] {
    if right {
        merge_arr(sib, d)
    } else {
        merge_arr(d, sib)
    }
}

/// A path with at least `depth` levels and canonical siblings.
pub open spec fn path_ok(path: MerklePath, depth: nat) -> bool {
    &&& path.siblings.len() >= depth
    &&& path.is_right.len() >= depth
    &&& siblings_canonical(path.siblings@)
}

/// The links of a lane of the transfer: sender leaf, sender climb,
/// receiver leaf, receiver climb, key derivation, nullifier, nullifier
/// tree (entered by `null_entry`), frozen tree.
pub open spec fn transfer_links(
    sender_nonce: u64,
    s_path: MerklePath,
    r_id: Digest,
    r_bal: u64,
    r_nonce: u64,
    r_path: MerklePath,
    spend_key: Digest,
    s_nonce: u64,
    null_entry: Seq<Link>,
    null_path: MerklePath,
    frozen_path: MerklePath,
) -> Seq<Link> {
    seq![Link::Place { other: digest_arr(sender_nonce), right: false }]
        + climb_links(s_path.siblings@, s_path.is_right@, 0, 32)
        + seq![
        Link::Fresh { state: merge_arr(r_id, digest_arr(r_bal)) },
        Link::Place { other: digest_arr(r_nonce), right: false },
    ] + climb_links(r_path.siblings@, r_path.is_right@, 0, 32) + seq![
        Link::Fresh { state: merge_arr(digest_arr(SPEND_KEY_DOMAIN), spend_key) },
        Link::Fresh { state: merge_arr(digest_arr(NULLIFIER_DOMAIN), spend_key) },
        Link::Place { other: digest_arr(s_nonce), right: false },
    ] + null_entry + climb_links(null_path.siblings@, null_path.is_right@, 1, 31) + seq![
        Link::Fresh {
            state: place_arr([0u64, 0u64, 0u64, 0u64], frozen_path.siblings@[0], frozen_path.is_right@[0]),
        },
    ] + climb_links(frozen_path.siblings@, frozen_path.is_right@, 1, 23)
}

/// Builds the links of one lane of the transfer.
fn build_transfer_links(
    sender_nonce: u64,
    s_path: &MerklePath,
    r_id: &Digest,
    r_bal: u64,
    r_nonce: u64,
    r_path: &MerklePath,
    spend_key: &Digest,
    s_nonce: u64,
    null_entry: Link,
    null_path: &MerklePath,
    frozen_path: &MerklePath,
) -> (links: Vec<Link>)
    requires
        sender_nonce < MODULUS,
        path_ok(*s_path, 32),
        all_canonical(r_id@),
        r_bal < MODULUS,
        r_nonce < MODULUS,
        path_ok(*r_path, 32),
        all_canonical(spend_key@),
        s_nonce < MODULUS,
        link_canonical(null_entry),
        path_ok(*null_path, 32),
        path_ok(*frozen_path, 24),
    ensures
        links@ == transfer_links(
            sender_nonce,
            *s_path,
            *r_id,
            r_bal,
            r_nonce,
            *r_path,
            *spend_key,
            s_nonce,
            seq![null_entry],
            *null_path,
            *frozen_path,
        ),
        links_canonical(links@),
        links.len() == 126,
{
    let mut links: Vec<Link> = Vec::new();
    links.push(Link::Place { other: as_digest(sender_nonce), right: false });
    push_climb_links(&mut links, &s_path.siblings, &s_path.is_right, 0, 32);
    let rd = as_digest(r_bal);
    links.push(Link::Fresh { state: merge_state_of(r_id, &rd) });
    links.push(Link::Place { other: as_digest(r_nonce), right: false });
    push_climb_links(&mut links, &r_path.siblings, &r_path.is_right, 0, 32);
    let spk = as_digest(SPEND_KEY_DOMAIN);
    links.push(Link::Fresh { state: merge_state_of(&spk, spend_key) });
    let nd = as_digest(NULLIFIER_DOMAIN);
    links.push(Link::Fresh { state: merge_state_of(&nd, spend_key) });
    links.push(Link::Place { other: as_digest(s_nonce), right: false });
    links.push(null_entry);
    push_climb_links(&mut links, &null_path.siblings, &null_path.is_right, 1, 32);
    let zero: Digest = [0, 0, 0, 0];
    assert(all_canonical(frozen_path.siblings@[0]@));
    let fstate = if frozen_path.is_right[0] {
        merge_state_of(&frozen_path.siblings[0], &zero)
    } else {
        merge_state_of(&zero, &frozen_path.siblings[0])
    };
    links.push(Link::Fresh { state: fstate });
    push_climb_links(&mut links, &frozen_path.siblings, &frozen_path.is_right, 1, 24);
    assert(links@ =~= transfer_links(
        sender_nonce,
        *s_path,
        *r_id,
        r_bal,
        r_nonce,
        *r_path,
        *spend_key,
        s_nonce,
        seq![null_entry],
        *null_path,
        *frozen_path,
    ));
    links
}


/// The values a settlement trace carries, as field elements.
pub struct TransferValues {
    pub s_bal: u64,
    pub s_bal_new: u64,
    pub s_nonce_new: u64,
    pub r_bal: u64,
    pub r_bal_new: u64,
    pub amt: u64,
    pub lim: u64,
}

pub open spec fn transfer_values(sender_balance: u64, sender_nonce: u64, receiver_balance: u64, amount: u64, credited: u64, limit: u64) -> TransferValues {
    let s_bal = reduce(sender_balance as int);
    let amt = reduce(amount as int);
    let r_bal = reduce(receiver_balance as int);
    TransferValues {
        s_bal,
        s_bal_new: sub_spec(s_bal, amt),
        s_nonce_new: add_spec(sender_nonce, 1),
        r_bal,
        r_bal_new: add_spec(r_bal, reduce(credited as int)),
        amt,
        lim: reduce(limit as int),
    }
}

/// The links of lane A (old leaves; the nullifier tree entered from
/// `null_leaf_a`) and of lane B (new leaves; entered from the nullifier).
pub open spec fn links_a(
    sender: SenderWitness,
    receiver: ReceiverWitness,
    v: TransferValues,
    null_path: MerklePath,
    null_leaf_a: Digest,
    frozen_path: MerklePath,
) -> Seq<Link> {
    transfer_links(
        sender.nonce,
        sender.path,
        receiver.public_id,
        v.r_bal,
        receiver.nonce,
        receiver.path,
        sender.spend_key,
        sender.nonce,
        seq![Link::Fresh { state: place_arr(null_leaf_a, null_path.siblings@[0], null_path.is_right@[0]) }],
        null_path,
        frozen_path,
    )
}

pub open spec fn links_b(
    sender: SenderWitness,
    receiver: ReceiverWitness,
    v: TransferValues,
    null_path: MerklePath,
    frozen_path: MerklePath,
) -> Seq<Link> {
    transfer_links(
        v.s_nonce_new,
        sender.path,
        receiver.public_id,
        v.r_bal_new,
        receiver.nonce,
        receiver.path,
        sender.spend_key,
        sender.nonce,
        climb_links(null_path.siblings@, null_path.is_right@, 0, 1),
        null_path,
        frozen_path,
    )
}

/// The column of direction bits: the sender's path in cycles 2..34, the
/// receiver's in 36..68, the nullifier tree's in 71..103.
pub open spec fn bit_spec(sender: SenderWitness, receiver: ReceiverWitness, null_path: MerklePath, r: int) -> u64 {
    let s = cycle_bit_spec(sender.path.is_right@.subrange(0, 32), 2, r);
    let rr = cycle_bit_spec(receiver.path.is_right@.subrange(0, 32), 36, r);
    let n = cycle_bit_spec(null_path.is_right@.subrange(0, 32), 71, r);
    let sr = if s == 0 { rr } else { s };
    if sr == 0 { n } else { sr }
}

/// The values the range checks cover.
pub open spec fn segment_values_spec(v: TransferValues) -> Seq<u64> {
    seq![v.s_bal, v.r_bal, v.amt, v.lim, v.s_bal_new, sub_spec(v.lim, v.amt), v.r_bal_new]
}

/// The value of the trace at column `col` and row `r`.
pub open spec fn cell_spec(
    sender: SenderWitness,
    receiver: ReceiverWitness,
    amount: u64,
    credited: u64,
    limit: u64,
    s_id: Seq<u64>,
    null_path: MerklePath,
    null_leaf_a: Digest,
    frozen_path: MerklePath,
    col: int,
    r: int,
) -> u64 {
    let v = transfer_values(sender.balance, sender.nonce, receiver.balance, amount, credited, limit);
    let la = links_a(sender, receiver, v, null_path, null_leaf_a, frozen_path);
    let lb = links_b(sender, receiver, v, null_path, frozen_path);
    let s0a = merge_state(s_id, as_digest_spec(v.s_bal));
    let s0b = merge_state(s_id, as_digest_spec(v.s_bal_new));
    let segs = segment_values_spec(v);
    if col < 12 {
        lane_value(s0a, la, col, r)
    } else if col < 24 {
        lane_value(s0b, lb, col - 12, r)
    } else if col == COL_BIT {
        bit_spec(sender, receiver, null_path, r)
    } else if col < COL_S_ID {
        sender.spend_key@[col - COL_S_KEY]
    } else if col < COL_S_BAL {
        s_id[col - COL_S_ID]
    } else if col == COL_S_BAL {
        v.s_bal
    } else if col == COL_S_NONCE {
        sender.nonce
    } else if col == COL_S_BAL_NEW {
        v.s_bal_new
    } else if col < COL_R_BAL {
        receiver.public_id@[col - COL_R_ID]
    } else if col == COL_R_BAL {
        v.r_bal
    } else if col == COL_R_NONCE {
        receiver.nonce
    } else if col == COL_R_BAL_NEW {
        v.r_bal_new
    } else if col == COL_AMT {
        v.amt
    } else if col == COL_LIM {
        v.lim
    } else if col < COL_SBIT {
        cycle_digest(s0b, lb, 33)[col - COL_ROOT_MID]
    } else if col == COL_SBIT {
        if r < 448 {
            seg_bit(segs[r / 64], 64, (r % 64) as nat)
        } else {
            0
        }
    } else if col == COL_SACC {
        if r < 448 {
            reduce(seg_acc(segs[r / 64], 64, (r % 64) as nat) as int)
        } else {
            0
        }
    } else {
        cycle_bit_spec(frozen_path.is_right@.subrange(0, 24), 103, r)
    }
}

/// What the settlement trace needs of its inputs: canonical elements, and
/// paths deep enough for the trees they climb.
pub open spec fn inputs_ok(
    sender: SenderWitness,
    receiver: ReceiverWitness,
    s_id: Digest,
    null_path: MerklePath,
    null_leaf_a: Digest,
    frozen_path: MerklePath,
) -> bool {
    &&& all_canonical(sender.spend_key@)
    &&& sender.nonce < MODULUS
    &&& path_ok(sender.path, 32)
    &&& all_canonical(receiver.public_id@)
    &&& receiver.nonce < MODULUS
    &&& path_ok(receiver.path, 32)
    &&& all_canonical(s_id@)
    &&& path_ok(null_path, 32)
    &&& all_canonical(null_leaf_a@)
    &&& path_ok(frozen_path, 24)
}

/// Builds the trace with the sender's identity and the starting leaf of
/// lane A in the nullifier tree given explicitly. In normal use the
/// identity is derived from the key and the starting leaf is zero (the
/// position was free); the constraints are what reject any other choice.
pub fn build_trace_with_id(
    sender: &SenderWitness,
    receiver: &ReceiverWitness,
    amount: u64,
    credited: u64,
    limit: u64,
    s_id: &Digest,
    null_path: &MerklePath,
    null_leaf_a: &Digest,
    frozen_path: &MerklePath,
) -> (cols: Vec<Vec<u64>>)
    requires
        inputs_ok(*sender, *receiver, *s_id, *null_path, *null_leaf_a, *frozen_path),
    ensures
        cols.len() == TRACE_WIDTH,
        columns_shape(cols@, TRACE_LENGTH as nat),
        forall|col: int, r: int|
            0 <= col < TRACE_WIDTH && 0 <= r < TRACE_LENGTH ==> #[trigger] cols[col][r] == cell_spec(
                *sender,
                *receiver,
                amount,
                credited,
                limit,
                s_id@,
                *null_path,
                *null_leaf_a,
                *frozen_path,
                col,
                r,
            ),
        forall|r: int, k: int|
            0 <= r < TRACE_LENGTH - 1 && 0 <= k < 24 ==> #[trigger] constraint_spec(
                k,
                row_of(cols@, r),
                row_of(cols@, r + 1),
                periodic_row(r),
            ) == 0,
        honest_settlement(*sender, *receiver, amount, credited, limit, s_id@, *null_leaf_a) ==> forall|r: int, k: int|
            0 <= r < TRACE_LENGTH - 1 && 0 <= k < NUM_CONSTRAINTS ==> #[trigger] constraint_spec(
                k,
                row_of(cols@, r),
                row_of(cols@, r + 1),
                periodic_row(r),
            ) == 0,
{
    let ghost v = transfer_values(sender.balance, sender.nonce, receiver.balance, amount, credited, limit);
    let c_amt = felt(amount);
    let c_lim = felt(limit);
    let s_bal = felt(sender.balance);
    let s_bal_new = fsub(s_bal, c_amt);
    let r_bal = felt(receiver.balance);
    let r_bal_new = fadd(r_bal, felt(credited));
    let s_nonce_new = fadd(sender.nonce, 1);

    assert(all_canonical(null_path.siblings@[0]@));
    let entry_state = if null_path.is_right[0] {
        merge_state_of(&null_path.siblings[0], null_leaf_a)
    } else {
        merge_state_of(null_leaf_a, &null_path.siblings[0])
    };
    let entry_a = Link::Fresh { state: entry_state };
    let lanes_a = build_transfer_links(
        sender.nonce,
        &sender.path,
        &receiver.public_id,
        r_bal,
        receiver.nonce,
        &receiver.path,
        &sender.spend_key,
        sender.nonce,
        entry_a,
        null_path,
        frozen_path,
    );
    let entry_b = Link::Place { other: null_path.siblings[0], right: null_path.is_right[0] };
    let lanes_b = build_transfer_links(
        s_nonce_new,
        &sender.path,
        &receiver.public_id,
        r_bal_new,
        receiver.nonce,
        &receiver.path,
        &sender.spend_key,
        sender.nonce,
        entry_b,
        null_path,
        frozen_path,
    );
    assert(seq![entry_b] =~= climb_links(null_path.siblings@, null_path.is_right@, 0, 1));
    assert(lanes_a@ == links_a(*sender, *receiver, v, *null_path, *null_leaf_a, *frozen_path));
    assert(lanes_b@ == links_b(*sender, *receiver, v, *null_path, *frozen_path));

    let s0a = merge_state_of(s_id, &as_digest(s_bal));
    let s0b = merge_state_of(s_id, &as_digest(s_bal_new));
    let mut cols = program_columns(&s0a, &lanes_a, TRACE_LENGTH);
    let mut cols_b = program_columns(&s0b, &lanes_b, TRACE_LENGTH);
    let ghost lanes_ok = lanes_hold(*sender, *receiver, amount, credited, limit, s_id@, *null_path, *null_leaf_a, *frozen_path);
    proof {
        assert(lanes_ok);
    }
    proof {
        crate::lane::lemma_lane_digest_row(s0b@, lanes_b@, 33);
    }
    let root_mid: Digest = [cols_b[4][ROW_S_ROOT], cols_b[5][ROW_S_ROOT], cols_b[6][ROW_S_ROOT], cols_b[7][ROW_S_ROOT]];
    cols.append(&mut cols_b);

    let s_bits = prefix_bits(&sender.path.is_right, 32);
    let r_bits = prefix_bits(&receiver.path.is_right, 32);
    let n_bits = prefix_bits(&null_path.is_right, 32);
    let s_col = cycle_bit_column(&s_bits, 2, TRACE_LENGTH);
    let r_col = cycle_bit_column(&r_bits, 36, TRACE_LENGTH);
    let n_col = cycle_bit_column(&n_bits, 71, TRACE_LENGTH);
    let sr_col = overlay_columns(&s_col, &r_col);
    let bit_col = overlay_columns(&sr_col, &n_col);
    cols.push(bit_col);

    let mut i: usize = 0;
    while i < 4
        invariant
            i <= 4,
            all_canonical(sender.spend_key@),
            cols.len() == COL_S_KEY + i,
            columns_shape(cols@, TRACE_LENGTH as nat),
            forall|col: int, r: int|
                0 <= col < cols.len() && 0 <= r < TRACE_LENGTH ==> #[trigger] cols[col][r] == cell_spec(
                    *sender,
                    *receiver,
                    amount,
                    credited,
                    limit,
                    s_id@,
                    *null_path,
                    *null_leaf_a,
                    *frozen_path,
                    col,
                    r,
                ),
        decreases 4 - i,
    {
        cols.push(constant_column(sender.spend_key[i], TRACE_LENGTH));
        i = i + 1;
    }
    let mut i: usize = 0;
    while i < 4
        invariant
            i <= 4,
            all_canonical(s_id@),
            cols.len() == COL_S_ID + i,
            columns_shape(cols@, TRACE_LENGTH as nat),
            forall|col: int, r: int|
                0 <= col < cols.len() && 0 <= r < TRACE_LENGTH ==> #[trigger] cols[col][r] == cell_spec(
                    *sender,
                    *receiver,
                    amount,
                    credited,
                    limit,
                    s_id@,
                    *null_path,
                    *null_leaf_a,
                    *frozen_path,
                    col,
                    r,
                ),
        decreases 4 - i,
    {
        cols.push(constant_column(s_id[i], TRACE_LENGTH));
        i = i + 1;
    }
    cols.push(constant_column(s_bal, TRACE_LENGTH));
    cols.push(constant_column(sender.nonce, TRACE_LENGTH));
    cols.push(constant_column(s_bal_new, TRACE_LENGTH));
    let mut i: usize = 0;
    while i < 4
        invariant
            i <= 4,
            all_canonical(receiver.public_id@),
            cols.len() == COL_R_ID + i,
            columns_shape(cols@, TRACE_LENGTH as nat),
            forall|col: int, r: int|
                0 <= col < cols.len() && 0 <= r < TRACE_LENGTH ==> #[trigger] cols[col][r] == cell_spec(
                    *sender,
                    *receiver,
                    amount,
                    credited,
                    limit,
                    s_id@,
                    *null_path,
                    *null_leaf_a,
                    *frozen_path,
                    col,
                    r,
                ),
        decreases 4 - i,
    {
        cols.push(constant_column(receiver.public_id[i], TRACE_LENGTH));
        i = i + 1;
    }
    cols.push(constant_column(r_bal, TRACE_LENGTH));
    cols.push(constant_column(receiver.nonce, TRACE_LENGTH));
    cols.push(constant_column(r_bal_new, TRACE_LENGTH));
    cols.push(constant_column(c_amt, TRACE_LENGTH));
    cols.push(constant_column(c_lim, TRACE_LENGTH));
    let mut i: usize = 0;
    while i < 4
        invariant
            i <= 4,
            forall|j: int| 0 <= j < 4 ==> root_mid[j] < MODULUS,
            forall|j: int| 0 <= j < 4 ==> #[trigger] root_mid[j] == cycle_digest(s0b@, lanes_b@, 33)[j],
            s0b@ == merge_state(s_id@, as_digest_spec(v.s_bal_new)),
            lanes_b@ == links_b(*sender, *receiver, v, *null_path, *frozen_path),
            v == transfer_values(sender.balance, sender.nonce, receiver.balance, amount, credited, limit),
            cols.len() == COL_ROOT_MID + i,
            columns_shape(cols@, TRACE_LENGTH as nat),
            forall|col: int, r: int|
                0 <= col < cols.len() && 0 <= r < TRACE_LENGTH ==> #[trigger] cols[col][r] == cell_spec(
                    *sender,
                    *receiver,
                    amount,
                    credited,
                    limit,
                    s_id@,
                    *null_path,
                    *null_leaf_a,
                    *frozen_path,
                    col,
                    r,
                ),
        decreases 4 - i,
    {
        cols.push(constant_column(root_mid[i], TRACE_LENGTH));
        i = i + 1;
    }
    let c_diff = fsub(c_lim, c_amt);
    let segment_values: Vec<u64> = vec![s_bal, r_bal, c_amt, c_lim, s_bal_new, c_diff, r_bal_new];
    assert(segment_values@ =~= segment_values_spec(v));
    let (sbit_col, sacc_col) = segment_columns(&segment_values, SEGMENT_LENGTH, TRACE_LENGTH);
    cols.push(sbit_col);
    cols.push(sacc_col);
    let f_bits = prefix_bits(&frozen_path.is_right, 24);
    cols.push(cycle_bit_column(&f_bits, 103, TRACE_LENGTH));
    proof {
        assert forall|col: int, r: int|
            COL_SBIT <= col < TRACE_WIDTH && 0 <= r < TRACE_LENGTH implies #[trigger] cols[col][r] == cell_spec(
            *sender,
            *receiver,
            amount,
            credited,
            limit,
            s_id@,
            *null_path,
            *null_leaf_a,
            *frozen_path,
            col,
            r,
        ) by {
            if (col == COL_SBIT || col == COL_SACC) && r < 448 {
                let sg = r / 64;
                let p = r % 64;
                assert(r == sg * 64 + p);
            }
        }
    }
    proof {
        assert forall|r: int, k: int|
            0 <= r < TRACE_LENGTH - 1 && 0 <= k < 24 implies #[trigger] constraint_spec(
            k,
            row_of(cols@, r),
            row_of(cols@, r + 1),
            periodic_row(r),
        ) == 0 by {
            lemma_trace_satisfies_round_constraints(*sender, *receiver, amount, credited, limit, s_id@, *null_path, *null_leaf_a, *frozen_path, cols@, r);
        }
        if honest_settlement(*sender, *receiver, amount, credited, limit, s_id@, *null_leaf_a) {
            assert forall|r: int, k: int|
                0 <= r < TRACE_LENGTH - 1 && 0 <= k < NUM_CONSTRAINTS implies #[trigger] constraint_spec(
                k,
                row_of(cols@, r),
                row_of(cols@, r + 1),
                periodic_row(r),
            ) == 0 by {
                lemma_trace_satisfies_constraints(*sender, *receiver, amount, credited, limit, s_id@, *null_path, *null_leaf_a, *frozen_path, cols@, r);
            }
        }
    }
    cols
}

/// Builds the trace of a settlement: the sender's identity derived from
/// its key, and the nullifier inserted at a free position (zero leaf).
/// `credited` may differ from `amount` so that a trace breaking the
/// conservation of money can be built; the constraints reject it.
pub fn build_trace(
    sender: &SenderWitness,
    receiver: &ReceiverWitness,
    amount: u64,
    credited: u64,
    limit: u64,
    null_path: &MerklePath,
    frozen_path: &MerklePath,
) -> (cols: Vec<Vec<u64>>)
    requires
        inputs_ok(*sender, *receiver, [0, 0, 0, 0], *null_path, [0, 0, 0, 0], *frozen_path),
    ensures
        cols.len() == TRACE_WIDTH,
        columns_shape(cols@, TRACE_LENGTH as nat),
        forall|col: int, r: int|
            0 <= col < TRACE_WIDTH && 0 <= r < TRACE_LENGTH ==> #[trigger] cols[col][r] == cell_spec(
                *sender,
                *receiver,
                amount,
                credited,
                limit,
                public_id_wide_spec(sender.spend_key@),
                *null_path,
                [0, 0, 0, 0],
                *frozen_path,
                col,
                r,
            ),
        forall|r: int, k: int|
            0 <= r < TRACE_LENGTH - 1 && 0 <= k < 24 ==> #[trigger] constraint_spec(
                k,
                row_of(cols@, r),
                row_of(cols@, r + 1),
                periodic_row(r),
            ) == 0,
        honest_settlement(*sender, *receiver, amount, credited, limit, public_id_wide_spec(sender.spend_key@), [0, 0, 0, 0])
            ==> forall|r: int, k: int|
            0 <= r < TRACE_LENGTH - 1 && 0 <= k < NUM_CONSTRAINTS ==> #[trigger] constraint_spec(
                k,
                row_of(cols@, r),
                row_of(cols@, r + 1),
                periodic_row(r),
            ) == 0,
{
    let s_id = derive_public_id_wide(&sender.spend_key);
    let zero: Digest = [0, 0, 0, 0];
    assert(zero@ =~= seq![0u64, 0u64, 0u64, 0u64]);
    build_trace_with_id(sender, receiver, amount, credited, limit, &s_id, null_path, &zero, frozen_path)
}



/// `cols` is the settlement trace of the given witness, identity and
/// starting leaf of the nullifier tree.
pub open spec fn is_trace_of(
    cols: Seq<Vec<u64>>,
    sender: SenderWitness,
    receiver: ReceiverWitness,
    amount: u64,
    credited: u64,
    limit: u64,
    s_id: Seq<u64>,
    null_path: MerklePath,
    null_leaf_a: Digest,
    frozen_path: MerklePath,
) -> bool {
    &&& cols.len() == TRACE_WIDTH
    &&& columns_shape(cols, TRACE_LENGTH as nat)
    &&& forall|col: int, r: int|
        0 <= col < TRACE_WIDTH && 0 <= r < TRACE_LENGTH ==> #[trigger] cols[col][r] == cell_spec(
            sender,
            receiver,
            amount,
            credited,
            limit,
            s_id,
            null_path,
            null_leaf_a,
            frozen_path,
            col,
            r,
        )
}

/// The plain builder is the builder with the sender's own identity and a
/// free starting leaf: a trace of `build_trace` and a trace of
/// `build_trace_with_id` given the identity derived from the spend key and
/// a zero leaf agree cell by cell, and the two builders accept the same
/// inputs.
pub proof fn lemma_plain_build_uses_own_identity(
    t1: Seq<Vec<u64>>,
    t2: Seq<Vec<u64>>,
    sender: SenderWitness,
    receiver: ReceiverWitness,
    amount: u64,
    credited: u64,
    limit: u64,
    s_id: Digest,
    null_path: MerklePath,
    frozen_path: MerklePath,
)
    requires
        s_id@ == public_id_wide_spec(sender.spend_key@),
        all_canonical(s_id@),
        is_trace_of(t1, sender, receiver, amount, credited, limit, public_id_wide_spec(sender.spend_key@), null_path, [0, 0, 0, 0], frozen_path),
        is_trace_of(t2, sender, receiver, amount, credited, limit, s_id@, null_path, [0, 0, 0, 0], frozen_path),
    ensures
        t1.len() == t2.len(),
        forall|col: int| 0 <= col < t1.len() ==> #[trigger] t1[col]@ == t2[col]@,
        inputs_ok(sender, receiver, [0, 0, 0, 0], null_path, [0, 0, 0, 0], frozen_path)
            <==> inputs_ok(sender, receiver, s_id, null_path, [0, 0, 0, 0], frozen_path),
{
    assert forall|col: int| 0 <= col < t1.len() implies #[trigger] t1[col]@ == t2[col]@ by {
        assert forall|r: int| 0 <= r < t1[col]@.len() implies t1[col]@[r] == t2[col]@[r] by {
            assert(t1[col][r] == t2[col][r]);
        }
        assert(t1[col]@ =~= t2[col]@);
    }
    let z: Digest = [0, 0, 0, 0];
    assert(all_canonical(z@));
}

/// The root a leaf reaches up the 32 levels of a path.
pub open spec fn root_of(leaf: Seq<u64>, path: MerklePath) -> Seq<u64> {
    climb_spec(leaf, sibling_seqs(path.siblings@), path.is_right@, 32)
}

/// The digests a transfer lane computes, cycle by cycle.
proof fn lemma_transfer_digests(
    s_id: Seq<u64>,
    bal: u64,
    sender_nonce: u64,
    s_path: MerklePath,
    r_id: Digest,
    r_bal: u64,
    r_nonce: u64,
    r_path: MerklePath,
    spend_key: Digest,
    s_nonce: u64,
    entry: Seq<Link>,
    null_path: MerklePath,
    frozen_path: MerklePath,
)
    requires
        entry.len() == 1,
        path_ok(s_path, 32),
        path_ok(r_path, 32),
        path_ok(null_path, 32),
        path_ok(frozen_path, 24),
    ensures
        ({
            let s0 = merge_state(s_id, as_digest_spec(bal));
            let l = transfer_links(sender_nonce, s_path, r_id, r_bal, r_nonce, r_path, spend_key, s_nonce, entry, null_path, frozen_path);
            &&& l.len() == 126
            &&& cycle_digest(s0, l, 1) == leaf_spec(s_id, bal, sender_nonce)
            &&& cycle_digest(s0, l, 33) == root_of(leaf_spec(s_id, bal, sender_nonce), s_path)
            &&& cycle_digest(s0, l, 35) == leaf_spec(r_id@, r_bal, r_nonce)
            &&& cycle_digest(s0, l, 67) == root_of(leaf_spec(r_id@, r_bal, r_nonce), r_path)
            &&& cycle_digest(s0, l, 68) == public_id_wide_spec(spend_key@)
            &&& cycle_digest(s0, l, 70) == nullifier_wide_spec(spend_key@, s_nonce)
            &&& l[70] == entry[0]
            &&& l.subrange(71, 102) == climb_links(null_path.siblings@, null_path.is_right@, 1, 31)
            &&& cycle_digest(s0, l, 126) == climb_spec(
                seq![0u64, 0u64, 0u64, 0u64],
                sibling_seqs(frozen_path.siblings@),
                frozen_path.is_right@,
                24,
            )
        }),
{
    let s0 = merge_state(s_id, as_digest_spec(bal));
    let l = transfer_links(sender_nonce, s_path, r_id, r_bal, r_nonce, r_path, spend_key, s_nonce, entry, null_path, frozen_path);
    let ssibs = s_path.siblings@;
    let rsibs = r_path.siblings@;
    let fsibs = frozen_path.siblings@;
    assert(l.len() == 126);
    lemma_digest_arr(sender_nonce);
    lemma_digest_arr(r_bal);
    lemma_digest_arr(r_nonce);
    lemma_digest_arr(s_nonce);
    lemma_digest_arr(SPEND_KEY_DOMAIN);
    lemma_digest_arr(NULLIFIER_DOMAIN);
    assert(cycle_digest(s0, l, 0) == merge_spec(s_id, as_digest_spec(bal)));
    assert(l[0] == Link::Place { other: digest_arr(sender_nonce), right: false });
    lemma_append_link(s0, l, 0, digest_arr(sender_nonce));
    let leaf_s = leaf_spec(s_id, bal, sender_nonce);
    assert(l.subrange(1, 33) =~= climb_links(ssibs, s_path.is_right@, 0, 32));
    lemma_links_climb(s0, l, 1, leaf_s, ssibs, s_path.is_right@, 0, 32);
    assert(l[33] == Link::Fresh { state: merge_arr(r_id, digest_arr(r_bal)) });
    lemma_fresh_link(s0, l, 33, merge_arr(r_id, digest_arr(r_bal)));
    lemma_merge_arr(r_id, digest_arr(r_bal));
    assert(l[34] == Link::Place { other: digest_arr(r_nonce), right: false });
    lemma_append_link(s0, l, 34, digest_arr(r_nonce));
    let leaf_r = leaf_spec(r_id@, r_bal, r_nonce);
    assert(l.subrange(35, 67) =~= climb_links(rsibs, r_path.is_right@, 0, 32));
    lemma_links_climb(s0, l, 35, leaf_r, rsibs, r_path.is_right@, 0, 32);
    assert(l[67] == Link::Fresh { state: merge_arr(digest_arr(SPEND_KEY_DOMAIN), spend_key) });
    lemma_fresh_link(s0, l, 67, merge_arr(digest_arr(SPEND_KEY_DOMAIN), spend_key));
    lemma_merge_arr(digest_arr(SPEND_KEY_DOMAIN), spend_key);
    assert(l[68] == Link::Fresh { state: merge_arr(digest_arr(NULLIFIER_DOMAIN), spend_key) });
    lemma_fresh_link(s0, l, 68, merge_arr(digest_arr(NULLIFIER_DOMAIN), spend_key));
    lemma_merge_arr(digest_arr(NULLIFIER_DOMAIN), spend_key);
    assert(l[69] == Link::Place { other: digest_arr(s_nonce), right: false });
    lemma_append_link(s0, l, 69, digest_arr(s_nonce));
    assert(l[70] == entry[0]);
    assert(l.subrange(71, 102) =~= climb_links(null_path.siblings@, null_path.is_right@, 1, 31));
    let zero: Digest = [0u64, 0u64, 0u64, 0u64];
    let fstate = place_arr(zero, fsibs[0], frozen_path.is_right@[0]);
    assert(l[102] == Link::Fresh { state: fstate });
    lemma_fresh_link(s0, l, 102, fstate);
    lemma_merge_arr(zero, fsibs[0]);
    lemma_merge_arr(fsibs[0], zero);
    assert(zero@ =~= seq![0u64, 0u64, 0u64, 0u64]);
    assert(sibling_seqs(fsibs)[0] == fsibs[0]@);
    assert(climb_spec(zero@, sibling_seqs(fsibs), frozen_path.is_right@, 1) == climb_step(
        climb_spec(zero@, sibling_seqs(fsibs), frozen_path.is_right@, 0),
        sibling_seqs(fsibs)[0],
        frozen_path.is_right@[0],
    ));
    assert(l.subrange(103, 126) =~= climb_links(fsibs, frozen_path.is_right@, 1, 23));
    lemma_links_climb(s0, l, 103, zero@, fsibs, frozen_path.is_right@, 1, 23);
}


/// Where the trace shows what the settlement proves. Lane A (old state):
/// the sender's old leaf and the old root, the receiver's old leaf climbed
/// to the intermediate root, the identity derived from the key, the
/// nullifier-tree root with `null_leaf_a` at the nullifier's position, and
/// the frozen-tree root with a zero leaf at the sender's position. Lane B
/// (new state): the sender's new leaf climbed to the intermediate root, the
/// receiver's new leaf climbed to the new root, the nullifier derived from
/// the key, and the nullifier-tree root with the nullifier inserted.
#[verifier::rlimit(40)]
pub proof fn lemma_trace_landmarks(
    sender: SenderWitness,
    receiver: ReceiverWitness,
    amount: u64,
    credited: u64,
    limit: u64,
    s_id: Seq<u64>,
    null_path: MerklePath,
    null_leaf_a: Digest,
    frozen_path: MerklePath,
)
    requires
        path_ok(sender.path, 32),
        path_ok(receiver.path, 32),
        path_ok(null_path, 32),
        path_ok(frozen_path, 24),
    ensures
        ({
            let v = transfer_values(sender.balance, sender.nonce, receiver.balance, amount, credited, limit);
            let leaf_old = leaf_spec(s_id, v.s_bal, sender.nonce);
            let leaf_new = leaf_spec(s_id, v.s_bal_new, v.s_nonce_new);
            let rleaf_old = leaf_spec(receiver.public_id@, v.r_bal, receiver.nonce);
            let rleaf_new = leaf_spec(receiver.public_id@, v.r_bal_new, receiver.nonce);
            let nullifier = nullifier_wide_spec(sender.spend_key@, sender.nonce);
            &&& forall|i: int| 0 <= i < 4 ==> #[trigger] cell_spec(sender, receiver, amount, credited, limit, s_id, null_path, null_leaf_a, frozen_path, 4 + i, ROW_S_LEAF_DONE as int) == leaf_old[i]
            &&& forall|i: int| 0 <= i < 4 ==> #[trigger] cell_spec(sender, receiver, amount, credited, limit, s_id, null_path, null_leaf_a, frozen_path, 16 + i, ROW_S_LEAF_DONE as int) == leaf_new[i]
            &&& forall|i: int| 0 <= i < 4 ==> #[trigger] cell_spec(sender, receiver, amount, credited, limit, s_id, null_path, null_leaf_a, frozen_path, 4 + i, ROW_S_ROOT as int) == root_of(leaf_old, sender.path)[i]
            &&& forall|i: int| 0 <= i < 4 ==> #[trigger] cell_spec(sender, receiver, amount, credited, limit, s_id, null_path, null_leaf_a, frozen_path, 16 + i, ROW_S_ROOT as int) == root_of(leaf_new, sender.path)[i]
            &&& forall|i: int, r: int| 0 <= i < 4 && 0 <= r < TRACE_LENGTH ==> #[trigger] cell_spec(sender, receiver, amount, credited, limit, s_id, null_path, null_leaf_a, frozen_path, COL_ROOT_MID + i, r)
                == root_of(leaf_new, sender.path)[i]
            &&& forall|i: int| 0 <= i < 4 ==> #[trigger] cell_spec(sender, receiver, amount, credited, limit, s_id, null_path, null_leaf_a, frozen_path, 4 + i, ROW_R_LEAF_DONE as int) == rleaf_old[i]
            &&& forall|i: int| 0 <= i < 4 ==> #[trigger] cell_spec(sender, receiver, amount, credited, limit, s_id, null_path, null_leaf_a, frozen_path, 16 + i, ROW_R_LEAF_DONE as int) == rleaf_new[i]
            &&& forall|i: int| 0 <= i < 4 ==> #[trigger] cell_spec(sender, receiver, amount, credited, limit, s_id, null_path, null_leaf_a, frozen_path, 4 + i, ROW_R_ROOT as int) == root_of(rleaf_old, receiver.path)[i]
            &&& forall|i: int| 0 <= i < 4 ==> #[trigger] cell_spec(sender, receiver, amount, credited, limit, s_id, null_path, null_leaf_a, frozen_path, 16 + i, ROW_R_ROOT as int) == root_of(rleaf_new, receiver.path)[i]
            &&& forall|i: int| 0 <= i < 4 ==> #[trigger] cell_spec(sender, receiver, amount, credited, limit, s_id, null_path, null_leaf_a, frozen_path, 4 + i, ROW_PK_DONE as int) == public_id_wide_spec(sender.spend_key@)[i]
            &&& forall|i: int| 0 <= i < 4 ==> #[trigger] cell_spec(sender, receiver, amount, credited, limit, s_id, null_path, null_leaf_a, frozen_path, 16 + i, ROW_PK_DONE as int) == public_id_wide_spec(sender.spend_key@)[i]
            &&& forall|i: int| 0 <= i < 4 ==> #[trigger] cell_spec(sender, receiver, amount, credited, limit, s_id, null_path, null_leaf_a, frozen_path, 4 + i, ROW_NULLIFIER as int) == nullifier[i]
            &&& forall|i: int| 0 <= i < 4 ==> #[trigger] cell_spec(sender, receiver, amount, credited, limit, s_id, null_path, null_leaf_a, frozen_path, 16 + i, ROW_NULLIFIER as int) == nullifier[i]
            &&& forall|i: int| 0 <= i < 4 ==> #[trigger] cell_spec(sender, receiver, amount, credited, limit, s_id, null_path, null_leaf_a, frozen_path, 4 + i, ROW_NULL_ROOT as int) == root_of(null_leaf_a@, null_path)[i]
            &&& forall|i: int| 0 <= i < 4 ==> #[trigger] cell_spec(sender, receiver, amount, credited, limit, s_id, null_path, null_leaf_a, frozen_path, 16 + i, ROW_NULL_ROOT as int) == root_of(nullifier, null_path)[i]
            &&& forall|i: int| 0 <= i < 4 ==> #[trigger] cell_spec(sender, receiver, amount, credited, limit, s_id, null_path, null_leaf_a, frozen_path, 4 + i, ROW_FROZEN_ROOT as int) == frozen_root_of(frozen_path)[i]
        }),
{
    let v = transfer_values(sender.balance, sender.nonce, receiver.balance, amount, credited, limit);
    let la = links_a(sender, receiver, v, null_path, null_leaf_a, frozen_path);
    let lb = links_b(sender, receiver, v, null_path, frozen_path);
    let s0a = merge_state(s_id, as_digest_spec(v.s_bal));
    let s0b = merge_state(s_id, as_digest_spec(v.s_bal_new));
    let nsibs = null_path.siblings@;
    let nbits = null_path.is_right@;
    let entry_a = seq![Link::Fresh { state: place_arr(null_leaf_a, nsibs[0], nbits[0]) }];
    lemma_transfer_digests(
        s_id, v.s_bal, sender.nonce, sender.path, receiver.public_id, v.r_bal, receiver.nonce,
        receiver.path, sender.spend_key, sender.nonce, entry_a, null_path, frozen_path,
    );
    lemma_transfer_digests(
        s_id, v.s_bal_new, v.s_nonce_new, sender.path, receiver.public_id, v.r_bal_new, receiver.nonce,
        receiver.path, sender.spend_key, sender.nonce, climb_links(nsibs, nbits, 0, 1), null_path, frozen_path,
    );
    // Lane A enters the nullifier tree from `null_leaf_a`.
    lemma_fresh_link(s0a, la, 70, place_arr(null_leaf_a, nsibs[0], nbits[0]));
    lemma_merge_arr(null_leaf_a, nsibs[0]);
    lemma_merge_arr(nsibs[0], null_leaf_a);
    assert(sibling_seqs(nsibs)[0] == nsibs[0]@);
    assert(climb_spec(null_leaf_a@, sibling_seqs(nsibs), nbits, 1) == climb_step(
        climb_spec(null_leaf_a@, sibling_seqs(nsibs), nbits, 0),
        sibling_seqs(nsibs)[0],
        nbits[0],
    ));
    lemma_links_climb(s0a, la, 71, null_leaf_a@, nsibs, nbits, 1, 31);
    // Lane B enters it from the nullifier it has just computed.
    let nullifier = nullifier_wide_spec(sender.spend_key@, sender.nonce);
    assert(lb.subrange(70, 71) =~= climb_links(nsibs, nbits, 0, 1)) by {
        assert(lb.subrange(70, 71)[0] == lb[70]);
    }
    lemma_links_climb(s0b, lb, 70, nullifier, nsibs, nbits, 0, 1);
    lemma_links_climb(s0b, lb, 71, nullifier, nsibs, nbits, 1, 31);
    lemma_lane_digest_row(s0a, la, 1);
    lemma_lane_digest_row(s0b, lb, 1);
    lemma_lane_digest_row(s0a, la, 33);
    lemma_lane_digest_row(s0b, lb, 33);
    lemma_lane_digest_row(s0a, la, 35);
    lemma_lane_digest_row(s0b, lb, 35);
    lemma_lane_digest_row(s0a, la, 67);
    lemma_lane_digest_row(s0b, lb, 67);
    lemma_lane_digest_row(s0a, la, 68);
    lemma_lane_digest_row(s0b, lb, 68);
    lemma_lane_digest_row(s0a, la, 70);
    lemma_lane_digest_row(s0b, lb, 70);
    lemma_lane_digest_row(s0a, la, 102);
    lemma_lane_digest_row(s0b, lb, 102);
    lemma_lane_digest_row(s0a, la, 126);
}

/// The root of the frozen tree above a zero leaf at the path's position.
pub open spec fn frozen_root_of(frozen_path: MerklePath) -> Seq<u64> {
    climb_spec(seq![0u64, 0u64, 0u64, 0u64], sibling_seqs(frozen_path.siblings@), frozen_path.is_right@, 24)
}


/// The public inputs of a settlement.
#[derive(Clone, Debug)]
pub struct SettlementPublicInputs {
    pub root_old: Digest,
    pub root_new: Digest,
    pub regulatory_limit: u64,
    pub nullifier: Digest,
    /// The frozen tree: the proof shows the sender is not in it.
    pub frozen_root: Digest,
    /// The nullifier tree before this settlement.
    pub nullifier_root_old: Digest,
    /// The nullifier tree with this settlement's nullifier inserted.
    pub nullifier_root_new: Digest,
}

impl SettlementPublicInputs {
    /// The elements the proof binds, in order.
    pub fn to_elements(&self) -> (r: Vec<u64>)
        ensures
            r@ == self.root_old@ + self.root_new@ + seq![self.regulatory_limit] + self.nullifier@ + self.frozen_root@
                + self.nullifier_root_old@ + self.nullifier_root_new@,
    {
        let mut r: Vec<u64> = Vec::new();
        let parts = [self.root_old, self.root_new];
        let mut k: usize = 0;
        while k < 8
            invariant
                k <= 8,
                parts@ == seq![self.root_old, self.root_new],
                r@ =~= (self.root_old@ + self.root_new@).subrange(0, k as int),
            decreases 8 - k,
        {
            r.push(parts[k / 4][k % 4]);
            k = k + 1;
        }
        r.push(self.regulatory_limit);
        let tail = [self.nullifier, self.frozen_root, self.nullifier_root_old, self.nullifier_root_new];
        let ghost tail_seq = self.nullifier@ + self.frozen_root@ + self.nullifier_root_old@ + self.nullifier_root_new@;
        let ghost head = r@;
        let mut k: usize = 0;
        while k < 16
            invariant
                k <= 16,
                tail@ == seq![self.nullifier, self.frozen_root, self.nullifier_root_old, self.nullifier_root_new],
                tail_seq == self.nullifier@ + self.frozen_root@ + self.nullifier_root_old@ + self.nullifier_root_new@,
                r@ =~= head + tail_seq.subrange(0, k as int),
            decreases 16 - k,
        {
            r.push(tail[k / 4][k % 4]);
            k = k + 1;
        }
        r
    }
}

/// The public inputs a trace shows: the old root at the end of the
/// sender's climb in lane A, the new root at the end of the receiver's
/// climb in lane B, the limit, the nullifier, the roots of the nullifier
/// tree before and after, and the root of the frozen tree.
pub fn public_inputs_of(trace: &Vec<Vec<u64>>) -> (pi: SettlementPublicInputs)
    requires
        trace.len() == TRACE_WIDTH,
        columns_shape(trace@, TRACE_LENGTH as nat),
    ensures
        forall|i: int| 0 <= i < 4 ==> #[trigger] pi.root_old[i] == trace[4 + i][ROW_S_ROOT as int],
        forall|i: int| 0 <= i < 4 ==> #[trigger] pi.root_new[i] == trace[16 + i][ROW_R_ROOT as int],
        pi.regulatory_limit == trace[COL_LIM as int][0],
        forall|i: int| 0 <= i < 4 ==> #[trigger] pi.nullifier[i] == trace[4 + i][ROW_NULLIFIER as int],
        forall|i: int| 0 <= i < 4 ==> #[trigger] pi.frozen_root[i] == trace[4 + i][ROW_FROZEN_ROOT as int],
        forall|i: int| 0 <= i < 4 ==> #[trigger] pi.nullifier_root_old[i] == trace[4 + i][ROW_NULL_ROOT as int],
        forall|i: int| 0 <= i < 4 ==> #[trigger] pi.nullifier_root_new[i] == trace[16 + i][ROW_NULL_ROOT as int],
        reads_public_inputs(trace@, pi),
{
    SettlementPublicInputs {
        root_old: [trace[4][ROW_S_ROOT], trace[5][ROW_S_ROOT], trace[6][ROW_S_ROOT], trace[7][ROW_S_ROOT]],
        root_new: [trace[16][ROW_R_ROOT], trace[17][ROW_R_ROOT], trace[18][ROW_R_ROOT], trace[19][ROW_R_ROOT]],
        regulatory_limit: trace[COL_LIM][0],
        nullifier: [trace[4][ROW_NULLIFIER], trace[5][ROW_NULLIFIER], trace[6][ROW_NULLIFIER], trace[7][ROW_NULLIFIER]],
        frozen_root: [
            trace[4][ROW_FROZEN_ROOT],
            trace[5][ROW_FROZEN_ROOT],
            trace[6][ROW_FROZEN_ROOT],
            trace[7][ROW_FROZEN_ROOT],
        ],
        nullifier_root_old: [
            trace[4][ROW_NULL_ROOT],
            trace[5][ROW_NULL_ROOT],
            trace[6][ROW_NULL_ROOT],
            trace[7][ROW_NULL_ROOT],
        ],
        nullifier_root_new: [
            trace[16][ROW_NULL_ROOT],
            trace[17][ROW_NULL_ROOT],
            trace[18][ROW_NULL_ROOT],
            trace[19][ROW_NULL_ROOT],
        ],
    }
}

/// The rows where the three 32-level climbs link one level to the next.
pub open spec fn merkle_link_rows() -> Seq<usize> {
    cycle_end_rows(2, 31) + cycle_end_rows(36, 31) + cycle_end_rows(71, 31)
}

/// The value of periodic column `j` at row `r`: the rounds of the hash
/// lanes on every hashing phase, up to the root of the frozen tree (so
/// that the frozen root is bound to the frozen path), the tree links, the leaf
/// links and placements, the event selectors, the Horner selectors of the
/// seven range checks, and the entry and links of the frozen tree.
pub open spec fn periodic_spec(j: int, r: int) -> u64 {
    let active = ROW_FROZEN_ROOT as int + 1;
    if j == 0 {
        hash_flag_spec(active, r)
    } else if j < 13 {
        ark_spec(false, j - 1, active, r)
    } else if j < 25 {
        ark_spec(true, j - 13, active, r)
    } else if j == 25 {
        selector_spec(merkle_link_rows(), r)
    } else if j == 26 {
        selector_spec(seq![ROW_S_LEAF_LINK, ROW_R_LEAF_LINK, ROW_NULL_LINK], r)
    } else if j == 27 {
        selector_spec(seq![ROW_S_LEAF_DONE, ROW_R_LEAF_DONE], r)
    } else if j == 28 {
        selector_spec(seq![ROW_S_LEAF_LINK], r)
    } else if j == 29 {
        selector_spec(seq![ROW_R_LEAF_LINK], r)
    } else if j == 30 {
        selector_spec(seq![ROW_NULL_LINK], r)
    } else if j == 31 {
        selector_spec(seq![0usize], r)
    } else if j == 32 {
        selector_spec(seq![ROW_S_ROOT], r)
    } else if j == 33 || j == 34 {
        selector_spec(seq![ROW_R_ROOT], r)
    } else if j == 35 {
        selector_spec(seq![ROW_PK_DONE], r)
    } else if j == 36 {
        selector_spec(seq![ROW_NULLIFIER], r)
    } else if j == 37 {
        selector_spec(seq![0usize, 64, 128, 192, 256, 320, 384], r)
    } else if j == 38 {
        continue_spec(NUM_SEGMENTS as int, SEGMENT_LENGTH as int, r)
    } else if j < 46 {
        selector_spec(seq![(64 * (j - 38) - 2) as usize], r)
    } else if j == 46 {
        selector_spec(seq![ROW_NULL_ROOT], r)
    } else {
        selector_spec(cycle_end_rows(103, 23), r)
    }
}

/// The 48 periodic columns.
pub fn periodic_columns() -> (cols: Vec<Vec<u64>>)
    ensures
        cols.len() == 48,
        forall|j: int| 0 <= j < 48 ==> (#[trigger] cols[j]).len() == TRACE_LENGTH,
        forall|j: int, r: int| 0 <= j < 48 && 0 <= r < TRACE_LENGTH ==> #[trigger] cols[j][r] == periodic_spec(j, r),
        forall|j: int| 0 <= j < 48 ==> all_canonical(#[trigger] cols[j]@),
{
    let mut cols = round_columns(ROW_FROZEN_ROOT + 1, TRACE_LENGTH);
    let ghost rounds = cols@;
    let mut merkle_rows: Vec<usize> = Vec::new();
    push_cycle_end_rows(&mut merkle_rows, 2, 31);
    push_cycle_end_rows(&mut merkle_rows, 36, 31);
    push_cycle_end_rows(&mut merkle_rows, 71, 31);
    assert(merkle_rows@ =~= merkle_link_rows());
    cols.push(selector_column(&merkle_rows, TRACE_LENGTH));
    let leaf_links = vec![ROW_S_LEAF_LINK, ROW_R_LEAF_LINK, ROW_NULL_LINK];
    assert(leaf_links@ =~= seq![ROW_S_LEAF_LINK, ROW_R_LEAF_LINK, ROW_NULL_LINK]);
    cols.push(selector_column(&leaf_links, TRACE_LENGTH));
    let places = vec![ROW_S_LEAF_DONE, ROW_R_LEAF_DONE];
    assert(places@ =~= seq![ROW_S_LEAF_DONE, ROW_R_LEAF_DONE]);
    cols.push(selector_column(&places, TRACE_LENGTH));
    push_row_selector(&mut cols, ROW_S_LEAF_LINK, TRACE_LENGTH);
    push_row_selector(&mut cols, ROW_R_LEAF_LINK, TRACE_LENGTH);
    push_row_selector(&mut cols, ROW_NULL_LINK, TRACE_LENGTH);
    push_row_selector(&mut cols, 0, TRACE_LENGTH);
    push_row_selector(&mut cols, ROW_S_ROOT, TRACE_LENGTH);
    push_row_selector(&mut cols, ROW_R_ROOT, TRACE_LENGTH);
    push_row_selector(&mut cols, ROW_R_ROOT, TRACE_LENGTH);
    push_row_selector(&mut cols, ROW_PK_DONE, TRACE_LENGTH);
    push_row_selector(&mut cols, ROW_NULLIFIER, TRACE_LENGTH);
    let firsts = vec![0usize, 64, 128, 192, 256, 320, 384];
    assert(firsts@ =~= seq![0usize, 64, 128, 192, 256, 320, 384]);
    cols.push(selector_column(&firsts, TRACE_LENGTH));
    cols.push(continue_column(NUM_SEGMENTS, SEGMENT_LENGTH, TRACE_LENGTH));
    let mut seg: usize = 0;
    while seg < NUM_SEGMENTS
        invariant
            seg <= NUM_SEGMENTS,
            cols.len() == 39 + seg,
            forall|j: int| 0 <= j < cols.len() ==> (#[trigger] cols[j]).len() == TRACE_LENGTH,
            forall|j: int, r: int|
                0 <= j < cols.len() && 0 <= r < TRACE_LENGTH ==> #[trigger] cols[j][r] == periodic_spec(j, r),
        decreases NUM_SEGMENTS - seg,
    {
        let row: usize = (seg + 1) * SEGMENT_LENGTH - 2;
        assert(row == (64 * ((39 + seg) as int - 38) - 2) as usize);
        push_row_selector(&mut cols, row, TRACE_LENGTH);
        seg = seg + 1;
    }
    push_row_selector(&mut cols, ROW_NULL_ROOT, TRACE_LENGTH);
    let mut frozen_rows: Vec<usize> = Vec::new();
    push_cycle_end_rows(&mut frozen_rows, 103, 23);
    assert(frozen_rows@ =~= cycle_end_rows(103, 23));
    cols.push(selector_column(&frozen_rows, TRACE_LENGTH));
    proof {
        assert forall|j: int| 0 <= j < 48 implies all_canonical(#[trigger] cols[j]@) by {
            assert forall|r: int| 0 <= r < cols[j]@.len() implies #[trigger] cols[j]@[r] < MODULUS by {
                if j < 25 {
                    assert(all_canonical(rounds[j]@));
                    assert(rounds[j][r] == cols[j][r]);
                } else {
                    assert(cols[j][r] == periodic_spec(j, r));
                }
            }
        }
    }
    cols
}

/// The 51 boundary assertions: the capacity and padding of both lanes on
/// the first row, the old and new roots, the start of the nullifier and
/// of the key derivation with their domains, the nullifier, the roots of
/// the nullifier tree, the limit, and the root of the frozen tree.
pub open spec fn assertions_spec(pi: SettlementPublicInputs) -> Seq<(usize, usize, u64)> {
    let z = seq![0u64, 0u64, 0u64, 0u64];
    pairs(4, 0, 0, z, 12, 0, z) + pairs(3, 9, 0, z, 21, 0, z) + pairs(4, 4, ROW_S_ROOT, pi.root_old@, 16, ROW_R_ROOT, pi.root_new@)
        + run(4, 0, ROW_NULL_START, z) + run(1, 4, ROW_NULL_START, seq![NULLIFIER_DOMAIN]) + run(3, 5, ROW_NULL_START, z)
        + run(4, 4, ROW_NULLIFIER, pi.nullifier@) + run(1, 4, ROW_PK_START, seq![SPEND_KEY_DOMAIN]) + run(3, 5, ROW_PK_START, z)
        + pairs(4, 4, ROW_NULL_ROOT, pi.nullifier_root_old@, 16, ROW_NULL_ROOT, pi.nullifier_root_new@)
        + run(1, COL_LIM as int, 0, seq![pi.regulatory_limit]) + run(4, 4, ROW_FROZEN_ROOT, pi.frozen_root@)
}

/// The boundary assertions of a settlement.
pub fn assertions(pi: &SettlementPublicInputs) -> (a: Vec<(usize, usize, u64)>)
    ensures
        a@ == assertions_spec(*pi),
        a.len() == 51,
{
    let z = vec![0u64, 0, 0, 0];
    let root_old = vec![pi.root_old[0], pi.root_old[1], pi.root_old[2], pi.root_old[3]];
    let root_new = vec![pi.root_new[0], pi.root_new[1], pi.root_new[2], pi.root_new[3]];
    let nullifier = vec![pi.nullifier[0], pi.nullifier[1], pi.nullifier[2], pi.nullifier[3]];
    let nro = vec![pi.nullifier_root_old[0], pi.nullifier_root_old[1], pi.nullifier_root_old[2], pi.nullifier_root_old[3]];
    let nrn = vec![pi.nullifier_root_new[0], pi.nullifier_root_new[1], pi.nullifier_root_new[2], pi.nullifier_root_new[3]];
    let frozen = vec![pi.frozen_root[0], pi.frozen_root[1], pi.frozen_root[2], pi.frozen_root[3]];
    let null_domain = vec![NULLIFIER_DOMAIN];
    let key_domain = vec![SPEND_KEY_DOMAIN];
    let limit = vec![pi.regulatory_limit];
    assert(z@ =~= seq![0u64, 0u64, 0u64, 0u64]);
    assert(root_old@ =~= pi.root_old@);
    assert(root_new@ =~= pi.root_new@);
    assert(nullifier@ =~= pi.nullifier@);
    assert(nro@ =~= pi.nullifier_root_old@);
    assert(nrn@ =~= pi.nullifier_root_new@);
    assert(frozen@ =~= pi.frozen_root@);
    assert(null_domain@ =~= seq![NULLIFIER_DOMAIN]);
    assert(key_domain@ =~= seq![SPEND_KEY_DOMAIN]);
    assert(limit@ =~= seq![pi.regulatory_limit]);
    let mut a: Vec<(usize, usize, u64)> = Vec::new();
    push_pairs(&mut a, 4, 0, 0, &z, 12, 0, &z);
    push_pairs(&mut a, 3, 9, 0, &z, 21, 0, &z);
    push_pairs(&mut a, 4, 4, ROW_S_ROOT, &root_old, 16, ROW_R_ROOT, &root_new);
    push_run(&mut a, 4, 0, ROW_NULL_START, &z);
    push_run(&mut a, 1, 4, ROW_NULL_START, &null_domain);
    push_run(&mut a, 3, 5, ROW_NULL_START, &z);
    push_run(&mut a, 4, 4, ROW_NULLIFIER, &nullifier);
    push_run(&mut a, 1, 4, ROW_PK_START, &key_domain);
    push_run(&mut a, 3, 5, ROW_PK_START, &z);
    push_pairs(&mut a, 4, 4, ROW_NULL_ROOT, &nro, 16, ROW_NULL_ROOT, &nrn);
    push_run(&mut a, 1, COL_LIM, 0, &limit);
    push_run(&mut a, 4, 4, ROW_FROZEN_ROOT, &frozen);
    a
}

/// What `public_inputs_of` reads off a trace: each public input is the
/// cell that its assertion names.
pub open spec fn reads_public_inputs(t: Seq<Vec<u64>>, pi: SettlementPublicInputs) -> bool {
    &&& forall|i: int| 0 <= i < 4 ==> #[trigger] pi.root_old[i] == t[4 + i][ROW_S_ROOT as int]
    &&& forall|i: int| 0 <= i < 4 ==> #[trigger] pi.root_new[i] == t[16 + i][ROW_R_ROOT as int]
    &&& pi.regulatory_limit == t[COL_LIM as int][0]
    &&& forall|i: int| 0 <= i < 4 ==> #[trigger] pi.nullifier[i] == t[4 + i][ROW_NULLIFIER as int]
    &&& forall|i: int| 0 <= i < 4 ==> #[trigger] pi.frozen_root[i] == t[4 + i][ROW_FROZEN_ROOT as int]
    &&& forall|i: int| 0 <= i < 4 ==> #[trigger] pi.nullifier_root_old[i] == t[4 + i][ROW_NULL_ROOT as int]
    &&& forall|i: int| 0 <= i < 4 ==> #[trigger] pi.nullifier_root_new[i] == t[16 + i][ROW_NULL_ROOT as int]
}

/// The assertions whose values are public inputs: the two state roots,
/// the nullifier, the two nullifier-tree roots, the limit and the frozen
/// root. The others assert constants.
pub open spec fn carries_public_input(k: int) -> bool {
    (14 <= k < 22) || (30 <= k < 34) || (38 <= k < 51)
}

/// An assertion holds on a trace: the cell it names has its value.
pub open spec fn assertion_holds(t: Seq<Vec<u64>>, a: (usize, usize, u64)) -> bool {
    t[a.0 as int][a.1 as int] == a.2
}

/// Public inputs read off any trace meet every assertion that carries one:
/// what the prover derives is what the verifier asserts.
pub proof fn lemma_read_inputs_meet_assertions(t: Seq<Vec<u64>>, pi: SettlementPublicInputs)
    requires
        reads_public_inputs(t, pi),
    ensures
        assertions_spec(pi).len() == 51,
        forall|k: int| 0 <= k < 51 && carries_public_input(k) ==> #[trigger] assertion_holds(t, assertions_spec(pi)[k]),
{
    let z = seq![0u64, 0u64, 0u64, 0u64];
    let p0 = pairs(4, 0, 0, z, 12, 0, z) + pairs(3, 9, 0, z, 21, 0, z);
    let roots = pairs(4, 4, ROW_S_ROOT, pi.root_old@, 16, ROW_R_ROOT, pi.root_new@);
    let mid = run(4, 0, ROW_NULL_START, z) + run(1, 4, ROW_NULL_START, seq![NULLIFIER_DOMAIN]) + run(3, 5, ROW_NULL_START, z);
    let nul = run(4, 4, ROW_NULLIFIER, pi.nullifier@);
    let key = run(1, 4, ROW_PK_START, seq![SPEND_KEY_DOMAIN]) + run(3, 5, ROW_PK_START, z);
    let nroots = pairs(4, 4, ROW_NULL_ROOT, pi.nullifier_root_old@, 16, ROW_NULL_ROOT, pi.nullifier_root_new@);
    let tail = run(1, COL_LIM as int, 0, seq![pi.regulatory_limit]) + run(4, 4, ROW_FROZEN_ROOT, pi.frozen_root@);
    let all = assertions_spec(pi);
    assert(all =~= p0 + roots + mid + nul + key + nroots + tail);
    assert forall|k: int| 0 <= k < 51 && carries_public_input(k) implies #[trigger] assertion_holds(t, all[k]) by {
        if k < 22 {
            let j = k - 14;
            assert(all[k] == roots[j]);
            if j % 2 == 0 {
                assert(pi.root_old[j / 2] == t[4 + j / 2][ROW_S_ROOT as int]);
            } else {
                assert(pi.root_new[j / 2] == t[16 + j / 2][ROW_R_ROOT as int]);
            }
        } else if k < 34 {
            let j = k - 30;
            assert(all[k] == nul[j]);
            assert(pi.nullifier[j] == t[4 + j][ROW_NULLIFIER as int]);
        } else if k < 46 {
            let j = k - 38;
            assert(all[k] == nroots[j]);
            if j % 2 == 0 {
                assert(pi.nullifier_root_old[j / 2] == t[4 + j / 2][ROW_NULL_ROOT as int]);
            } else {
                assert(pi.nullifier_root_new[j / 2] == t[16 + j / 2][ROW_NULL_ROOT as int]);
            }
        } else {
            let j = k - 46;
            assert(all[k] == tail[j]);
            if j > 0 {
                assert(pi.frozen_root[j - 1] == t[4 + j - 1][ROW_FROZEN_ROOT as int]);
            }
        }
    }
}


/// Money is conserved: when the amount credited is the amount debited, the
/// two new balances add up to the two old ones (in the field).
pub proof fn lemma_transfer_conserves(sender_balance: u64, sender_nonce: u64, receiver_balance: u64, amount: u64, limit: u64)
    ensures
        ({
            let v = transfer_values(sender_balance, sender_nonce, receiver_balance, amount, amount, limit);
            add_spec(v.s_bal_new, v.r_bal_new) == add_spec(v.s_bal, v.r_bal)
        }),
{
    let v = transfer_values(sender_balance, sender_nonce, receiver_balance, amount, amount, limit);
    let p = crate::field::p();
    vstd::arithmetic::div_mod::lemma_add_mod_noop(v.s_bal - v.amt, v.r_bal + v.amt, p);
}

/// The settlement trace keeps the money: with the amount credited equal to
/// the amount debited, on every row the carried new balances add up to the
/// carried old ones.
pub proof fn lemma_settlement_conserves(
    sender: SenderWitness,
    receiver: ReceiverWitness,
    amount: u64,
    limit: u64,
    s_id: Seq<u64>,
    null_path: MerklePath,
    null_leaf_a: Digest,
    frozen_path: MerklePath,
)
    ensures
        forall|r: int|
            #![trigger cell_spec(sender, receiver, amount, amount, limit, s_id, null_path, null_leaf_a, frozen_path, COL_S_BAL_NEW as int, r)]
            0 <= r < TRACE_LENGTH ==> add_spec(
                cell_spec(sender, receiver, amount, amount, limit, s_id, null_path, null_leaf_a, frozen_path, COL_S_BAL_NEW as int, r),
                cell_spec(sender, receiver, amount, amount, limit, s_id, null_path, null_leaf_a, frozen_path, COL_R_BAL_NEW as int, r),
            ) == add_spec(
                cell_spec(sender, receiver, amount, amount, limit, s_id, null_path, null_leaf_a, frozen_path, COL_S_BAL as int, r),
                cell_spec(sender, receiver, amount, amount, limit, s_id, null_path, null_leaf_a, frozen_path, COL_R_BAL as int, r),
            ),
{
    lemma_transfer_conserves(sender.balance, sender.nonce, receiver.balance, amount, limit);
}


/// The spending authority: in a settlement trace, the identity derived
/// from the key (lane A at the end of the key derivation) equals the
/// identity the leaves are built from exactly when that identity is the
/// key's. A trace that uses a victim's identity with another key fails
/// the check.
pub proof fn lemma_authority(
    sender: SenderWitness,
    receiver: ReceiverWitness,
    amount: u64,
    credited: u64,
    limit: u64,
    s_id: Seq<u64>,
    null_path: MerklePath,
    null_leaf_a: Digest,
    frozen_path: MerklePath,
)
    requires
        path_ok(sender.path, 32),
        path_ok(receiver.path, 32),
        path_ok(null_path, 32),
        path_ok(frozen_path, 24),
        s_id.len() == 4,
    ensures
        (forall|i: int|
            0 <= i < 4 ==> #[trigger] cell_spec(
                sender,
                receiver,
                amount,
                credited,
                limit,
                s_id,
                null_path,
                null_leaf_a,
                frozen_path,
                4 + i,
                ROW_PK_DONE as int,
            ) == cell_spec(sender, receiver, amount, credited, limit, s_id, null_path, null_leaf_a, frozen_path, COL_S_ID + i, 0))
            <==> s_id == public_id_wide_spec(sender.spend_key@),
{
    lemma_trace_landmarks(sender, receiver, amount, credited, limit, s_id, null_path, null_leaf_a, frozen_path);
    let pk = public_id_wide_spec(sender.spend_key@);
    if forall|i: int|
        0 <= i < 4 ==> #[trigger] cell_spec(
            sender,
            receiver,
            amount,
            credited,
            limit,
            s_id,
            null_path,
            null_leaf_a,
            frozen_path,
            4 + i,
            ROW_PK_DONE as int,
        ) == cell_spec(sender, receiver, amount, credited, limit, s_id, null_path, null_leaf_a, frozen_path, COL_S_ID + i, 0) {
        assert forall|i: int| 0 <= i < 4 implies s_id[i] == pk[i] by {
            assert(cell_spec(sender, receiver, amount, credited, limit, s_id, null_path, null_leaf_a, frozen_path, 4 + i, ROW_PK_DONE as int) == pk[i]);
            assert(cell_spec(sender, receiver, amount, credited, limit, s_id, null_path, null_leaf_a, frozen_path, COL_S_ID + i, 0) == s_id[i]);
        }
        assert(s_id =~= pk);
    }
    if s_id == pk {
        assert forall|i: int| 0 <= i < 4 implies #[trigger] cell_spec(
            sender,
            receiver,
            amount,
            credited,
            limit,
            s_id,
            null_path,
            null_leaf_a,
            frozen_path,
            4 + i,
            ROW_PK_DONE as int,
        ) == cell_spec(sender, receiver, amount, credited, limit, s_id, null_path, null_leaf_a, frozen_path, COL_S_ID + i, 0) by {
            assert(cell_spec(sender, receiver, amount, credited, limit, s_id, null_path, null_leaf_a, frozen_path, COL_S_ID + i, 0) == s_id[i]);
        }
    }
}


/// The number of transition constraints.
pub const NUM_CONSTRAINTS: usize = 170;

/// The residuals of constraints 24..=35.
#[verifier::opaque]
pub open spec fn residuals_0(cur: Seq<u64>, nxt: Seq<u64>, per: Seq<u64>) -> Seq<u64> {
    seq![
        mul_spec(add_spec(add_spec(per[25], per[27]), per[36]), nxt[0]),
        mul_spec(add_spec(add_spec(per[25], per[27]), per[36]), nxt[1]),
        mul_spec(add_spec(add_spec(per[25], per[27]), per[36]), nxt[2]),
        mul_spec(add_spec(add_spec(per[25], per[27]), per[36]), nxt[3]),
        mul_spec(add_spec(add_spec(per[25], per[27]), per[36]), nxt[12]),
        mul_spec(add_spec(add_spec(per[25], per[27]), per[36]), nxt[13]),
        mul_spec(add_spec(add_spec(per[25], per[27]), per[36]), nxt[14]),
        mul_spec(add_spec(add_spec(per[25], per[27]), per[36]), nxt[15]),
        mul_spec(add_spec(per[25], per[27]), add_spec(mul_spec(sub_spec(1u64, nxt[24]), sub_spec(nxt[4], cur[4])), mul_spec(nxt[24], sub_spec(nxt[8], cur[4])))),
        mul_spec(add_spec(per[25], per[27]), add_spec(mul_spec(sub_spec(1u64, nxt[24]), sub_spec(nxt[5], cur[5])), mul_spec(nxt[24], sub_spec(nxt[9], cur[5])))),
        mul_spec(add_spec(per[25], per[27]), add_spec(mul_spec(sub_spec(1u64, nxt[24]), sub_spec(nxt[6], cur[6])), mul_spec(nxt[24], sub_spec(nxt[10], cur[6])))),
        mul_spec(add_spec(per[25], per[27]), add_spec(mul_spec(sub_spec(1u64, nxt[24]), sub_spec(nxt[7], cur[7])), mul_spec(nxt[24], sub_spec(nxt[11], cur[7])))),
    ]
}

fn residuals_0_eval(cur: &Vec<u64>, nxt: &Vec<u64>, per: &Vec<u64>) -> (r: Vec<u64>)
    requires
        cur.len() == TRACE_WIDTH,
        nxt.len() == TRACE_WIDTH,
        per.len() == 48,
        all_canonical(cur@),
        all_canonical(nxt@),
        all_canonical(per@),
    ensures
        r@ == residuals_0(cur@, nxt@, per@),
        r.len() == 12,
{
    let r = vec![
        fmul(fadd(fadd(per[25], per[27]), per[36]), nxt[0]),
        fmul(fadd(fadd(per[25], per[27]), per[36]), nxt[1]),
        fmul(fadd(fadd(per[25], per[27]), per[36]), nxt[2]),
        fmul(fadd(fadd(per[25], per[27]), per[36]), nxt[3]),
        fmul(fadd(fadd(per[25], per[27]), per[36]), nxt[12]),
        fmul(fadd(fadd(per[25], per[27]), per[36]), nxt[13]),
        fmul(fadd(fadd(per[25], per[27]), per[36]), nxt[14]),
        fmul(fadd(fadd(per[25], per[27]), per[36]), nxt[15]),
        fmul(fadd(per[25], per[27]), fadd(fmul(fsub(1u64, nxt[24]), fsub(nxt[4], cur[4])), fmul(nxt[24], fsub(nxt[8], cur[4])))),
        fmul(fadd(per[25], per[27]), fadd(fmul(fsub(1u64, nxt[24]), fsub(nxt[5], cur[5])), fmul(nxt[24], fsub(nxt[9], cur[5])))),
        fmul(fadd(per[25], per[27]), fadd(fmul(fsub(1u64, nxt[24]), fsub(nxt[6], cur[6])), fmul(nxt[24], fsub(nxt[10], cur[6])))),
        fmul(fadd(per[25], per[27]), fadd(fmul(fsub(1u64, nxt[24]), fsub(nxt[7], cur[7])), fmul(nxt[24], fsub(nxt[11], cur[7])))),
    ];
    proof {
        reveal(residuals_0);
    }
    assert(r@ =~= residuals_0(cur@, nxt@, per@));
    r
}

/// The residuals of constraints 36..=47.
#[verifier::opaque]
pub open spec fn residuals_1(cur: Seq<u64>, nxt: Seq<u64>, per: Seq<u64>) -> Seq<u64> {
    seq![
        mul_spec(add_spec(add_spec(per[25], per[27]), per[36]), add_spec(mul_spec(sub_spec(1u64, nxt[24]), sub_spec(nxt[16], cur[16])), mul_spec(nxt[24], sub_spec(nxt[20], cur[16])))),
        mul_spec(add_spec(add_spec(per[25], per[27]), per[36]), add_spec(mul_spec(sub_spec(1u64, nxt[24]), sub_spec(nxt[17], cur[17])), mul_spec(nxt[24], sub_spec(nxt[21], cur[17])))),
        mul_spec(add_spec(add_spec(per[25], per[27]), per[36]), add_spec(mul_spec(sub_spec(1u64, nxt[24]), sub_spec(nxt[18], cur[18])), mul_spec(nxt[24], sub_spec(nxt[22], cur[18])))),
        mul_spec(add_spec(add_spec(per[25], per[27]), per[36]), add_spec(mul_spec(sub_spec(1u64, nxt[24]), sub_spec(nxt[19], cur[19])), mul_spec(nxt[24], sub_spec(nxt[23], cur[19])))),
        mul_spec(add_spec(add_spec(per[25], per[27]), per[36]), sub_spec(add_spec(mul_spec(sub_spec(1u64, nxt[24]), nxt[8]), mul_spec(nxt[24], nxt[4])), add_spec(mul_spec(sub_spec(1u64, nxt[24]), nxt[20]), mul_spec(nxt[24], nxt[16])))),
        mul_spec(add_spec(add_spec(per[25], per[27]), per[36]), sub_spec(add_spec(mul_spec(sub_spec(1u64, nxt[24]), nxt[9]), mul_spec(nxt[24], nxt[5])), add_spec(mul_spec(sub_spec(1u64, nxt[24]), nxt[21]), mul_spec(nxt[24], nxt[17])))),
        mul_spec(add_spec(add_spec(per[25], per[27]), per[36]), sub_spec(add_spec(mul_spec(sub_spec(1u64, nxt[24]), nxt[10]), mul_spec(nxt[24], nxt[6])), add_spec(mul_spec(sub_spec(1u64, nxt[24]), nxt[22]), mul_spec(nxt[24], nxt[18])))),
        mul_spec(add_spec(add_spec(per[25], per[27]), per[36]), sub_spec(add_spec(mul_spec(sub_spec(1u64, nxt[24]), nxt[11]), mul_spec(nxt[24], nxt[7])), add_spec(mul_spec(sub_spec(1u64, nxt[24]), nxt[23]), mul_spec(nxt[24], nxt[19])))),
        mul_spec(cur[24], sub_spec(cur[24], 1u64)),
        mul_spec(per[26], nxt[0]),
        mul_spec(per[26], nxt[1]),
        mul_spec(per[26], nxt[2]),
    ]
}

fn residuals_1_eval(cur: &Vec<u64>, nxt: &Vec<u64>, per: &Vec<u64>) -> (r: Vec<u64>)
    requires
        cur.len() == TRACE_WIDTH,
        nxt.len() == TRACE_WIDTH,
        per.len() == 48,
        all_canonical(cur@),
        all_canonical(nxt@),
        all_canonical(per@),
    ensures
        r@ == residuals_1(cur@, nxt@, per@),
        r.len() == 12,
{
    let r = vec![
        fmul(fadd(fadd(per[25], per[27]), per[36]), fadd(fmul(fsub(1u64, nxt[24]), fsub(nxt[16], cur[16])), fmul(nxt[24], fsub(nxt[20], cur[16])))),
        fmul(fadd(fadd(per[25], per[27]), per[36]), fadd(fmul(fsub(1u64, nxt[24]), fsub(nxt[17], cur[17])), fmul(nxt[24], fsub(nxt[21], cur[17])))),
        fmul(fadd(fadd(per[25], per[27]), per[36]), fadd(fmul(fsub(1u64, nxt[24]), fsub(nxt[18], cur[18])), fmul(nxt[24], fsub(nxt[22], cur[18])))),
        fmul(fadd(fadd(per[25], per[27]), per[36]), fadd(fmul(fsub(1u64, nxt[24]), fsub(nxt[19], cur[19])), fmul(nxt[24], fsub(nxt[23], cur[19])))),
        fmul(fadd(fadd(per[25], per[27]), per[36]), fsub(fadd(fmul(fsub(1u64, nxt[24]), nxt[8]), fmul(nxt[24], nxt[4])), fadd(fmul(fsub(1u64, nxt[24]), nxt[20]), fmul(nxt[24], nxt[16])))),
        fmul(fadd(fadd(per[25], per[27]), per[36]), fsub(fadd(fmul(fsub(1u64, nxt[24]), nxt[9]), fmul(nxt[24], nxt[5])), fadd(fmul(fsub(1u64, nxt[24]), nxt[21]), fmul(nxt[24], nxt[17])))),
        fmul(fadd(fadd(per[25], per[27]), per[36]), fsub(fadd(fmul(fsub(1u64, nxt[24]), nxt[10]), fmul(nxt[24], nxt[6])), fadd(fmul(fsub(1u64, nxt[24]), nxt[22]), fmul(nxt[24], nxt[18])))),
        fmul(fadd(fadd(per[25], per[27]), per[36]), fsub(fadd(fmul(fsub(1u64, nxt[24]), nxt[11]), fmul(nxt[24], nxt[7])), fadd(fmul(fsub(1u64, nxt[24]), nxt[23]), fmul(nxt[24], nxt[19])))),
        fmul(cur[24], fsub(cur[24], 1u64)),
        fmul(per[26], nxt[0]),
        fmul(per[26], nxt[1]),
        fmul(per[26], nxt[2]),
    ];
    proof {
        reveal(residuals_1);
    }
    assert(r@ =~= residuals_1(cur@, nxt@, per@));
    r
}

/// The residuals of constraints 48..=59.
#[verifier::opaque]
pub open spec fn residuals_2(cur: Seq<u64>, nxt: Seq<u64>, per: Seq<u64>) -> Seq<u64> {
    seq![
        mul_spec(per[26], nxt[3]),
        mul_spec(per[26], nxt[12]),
        mul_spec(per[26], nxt[13]),
        mul_spec(per[26], nxt[14]),
        mul_spec(per[26], nxt[15]),
        mul_spec(per[26], sub_spec(nxt[4], cur[4])),
        mul_spec(per[26], sub_spec(nxt[5], cur[5])),
        mul_spec(per[26], sub_spec(nxt[6], cur[6])),
        mul_spec(per[26], sub_spec(nxt[7], cur[7])),
        mul_spec(per[26], sub_spec(nxt[16], cur[16])),
        mul_spec(per[26], sub_spec(nxt[17], cur[17])),
        mul_spec(per[26], sub_spec(nxt[18], cur[18])),
    ]
}

fn residuals_2_eval(cur: &Vec<u64>, nxt: &Vec<u64>, per: &Vec<u64>) -> (r: Vec<u64>)
    requires
        cur.len() == TRACE_WIDTH,
        nxt.len() == TRACE_WIDTH,
        per.len() == 48,
        all_canonical(cur@),
        all_canonical(nxt@),
        all_canonical(per@),
    ensures
        r@ == residuals_2(cur@, nxt@, per@),
        r.len() == 12,
{
    let r = vec![
        fmul(per[26], nxt[3]),
        fmul(per[26], nxt[12]),
        fmul(per[26], nxt[13]),
        fmul(per[26], nxt[14]),
        fmul(per[26], nxt[15]),
        fmul(per[26], fsub(nxt[4], cur[4])),
        fmul(per[26], fsub(nxt[5], cur[5])),
        fmul(per[26], fsub(nxt[6], cur[6])),
        fmul(per[26], fsub(nxt[7], cur[7])),
        fmul(per[26], fsub(nxt[16], cur[16])),
        fmul(per[26], fsub(nxt[17], cur[17])),
        fmul(per[26], fsub(nxt[18], cur[18])),
    ];
    proof {
        reveal(residuals_2);
    }
    assert(r@ =~= residuals_2(cur@, nxt@, per@));
    r
}

/// The residuals of constraints 60..=71.
#[verifier::opaque]
pub open spec fn residuals_3(cur: Seq<u64>, nxt: Seq<u64>, per: Seq<u64>) -> Seq<u64> {
    seq![
        mul_spec(per[26], sub_spec(nxt[19], cur[19])),
        mul_spec(per[28], sub_spec(nxt[8], cur[34])),
        mul_spec(per[28], sub_spec(nxt[20], add_spec(cur[34], 1u64))),
        mul_spec(per[29], sub_spec(nxt[8], cur[41])),
        mul_spec(per[29], sub_spec(nxt[20], cur[41])),
        mul_spec(per[30], sub_spec(nxt[8], cur[34])),
        mul_spec(per[30], sub_spec(nxt[20], cur[34])),
        mul_spec(per[31], sub_spec(cur[4], cur[29])),
        mul_spec(per[31], sub_spec(cur[5], cur[30])),
        mul_spec(per[31], sub_spec(cur[6], cur[31])),
        mul_spec(per[31], sub_spec(cur[7], cur[32])),
        mul_spec(per[31], sub_spec(cur[8], cur[33])),
    ]
}

fn residuals_3_eval(cur: &Vec<u64>, nxt: &Vec<u64>, per: &Vec<u64>) -> (r: Vec<u64>)
    requires
        cur.len() == TRACE_WIDTH,
        nxt.len() == TRACE_WIDTH,
        per.len() == 48,
        all_canonical(cur@),
        all_canonical(nxt@),
        all_canonical(per@),
    ensures
        r@ == residuals_3(cur@, nxt@, per@),
        r.len() == 12,
{
    let r = vec![
        fmul(per[26], fsub(nxt[19], cur[19])),
        fmul(per[28], fsub(nxt[8], cur[34])),
        fmul(per[28], fsub(nxt[20], fadd(cur[34], 1u64))),
        fmul(per[29], fsub(nxt[8], cur[41])),
        fmul(per[29], fsub(nxt[20], cur[41])),
        fmul(per[30], fsub(nxt[8], cur[34])),
        fmul(per[30], fsub(nxt[20], cur[34])),
        fmul(per[31], fsub(cur[4], cur[29])),
        fmul(per[31], fsub(cur[5], cur[30])),
        fmul(per[31], fsub(cur[6], cur[31])),
        fmul(per[31], fsub(cur[7], cur[32])),
        fmul(per[31], fsub(cur[8], cur[33])),
    ];
    proof {
        reveal(residuals_3);
    }
    assert(r@ =~= residuals_3(cur@, nxt@, per@));
    r
}

/// The residuals of constraints 72..=83.
#[verifier::opaque]
pub open spec fn residuals_4(cur: Seq<u64>, nxt: Seq<u64>, per: Seq<u64>) -> Seq<u64> {
    seq![
        mul_spec(per[31], sub_spec(cur[16], cur[29])),
        mul_spec(per[31], sub_spec(cur[17], cur[30])),
        mul_spec(per[31], sub_spec(cur[18], cur[31])),
        mul_spec(per[31], sub_spec(cur[19], cur[32])),
        mul_spec(per[31], sub_spec(cur[20], cur[35])),
        mul_spec(per[32], sub_spec(nxt[4], cur[36])),
        mul_spec(per[32], sub_spec(nxt[5], cur[37])),
        mul_spec(per[32], sub_spec(nxt[6], cur[38])),
        mul_spec(per[32], sub_spec(nxt[7], cur[39])),
        mul_spec(per[32], sub_spec(nxt[8], cur[40])),
        mul_spec(per[32], sub_spec(nxt[16], cur[36])),
        mul_spec(per[32], sub_spec(nxt[17], cur[37])),
    ]
}

fn residuals_4_eval(cur: &Vec<u64>, nxt: &Vec<u64>, per: &Vec<u64>) -> (r: Vec<u64>)
    requires
        cur.len() == TRACE_WIDTH,
        nxt.len() == TRACE_WIDTH,
        per.len() == 48,
        all_canonical(cur@),
        all_canonical(nxt@),
        all_canonical(per@),
    ensures
        r@ == residuals_4(cur@, nxt@, per@),
        r.len() == 12,
{
    let r = vec![
        fmul(per[31], fsub(cur[16], cur[29])),
        fmul(per[31], fsub(cur[17], cur[30])),
        fmul(per[31], fsub(cur[18], cur[31])),
        fmul(per[31], fsub(cur[19], cur[32])),
        fmul(per[31], fsub(cur[20], cur[35])),
        fmul(per[32], fsub(nxt[4], cur[36])),
        fmul(per[32], fsub(nxt[5], cur[37])),
        fmul(per[32], fsub(nxt[6], cur[38])),
        fmul(per[32], fsub(nxt[7], cur[39])),
        fmul(per[32], fsub(nxt[8], cur[40])),
        fmul(per[32], fsub(nxt[16], cur[36])),
        fmul(per[32], fsub(nxt[17], cur[37])),
    ];
    proof {
        reveal(residuals_4);
    }
    assert(r@ =~= residuals_4(cur@, nxt@, per@));
    r
}

/// The residuals of constraints 84..=95.
#[verifier::opaque]
pub open spec fn residuals_5(cur: Seq<u64>, nxt: Seq<u64>, per: Seq<u64>) -> Seq<u64> {
    seq![
        mul_spec(per[32], sub_spec(nxt[18], cur[38])),
        mul_spec(per[32], sub_spec(nxt[19], cur[39])),
        mul_spec(per[32], sub_spec(nxt[20], cur[42])),
        mul_spec(per[32], sub_spec(cur[45], cur[16])),
        mul_spec(per[32], sub_spec(cur[46], cur[17])),
        mul_spec(per[32], sub_spec(cur[47], cur[18])),
        mul_spec(per[32], sub_spec(cur[48], cur[19])),
        mul_spec(per[33], sub_spec(cur[45], cur[4])),
        mul_spec(per[33], sub_spec(cur[46], cur[5])),
        mul_spec(per[33], sub_spec(cur[47], cur[6])),
        mul_spec(per[33], sub_spec(cur[48], cur[7])),
        sub_spec(cur[35], sub_spec(cur[33], cur[43])),
    ]
}

fn residuals_5_eval(cur: &Vec<u64>, nxt: &Vec<u64>, per: &Vec<u64>) -> (r: Vec<u64>)
    requires
        cur.len() == TRACE_WIDTH,
        nxt.len() == TRACE_WIDTH,
        per.len() == 48,
        all_canonical(cur@),
        all_canonical(nxt@),
        all_canonical(per@),
    ensures
        r@ == residuals_5(cur@, nxt@, per@),
        r.len() == 12,
{
    let r = vec![
        fmul(per[32], fsub(nxt[18], cur[38])),
        fmul(per[32], fsub(nxt[19], cur[39])),
        fmul(per[32], fsub(nxt[20], cur[42])),
        fmul(per[32], fsub(cur[45], cur[16])),
        fmul(per[32], fsub(cur[46], cur[17])),
        fmul(per[32], fsub(cur[47], cur[18])),
        fmul(per[32], fsub(cur[48], cur[19])),
        fmul(per[33], fsub(cur[45], cur[4])),
        fmul(per[33], fsub(cur[46], cur[5])),
        fmul(per[33], fsub(cur[47], cur[6])),
        fmul(per[33], fsub(cur[48], cur[7])),
        fsub(cur[35], fsub(cur[33], cur[43])),
    ];
    proof {
        reveal(residuals_5);
    }
    assert(r@ =~= residuals_5(cur@, nxt@, per@));
    r
}

/// The residuals of constraints 96..=107.
#[verifier::opaque]
pub open spec fn residuals_6(cur: Seq<u64>, nxt: Seq<u64>, per: Seq<u64>) -> Seq<u64> {
    seq![
        sub_spec(cur[42], add_spec(cur[40], cur[43])),
        sub_spec(nxt[25], cur[25]),
        sub_spec(nxt[26], cur[26]),
        sub_spec(nxt[27], cur[27]),
        sub_spec(nxt[28], cur[28]),
        sub_spec(nxt[33], cur[33]),
        sub_spec(nxt[34], cur[34]),
        sub_spec(nxt[35], cur[35]),
        sub_spec(nxt[40], cur[40]),
        sub_spec(nxt[41], cur[41]),
        sub_spec(nxt[42], cur[42]),
        sub_spec(nxt[43], cur[43]),
    ]
}

fn residuals_6_eval(cur: &Vec<u64>, nxt: &Vec<u64>, per: &Vec<u64>) -> (r: Vec<u64>)
    requires
        cur.len() == TRACE_WIDTH,
        nxt.len() == TRACE_WIDTH,
        per.len() == 48,
        all_canonical(cur@),
        all_canonical(nxt@),
        all_canonical(per@),
    ensures
        r@ == residuals_6(cur@, nxt@, per@),
        r.len() == 12,
{
    let r = vec![
        fsub(cur[42], fadd(cur[40], cur[43])),
        fsub(nxt[25], cur[25]),
        fsub(nxt[26], cur[26]),
        fsub(nxt[27], cur[27]),
        fsub(nxt[28], cur[28]),
        fsub(nxt[33], cur[33]),
        fsub(nxt[34], cur[34]),
        fsub(nxt[35], cur[35]),
        fsub(nxt[40], cur[40]),
        fsub(nxt[41], cur[41]),
        fsub(nxt[42], cur[42]),
        fsub(nxt[43], cur[43]),
    ];
    proof {
        reveal(residuals_6);
    }
    assert(r@ =~= residuals_6(cur@, nxt@, per@));
    r
}

/// The residuals of constraints 108..=119.
#[verifier::opaque]
pub open spec fn residuals_7(cur: Seq<u64>, nxt: Seq<u64>, per: Seq<u64>) -> Seq<u64> {
    seq![
        sub_spec(nxt[44], cur[44]),
        sub_spec(nxt[29], cur[29]),
        sub_spec(nxt[30], cur[30]),
        sub_spec(nxt[31], cur[31]),
        sub_spec(nxt[32], cur[32]),
        sub_spec(nxt[36], cur[36]),
        sub_spec(nxt[37], cur[37]),
        sub_spec(nxt[38], cur[38]),
        sub_spec(nxt[39], cur[39]),
        sub_spec(nxt[45], cur[45]),
        sub_spec(nxt[46], cur[46]),
        sub_spec(nxt[47], cur[47]),
    ]
}

fn residuals_7_eval(cur: &Vec<u64>, nxt: &Vec<u64>, per: &Vec<u64>) -> (r: Vec<u64>)
    requires
        cur.len() == TRACE_WIDTH,
        nxt.len() == TRACE_WIDTH,
        per.len() == 48,
        all_canonical(cur@),
        all_canonical(nxt@),
        all_canonical(per@),
    ensures
        r@ == residuals_7(cur@, nxt@, per@),
        r.len() == 12,
{
    let r = vec![
        fsub(nxt[44], cur[44]),
        fsub(nxt[29], cur[29]),
        fsub(nxt[30], cur[30]),
        fsub(nxt[31], cur[31]),
        fsub(nxt[32], cur[32]),
        fsub(nxt[36], cur[36]),
        fsub(nxt[37], cur[37]),
        fsub(nxt[38], cur[38]),
        fsub(nxt[39], cur[39]),
        fsub(nxt[45], cur[45]),
        fsub(nxt[46], cur[46]),
        fsub(nxt[47], cur[47]),
    ];
    proof {
        reveal(residuals_7);
    }
    assert(r@ =~= residuals_7(cur@, nxt@, per@));
    r
}

/// The residuals of constraints 120..=131.
#[verifier::opaque]
pub open spec fn residuals_8(cur: Seq<u64>, nxt: Seq<u64>, per: Seq<u64>) -> Seq<u64> {
    seq![
        sub_spec(nxt[48], cur[48]),
        mul_spec(per[35], sub_spec(nxt[8], cur[25])),
        mul_spec(per[35], sub_spec(nxt[9], cur[26])),
        mul_spec(per[35], sub_spec(nxt[10], cur[27])),
        mul_spec(per[35], sub_spec(nxt[11], cur[28])),
        mul_spec(per[35], sub_spec(nxt[20], cur[25])),
        mul_spec(per[35], sub_spec(nxt[21], cur[26])),
        mul_spec(per[35], sub_spec(nxt[22], cur[27])),
        mul_spec(per[35], sub_spec(nxt[23], cur[28])),
        mul_spec(per[34], sub_spec(nxt[8], cur[25])),
        mul_spec(per[34], sub_spec(nxt[9], cur[26])),
        mul_spec(per[34], sub_spec(nxt[10], cur[27])),
    ]
}

fn residuals_8_eval(cur: &Vec<u64>, nxt: &Vec<u64>, per: &Vec<u64>) -> (r: Vec<u64>)
    requires
        cur.len() == TRACE_WIDTH,
        nxt.len() == TRACE_WIDTH,
        per.len() == 48,
        all_canonical(cur@),
        all_canonical(nxt@),
        all_canonical(per@),
    ensures
        r@ == residuals_8(cur@, nxt@, per@),
        r.len() == 12,
{
    let r = vec![
        fsub(nxt[48], cur[48]),
        fmul(per[35], fsub(nxt[8], cur[25])),
        fmul(per[35], fsub(nxt[9], cur[26])),
        fmul(per[35], fsub(nxt[10], cur[27])),
        fmul(per[35], fsub(nxt[11], cur[28])),
        fmul(per[35], fsub(nxt[20], cur[25])),
        fmul(per[35], fsub(nxt[21], cur[26])),
        fmul(per[35], fsub(nxt[22], cur[27])),
        fmul(per[35], fsub(nxt[23], cur[28])),
        fmul(per[34], fsub(nxt[8], cur[25])),
        fmul(per[34], fsub(nxt[9], cur[26])),
        fmul(per[34], fsub(nxt[10], cur[27])),
    ];
    proof {
        reveal(residuals_8);
    }
    assert(r@ =~= residuals_8(cur@, nxt@, per@));
    r
}

/// The residuals of constraints 132..=143.
#[verifier::opaque]
pub open spec fn residuals_9(cur: Seq<u64>, nxt: Seq<u64>, per: Seq<u64>) -> Seq<u64> {
    seq![
        mul_spec(per[34], sub_spec(nxt[11], cur[28])),
        mul_spec(per[34], sub_spec(nxt[20], cur[25])),
        mul_spec(per[34], sub_spec(nxt[21], cur[26])),
        mul_spec(per[34], sub_spec(nxt[22], cur[27])),
        mul_spec(per[34], sub_spec(nxt[23], cur[28])),
        mul_spec(per[35], sub_spec(cur[4], cur[29])),
        mul_spec(per[35], sub_spec(cur[5], cur[30])),
        mul_spec(per[35], sub_spec(cur[6], cur[31])),
        mul_spec(per[35], sub_spec(cur[7], cur[32])),
        mul_spec(per[36], add_spec(mul_spec(sub_spec(1u64, nxt[24]), nxt[4]), mul_spec(nxt[24], nxt[8]))),
        mul_spec(per[36], add_spec(mul_spec(sub_spec(1u64, nxt[24]), nxt[5]), mul_spec(nxt[24], nxt[9]))),
        mul_spec(per[36], add_spec(mul_spec(sub_spec(1u64, nxt[24]), nxt[6]), mul_spec(nxt[24], nxt[10]))),
    ]
}

fn residuals_9_eval(cur: &Vec<u64>, nxt: &Vec<u64>, per: &Vec<u64>) -> (r: Vec<u64>)
    requires
        cur.len() == TRACE_WIDTH,
        nxt.len() == TRACE_WIDTH,
        per.len() == 48,
        all_canonical(cur@),
        all_canonical(nxt@),
        all_canonical(per@),
    ensures
        r@ == residuals_9(cur@, nxt@, per@),
        r.len() == 12,
{
    let r = vec![
        fmul(per[34], fsub(nxt[11], cur[28])),
        fmul(per[34], fsub(nxt[20], cur[25])),
        fmul(per[34], fsub(nxt[21], cur[26])),
        fmul(per[34], fsub(nxt[22], cur[27])),
        fmul(per[34], fsub(nxt[23], cur[28])),
        fmul(per[35], fsub(cur[4], cur[29])),
        fmul(per[35], fsub(cur[5], cur[30])),
        fmul(per[35], fsub(cur[6], cur[31])),
        fmul(per[35], fsub(cur[7], cur[32])),
        fmul(per[36], fadd(fmul(fsub(1u64, nxt[24]), nxt[4]), fmul(nxt[24], nxt[8]))),
        fmul(per[36], fadd(fmul(fsub(1u64, nxt[24]), nxt[5]), fmul(nxt[24], nxt[9]))),
        fmul(per[36], fadd(fmul(fsub(1u64, nxt[24]), nxt[6]), fmul(nxt[24], nxt[10]))),
    ];
    proof {
        reveal(residuals_9);
    }
    assert(r@ =~= residuals_9(cur@, nxt@, per@));
    r
}

/// The residuals of constraints 144..=155.
#[verifier::opaque]
pub open spec fn residuals_10(cur: Seq<u64>, nxt: Seq<u64>, per: Seq<u64>) -> Seq<u64> {
    seq![
        mul_spec(per[36], add_spec(mul_spec(sub_spec(1u64, nxt[24]), nxt[7]), mul_spec(nxt[24], nxt[11]))),
        mul_spec(cur[49], sub_spec(cur[49], 1u64)),
        mul_spec(nxt[49], sub_spec(nxt[49], 1u64)),
        mul_spec(per[37], cur[49]),
        mul_spec(per[37], cur[50]),
        mul_spec(per[38], sub_spec(nxt[50], add_spec(add_spec(cur[50], cur[50]), nxt[49]))),
        mul_spec(per[39], sub_spec(nxt[50], cur[33])),
        mul_spec(per[40], sub_spec(nxt[50], cur[40])),
        mul_spec(per[41], sub_spec(nxt[50], cur[43])),
        mul_spec(per[42], sub_spec(nxt[50], cur[44])),
        mul_spec(per[43], sub_spec(nxt[50], cur[35])),
        mul_spec(per[44], sub_spec(nxt[50], sub_spec(cur[44], cur[43]))),
    ]
}

fn residuals_10_eval(cur: &Vec<u64>, nxt: &Vec<u64>, per: &Vec<u64>) -> (r: Vec<u64>)
    requires
        cur.len() == TRACE_WIDTH,
        nxt.len() == TRACE_WIDTH,
        per.len() == 48,
        all_canonical(cur@),
        all_canonical(nxt@),
        all_canonical(per@),
    ensures
        r@ == residuals_10(cur@, nxt@, per@),
        r.len() == 12,
{
    let r = vec![
        fmul(per[36], fadd(fmul(fsub(1u64, nxt[24]), nxt[7]), fmul(nxt[24], nxt[11]))),
        fmul(cur[49], fsub(cur[49], 1u64)),
        fmul(nxt[49], fsub(nxt[49], 1u64)),
        fmul(per[37], cur[49]),
        fmul(per[37], cur[50]),
        fmul(per[38], fsub(nxt[50], fadd(fadd(cur[50], cur[50]), nxt[49]))),
        fmul(per[39], fsub(nxt[50], cur[33])),
        fmul(per[40], fsub(nxt[50], cur[40])),
        fmul(per[41], fsub(nxt[50], cur[43])),
        fmul(per[42], fsub(nxt[50], cur[44])),
        fmul(per[43], fsub(nxt[50], cur[35])),
        fmul(per[44], fsub(nxt[50], fsub(cur[44], cur[43]))),
    ];
    proof {
        reveal(residuals_10);
    }
    assert(r@ =~= residuals_10(cur@, nxt@, per@));
    r
}

/// The residuals of constraints 156..=167.
#[verifier::opaque]
pub open spec fn residuals_11(cur: Seq<u64>, nxt: Seq<u64>, per: Seq<u64>) -> Seq<u64> {
    seq![
        mul_spec(per[45], sub_spec(nxt[50], cur[42])),
        mul_spec(add_spec(per[46], per[47]), nxt[0]),
        mul_spec(add_spec(per[46], per[47]), nxt[1]),
        mul_spec(add_spec(per[46], per[47]), nxt[2]),
        mul_spec(add_spec(per[46], per[47]), nxt[3]),
        mul_spec(per[46], add_spec(mul_spec(sub_spec(1u64, nxt[51]), nxt[4]), mul_spec(nxt[51], nxt[8]))),
        mul_spec(per[46], add_spec(mul_spec(sub_spec(1u64, nxt[51]), nxt[5]), mul_spec(nxt[51], nxt[9]))),
        mul_spec(per[46], add_spec(mul_spec(sub_spec(1u64, nxt[51]), nxt[6]), mul_spec(nxt[51], nxt[10]))),
        mul_spec(per[46], add_spec(mul_spec(sub_spec(1u64, nxt[51]), nxt[7]), mul_spec(nxt[51], nxt[11]))),
        mul_spec(per[47], add_spec(mul_spec(sub_spec(1u64, nxt[51]), sub_spec(nxt[4], cur[4])), mul_spec(nxt[51], sub_spec(nxt[8], cur[4])))),
        mul_spec(per[47], add_spec(mul_spec(sub_spec(1u64, nxt[51]), sub_spec(nxt[5], cur[5])), mul_spec(nxt[51], sub_spec(nxt[9], cur[5])))),
        mul_spec(per[47], add_spec(mul_spec(sub_spec(1u64, nxt[51]), sub_spec(nxt[6], cur[6])), mul_spec(nxt[51], sub_spec(nxt[10], cur[6])))),
    ]
}

fn residuals_11_eval(cur: &Vec<u64>, nxt: &Vec<u64>, per: &Vec<u64>) -> (r: Vec<u64>)
    requires
        cur.len() == TRACE_WIDTH,
        nxt.len() == TRACE_WIDTH,
        per.len() == 48,
        all_canonical(cur@),
        all_canonical(nxt@),
        all_canonical(per@),
    ensures
        r@ == residuals_11(cur@, nxt@, per@),
        r.len() == 12,
{
    let r = vec![
        fmul(per[45], fsub(nxt[50], cur[42])),
        fmul(fadd(per[46], per[47]), nxt[0]),
        fmul(fadd(per[46], per[47]), nxt[1]),
        fmul(fadd(per[46], per[47]), nxt[2]),
        fmul(fadd(per[46], per[47]), nxt[3]),
        fmul(per[46], fadd(fmul(fsub(1u64, nxt[51]), nxt[4]), fmul(nxt[51], nxt[8]))),
        fmul(per[46], fadd(fmul(fsub(1u64, nxt[51]), nxt[5]), fmul(nxt[51], nxt[9]))),
        fmul(per[46], fadd(fmul(fsub(1u64, nxt[51]), nxt[6]), fmul(nxt[51], nxt[10]))),
        fmul(per[46], fadd(fmul(fsub(1u64, nxt[51]), nxt[7]), fmul(nxt[51], nxt[11]))),
        fmul(per[47], fadd(fmul(fsub(1u64, nxt[51]), fsub(nxt[4], cur[4])), fmul(nxt[51], fsub(nxt[8], cur[4])))),
        fmul(per[47], fadd(fmul(fsub(1u64, nxt[51]), fsub(nxt[5], cur[5])), fmul(nxt[51], fsub(nxt[9], cur[5])))),
        fmul(per[47], fadd(fmul(fsub(1u64, nxt[51]), fsub(nxt[6], cur[6])), fmul(nxt[51], fsub(nxt[10], cur[6])))),
    ];
    proof {
        reveal(residuals_11);
    }
    assert(r@ =~= residuals_11(cur@, nxt@, per@));
    r
}

/// The residuals of constraints 168..=169.
#[verifier::opaque]
pub open spec fn residuals_12(cur: Seq<u64>, nxt: Seq<u64>, per: Seq<u64>) -> Seq<u64> {
    seq![
        mul_spec(per[47], add_spec(mul_spec(sub_spec(1u64, nxt[51]), sub_spec(nxt[7], cur[7])), mul_spec(nxt[51], sub_spec(nxt[11], cur[7])))),
        mul_spec(cur[51], sub_spec(cur[51], 1u64)),
    ]
}

fn residuals_12_eval(cur: &Vec<u64>, nxt: &Vec<u64>, per: &Vec<u64>) -> (r: Vec<u64>)
    requires
        cur.len() == TRACE_WIDTH,
        nxt.len() == TRACE_WIDTH,
        per.len() == 48,
        all_canonical(cur@),
        all_canonical(nxt@),
        all_canonical(per@),
    ensures
        r@ == residuals_12(cur@, nxt@, per@),
        r.len() == 2,
{
    let r = vec![
        fmul(per[47], fadd(fmul(fsub(1u64, nxt[51]), fsub(nxt[7], cur[7])), fmul(nxt[51], fsub(nxt[11], cur[7])))),
        fmul(cur[51], fsub(cur[51], 1u64)),
    ];
    proof {
        reveal(residuals_12);
    }
    assert(r@ =~= residuals_12(cur@, nxt@, per@));
    r
}

/// The residuals of all transition constraints of a step, in the order of
/// their indices: the rounds of lane A and of lane B, then the rest.
pub open spec fn residuals(cur: Seq<u64>, nxt: Seq<u64>, per: Seq<u64>) -> Seq<u64> {
    round_residuals_spec(cur, nxt, per, 0, 0, 1, 13) + round_residuals_spec(cur, nxt, per, 12, 0, 1, 13)
        + residuals_0(cur, nxt, per) + residuals_1(cur, nxt, per) + residuals_2(cur, nxt, per) + residuals_3(cur, nxt, per) + residuals_4(cur, nxt, per) + residuals_5(cur, nxt, per) + residuals_6(cur, nxt, per) + residuals_7(cur, nxt, per) + residuals_8(cur, nxt, per) + residuals_9(cur, nxt, per) + residuals_10(cur, nxt, per) + residuals_11(cur, nxt, per) + residuals_12(cur, nxt, per)
}

/// Constraint `k` of a step, over the current row, the next row and the
/// periodic values.
pub open spec fn constraint_spec(k: int, current: Seq<u64>, next: Seq<u64>, periodic: Seq<u64>) -> u64 {
    residuals(current, next, periodic)[k]
}

/// Evaluates the transition constraints of a step over the base field: a
/// step satisfies the AIR when every residual is zero.
pub fn evaluate_transition(current: &Vec<u64>, next: &Vec<u64>, periodic: &Vec<u64>) -> (result: Vec<u64>)
    requires
        current.len() == TRACE_WIDTH,
        next.len() == TRACE_WIDTH,
        periodic.len() == 48,
        all_canonical(current@),
        all_canonical(next@),
        all_canonical(periodic@),
    ensures
        result.len() == NUM_CONSTRAINTS,
        forall|k: int| 0 <= k < NUM_CONSTRAINTS ==> #[trigger] result[k] == constraint_spec(k, current@, next@, periodic@),
{
    let mut r = round_residuals(current, next, periodic, 0, 0, 1, 13);
    let mut lane_b = round_residuals(current, next, periodic, 12, 0, 1, 13);
    r.append(&mut lane_b);

    let mut p0 = residuals_0_eval(current, next, periodic);
    r.append(&mut p0);
    let mut p1 = residuals_1_eval(current, next, periodic);
    r.append(&mut p1);
    let mut p2 = residuals_2_eval(current, next, periodic);
    r.append(&mut p2);
    let mut p3 = residuals_3_eval(current, next, periodic);
    r.append(&mut p3);
    let mut p4 = residuals_4_eval(current, next, periodic);
    r.append(&mut p4);
    let mut p5 = residuals_5_eval(current, next, periodic);
    r.append(&mut p5);
    let mut p6 = residuals_6_eval(current, next, periodic);
    r.append(&mut p6);
    let mut p7 = residuals_7_eval(current, next, periodic);
    r.append(&mut p7);
    let mut p8 = residuals_8_eval(current, next, periodic);
    r.append(&mut p8);
    let mut p9 = residuals_9_eval(current, next, periodic);
    r.append(&mut p9);
    let mut p10 = residuals_10_eval(current, next, periodic);
    r.append(&mut p10);
    let mut p11 = residuals_11_eval(current, next, periodic);
    r.append(&mut p11);
    let mut p12 = residuals_12_eval(current, next, periodic);
    r.append(&mut p12);
    assert(r@ =~= residuals(current@, next@, periodic@));
    r
}



proof fn lemma_residuals_len_0(cur: Seq<u64>, nxt: Seq<u64>, per: Seq<u64>)
    ensures
        residuals_0(cur, nxt, per).len() == 12,
{
    reveal(residuals_0);
}

proof fn lemma_residuals_len_1(cur: Seq<u64>, nxt: Seq<u64>, per: Seq<u64>)
    ensures
        residuals_1(cur, nxt, per).len() == 12,
{
    reveal(residuals_1);
}

proof fn lemma_residuals_len_2(cur: Seq<u64>, nxt: Seq<u64>, per: Seq<u64>)
    ensures
        residuals_2(cur, nxt, per).len() == 12,
{
    reveal(residuals_2);
}

proof fn lemma_residuals_len_3(cur: Seq<u64>, nxt: Seq<u64>, per: Seq<u64>)
    ensures
        residuals_3(cur, nxt, per).len() == 12,
{
    reveal(residuals_3);
}

proof fn lemma_residuals_len_4(cur: Seq<u64>, nxt: Seq<u64>, per: Seq<u64>)
    ensures
        residuals_4(cur, nxt, per).len() == 12,
{
    reveal(residuals_4);
}

proof fn lemma_residuals_len_5(cur: Seq<u64>, nxt: Seq<u64>, per: Seq<u64>)
    ensures
        residuals_5(cur, nxt, per).len() == 12,
{
    reveal(residuals_5);
}

proof fn lemma_residuals_len_6(cur: Seq<u64>, nxt: Seq<u64>, per: Seq<u64>)
    ensures
        residuals_6(cur, nxt, per).len() == 12,
{
    reveal(residuals_6);
}

proof fn lemma_residuals_len_7(cur: Seq<u64>, nxt: Seq<u64>, per: Seq<u64>)
    ensures
        residuals_7(cur, nxt, per).len() == 12,
{
    reveal(residuals_7);
}

proof fn lemma_residuals_len_8(cur: Seq<u64>, nxt: Seq<u64>, per: Seq<u64>)
    ensures
        residuals_8(cur, nxt, per).len() == 12,
{
    reveal(residuals_8);
}

proof fn lemma_residuals_len_9(cur: Seq<u64>, nxt: Seq<u64>, per: Seq<u64>)
    ensures
        residuals_9(cur, nxt, per).len() == 12,
{
    reveal(residuals_9);
}

proof fn lemma_residuals_len_10(cur: Seq<u64>, nxt: Seq<u64>, per: Seq<u64>)
    ensures
        residuals_10(cur, nxt, per).len() == 12,
{
    reveal(residuals_10);
}

proof fn lemma_residuals_len_11(cur: Seq<u64>, nxt: Seq<u64>, per: Seq<u64>)
    ensures
        residuals_11(cur, nxt, per).len() == 12,
{
    reveal(residuals_11);
}


/// Constraint 95 of a step.
pub proof fn lemma_constraint_95(current: Seq<u64>, next: Seq<u64>, periodic: Seq<u64>)
    ensures
        constraint_spec(95, current, next, periodic) == sub_spec(current[35], sub_spec(current[33], current[43])),
{
    lemma_residuals_len_0(current, next, periodic);
    lemma_residuals_len_1(current, next, periodic);
    lemma_residuals_len_2(current, next, periodic);
    lemma_residuals_len_3(current, next, periodic);
    lemma_residuals_len_4(current, next, periodic);
    lemma_residuals_len_5(current, next, periodic);
    assert(constraint_spec(95, current, next, periodic) == residuals_5(current, next, periodic)[11]);
    reveal(residuals_5);
}

/// Constraint 96 of a step.
pub proof fn lemma_constraint_96(current: Seq<u64>, next: Seq<u64>, periodic: Seq<u64>)
    ensures
        constraint_spec(96, current, next, periodic) == sub_spec(current[42], add_spec(current[40], current[43])),
{
    lemma_residuals_len_0(current, next, periodic);
    lemma_residuals_len_1(current, next, periodic);
    lemma_residuals_len_2(current, next, periodic);
    lemma_residuals_len_3(current, next, periodic);
    lemma_residuals_len_4(current, next, periodic);
    lemma_residuals_len_5(current, next, periodic);
    lemma_residuals_len_6(current, next, periodic);
    assert(constraint_spec(96, current, next, periodic) == residuals_6(current, next, periodic)[0]);
    reveal(residuals_6);
}

/// Constraint 137 of a step.
pub proof fn lemma_constraint_137(current: Seq<u64>, next: Seq<u64>, periodic: Seq<u64>)
    ensures
        constraint_spec(137, current, next, periodic) == mul_spec(periodic[35], sub_spec(current[4], current[29])),
{
    lemma_residuals_len_0(current, next, periodic);
    lemma_residuals_len_1(current, next, periodic);
    lemma_residuals_len_2(current, next, periodic);
    lemma_residuals_len_3(current, next, periodic);
    lemma_residuals_len_4(current, next, periodic);
    lemma_residuals_len_5(current, next, periodic);
    lemma_residuals_len_6(current, next, periodic);
    lemma_residuals_len_7(current, next, periodic);
    lemma_residuals_len_8(current, next, periodic);
    lemma_residuals_len_9(current, next, periodic);
    assert(constraint_spec(137, current, next, periodic) == residuals_9(current, next, periodic)[5]);
    reveal(residuals_9);
}

/// Constraint 138 of a step.
pub proof fn lemma_constraint_138(current: Seq<u64>, next: Seq<u64>, periodic: Seq<u64>)
    ensures
        constraint_spec(138, current, next, periodic) == mul_spec(periodic[35], sub_spec(current[5], current[30])),
{
    lemma_residuals_len_0(current, next, periodic);
    lemma_residuals_len_1(current, next, periodic);
    lemma_residuals_len_2(current, next, periodic);
    lemma_residuals_len_3(current, next, periodic);
    lemma_residuals_len_4(current, next, periodic);
    lemma_residuals_len_5(current, next, periodic);
    lemma_residuals_len_6(current, next, periodic);
    lemma_residuals_len_7(current, next, periodic);
    lemma_residuals_len_8(current, next, periodic);
    lemma_residuals_len_9(current, next, periodic);
    assert(constraint_spec(138, current, next, periodic) == residuals_9(current, next, periodic)[6]);
    reveal(residuals_9);
}

/// Constraint 139 of a step.
pub proof fn lemma_constraint_139(current: Seq<u64>, next: Seq<u64>, periodic: Seq<u64>)
    ensures
        constraint_spec(139, current, next, periodic) == mul_spec(periodic[35], sub_spec(current[6], current[31])),
{
    lemma_residuals_len_0(current, next, periodic);
    lemma_residuals_len_1(current, next, periodic);
    lemma_residuals_len_2(current, next, periodic);
    lemma_residuals_len_3(current, next, periodic);
    lemma_residuals_len_4(current, next, periodic);
    lemma_residuals_len_5(current, next, periodic);
    lemma_residuals_len_6(current, next, periodic);
    lemma_residuals_len_7(current, next, periodic);
    lemma_residuals_len_8(current, next, periodic);
    lemma_residuals_len_9(current, next, periodic);
    assert(constraint_spec(139, current, next, periodic) == residuals_9(current, next, periodic)[7]);
    reveal(residuals_9);
}

/// Constraint 140 of a step.
pub proof fn lemma_constraint_140(current: Seq<u64>, next: Seq<u64>, periodic: Seq<u64>)
    ensures
        constraint_spec(140, current, next, periodic) == mul_spec(periodic[35], sub_spec(current[7], current[32])),
{
    lemma_residuals_len_0(current, next, periodic);
    lemma_residuals_len_1(current, next, periodic);
    lemma_residuals_len_2(current, next, periodic);
    lemma_residuals_len_3(current, next, periodic);
    lemma_residuals_len_4(current, next, periodic);
    lemma_residuals_len_5(current, next, periodic);
    lemma_residuals_len_6(current, next, periodic);
    lemma_residuals_len_7(current, next, periodic);
    lemma_residuals_len_8(current, next, periodic);
    lemma_residuals_len_9(current, next, periodic);
    assert(constraint_spec(140, current, next, periodic) == residuals_9(current, next, periodic)[8]);
    reveal(residuals_9);
}

/// Constraint 161 of a step.
pub proof fn lemma_constraint_161(current: Seq<u64>, next: Seq<u64>, periodic: Seq<u64>)
    ensures
        constraint_spec(161, current, next, periodic) == mul_spec(periodic[46], add_spec(mul_spec(sub_spec(1u64, next[51]), next[4]), mul_spec(next[51], next[8]))),
{
    lemma_residuals_len_0(current, next, periodic);
    lemma_residuals_len_1(current, next, periodic);
    lemma_residuals_len_2(current, next, periodic);
    lemma_residuals_len_3(current, next, periodic);
    lemma_residuals_len_4(current, next, periodic);
    lemma_residuals_len_5(current, next, periodic);
    lemma_residuals_len_6(current, next, periodic);
    lemma_residuals_len_7(current, next, periodic);
    lemma_residuals_len_8(current, next, periodic);
    lemma_residuals_len_9(current, next, periodic);
    lemma_residuals_len_10(current, next, periodic);
    lemma_residuals_len_11(current, next, periodic);
    assert(constraint_spec(161, current, next, periodic) == residuals_11(current, next, periodic)[5]);
    reveal(residuals_11);
}

/// Constraint 162 of a step.
pub proof fn lemma_constraint_162(current: Seq<u64>, next: Seq<u64>, periodic: Seq<u64>)
    ensures
        constraint_spec(162, current, next, periodic) == mul_spec(periodic[46], add_spec(mul_spec(sub_spec(1u64, next[51]), next[5]), mul_spec(next[51], next[9]))),
{
    lemma_residuals_len_0(current, next, periodic);
    lemma_residuals_len_1(current, next, periodic);
    lemma_residuals_len_2(current, next, periodic);
    lemma_residuals_len_3(current, next, periodic);
    lemma_residuals_len_4(current, next, periodic);
    lemma_residuals_len_5(current, next, periodic);
    lemma_residuals_len_6(current, next, periodic);
    lemma_residuals_len_7(current, next, periodic);
    lemma_residuals_len_8(current, next, periodic);
    lemma_residuals_len_9(current, next, periodic);
    lemma_residuals_len_10(current, next, periodic);
    lemma_residuals_len_11(current, next, periodic);
    assert(constraint_spec(162, current, next, periodic) == residuals_11(current, next, periodic)[6]);
    reveal(residuals_11);
}

/// Constraint 163 of a step.
pub proof fn lemma_constraint_163(current: Seq<u64>, next: Seq<u64>, periodic: Seq<u64>)
    ensures
        constraint_spec(163, current, next, periodic) == mul_spec(periodic[46], add_spec(mul_spec(sub_spec(1u64, next[51]), next[6]), mul_spec(next[51], next[10]))),
{
    lemma_residuals_len_0(current, next, periodic);
    lemma_residuals_len_1(current, next, periodic);
    lemma_residuals_len_2(current, next, periodic);
    lemma_residuals_len_3(current, next, periodic);
    lemma_residuals_len_4(current, next, periodic);
    lemma_residuals_len_5(current, next, periodic);
    lemma_residuals_len_6(current, next, periodic);
    lemma_residuals_len_7(current, next, periodic);
    lemma_residuals_len_8(current, next, periodic);
    lemma_residuals_len_9(current, next, periodic);
    lemma_residuals_len_10(current, next, periodic);
    lemma_residuals_len_11(current, next, periodic);
    assert(constraint_spec(163, current, next, periodic) == residuals_11(current, next, periodic)[7]);
    reveal(residuals_11);
}

/// Constraint 164 of a step.
pub proof fn lemma_constraint_164(current: Seq<u64>, next: Seq<u64>, periodic: Seq<u64>)
    ensures
        constraint_spec(164, current, next, periodic) == mul_spec(periodic[46], add_spec(mul_spec(sub_spec(1u64, next[51]), next[7]), mul_spec(next[51], next[11]))),
{
    lemma_residuals_len_0(current, next, periodic);
    lemma_residuals_len_1(current, next, periodic);
    lemma_residuals_len_2(current, next, periodic);
    lemma_residuals_len_3(current, next, periodic);
    lemma_residuals_len_4(current, next, periodic);
    lemma_residuals_len_5(current, next, periodic);
    lemma_residuals_len_6(current, next, periodic);
    lemma_residuals_len_7(current, next, periodic);
    lemma_residuals_len_8(current, next, periodic);
    lemma_residuals_len_9(current, next, periodic);
    lemma_residuals_len_10(current, next, periodic);
    lemma_residuals_len_11(current, next, periodic);
    assert(constraint_spec(164, current, next, periodic) == residuals_11(current, next, periodic)[8]);
    reveal(residuals_11);
}


/// What the constraints force on a step whose residuals are all zero. The
/// sender's new balance is the old one minus the amount and the
/// receiver's new balance the old one plus the amount, so the credit
/// equals the debit and the two balances keep their sum. On the step that
/// ends the key derivation (periodic column 35 on), the identity derived
/// from the key in lane A is the identity the leaves are built from. On
/// the step that enters the frozen tree (periodic column 46 on), the leaf
/// placed at the sender's position, on the side its bit picks, is zero:
/// the sender is not frozen.
pub proof fn lemma_zero_residuals_force(current: Seq<u64>, next: Seq<u64>, periodic: Seq<u64>)
    requires
        current.len() == TRACE_WIDTH,
        next.len() == TRACE_WIDTH,
        periodic.len() == 48,
        all_canonical(current),
        all_canonical(next),
        all_canonical(periodic),
        forall|k: int| 0 <= k < NUM_CONSTRAINTS ==> #[trigger] constraint_spec(k, current, next, periodic) == 0,
    ensures
        current[COL_S_BAL_NEW as int] == sub_spec(current[COL_S_BAL as int], current[COL_AMT as int]),
        current[COL_R_BAL_NEW as int] == add_spec(current[COL_R_BAL as int], current[COL_AMT as int]),
        add_spec(current[COL_S_BAL_NEW as int], current[COL_R_BAL_NEW as int])
            == add_spec(current[COL_S_BAL as int], current[COL_R_BAL as int]),
        periodic[35] == 1 ==> forall|i: int| 0 <= i < 4 ==> #[trigger] current[4 + i] == current[COL_S_ID + i],
        periodic[46] == 1 && next[COL_FBIT as int] == 0 ==> forall|i: int| 0 <= i < 4 ==> #[trigger] next[4 + i] == 0,
        periodic[46] == 1 && next[COL_FBIT as int] == 1 ==> forall|i: int| 0 <= i < 4 ==> #[trigger] next[8 + i] == 0,
{
    let (cur, nxt, per) = (current, next, periodic);
    assert(constraint_spec(95, cur, nxt, per) == 0);
    assert(constraint_spec(96, cur, nxt, per) == 0);
    lemma_constraint_95(cur, nxt, per);
    lemma_constraint_96(cur, nxt, per);
    crate::constraints::lemma_reduce_canonical(cur[33] - cur[43]);
    crate::constraints::lemma_reduce_canonical(cur[40] + cur[43]);
    crate::constraints::lemma_equal(cur[35], sub_spec(cur[33], cur[43]));
    crate::constraints::lemma_equal(cur[42], add_spec(cur[40], cur[43]));
    crate::constraints::lemma_transfer_balances(cur[33], cur[40], cur[43]);
    assert(constraint_spec(137, cur, nxt, per) == 0);
    assert(constraint_spec(138, cur, nxt, per) == 0);
    assert(constraint_spec(139, cur, nxt, per) == 0);
    assert(constraint_spec(140, cur, nxt, per) == 0);
    lemma_constraint_137(cur, nxt, per);
    lemma_constraint_138(cur, nxt, per);
    lemma_constraint_139(cur, nxt, per);
    lemma_constraint_140(cur, nxt, per);
    if per[35] == 1 {
        crate::constraints::lemma_selected_equal(per[35], cur[4], cur[29]);
        crate::constraints::lemma_selected_equal(per[35], cur[5], cur[30]);
        crate::constraints::lemma_selected_equal(per[35], cur[6], cur[31]);
        crate::constraints::lemma_selected_equal(per[35], cur[7], cur[32]);
    }
    assert(constraint_spec(161, cur, nxt, per) == 0);
    assert(constraint_spec(162, cur, nxt, per) == 0);
    assert(constraint_spec(163, cur, nxt, per) == 0);
    assert(constraint_spec(164, cur, nxt, per) == 0);
    lemma_constraint_161(cur, nxt, per);
    lemma_constraint_162(cur, nxt, per);
    lemma_constraint_163(cur, nxt, per);
    lemma_constraint_164(cur, nxt, per);
    if per[46] == 1 && (nxt[51] == 0 || nxt[51] == 1) {
        crate::constraints::lemma_picked_zero(per[46], nxt[51], nxt[4], nxt[8]);
        crate::constraints::lemma_picked_zero(per[46], nxt[51], nxt[5], nxt[9]);
        crate::constraints::lemma_picked_zero(per[46], nxt[51], nxt[6], nxt[10]);
        crate::constraints::lemma_picked_zero(per[46], nxt[51], nxt[7], nxt[11]);
    }
}


/// The balance constraints hold on every step of an honest settlement that
/// credits what it debits: the debit (95) and the credit (96) residuals
/// are zero between any row and the next.
pub proof fn lemma_honest_balances(
    t: Seq<Vec<u64>>,
    sender: SenderWitness,
    receiver: ReceiverWitness,
    amount: u64,
    limit: u64,
    s_id: Seq<u64>,
    null_path: MerklePath,
    null_leaf_a: Digest,
    frozen_path: MerklePath,
    r: int,
    periodic: Seq<u64>,
)
    requires
        is_trace_of(t, sender, receiver, amount, amount, limit, s_id, null_path, null_leaf_a, frozen_path),
        0 <= r < TRACE_LENGTH - 1,
    ensures
        constraint_spec(95, crate::trace::row_of(t, r), crate::trace::row_of(t, r + 1), periodic) == 0,
        constraint_spec(96, crate::trace::row_of(t, r), crate::trace::row_of(t, r + 1), periodic) == 0,
{
    let cur = crate::trace::row_of(t, r);
    let nxt = crate::trace::row_of(t, r + 1);
    lemma_constraint_95(cur, nxt, periodic);
    lemma_constraint_96(cur, nxt, periodic);
    let v = transfer_values(sender.balance, sender.nonce, receiver.balance, amount, amount, limit);
    assert(cur[35] == t[35][r]);
    assert(cur[33] == t[33][r]);
    assert(cur[43] == t[43][r]);
    assert(cur[42] == t[42][r]);
    assert(cur[40] == t[40][r]);
    assert(t[35][r] == cell_spec(sender, receiver, amount, amount, limit, s_id, null_path, null_leaf_a, frozen_path, 35, r));
    assert(t[33][r] == cell_spec(sender, receiver, amount, amount, limit, s_id, null_path, null_leaf_a, frozen_path, 33, r));
    assert(t[43][r] == cell_spec(sender, receiver, amount, amount, limit, s_id, null_path, null_leaf_a, frozen_path, 43, r));
    assert(t[42][r] == cell_spec(sender, receiver, amount, amount, limit, s_id, null_path, null_leaf_a, frozen_path, 42, r));
    assert(t[40][r] == cell_spec(sender, receiver, amount, amount, limit, s_id, null_path, null_leaf_a, frozen_path, 40, r));
    vstd::arithmetic::div_mod::lemma_small_mod(0, MODULUS as nat);
    assert(cur[35] - sub_spec(cur[33], cur[43]) == 0);
    assert(cur[42] - add_spec(cur[40], cur[43]) == 0);
}


/// The periodic values of step `r`.
pub open spec fn periodic_row(r: int) -> Seq<u64> {
    Seq::new(48, |j: int| periodic_spec(j, r))
}

/// Every cycle of both hash lanes runs the rounds of the permutation.
pub open spec fn lanes_hold(sender: SenderWitness, receiver: ReceiverWitness, amount: u64, credited: u64, limit: u64, s_id: Seq<u64>, null_path: MerklePath, null_leaf_a: Digest, frozen_path: MerklePath) -> bool {
    let v = transfer_values(sender.balance, sender.nonce, receiver.balance, amount, credited, limit);
    &&& forall|c: nat| c <= links_a(sender, receiver, v, null_path, null_leaf_a, frozen_path).len() ==> #[trigger] rounds_hold(cycle_start(merge_state(s_id, as_digest_spec(v.s_bal)), links_a(sender, receiver, v, null_path, null_leaf_a, frozen_path), c))
    &&& forall|c: nat| c <= links_b(sender, receiver, v, null_path, frozen_path).len() ==> #[trigger] rounds_hold(cycle_start(merge_state(s_id, as_digest_spec(v.s_bal_new)), links_b(sender, receiver, v, null_path, frozen_path), c))
}

/// Every step of the trace satisfies the round constraints of both hash
/// lanes (constraints 0..24): on a round row each lane goes from one round
/// of its permutation to the next, with that round's constants in the
/// periodic values; elsewhere the round flag is off.
pub proof fn lemma_trace_satisfies_round_constraints(sender: SenderWitness, receiver: ReceiverWitness, amount: u64, credited: u64, limit: u64, s_id: Seq<u64>, null_path: MerklePath, null_leaf_a: Digest, frozen_path: MerklePath, t: Seq<Vec<u64>>, r: int)
    requires
        t.len() == TRACE_WIDTH,
        forall|col: int, q: int|
            0 <= col < TRACE_WIDTH && 0 <= q < TRACE_LENGTH ==> #[trigger] t[col][q] == cell_spec(sender, receiver, amount, credited, limit, s_id, null_path, null_leaf_a, frozen_path, col, q),
        lanes_hold(sender, receiver, amount, credited, limit, s_id, null_path, null_leaf_a, frozen_path),
        0 <= r < TRACE_LENGTH - 1,
    ensures
        forall|k: int| 0 <= k < 24 ==> #[trigger] constraint_spec(k, row_of(t, r), row_of(t, r + 1), periodic_row(r)) == 0,
{
    let v = transfer_values(sender.balance, sender.nonce, receiver.balance, amount, credited, limit);
    let cur = row_of(t, r);
    let nxt = row_of(t, r + 1);
    let per = periodic_row(r);
    let active = ROW_FROZEN_ROOT as int + 1;
    assert forall|j: int| 0 <= j < 12 implies #[trigger] cur[0 + j] == lane_value(merge_state(s_id, as_digest_spec(v.s_bal)), links_a(sender, receiver, v, null_path, null_leaf_a, frozen_path), j, r) by {
        assert(cur[j] == t[j][r]);
    }
    assert forall|j: int| 0 <= j < 12 implies #[trigger] nxt[0 + j] == lane_value(merge_state(s_id, as_digest_spec(v.s_bal)), links_a(sender, receiver, v, null_path, null_leaf_a, frozen_path), j, r + 1) by {
        assert(nxt[j] == t[j][r + 1]);
    }
    assert forall|j: int| 0 <= j < 12 implies #[trigger] cur[12 + j] == lane_value(merge_state(s_id, as_digest_spec(v.s_bal_new)), links_b(sender, receiver, v, null_path, frozen_path), j, r) by {
        assert(cur[12 + j] == t[12 + j][r]);
    }
    assert forall|j: int| 0 <= j < 12 implies #[trigger] nxt[12 + j] == lane_value(merge_state(s_id, as_digest_spec(v.s_bal_new)), links_b(sender, receiver, v, null_path, frozen_path), j, r + 1) by {
        assert(nxt[12 + j] == t[12 + j][r + 1]);
    }
    assert(per[0] == crate::periodic::hash_flag_spec(active, r));
    assert forall|j: int| 0 <= j < 12 implies #[trigger] per[1 + j] == crate::periodic::ark_spec(false, j, active, r) by {
        assert(per[1 + j] == periodic_spec(1 + j, r));
    }
    assert forall|j: int| 0 <= j < 12 implies #[trigger] per[13 + j] == crate::periodic::ark_spec(true, j, active, r) by {
        assert(per[13 + j] == periodic_spec(13 + j, r));
    }
    crate::lane::lemma_lane_round_residuals(cur, nxt, per, 0, 0, 1, 13, merge_state(s_id, as_digest_spec(v.s_bal)), links_a(sender, receiver, v, null_path, null_leaf_a, frozen_path), active, r);
    crate::lane::lemma_lane_round_residuals(cur, nxt, per, 12, 0, 1, 13, merge_state(s_id, as_digest_spec(v.s_bal_new)), links_b(sender, receiver, v, null_path, frozen_path), active, r);
    assert forall|k: int| 0 <= k < 24 implies #[trigger] constraint_spec(k, cur, nxt, per) == 0 by {
        if k < 12 {
            assert(constraint_spec(k, cur, nxt, per) == crate::constraints::round_residual(cur, nxt, per, 0, 0, 1, 13, k));
        } else {
            assert(constraint_spec(k, cur, nxt, per) == crate::constraints::round_residual(cur, nxt, per, 12, 0, 1, 13, k - 12));
        }
    }
}

/// The rows that end a level of one of the three climbs that both lanes
/// run with the same siblings: the sender's, the receiver's, and the
/// nullifier tree's above its first level.
pub open spec fn level_link_row(r: int) -> bool {
    r % 8 == 7 && ((15 <= r <= 263) || (287 <= r <= 535) || (575 <= r <= 815))
}

/// The rows that end a level of the frozen tree's climb.
pub open spec fn frozen_link_row(r: int) -> bool {
    r % 8 == 7 && 831 <= r <= 1007
}

/// The cells of a level link of the three shared climbs: both lanes start
/// from their node and the same sibling, on the side the bit says.
#[verifier::spinoff_prover]
#[verifier::rlimit(100)]
proof fn lemma_level_link_facts(sender: SenderWitness, receiver: ReceiverWitness, amount: u64, credited: u64, limit: u64, s_id: Seq<u64>, null_path: MerklePath, null_leaf_a: Digest, frozen_path: MerklePath, t: Seq<Vec<u64>>, r: int)
    requires
        t.len() == TRACE_WIDTH,
        forall|col: int, q: int|
            0 <= col < TRACE_WIDTH && 0 <= q < TRACE_LENGTH ==> #[trigger] t[col][q] == cell_spec(sender, receiver, amount, credited, limit, s_id, null_path, null_leaf_a, frozen_path, col, q),
        path_ok(sender.path, 32),
        path_ok(receiver.path, 32),
        path_ok(null_path, 32),
        path_ok(frozen_path, 24),
        siblings_canonical(sender.path.siblings@),
        level_link_row(r),
    ensures
        ({
            let cur = row_of(t, r);
            let nxt = row_of(t, r + 1);
            &&& nxt[24] == 0 || nxt[24] == 1
            &&& forall|j: int| (0 <= j < 4 || 12 <= j < 16) ==> #[trigger] nxt[j] == 0
            &&& nxt[24] == 1 ==> forall|j: int| (8 <= j < 12 || 20 <= j < 24) ==> #[trigger] nxt[j] == cur[j - 4]
            &&& nxt[24] == 1 ==> forall|j: int| 4 <= j < 8 ==> #[trigger] nxt[j] == nxt[j + 12]
            &&& nxt[24] == 0 ==> forall|j: int| (4 <= j < 8 || 16 <= j < 20) ==> #[trigger] nxt[j] == cur[j]
            &&& nxt[24] == 0 ==> forall|j: int| 8 <= j < 12 ==> #[trigger] nxt[j] == nxt[j + 12]
        }),
{
    let cur = row_of(t, r);
    let nxt = row_of(t, r + 1);
    let v = transfer_values(sender.balance, sender.nonce, receiver.balance, amount, credited, limit);
    let sa = merge_state(s_id, as_digest_spec(v.s_bal));
    let sb = merge_state(s_id, as_digest_spec(v.s_bal_new));
    let la = links_a(sender, receiver, v, null_path, null_leaf_a, frozen_path);
    let lb = links_b(sender, receiver, v, null_path, frozen_path);
    assert forall|i: int| 0 <= i < 12 implies #[trigger] cur[i] == lane_value(sa, la, i, r) && nxt[i] == lane_value(sa, la, i, r + 1)
        && cur[12 + i] == lane_value(sb, lb, i, r) && nxt[12 + i] == lane_value(sb, lb, i, r + 1) by {
        assert(t[i][r] == cell_spec(sender, receiver, amount, credited, limit, s_id, null_path, null_leaf_a, frozen_path, i, r));
        assert(t[i][r + 1] == cell_spec(sender, receiver, amount, credited, limit, s_id, null_path, null_leaf_a, frozen_path, i, r + 1));
        assert(t[12 + i][r] == cell_spec(sender, receiver, amount, credited, limit, s_id, null_path, null_leaf_a, frozen_path, 12 + i, r));
        assert(t[12 + i][r + 1] == cell_spec(sender, receiver, amount, credited, limit, s_id, null_path, null_leaf_a, frozen_path, 12 + i, r + 1));
    }
    let c = r / 8;
    assert(r == 8 * c + 7 && (r + 1) / 8 == c + 1 && (r + 1) % 8 == 0);
    assert(la.len() == 126 && lb.len() == 126);
    crate::lane::lemma_lane_link_row(sa, la, c as nat);
    crate::lane::lemma_lane_link_row(sb, lb, c as nat);
    lemma_lane_digest_row(sa, la, c as nat);
    lemma_lane_digest_row(sb, lb, c as nat);
    let da = cycle_digest(sa, la, c as nat);
    let db = cycle_digest(sb, lb, c as nat);
    assert(da.len() == 4 && db.len() == 4);
    assert forall|i: int| 0 <= i < 12 implies #[trigger] nxt[i] == link_start(la[c], da)[i] && nxt[12 + i] == link_start(lb[c], db)[i] by {}
    assert forall|j: int| (4 <= j < 8 || 16 <= j < 20) implies #[trigger] cur[j] == (if j < 8 { da[j - 4] } else { db[j - 16] }) by {
        if j < 8 {
            assert(lane_value(sa, la, 4 + (j - 4), r) == da[j - 4]);
        } else {
            assert(lane_value(sb, lb, 4 + (j - 16), r) == db[j - 16]);
        }
    }
    let sib = if c <= 32 { sender.path.siblings@[c - 1] } else if c <= 66 { receiver.path.siblings@[c - 35] } else { null_path.siblings@[c - 70] };
    let b = if c <= 32 { sender.path.is_right@[c - 1] } else if c <= 66 { receiver.path.is_right@[c - 35] } else { null_path.is_right@[c - 70] };
    assert(la[c] == Link::Place { other: sib, right: b });
    assert(lb[c] == Link::Place { other: sib, right: b });
    assert(nxt[24] == bit_spec(sender, receiver, null_path, r + 1)) by {
        assert(t[24][r + 1] == cell_spec(sender, receiver, amount, credited, limit, s_id, null_path, null_leaf_a, frozen_path, 24, r + 1));
    }
    assert(nxt[24] == if b { 1u64 } else { 0u64 });
    assert(sib@.len() == 4);
    assert forall|j: int| (0 <= j < 4 || 12 <= j < 16) implies #[trigger] nxt[j] == 0 by {
        if j >= 12 {
            assert(nxt[12 + (j - 12)] == link_start(lb[c], db)[j - 12]);
        }
    }
    if b {
        assert forall|j: int| (8 <= j < 12 || 20 <= j < 24) implies #[trigger] nxt[j] == cur[j - 4] by {
            if j >= 20 {
                assert(nxt[12 + (j - 12)] == link_start(lb[c], db)[j - 12]);
            }
        }
        assert forall|j: int| 4 <= j < 8 implies #[trigger] nxt[j] == nxt[j + 12] by {
            assert(nxt[12 + j] == link_start(lb[c], db)[j]);
        }
    } else {
        assert forall|j: int| (4 <= j < 8 || 16 <= j < 20) implies #[trigger] nxt[j] == cur[j] by {
            if j >= 16 {
                assert(nxt[12 + (j - 12)] == link_start(lb[c], db)[j - 12]);
            }
        }
        assert forall|j: int| 8 <= j < 12 implies #[trigger] nxt[j] == nxt[j + 12] by {
            assert(nxt[12 + j] == link_start(lb[c], db)[j]);
        }
    }
}

/// The cells where the nullifier tree is entered (row 567): lane B places
/// the nullifier beside the first sibling, and lane A the leaf it replaces
/// beside the same sibling.
#[verifier::spinoff_prover]
#[verifier::rlimit(100)]
proof fn lemma_null_entry_facts(sender: SenderWitness, receiver: ReceiverWitness, amount: u64, credited: u64, limit: u64, s_id: Seq<u64>, null_path: MerklePath, null_leaf_a: Digest, frozen_path: MerklePath, t: Seq<Vec<u64>>)
    requires
        t.len() == TRACE_WIDTH,
        forall|col: int, q: int|
            0 <= col < TRACE_WIDTH && 0 <= q < TRACE_LENGTH ==> #[trigger] t[col][q] == cell_spec(sender, receiver, amount, credited, limit, s_id, null_path, null_leaf_a, frozen_path, col, q),
        path_ok(sender.path, 32),
        path_ok(receiver.path, 32),
        path_ok(null_path, 32),
        path_ok(frozen_path, 24),
    ensures
        ({
            let r = ROW_NULLIFIER as int;
            let cur = row_of(t, r);
            let nxt = row_of(t, r + 1);
            &&& nxt[24] == 0 || nxt[24] == 1
            &&& forall|j: int| (0 <= j < 4 || 12 <= j < 16) ==> #[trigger] nxt[j] == 0
            &&& nxt[24] == 1 ==> forall|j: int| 20 <= j < 24 ==> #[trigger] nxt[j] == cur[j - 4]
            &&& nxt[24] == 1 ==> forall|j: int| 4 <= j < 8 ==> #[trigger] nxt[j] == nxt[j + 12] && nxt[j + 4] == null_leaf_a@[j - 4]
            &&& nxt[24] == 0 ==> forall|j: int| 16 <= j < 20 ==> #[trigger] nxt[j] == cur[j]
            &&& nxt[24] == 0 ==> forall|j: int| 8 <= j < 12 ==> #[trigger] nxt[j] == nxt[j + 12] && nxt[j - 4] == null_leaf_a@[j - 8]
        }),
{
    let r = ROW_NULLIFIER as int;
    let cur = row_of(t, r);
    let nxt = row_of(t, r + 1);
    let v = transfer_values(sender.balance, sender.nonce, receiver.balance, amount, credited, limit);
    let sa = merge_state(s_id, as_digest_spec(v.s_bal));
    let sb = merge_state(s_id, as_digest_spec(v.s_bal_new));
    let la = links_a(sender, receiver, v, null_path, null_leaf_a, frozen_path);
    let lb = links_b(sender, receiver, v, null_path, frozen_path);
    assert forall|i: int| 0 <= i < 12 implies #[trigger] cur[i] == lane_value(sa, la, i, r) && nxt[i] == lane_value(sa, la, i, r + 1)
        && cur[12 + i] == lane_value(sb, lb, i, r) && nxt[12 + i] == lane_value(sb, lb, i, r + 1) by {
        assert(t[i][r] == cell_spec(sender, receiver, amount, credited, limit, s_id, null_path, null_leaf_a, frozen_path, i, r));
        assert(t[i][r + 1] == cell_spec(sender, receiver, amount, credited, limit, s_id, null_path, null_leaf_a, frozen_path, i, r + 1));
        assert(t[12 + i][r] == cell_spec(sender, receiver, amount, credited, limit, s_id, null_path, null_leaf_a, frozen_path, 12 + i, r));
        assert(t[12 + i][r + 1] == cell_spec(sender, receiver, amount, credited, limit, s_id, null_path, null_leaf_a, frozen_path, 12 + i, r + 1));
    }
    let c = r / 8;
    assert(r == 8 * c + 7 && (r + 1) / 8 == c + 1 && (r + 1) % 8 == 0);
    assert(la.len() == 126 && lb.len() == 126);
    crate::lane::lemma_lane_link_row(sa, la, c as nat);
    crate::lane::lemma_lane_link_row(sb, lb, c as nat);
    lemma_lane_digest_row(sa, la, c as nat);
    lemma_lane_digest_row(sb, lb, c as nat);
    let da = cycle_digest(sa, la, c as nat);
    let db = cycle_digest(sb, lb, c as nat);
    assert(da.len() == 4 && db.len() == 4);
    assert forall|i: int| 0 <= i < 12 implies #[trigger] nxt[i] == link_start(la[c], da)[i] && nxt[12 + i] == link_start(lb[c], db)[i] by {}
    assert forall|j: int| (4 <= j < 8 || 16 <= j < 20) implies #[trigger] cur[j] == (if j < 8 { da[j - 4] } else { db[j - 16] }) by {
        if j < 8 {
            assert(lane_value(sa, la, 4 + (j - 4), r) == da[j - 4]);
        } else {
            assert(lane_value(sb, lb, 4 + (j - 16), r) == db[j - 16]);
        }
    }
    let sib = null_path.siblings@[0];
    let b = null_path.is_right@[0];
    assert(la[c] == Link::Fresh { state: place_arr(null_leaf_a, sib, b) });
    assert(lb[c] == Link::Place { other: sib, right: b });
    assert(nxt[24] == bit_spec(sender, receiver, null_path, r + 1)) by {
        assert(t[24][r + 1] == cell_spec(sender, receiver, amount, credited, limit, s_id, null_path, null_leaf_a, frozen_path, 24, r + 1));
    }
    assert(nxt[24] == if b { 1u64 } else { 0u64 });
    assert(sib@.len() == 4);
    assert forall|j: int| (0 <= j < 4 || 12 <= j < 16) implies #[trigger] nxt[j] == 0 by {
        if j >= 12 {
            assert(nxt[12 + (j - 12)] == link_start(lb[c], db)[j - 12]);
        }
    }
    if b {
        assert forall|j: int| 20 <= j < 24 implies #[trigger] nxt[j] == cur[j - 4] by {
            assert(nxt[12 + (j - 12)] == link_start(lb[c], db)[j - 12]);
        }
        assert forall|j: int| 4 <= j < 8 implies #[trigger] nxt[j] == nxt[j + 12] && nxt[j + 4] == null_leaf_a@[j - 4] by {
            assert(nxt[12 + j] == link_start(lb[c], db)[j]);
        }
    } else {
        assert forall|j: int| 16 <= j < 20 implies #[trigger] nxt[j] == cur[j] by {
            assert(nxt[12 + (j - 12)] == link_start(lb[c], db)[j - 12]);
        }
        assert forall|j: int| 8 <= j < 12 implies #[trigger] nxt[j] == nxt[j + 12] && nxt[j - 4] == null_leaf_a@[j - 8] by {
            assert(nxt[12 + j] == link_start(lb[c], db)[j]);
        }
    }
}

/// The cells of the frozen tree in lane A: its entry (row 823) places a
/// zero leaf beside the first sibling, and each later level starts from
/// the node on the side the bit says.
#[verifier::spinoff_prover]
#[verifier::rlimit(100)]
proof fn lemma_frozen_facts(sender: SenderWitness, receiver: ReceiverWitness, amount: u64, credited: u64, limit: u64, s_id: Seq<u64>, null_path: MerklePath, null_leaf_a: Digest, frozen_path: MerklePath, t: Seq<Vec<u64>>, r: int)
    requires
        t.len() == TRACE_WIDTH,
        forall|col: int, q: int|
            0 <= col < TRACE_WIDTH && 0 <= q < TRACE_LENGTH ==> #[trigger] t[col][q] == cell_spec(sender, receiver, amount, credited, limit, s_id, null_path, null_leaf_a, frozen_path, col, q),
        path_ok(sender.path, 32),
        path_ok(receiver.path, 32),
        path_ok(null_path, 32),
        path_ok(frozen_path, 24),
        r == ROW_NULL_ROOT || frozen_link_row(r),
    ensures
        ({
            let cur = row_of(t, r);
            let nxt = row_of(t, r + 1);
            &&& nxt[51] == 0 || nxt[51] == 1
            &&& forall|j: int| 0 <= j < 4 ==> #[trigger] nxt[j] == 0
            &&& r == ROW_NULL_ROOT && nxt[51] == 1 ==> forall|j: int| 8 <= j < 12 ==> #[trigger] nxt[j] == 0
            &&& r == ROW_NULL_ROOT && nxt[51] == 0 ==> forall|j: int| 4 <= j < 8 ==> #[trigger] nxt[j] == 0
            &&& frozen_link_row(r) && nxt[51] == 1 ==> forall|j: int| 8 <= j < 12 ==> #[trigger] nxt[j] == cur[j - 4]
            &&& frozen_link_row(r) && nxt[51] == 0 ==> forall|j: int| 4 <= j < 8 ==> #[trigger] nxt[j] == cur[j]
        }),
{
    let cur = row_of(t, r);
    let nxt = row_of(t, r + 1);
    let v = transfer_values(sender.balance, sender.nonce, receiver.balance, amount, credited, limit);
    let sa = merge_state(s_id, as_digest_spec(v.s_bal));
    let sb = merge_state(s_id, as_digest_spec(v.s_bal_new));
    let la = links_a(sender, receiver, v, null_path, null_leaf_a, frozen_path);
    let lb = links_b(sender, receiver, v, null_path, frozen_path);
    assert forall|i: int| 0 <= i < 12 implies #[trigger] cur[i] == lane_value(sa, la, i, r) && nxt[i] == lane_value(sa, la, i, r + 1)
        && cur[12 + i] == lane_value(sb, lb, i, r) && nxt[12 + i] == lane_value(sb, lb, i, r + 1) by {
        assert(t[i][r] == cell_spec(sender, receiver, amount, credited, limit, s_id, null_path, null_leaf_a, frozen_path, i, r));
        assert(t[i][r + 1] == cell_spec(sender, receiver, amount, credited, limit, s_id, null_path, null_leaf_a, frozen_path, i, r + 1));
        assert(t[12 + i][r] == cell_spec(sender, receiver, amount, credited, limit, s_id, null_path, null_leaf_a, frozen_path, 12 + i, r));
        assert(t[12 + i][r + 1] == cell_spec(sender, receiver, amount, credited, limit, s_id, null_path, null_leaf_a, frozen_path, 12 + i, r + 1));
    }
    let c = r / 8;
    assert(r == 8 * c + 7 && (r + 1) / 8 == c + 1 && (r + 1) % 8 == 0);
    assert(la.len() == 126 && lb.len() == 126);
    crate::lane::lemma_lane_link_row(sa, la, c as nat);
    crate::lane::lemma_lane_link_row(sb, lb, c as nat);
    lemma_lane_digest_row(sa, la, c as nat);
    lemma_lane_digest_row(sb, lb, c as nat);
    let da = cycle_digest(sa, la, c as nat);
    let db = cycle_digest(sb, lb, c as nat);
    assert(da.len() == 4 && db.len() == 4);
    assert forall|i: int| 0 <= i < 12 implies #[trigger] nxt[i] == link_start(la[c], da)[i] && nxt[12 + i] == link_start(lb[c], db)[i] by {}
    assert forall|j: int| (4 <= j < 8 || 16 <= j < 20) implies #[trigger] cur[j] == (if j < 8 { da[j - 4] } else { db[j - 16] }) by {
        if j < 8 {
            assert(lane_value(sa, la, 4 + (j - 4), r) == da[j - 4]);
        } else {
            assert(lane_value(sb, lb, 4 + (j - 16), r) == db[j - 16]);
        }
    }
    let k = c - 102;
    let sib = frozen_path.siblings@[k];
    let b = frozen_path.is_right@[k];
    if r == ROW_NULL_ROOT {
        assert(la[c] == Link::Fresh { state: place_arr([0u64, 0u64, 0u64, 0u64], sib, b) });
    } else {
        assert(la[c] == Link::Place { other: sib, right: b });
    }
    assert(nxt[51] == cycle_bit_spec(frozen_path.is_right@.subrange(0, 24), 103, r + 1)) by {
        assert(t[51][r + 1] == cell_spec(sender, receiver, amount, credited, limit, s_id, null_path, null_leaf_a, frozen_path, 51, r + 1));
    }
    assert(nxt[51] == if b { 1u64 } else { 0u64 });
    assert(sib@.len() == 4);
}

/// The honest inputs of a settlement: the balances and the limit fit in 63
/// bits, the amount is within the sender's balance and the limit, the
/// receiver is credited the amount, the receiver's old leaf climbs to the
/// root the sender's new leaf climbs to, the sender's identity is the one
/// its key derives, and the nullifier goes into a free position.
pub open spec fn honest_settlement(
    sender: SenderWitness,
    receiver: ReceiverWitness,
    amount: u64,
    credited: u64,
    limit: u64,
    s_id: Seq<u64>,
    null_leaf_a: Digest,
) -> bool {
    let v = transfer_values(sender.balance, sender.nonce, receiver.balance, amount, credited, limit);
    &&& v.s_bal < 0x8000_0000_0000_0000
    &&& v.lim < 0x8000_0000_0000_0000
    &&& v.amt <= v.s_bal
    &&& v.amt <= v.lim
    &&& v.r_bal + v.amt < 0x8000_0000_0000_0000
    &&& reduce(credited as int) == v.amt
    &&& root_of(leaf_spec(receiver.public_id@, v.r_bal, receiver.nonce), receiver.path)
        == root_of(leaf_spec(s_id, v.s_bal_new, v.s_nonce_new), sender.path)
    &&& s_id == public_id_wide_spec(sender.spend_key@)
    &&& null_leaf_a@ == seq![0u64, 0u64, 0u64, 0u64]
}

/// The cells after a leaf (rows 7, 279, 559): both lanes keep their digest
/// and take a nonce: the sender's (the next one in the new lane), the
/// receiver's, then the sender's for the nullifier.
#[verifier::spinoff_prover]
#[verifier::rlimit(100)]
proof fn lemma_nonce_link_facts(sender: SenderWitness, receiver: ReceiverWitness, amount: u64, credited: u64, limit: u64, s_id: Seq<u64>, null_path: MerklePath, null_leaf_a: Digest, frozen_path: MerklePath, t: Seq<Vec<u64>>, r: int)
    requires
        t.len() == TRACE_WIDTH,
        forall|col: int, q: int|
            0 <= col < TRACE_WIDTH && 0 <= q < TRACE_LENGTH ==> #[trigger] t[col][q] == cell_spec(sender, receiver, amount, credited, limit, s_id, null_path, null_leaf_a, frozen_path, col, q),
        path_ok(sender.path, 32),
        path_ok(receiver.path, 32),
        path_ok(null_path, 32),
        path_ok(frozen_path, 24),
        r == 7 || r == 279 || r == 559,
    ensures
        ({
            let cur = row_of(t, r);
            let nxt = row_of(t, r + 1);
            &&& forall|j: int| (0 <= j < 4 || 12 <= j < 16) ==> #[trigger] nxt[j] == 0
            &&& forall|j: int| (4 <= j < 8 || 16 <= j < 20) ==> #[trigger] nxt[j] == cur[j]
            &&& r == 7 ==> nxt[8] == cur[34] && nxt[20] == add_spec(cur[34], 1u64)
            &&& r == 279 ==> nxt[8] == cur[41] && nxt[20] == cur[41]
            &&& r == 559 ==> nxt[8] == cur[34] && nxt[20] == cur[34]
        }),
{
    let cur = row_of(t, r);
    let nxt = row_of(t, r + 1);
    let v = transfer_values(sender.balance, sender.nonce, receiver.balance, amount, credited, limit);
    let sa = merge_state(s_id, as_digest_spec(v.s_bal));
    let sb = merge_state(s_id, as_digest_spec(v.s_bal_new));
    let la = links_a(sender, receiver, v, null_path, null_leaf_a, frozen_path);
    let lb = links_b(sender, receiver, v, null_path, frozen_path);
    assert forall|i: int| 0 <= i < 12 implies #[trigger] cur[i] == lane_value(sa, la, i, r) && nxt[i] == lane_value(sa, la, i, r + 1)
        && cur[12 + i] == lane_value(sb, lb, i, r) && nxt[12 + i] == lane_value(sb, lb, i, r + 1) by {
        assert(t[i][r] == cell_spec(sender, receiver, amount, credited, limit, s_id, null_path, null_leaf_a, frozen_path, i, r));
        assert(t[i][r + 1] == cell_spec(sender, receiver, amount, credited, limit, s_id, null_path, null_leaf_a, frozen_path, i, r + 1));
        assert(t[12 + i][r] == cell_spec(sender, receiver, amount, credited, limit, s_id, null_path, null_leaf_a, frozen_path, 12 + i, r));
        assert(t[12 + i][r + 1] == cell_spec(sender, receiver, amount, credited, limit, s_id, null_path, null_leaf_a, frozen_path, 12 + i, r + 1));
    }
    let c = r / 8;
    assert(r == 8 * c + 7 && (r + 1) / 8 == c + 1 && (r + 1) % 8 == 0);
    assert(la.len() == 126 && lb.len() == 126);
    crate::lane::lemma_lane_link_row(sa, la, c as nat);
    crate::lane::lemma_lane_link_row(sb, lb, c as nat);
    lemma_lane_digest_row(sa, la, c as nat);
    lemma_lane_digest_row(sb, lb, c as nat);
    let da = cycle_digest(sa, la, c as nat);
    let db = cycle_digest(sb, lb, c as nat);
    assert(da.len() == 4 && db.len() == 4);
    assert forall|i: int| 0 <= i < 12 implies #[trigger] nxt[i] == link_start(la[c], da)[i] && nxt[12 + i] == link_start(lb[c], db)[i] by {}
    assert forall|j: int| (4 <= j < 8 || 16 <= j < 20) implies #[trigger] cur[j] == (if j < 8 { da[j - 4] } else { db[j - 16] }) by {
        if j < 8 {
            assert(lane_value(sa, la, 4 + (j - 4), r) == da[j - 4]);
        } else {
            assert(lane_value(sb, lb, 4 + (j - 16), r) == db[j - 16]);
        }
    }
    assert(t[34][r] == cell_spec(sender, receiver, amount, credited, limit, s_id, null_path, null_leaf_a, frozen_path, 34, r));
    assert(t[41][r] == cell_spec(sender, receiver, amount, credited, limit, s_id, null_path, null_leaf_a, frozen_path, 41, r));
    let xa = if r == 279 { receiver.nonce } else { sender.nonce };
    let xb = if r == 7 { v.s_nonce_new } else if r == 279 { receiver.nonce } else { sender.nonce };
    assert(la[c] == Link::Place { other: digest_arr(xa), right: false });
    assert(lb[c] == Link::Place { other: digest_arr(xb), right: false });
    assert forall|j: int| (0 <= j < 4 || 12 <= j < 16) implies #[trigger] nxt[j] == 0 by {
        if j >= 12 {
            assert(nxt[12 + (j - 12)] == link_start(lb[c], db)[j - 12]);
        }
    }
    assert forall|j: int| (4 <= j < 8 || 16 <= j < 20) implies #[trigger] nxt[j] == cur[j] by {
        if j >= 16 {
            assert(nxt[12 + (j - 12)] == link_start(lb[c], db)[j - 12]);
        }
    }
    assert(nxt[20] == link_start(lb[c], db)[8]);
}

/// The cells after each root and after the key derivation (rows 271, 543,
/// 551): the receiver's leaf starts from its identity and its old (A) or
/// new (B) balance; the key derivation and then the nullifier start from
/// the spending key; the carried intermediate root is the new sender root
/// in lane B at row 271 and, when honest, the receiver's old root in lane
/// A at row 543; the derived identity is the sender's.
#[verifier::spinoff_prover]
#[verifier::rlimit(100)]
proof fn lemma_root_row_facts(sender: SenderWitness, receiver: ReceiverWitness, amount: u64, credited: u64, limit: u64, s_id: Seq<u64>, null_path: MerklePath, null_leaf_a: Digest, frozen_path: MerklePath, t: Seq<Vec<u64>>, r: int)
    requires
        t.len() == TRACE_WIDTH,
        forall|col: int, q: int|
            0 <= col < TRACE_WIDTH && 0 <= q < TRACE_LENGTH ==> #[trigger] t[col][q] == cell_spec(sender, receiver, amount, credited, limit, s_id, null_path, null_leaf_a, frozen_path, col, q),
        path_ok(sender.path, 32),
        path_ok(receiver.path, 32),
        path_ok(null_path, 32),
        path_ok(frozen_path, 24),
        honest_settlement(sender, receiver, amount, credited, limit, s_id, null_leaf_a),
        r == 271 || r == 543 || r == 551,
    ensures
        ({
            let cur = row_of(t, r);
            let nxt = row_of(t, r + 1);
            &&& r == 271 ==> forall|j: int| (4 <= j < 8 || 16 <= j < 20) ==> #[trigger] nxt[j] == cur[if j < 8 { j + 32 } else { j + 20 }]
            &&& r == 271 ==> nxt[8] == cur[40] && nxt[20] == cur[42]
            &&& r == 271 ==> forall|j: int| 16 <= j < 20 ==> #[trigger] cur[j] == cur[j + 29]
            &&& r == 543 ==> forall|j: int| 4 <= j < 8 ==> #[trigger] cur[j] == cur[j + 41]
            &&& (r == 543 || r == 551) ==> forall|j: int| (8 <= j < 12 || 20 <= j < 24) ==> #[trigger] nxt[j] == cur[if j < 12 { j + 17 } else { j + 5 }]
            &&& r == 551 ==> forall|j: int| 4 <= j < 8 ==> #[trigger] cur[j] == cur[j + 25]
        }),
{
    let cur = row_of(t, r);
    let nxt = row_of(t, r + 1);
    let v = transfer_values(sender.balance, sender.nonce, receiver.balance, amount, credited, limit);
    let sa = merge_state(s_id, as_digest_spec(v.s_bal));
    let sb = merge_state(s_id, as_digest_spec(v.s_bal_new));
    let la = links_a(sender, receiver, v, null_path, null_leaf_a, frozen_path);
    let lb = links_b(sender, receiver, v, null_path, frozen_path);
    assert forall|i: int| 0 <= i < 12 implies #[trigger] cur[i] == lane_value(sa, la, i, r) && nxt[i] == lane_value(sa, la, i, r + 1)
        && cur[12 + i] == lane_value(sb, lb, i, r) && nxt[12 + i] == lane_value(sb, lb, i, r + 1) by {
        assert(t[i][r] == cell_spec(sender, receiver, amount, credited, limit, s_id, null_path, null_leaf_a, frozen_path, i, r));
        assert(t[i][r + 1] == cell_spec(sender, receiver, amount, credited, limit, s_id, null_path, null_leaf_a, frozen_path, i, r + 1));
        assert(t[12 + i][r] == cell_spec(sender, receiver, amount, credited, limit, s_id, null_path, null_leaf_a, frozen_path, 12 + i, r));
        assert(t[12 + i][r + 1] == cell_spec(sender, receiver, amount, credited, limit, s_id, null_path, null_leaf_a, frozen_path, 12 + i, r + 1));
    }
    let c = r / 8;
    assert(r == 8 * c + 7 && (r + 1) / 8 == c + 1 && (r + 1) % 8 == 0);
    assert(la.len() == 126 && lb.len() == 126);
    crate::lane::lemma_lane_link_row(sa, la, c as nat);
    crate::lane::lemma_lane_link_row(sb, lb, c as nat);
    lemma_lane_digest_row(sa, la, c as nat);
    lemma_lane_digest_row(sb, lb, c as nat);
    let da = cycle_digest(sa, la, c as nat);
    let db = cycle_digest(sb, lb, c as nat);
    assert(da.len() == 4 && db.len() == 4);
    assert forall|i: int| 0 <= i < 12 implies #[trigger] nxt[i] == link_start(la[c], da)[i] && nxt[12 + i] == link_start(lb[c], db)[i] by {}
    assert forall|j: int| (4 <= j < 8 || 16 <= j < 20) implies #[trigger] cur[j] == (if j < 8 { da[j - 4] } else { db[j - 16] }) by {
        if j < 8 {
            assert(lane_value(sa, la, 4 + (j - 4), r) == da[j - 4]);
        } else {
            assert(lane_value(sb, lb, 4 + (j - 16), r) == db[j - 16]);
        }
    }
    lemma_trace_landmarks(sender, receiver, amount, credited, limit, s_id, null_path, null_leaf_a, frozen_path);
    assert forall|j: int| 25 <= j < 49 implies #[trigger] cur[j] == t[j][r] && cur[j] == cell_spec(sender, receiver, amount, credited, limit, s_id, null_path, null_leaf_a, frozen_path, j, r) by {
        assert(t[j][r] == cell_spec(sender, receiver, amount, credited, limit, s_id, null_path, null_leaf_a, frozen_path, j, r));
    }
    if r == 271 {
        assert(la[c] == Link::Fresh { state: merge_arr(receiver.public_id, digest_arr(v.r_bal)) });
        assert(lb[c] == Link::Fresh { state: merge_arr(receiver.public_id, digest_arr(v.r_bal_new)) });
        assert forall|j: int| (4 <= j < 8 || 16 <= j < 20) implies #[trigger] nxt[j] == cur[if j < 8 { j + 32 } else { j + 20 }] by {
            if j >= 16 {
                assert(nxt[12 + (j - 12)] == link_start(lb[c], db)[j - 12]);
            }
        }
        assert(nxt[20] == link_start(lb[c], db)[8]);
        let d = root_of(leaf_spec(s_id, v.s_bal_new, v.s_nonce_new), sender.path);
        assert forall|j: int| 16 <= j < 20 implies #[trigger] cur[j] == cur[j + 29] by {
            assert(cell_spec(sender, receiver, amount, credited, limit, s_id, null_path, null_leaf_a, frozen_path, 16 + (j - 16), ROW_S_ROOT as int) == d[j - 16]);
            assert(cell_spec(sender, receiver, amount, credited, limit, s_id, null_path, null_leaf_a, frozen_path, COL_ROOT_MID + (j - 16), r) == d[j - 16]);
            assert(t[j][r] == cell_spec(sender, receiver, amount, credited, limit, s_id, null_path, null_leaf_a, frozen_path, j, r));
        }
    } else if r == 543 {
        assert(la[c] == Link::Fresh { state: merge_arr(digest_arr(SPEND_KEY_DOMAIN), sender.spend_key) });
        assert(lb[c] == Link::Fresh { state: merge_arr(digest_arr(SPEND_KEY_DOMAIN), sender.spend_key) });
        let d = root_of(leaf_spec(s_id, v.s_bal_new, v.s_nonce_new), sender.path);
        assert forall|j: int| 4 <= j < 8 implies #[trigger] cur[j] == cur[j + 41] by {
            assert(cell_spec(sender, receiver, amount, credited, limit, s_id, null_path, null_leaf_a, frozen_path, 4 + (j - 4), ROW_R_ROOT as int) == root_of(leaf_spec(receiver.public_id@, v.r_bal, receiver.nonce), receiver.path)[j - 4]);
            assert(cell_spec(sender, receiver, amount, credited, limit, s_id, null_path, null_leaf_a, frozen_path, COL_ROOT_MID + (j - 4), r) == d[j - 4]);
            assert(t[j][r] == cell_spec(sender, receiver, amount, credited, limit, s_id, null_path, null_leaf_a, frozen_path, j, r));
        }
        assert forall|j: int| (8 <= j < 12 || 20 <= j < 24) implies #[trigger] nxt[j] == cur[if j < 12 { j + 17 } else { j + 5 }] by {
            if j >= 20 {
                assert(nxt[12 + (j - 12)] == link_start(lb[c], db)[j - 12]);
            }
        }
    } else {
        assert(la[c] == Link::Fresh { state: merge_arr(digest_arr(NULLIFIER_DOMAIN), sender.spend_key) });
        assert(lb[c] == Link::Fresh { state: merge_arr(digest_arr(NULLIFIER_DOMAIN), sender.spend_key) });
        assert forall|j: int| 4 <= j < 8 implies #[trigger] cur[j] == cur[j + 25] by {
            assert(cell_spec(sender, receiver, amount, credited, limit, s_id, null_path, null_leaf_a, frozen_path, 4 + (j - 4), ROW_PK_DONE as int) == public_id_wide_spec(sender.spend_key@)[j - 4]);
            assert(t[j][r] == cell_spec(sender, receiver, amount, credited, limit, s_id, null_path, null_leaf_a, frozen_path, j, r));
        }
        assert forall|j: int| (8 <= j < 12 || 20 <= j < 24) implies #[trigger] nxt[j] == cur[if j < 12 { j + 17 } else { j + 5 }] by {
            if j >= 20 {
                assert(nxt[12 + (j - 12)] == link_start(lb[c], db)[j - 12]);
            }
        }
    }
}

/// The cells of the first row: both lanes start from the sender's
/// identity, with its old (A) and new (B) balance.
#[verifier::spinoff_prover]
#[verifier::rlimit(60)]
proof fn lemma_first_row_facts(sender: SenderWitness, receiver: ReceiverWitness, amount: u64, credited: u64, limit: u64, s_id: Seq<u64>, null_path: MerklePath, null_leaf_a: Digest, frozen_path: MerklePath, t: Seq<Vec<u64>>)
    requires
        t.len() == TRACE_WIDTH,
        forall|col: int, q: int|
            0 <= col < TRACE_WIDTH && 0 <= q < TRACE_LENGTH ==> #[trigger] t[col][q] == cell_spec(sender, receiver, amount, credited, limit, s_id, null_path, null_leaf_a, frozen_path, col, q),
        s_id.len() == 4,
    ensures
        ({
            let cur = row_of(t, 0);
            &&& forall|j: int| (4 <= j < 8 || 16 <= j < 20) ==> #[trigger] cur[j] == cur[if j < 8 { j + 25 } else { j + 13 }]
            &&& cur[8] == cur[33] && cur[20] == cur[35]
        }),
{
    let cur = row_of(t, 0);
    let v = transfer_values(sender.balance, sender.nonce, receiver.balance, amount, credited, limit);
    let sa = merge_state(s_id, as_digest_spec(v.s_bal));
    let sb = merge_state(s_id, as_digest_spec(v.s_bal_new));
    let la = links_a(sender, receiver, v, null_path, null_leaf_a, frozen_path);
    let lb = links_b(sender, receiver, v, null_path, frozen_path);
    assert(crate::rescue::rounds(cycle_start(sa, la, 0), 0) == sa);
    assert(crate::rescue::rounds(cycle_start(sb, lb, 0), 0) == sb);
    assert forall|i: int| 0 <= i < 12 implies #[trigger] cur[i] == sa[i] && cur[12 + i] == sb[i] by {
        assert(t[i][0] == cell_spec(sender, receiver, amount, credited, limit, s_id, null_path, null_leaf_a, frozen_path, i, 0));
        assert(t[12 + i][0] == cell_spec(sender, receiver, amount, credited, limit, s_id, null_path, null_leaf_a, frozen_path, 12 + i, 0));
    }
    assert forall|j: int| 25 <= j < 49 implies #[trigger] cur[j] == cell_spec(sender, receiver, amount, credited, limit, s_id, null_path, null_leaf_a, frozen_path, j, 0) by {
        assert(t[j][0] == cell_spec(sender, receiver, amount, credited, limit, s_id, null_path, null_leaf_a, frozen_path, j, 0));
    }
    assert forall|j: int| (4 <= j < 8 || 16 <= j < 20) implies #[trigger] cur[j] == cur[if j < 8 { j + 25 } else { j + 13 }] by {
        if j >= 16 {
            assert(cur[12 + (j - 12)] == sb[j - 12]);
        }
    }
    assert(cur[20] == sb[8]);
}

/// The range checks of an honest trace hold on every step: the seven
/// segments start from zero, take one bit per row, and end on the two
/// balances, the amount, the limit, the new sender balance, the room under
/// the limit and the new receiver balance.
#[verifier::spinoff_prover]
#[verifier::rlimit(100)]
proof fn lemma_trace_range_constraints(sender: SenderWitness, receiver: ReceiverWitness, amount: u64, credited: u64, limit: u64, s_id: Seq<u64>, null_path: MerklePath, null_leaf_a: Digest, frozen_path: MerklePath, t: Seq<Vec<u64>>, r: int)
    requires
        t.len() == TRACE_WIDTH,
        forall|col: int, q: int|
            0 <= col < TRACE_WIDTH && 0 <= q < TRACE_LENGTH ==> #[trigger] t[col][q] == cell_spec(sender, receiver, amount, credited, limit, s_id, null_path, null_leaf_a, frozen_path, col, q),
        honest_settlement(sender, receiver, amount, credited, limit, s_id, null_leaf_a),
        0 <= r < TRACE_LENGTH - 1,
    ensures
        forall|j: int| 1 <= j < 12 ==> #[trigger] residuals_10(row_of(t, r), row_of(t, r + 1), periodic_row(r))[j] == 0,
        residuals_11(row_of(t, r), row_of(t, r + 1), periodic_row(r))[0] == 0,
{
    let cur = row_of(t, r);
    let nxt = row_of(t, r + 1);
    let per = periodic_row(r);
    let p: nat = MODULUS as nat;
    let v = transfer_values(sender.balance, sender.nonce, receiver.balance, amount, credited, limit);
    vstd::arithmetic::div_mod::lemma_small_mod(0, p);
    vstd::arithmetic::div_mod::lemma_small_mod(1, p);
    vstd::arithmetic::div_mod::lemma_small_mod((v.s_bal - v.amt) as nat, p);
    vstd::arithmetic::div_mod::lemma_small_mod((v.lim - v.amt) as nat, p);
    vstd::arithmetic::div_mod::lemma_small_mod((v.r_bal + v.amt) as nat, p);
    let segs = segment_values_spec(v);
    assert(segs[4] == v.s_bal - v.amt && segs[5] == v.lim - v.amt && segs[6] == v.r_bal + v.amt);
    assert forall|s: int| 0 <= s < 7 implies #[trigger] segs[s] < 0x8000_0000_0000_0000 by {}
    assert forall|c: int| 0 <= c < TRACE_WIDTH implies #[trigger] cur[c] == t[c][r] && nxt[c] == t[c][r + 1] by {}
    assert forall|q: int| 0 <= q < TRACE_LENGTH implies (#[trigger] t[49][q] == (if q < 448 { seg_bit(segs[q / 64], 64, (q % 64) as nat) } else { 0u64 })
        && t[50][q] == (if q < 448 { reduce(seg_acc(segs[q / 64], 64, (q % 64) as nat) as int) } else { 0u64 })) by {
        assert(t[49][q] == cell_spec(sender, receiver, amount, credited, limit, s_id, null_path, null_leaf_a, frozen_path, 49, q));
        assert(t[50][q] == cell_spec(sender, receiver, amount, credited, limit, s_id, null_path, null_leaf_a, frozen_path, 50, q));
    }
    assert(cur[33] == v.s_bal && cur[40] == v.r_bal && cur[43] == v.amt && cur[44] == v.lim && cur[35] == segs[4] && cur[42] == segs[6]) by {
        assert(t[33][r] == cell_spec(sender, receiver, amount, credited, limit, s_id, null_path, null_leaf_a, frozen_path, 33, r));
        assert(t[40][r] == cell_spec(sender, receiver, amount, credited, limit, s_id, null_path, null_leaf_a, frozen_path, 40, r));
        assert(t[43][r] == cell_spec(sender, receiver, amount, credited, limit, s_id, null_path, null_leaf_a, frozen_path, 43, r));
        assert(t[44][r] == cell_spec(sender, receiver, amount, credited, limit, s_id, null_path, null_leaf_a, frozen_path, 44, r));
        assert(t[35][r] == cell_spec(sender, receiver, amount, credited, limit, s_id, null_path, null_leaf_a, frozen_path, 35, r));
        assert(t[42][r] == cell_spec(sender, receiver, amount, credited, limit, s_id, null_path, null_leaf_a, frozen_path, 42, r));
    }
    assert(sub_spec(cur[44], cur[43]) == segs[5]);
    assert forall|x: u64| #[trigger] mul_spec(0u64, x) == 0 by {
        assert(0u64 * x == 0);
    }
    assert forall|x: u64| #[trigger] sub_spec(x, x) == 0 by {}
    assert forall|q: int| 0 <= q < TRACE_LENGTH implies (#[trigger] t[49][q] == 0 || t[49][q] == 1) by {
        if q < 448 {
            crate::solvency::lemma_wide_segment(segs[q / 64], (q % 64) as nat);
        }
    }
    assert forall|x: u64| x == 0 || x == 1 implies #[trigger] mul_spec(x, sub_spec(x, 1u64)) == 0 by {
        if x == 1 {
            assert(sub_spec(1u64, 1u64) == 0);
            assert(1u64 * 0u64 == 0);
        }
    }
    assert(mul_spec(cur[49], sub_spec(cur[49], 1u64)) == 0);
    assert(mul_spec(nxt[49], sub_spec(nxt[49], 1u64)) == 0);
    let s_first: Seq<usize> = seq![0usize, 64, 128, 192, 256, 320, 384];
    assert(per[37] == selector_spec(s_first, r));
    assert(per[38] == continue_spec(NUM_SEGMENTS as int, SEGMENT_LENGTH as int, r));
    if r % 64 == 0 && r < 448 {
        assert(s_first[r / 64] == r);
        crate::solvency::lemma_wide_segment(segs[r / 64], 0);
        assert(cur[49] == 0 && cur[50] == 0);
    } else {
        assert forall|l: int| 0 <= l < s_first.len() implies s_first[l] != r by {}
        assert(per[37] == 0);
    }
    if r < 448 && r % 64 != 63 {
        let w = segs[r / 64];
        let q = r % 64;
        assert((r + 1) / 64 == r / 64 && (r + 1) % 64 == q + 1);
        crate::solvency::lemma_wide_segment(w, q as nat);
        crate::solvency::lemma_wide_segment(w, (q + 1) as nat);
        vstd::arithmetic::div_mod::lemma_small_mod(seg_acc(w, 64, q as nat) as nat, p);
        vstd::arithmetic::div_mod::lemma_small_mod(seg_acc(w, 64, (q + 1) as nat) as nat, p);
        assert(cur[50] == seg_acc(w, 64, q as nat));
        assert(nxt[50] == seg_acc(w, 64, (q + 1) as nat));
        assert(nxt[49] == seg_bit(w, 64, (q + 1) as nat));
        vstd::arithmetic::div_mod::lemma_small_mod((cur[50] + cur[50]) as nat, p);
        vstd::arithmetic::div_mod::lemma_small_mod((cur[50] + cur[50] + nxt[49]) as nat, p);
        assert(add_spec(add_spec(cur[50], cur[50]), nxt[49]) == nxt[50]);
    } else {
        assert(per[38] == 0);
    }
    let e0: Seq<usize> = seq![62usize];
    assert(per[39] == selector_spec(e0, r));
    if r == 62 {
        assert(e0[0] == 62);
        crate::solvency::lemma_wide_segment(segs[0], 63);
        vstd::arithmetic::div_mod::lemma_small_mod(segs[0] as nat, p);
        assert(nxt[50] == segs[0]);
    } else {
        assert(per[39] == 0);
    }
    let e1: Seq<usize> = seq![126usize];
    assert(per[40] == selector_spec(e1, r));
    if r == 126 {
        assert(e1[0] == 126);
        crate::solvency::lemma_wide_segment(segs[1], 63);
        vstd::arithmetic::div_mod::lemma_small_mod(segs[1] as nat, p);
        assert(nxt[50] == segs[1]);
    } else {
        assert(per[40] == 0);
    }
    let e2: Seq<usize> = seq![190usize];
    assert(per[41] == selector_spec(e2, r));
    if r == 190 {
        assert(e2[0] == 190);
        crate::solvency::lemma_wide_segment(segs[2], 63);
        vstd::arithmetic::div_mod::lemma_small_mod(segs[2] as nat, p);
        assert(nxt[50] == segs[2]);
    } else {
        assert(per[41] == 0);
    }
    let e3: Seq<usize> = seq![254usize];
    assert(per[42] == selector_spec(e3, r));
    if r == 254 {
        assert(e3[0] == 254);
        crate::solvency::lemma_wide_segment(segs[3], 63);
        vstd::arithmetic::div_mod::lemma_small_mod(segs[3] as nat, p);
        assert(nxt[50] == segs[3]);
    } else {
        assert(per[42] == 0);
    }
    let e4: Seq<usize> = seq![318usize];
    assert(per[43] == selector_spec(e4, r));
    if r == 318 {
        assert(e4[0] == 318);
        crate::solvency::lemma_wide_segment(segs[4], 63);
        vstd::arithmetic::div_mod::lemma_small_mod(segs[4] as nat, p);
        assert(nxt[50] == segs[4]);
    } else {
        assert(per[43] == 0);
    }
    let e5: Seq<usize> = seq![382usize];
    assert(per[44] == selector_spec(e5, r));
    if r == 382 {
        assert(e5[0] == 382);
        crate::solvency::lemma_wide_segment(segs[5], 63);
        vstd::arithmetic::div_mod::lemma_small_mod(segs[5] as nat, p);
        assert(nxt[50] == segs[5]);
    } else {
        assert(per[44] == 0);
    }
    let e6: Seq<usize> = seq![446usize];
    assert(per[45] == selector_spec(e6, r));
    if r == 446 {
        assert(e6[0] == 446);
        crate::solvency::lemma_wide_segment(segs[6], 63);
        vstd::arithmetic::div_mod::lemma_small_mod(segs[6] as nat, p);
        assert(nxt[50] == segs[6]);
    } else {
        assert(per[45] == 0);
    }
    assert forall|j: int| 1 <= j < 12 implies #[trigger] residuals_10(cur, nxt, per)[j] == 0 by {
        reveal(residuals_10);
    }
    assert(residuals_11(cur, nxt, per)[0] == 0) by {
        reveal(residuals_11);
    }
}

/// The rows where a level of a shared climb links to the next inside its
/// tree.
pub open spec fn merkle_row(r: int) -> bool {
    r % 8 == 7 && ((23 <= r <= 263) || (295 <= r <= 535) || (575 <= r <= 815))
}

/// The selectors of the links at step `r`.
#[verifier::spinoff_prover]
#[verifier::rlimit(60)]
proof fn lemma_link_selectors(r: int)
    requires
        0 <= r < TRACE_LENGTH - 1,
    ensures
        periodic_row(r)[25] == (if merkle_row(r) { 1u64 } else { 0u64 }),
        periodic_row(r)[26] == (if r == 7 || r == 279 || r == 559 { 1u64 } else { 0u64 }),
        periodic_row(r)[27] == (if r == 15 || r == 287 { 1u64 } else { 0u64 }),
        periodic_row(r)[28] == (if r == 7 { 1u64 } else { 0u64 }),
        periodic_row(r)[29] == (if r == 279 { 1u64 } else { 0u64 }),
        periodic_row(r)[30] == (if r == 559 { 1u64 } else { 0u64 }),
        periodic_row(r)[31] == (if r == 0 { 1u64 } else { 0u64 }),
        periodic_row(r)[32] == (if r == 271 { 1u64 } else { 0u64 }),
        periodic_row(r)[33] == (if r == 543 { 1u64 } else { 0u64 }),
        periodic_row(r)[34] == (if r == 543 { 1u64 } else { 0u64 }),
        periodic_row(r)[35] == (if r == 551 { 1u64 } else { 0u64 }),
        periodic_row(r)[36] == (if r == 567 { 1u64 } else { 0u64 }),
        periodic_row(r)[46] == (if r == 823 { 1u64 } else { 0u64 }),
        periodic_row(r)[47] == (if frozen_link_row(r) { 1u64 } else { 0u64 }),
{
    let per = periodic_row(r);
    let s26: Seq<usize> = seq![ROW_S_LEAF_LINK, ROW_R_LEAF_LINK, ROW_NULL_LINK];
    assert(per[26] == selector_spec(s26, r));
    if r == 7 {
        assert(s26[0] == r);
    }
    if r == 279 {
        assert(s26[1] == r);
    }
    if r == 559 {
        assert(s26[2] == r);
    }
    let s27: Seq<usize> = seq![ROW_S_LEAF_DONE, ROW_R_LEAF_DONE];
    assert(per[27] == selector_spec(s27, r));
    if r == 15 {
        assert(s27[0] == r);
    }
    if r == 287 {
        assert(s27[1] == r);
    }
    let s28: Seq<usize> = seq![ROW_S_LEAF_LINK];
    assert(per[28] == selector_spec(s28, r));
    if r == 7 {
        assert(s28[0] == r);
    }
    let s29: Seq<usize> = seq![ROW_R_LEAF_LINK];
    assert(per[29] == selector_spec(s29, r));
    if r == 279 {
        assert(s29[0] == r);
    }
    let s30: Seq<usize> = seq![ROW_NULL_LINK];
    assert(per[30] == selector_spec(s30, r));
    if r == 559 {
        assert(s30[0] == r);
    }
    let s31: Seq<usize> = seq![0usize];
    assert(per[31] == selector_spec(s31, r));
    if r == 0 {
        assert(s31[0] == r);
    }
    let s32: Seq<usize> = seq![ROW_S_ROOT];
    assert(per[32] == selector_spec(s32, r));
    if r == 271 {
        assert(s32[0] == r);
    }
    let s33: Seq<usize> = seq![ROW_R_ROOT];
    assert(per[33] == selector_spec(s33, r));
    if r == 543 {
        assert(s33[0] == r);
    }
    let s34: Seq<usize> = seq![ROW_R_ROOT];
    assert(per[34] == selector_spec(s34, r));
    if r == 543 {
        assert(s34[0] == r);
    }
    let s35: Seq<usize> = seq![ROW_PK_DONE];
    assert(per[35] == selector_spec(s35, r));
    if r == 551 {
        assert(s35[0] == r);
    }
    let s36: Seq<usize> = seq![ROW_NULLIFIER];
    assert(per[36] == selector_spec(s36, r));
    if r == 567 {
        assert(s36[0] == r);
    }
    let s46: Seq<usize> = seq![ROW_NULL_ROOT];
    assert(per[46] == selector_spec(s46, r));
    if r == 823 {
        assert(s46[0] == r);
    }
    assert(per[25] == selector_spec(merkle_link_rows(), r));
    assert(per[47] == selector_spec(cycle_end_rows(103, 23), r));
    let m = merkle_link_rows();
    assert(m.len() == 93);
    if merkle_row(r) {
        let c = r / 8;
        if c <= 32 {
            assert(m[c - 2] == cycle_end_rows(2, 31)[c - 2]);
            assert(m[c - 2] == r);
        } else if c <= 66 {
            assert(m[31 + (c - 36)] == cycle_end_rows(36, 31)[c - 36]);
            assert(m[31 + (c - 36)] == r);
        } else {
            assert(m[62 + (c - 71)] == cycle_end_rows(71, 31)[c - 71]);
            assert(m[62 + (c - 71)] == r);
        }
    } else {
        assert forall|l: int| 0 <= l < m.len() implies m[l] != r by {
            if l < 31 {
                assert(m[l] == cycle_end_rows(2, 31)[l]);
            } else if l < 62 {
                assert(m[l] == cycle_end_rows(36, 31)[l - 31]);
            } else {
                assert(m[l] == cycle_end_rows(71, 31)[l - 62]);
            }
        }
    }
    let f = cycle_end_rows(103, 23);
    if frozen_link_row(r) {
        assert(f[r / 8 - 103] == r);
    } else {
        assert forall|l: int| 0 <= l < f.len() implies f[l] != r by {}
    }
}

/// The residuals of the shared climbs and of the entry into the nullifier
/// tree (constraints 24..36).
#[verifier::spinoff_prover]
#[verifier::rlimit(100)]
proof fn lemma_level_residuals_a(cur: Seq<u64>, nxt: Seq<u64>, per: Seq<u64>, r: int, leaf: Seq<u64>)
    requires
        cur.len() == TRACE_WIDTH,
        nxt.len() == TRACE_WIDTH,
        per.len() == 48,
        per[25] == (if merkle_row(r) { 1u64 } else { 0u64 }),
        per[27] == (if r == 15 || r == 287 { 1u64 } else { 0u64 }),
        per[36] == (if r == 567 { 1u64 } else { 0u64 }),
        level_link_row(r) ==> {
            &&& nxt[24] == 0 || nxt[24] == 1
            &&& forall|j: int| (0 <= j < 4 || 12 <= j < 16) ==> #[trigger] nxt[j] == 0
            &&& nxt[24] == 1 ==> forall|j: int| (8 <= j < 12 || 20 <= j < 24) ==> #[trigger] nxt[j] == cur[j - 4]
            &&& nxt[24] == 1 ==> forall|j: int| 4 <= j < 8 ==> #[trigger] nxt[j] == nxt[j + 12]
            &&& nxt[24] == 0 ==> forall|j: int| (4 <= j < 8 || 16 <= j < 20) ==> #[trigger] nxt[j] == cur[j]
            &&& nxt[24] == 0 ==> forall|j: int| 8 <= j < 12 ==> #[trigger] nxt[j] == nxt[j + 12]
        },
        r == 567 ==> {
            &&& nxt[24] == 0 || nxt[24] == 1
            &&& forall|j: int| (0 <= j < 4 || 12 <= j < 16) ==> #[trigger] nxt[j] == 0
            &&& nxt[24] == 1 ==> forall|j: int| 20 <= j < 24 ==> #[trigger] nxt[j] == cur[j - 4]
            &&& nxt[24] == 1 ==> forall|j: int| 4 <= j < 8 ==> #[trigger] nxt[j] == nxt[j + 12] && nxt[j + 4] == leaf[j - 4]
            &&& nxt[24] == 0 ==> forall|j: int| 16 <= j < 20 ==> #[trigger] nxt[j] == cur[j]
            &&& nxt[24] == 0 ==> forall|j: int| 8 <= j < 12 ==> #[trigger] nxt[j] == nxt[j + 12] && nxt[j - 4] == leaf[j - 8]
        },
        cur[24] == 0 || cur[24] == 1,
    ensures
        forall|j: int| 0 <= j < 12 ==> #[trigger] residuals_0(cur, nxt, per)[j] == 0,
{
    let p: nat = MODULUS as nat;
    vstd::arithmetic::div_mod::lemma_small_mod(0, p);
    vstd::arithmetic::div_mod::lemma_small_mod(1, p);
    assert forall|x: u64| #[trigger] mul_spec(0u64, x) == 0 by {
        assert(0u64 * x == 0);
    }
    assert forall|x: u64| #[trigger] mul_spec(1u64, x) == reduce(x as int) by {
        assert(1u64 * x == x);
    }
    assert forall|x: u64| #[trigger] sub_spec(x, x) == 0 by {}
    assert(sub_spec(1u64, 1u64) == 0);
    assert(sub_spec(1u64, 0u64) == 1);
    assert(level_link_row(r) == (merkle_row(r) || r == 15 || r == 287));
    assert(add_spec(per[25], per[27]) == if level_link_row(r) { 1u64 } else { 0u64 });
    assert(add_spec(add_spec(per[25], per[27]), per[36]) == if level_link_row(r) || r == 567 { 1u64 } else { 0u64 });
    assert(mul_spec(cur[24], sub_spec(cur[24], 1u64)) == 0) by {
        if cur[24] == 1 {
            assert(sub_spec(1u64, 1u64) == 0);
        } else {
            assert(0u64 * sub_spec(cur[24], 1u64) == 0);
        }
    }
    assert forall|j: int| 0 <= j < 12 implies #[trigger] residuals_0(cur, nxt, per)[j] == 0 by {
        reveal(residuals_0);
    }
}

/// The residuals of the shared climbs and of the entry into the nullifier
/// tree (constraints 36..45).
#[verifier::spinoff_prover]
#[verifier::rlimit(100)]
proof fn lemma_level_residuals_b(cur: Seq<u64>, nxt: Seq<u64>, per: Seq<u64>, r: int, leaf: Seq<u64>)
    requires
        cur.len() == TRACE_WIDTH,
        nxt.len() == TRACE_WIDTH,
        per.len() == 48,
        per[25] == (if merkle_row(r) { 1u64 } else { 0u64 }),
        per[27] == (if r == 15 || r == 287 { 1u64 } else { 0u64 }),
        per[36] == (if r == 567 { 1u64 } else { 0u64 }),
        level_link_row(r) ==> {
            &&& nxt[24] == 0 || nxt[24] == 1
            &&& forall|j: int| (0 <= j < 4 || 12 <= j < 16) ==> #[trigger] nxt[j] == 0
            &&& nxt[24] == 1 ==> forall|j: int| (8 <= j < 12 || 20 <= j < 24) ==> #[trigger] nxt[j] == cur[j - 4]
            &&& nxt[24] == 1 ==> forall|j: int| 4 <= j < 8 ==> #[trigger] nxt[j] == nxt[j + 12]
            &&& nxt[24] == 0 ==> forall|j: int| (4 <= j < 8 || 16 <= j < 20) ==> #[trigger] nxt[j] == cur[j]
            &&& nxt[24] == 0 ==> forall|j: int| 8 <= j < 12 ==> #[trigger] nxt[j] == nxt[j + 12]
        },
        r == 567 ==> {
            &&& nxt[24] == 0 || nxt[24] == 1
            &&& forall|j: int| (0 <= j < 4 || 12 <= j < 16) ==> #[trigger] nxt[j] == 0
            &&& nxt[24] == 1 ==> forall|j: int| 20 <= j < 24 ==> #[trigger] nxt[j] == cur[j - 4]
            &&& nxt[24] == 1 ==> forall|j: int| 4 <= j < 8 ==> #[trigger] nxt[j] == nxt[j + 12] && nxt[j + 4] == leaf[j - 4]
            &&& nxt[24] == 0 ==> forall|j: int| 16 <= j < 20 ==> #[trigger] nxt[j] == cur[j]
            &&& nxt[24] == 0 ==> forall|j: int| 8 <= j < 12 ==> #[trigger] nxt[j] == nxt[j + 12] && nxt[j - 4] == leaf[j - 8]
        },
        cur[24] == 0 || cur[24] == 1,
    ensures
        forall|j: int| 0 <= j < 9 ==> #[trigger] residuals_1(cur, nxt, per)[j] == 0,
{
    let p: nat = MODULUS as nat;
    vstd::arithmetic::div_mod::lemma_small_mod(0, p);
    vstd::arithmetic::div_mod::lemma_small_mod(1, p);
    assert forall|x: u64| #[trigger] mul_spec(0u64, x) == 0 by {
        assert(0u64 * x == 0);
    }
    assert forall|x: u64| #[trigger] mul_spec(1u64, x) == reduce(x as int) by {
        assert(1u64 * x == x);
    }
    assert forall|x: u64| #[trigger] sub_spec(x, x) == 0 by {}
    assert(sub_spec(1u64, 1u64) == 0);
    assert(sub_spec(1u64, 0u64) == 1);
    assert(level_link_row(r) == (merkle_row(r) || r == 15 || r == 287));
    assert(add_spec(per[25], per[27]) == if level_link_row(r) { 1u64 } else { 0u64 });
    assert(add_spec(add_spec(per[25], per[27]), per[36]) == if level_link_row(r) || r == 567 { 1u64 } else { 0u64 });
    assert(mul_spec(cur[24], sub_spec(cur[24], 1u64)) == 0) by {
        if cur[24] == 1 {
            assert(sub_spec(1u64, 1u64) == 0);
        } else {
            assert(0u64 * sub_spec(cur[24], 1u64) == 0);
        }
    }
    assert forall|j: int| 0 <= j < 9 implies #[trigger] residuals_1(cur, nxt, per)[j] == 0 by {
        reveal(residuals_1);
    }
}

/// The residuals after the leaves (constraints 45..67).
#[verifier::spinoff_prover]
#[verifier::rlimit(100)]
proof fn lemma_nonce_residuals(cur: Seq<u64>, nxt: Seq<u64>, per: Seq<u64>, r: int)
    requires
        cur.len() == TRACE_WIDTH,
        nxt.len() == TRACE_WIDTH,
        per.len() == 48,
        per[26] == (if r == 7 || r == 279 || r == 559 { 1u64 } else { 0u64 }),
        per[28] == (if r == 7 { 1u64 } else { 0u64 }),
        per[29] == (if r == 279 { 1u64 } else { 0u64 }),
        per[30] == (if r == 559 { 1u64 } else { 0u64 }),
        r == 7 || r == 279 || r == 559 ==> {
            &&& forall|j: int| (0 <= j < 4 || 12 <= j < 16) ==> #[trigger] nxt[j] == 0
            &&& forall|j: int| (4 <= j < 8 || 16 <= j < 20) ==> #[trigger] nxt[j] == cur[j]
            &&& r == 7 ==> nxt[8] == cur[34] && nxt[20] == add_spec(cur[34], 1u64)
            &&& r == 279 ==> nxt[8] == cur[41] && nxt[20] == cur[41]
            &&& r == 559 ==> nxt[8] == cur[34] && nxt[20] == cur[34]
        },
    ensures
        forall|j: int| 9 <= j < 12 ==> #[trigger] residuals_1(cur, nxt, per)[j] == 0,
        forall|j: int| 0 <= j < 12 ==> #[trigger] residuals_2(cur, nxt, per)[j] == 0,
        forall|j: int| 0 <= j < 7 ==> #[trigger] residuals_3(cur, nxt, per)[j] == 0,
{
    let p: nat = MODULUS as nat;
    vstd::arithmetic::div_mod::lemma_small_mod(0, p);
    vstd::arithmetic::div_mod::lemma_small_mod(1, p);
    assert forall|x: u64| #[trigger] mul_spec(0u64, x) == 0 by {
        assert(0u64 * x == 0);
    }
    assert forall|x: u64| #[trigger] mul_spec(1u64, x) == reduce(x as int) by {
        assert(1u64 * x == x);
    }
    assert forall|x: u64| #[trigger] sub_spec(x, x) == 0 by {}
    assert(sub_spec(1u64, 1u64) == 0);
    assert(sub_spec(1u64, 0u64) == 1);
    assert forall|j: int| 9 <= j < 12 implies #[trigger] residuals_1(cur, nxt, per)[j] == 0 by {
        reveal(residuals_1);
    }
    assert forall|j: int| 0 <= j < 12 implies #[trigger] residuals_2(cur, nxt, per)[j] == 0 by {
        reveal(residuals_2);
    }
    assert forall|j: int| 0 <= j < 7 implies #[trigger] residuals_3(cur, nxt, per)[j] == 0 by {
        reveal(residuals_3);
    }
}

/// The residuals of the first row and of the rows after the sender's and
/// the receiver's roots (constraints 67..95).
#[verifier::spinoff_prover]
#[verifier::rlimit(100)]
proof fn lemma_root_residuals(cur: Seq<u64>, nxt: Seq<u64>, per: Seq<u64>, r: int)
    requires
        cur.len() == TRACE_WIDTH,
        nxt.len() == TRACE_WIDTH,
        per.len() == 48,
        per[31] == (if r == 0 { 1u64 } else { 0u64 }),
        per[32] == (if r == 271 { 1u64 } else { 0u64 }),
        per[33] == (if r == 543 { 1u64 } else { 0u64 }),
        r == 0 ==> forall|j: int| (4 <= j < 8 || 16 <= j < 20) ==> #[trigger] cur[j] == cur[if j < 8 { j + 25 } else { j + 13 }],
        r == 0 ==> cur[8] == cur[33] && cur[20] == cur[35],
        r == 271 ==> forall|j: int| (4 <= j < 8 || 16 <= j < 20) ==> #[trigger] nxt[j] == cur[if j < 8 { j + 32 } else { j + 20 }],
        r == 271 ==> nxt[8] == cur[40] && nxt[20] == cur[42],
        r == 271 ==> forall|j: int| 16 <= j < 20 ==> #[trigger] cur[j] == cur[j + 29],
        r == 543 ==> forall|j: int| 4 <= j < 8 ==> #[trigger] cur[j] == cur[j + 41],
    ensures
        forall|j: int| 7 <= j < 12 ==> #[trigger] residuals_3(cur, nxt, per)[j] == 0,
        forall|j: int| 0 <= j < 12 ==> #[trigger] residuals_4(cur, nxt, per)[j] == 0,
        forall|j: int| 0 <= j < 11 ==> #[trigger] residuals_5(cur, nxt, per)[j] == 0,
{
    let p: nat = MODULUS as nat;
    vstd::arithmetic::div_mod::lemma_small_mod(0, p);
    vstd::arithmetic::div_mod::lemma_small_mod(1, p);
    assert forall|x: u64| #[trigger] mul_spec(0u64, x) == 0 by {
        assert(0u64 * x == 0);
    }
    assert forall|x: u64| #[trigger] mul_spec(1u64, x) == reduce(x as int) by {
        assert(1u64 * x == x);
    }
    assert forall|x: u64| #[trigger] sub_spec(x, x) == 0 by {}
    assert(sub_spec(1u64, 1u64) == 0);
    assert(sub_spec(1u64, 0u64) == 1);
    assert forall|j: int| 7 <= j < 12 implies #[trigger] residuals_3(cur, nxt, per)[j] == 0 by {
        reveal(residuals_3);
    }
    assert forall|j: int| 0 <= j < 12 implies #[trigger] residuals_4(cur, nxt, per)[j] == 0 by {
        reveal(residuals_4);
    }
    assert forall|j: int| 0 <= j < 11 implies #[trigger] residuals_5(cur, nxt, per)[j] == 0 by {
        reveal(residuals_5);
    }
}

/// The residuals of the key derivation and of the nullifier's start
/// (constraints 121..141).
#[verifier::spinoff_prover]
#[verifier::rlimit(100)]
proof fn lemma_key_residuals(cur: Seq<u64>, nxt: Seq<u64>, per: Seq<u64>, r: int)
    requires
        cur.len() == TRACE_WIDTH,
        nxt.len() == TRACE_WIDTH,
        per.len() == 48,
        per[34] == (if r == 543 { 1u64 } else { 0u64 }),
        per[35] == (if r == 551 { 1u64 } else { 0u64 }),
        (r == 543 || r == 551) ==> forall|j: int| (8 <= j < 12 || 20 <= j < 24) ==> #[trigger] nxt[j] == cur[if j < 12 { j + 17 } else { j + 5 }],
        r == 551 ==> forall|j: int| 4 <= j < 8 ==> #[trigger] cur[j] == cur[j + 25],
    ensures
        forall|j: int| 1 <= j < 12 ==> #[trigger] residuals_8(cur, nxt, per)[j] == 0,
        forall|j: int| 0 <= j < 9 ==> #[trigger] residuals_9(cur, nxt, per)[j] == 0,
{
    let p: nat = MODULUS as nat;
    vstd::arithmetic::div_mod::lemma_small_mod(0, p);
    vstd::arithmetic::div_mod::lemma_small_mod(1, p);
    assert forall|x: u64| #[trigger] mul_spec(0u64, x) == 0 by {
        assert(0u64 * x == 0);
    }
    assert forall|x: u64| #[trigger] mul_spec(1u64, x) == reduce(x as int) by {
        assert(1u64 * x == x);
    }
    assert forall|x: u64| #[trigger] sub_spec(x, x) == 0 by {}
    assert(sub_spec(1u64, 1u64) == 0);
    assert(sub_spec(1u64, 0u64) == 1);
    assert forall|j: int| 1 <= j < 12 implies #[trigger] residuals_8(cur, nxt, per)[j] == 0 by {
        reveal(residuals_8);
    }
    assert forall|j: int| 0 <= j < 9 implies #[trigger] residuals_9(cur, nxt, per)[j] == 0 by {
        reveal(residuals_9);
    }
}

/// The residuals of the position the nullifier goes into (constraints
/// 141..145): a free position holds the zero leaf.
#[verifier::spinoff_prover]
#[verifier::rlimit(100)]
proof fn lemma_free_leaf_residuals(cur: Seq<u64>, nxt: Seq<u64>, per: Seq<u64>, r: int, leaf: Seq<u64>)
    requires
        cur.len() == TRACE_WIDTH,
        nxt.len() == TRACE_WIDTH,
        per.len() == 48,
        per[36] == (if r == 567 { 1u64 } else { 0u64 }),
        r == 567 ==> {
            &&& nxt[24] == 0 || nxt[24] == 1
            &&& forall|j: int| (0 <= j < 4 || 12 <= j < 16) ==> #[trigger] nxt[j] == 0
            &&& nxt[24] == 1 ==> forall|j: int| 20 <= j < 24 ==> #[trigger] nxt[j] == cur[j - 4]
            &&& nxt[24] == 1 ==> forall|j: int| 4 <= j < 8 ==> #[trigger] nxt[j] == nxt[j + 12] && nxt[j + 4] == leaf[j - 4]
            &&& nxt[24] == 0 ==> forall|j: int| 16 <= j < 20 ==> #[trigger] nxt[j] == cur[j]
            &&& nxt[24] == 0 ==> forall|j: int| 8 <= j < 12 ==> #[trigger] nxt[j] == nxt[j + 12] && nxt[j - 4] == leaf[j - 8]
        },
        leaf == seq![0u64, 0u64, 0u64, 0u64],
    ensures
        forall|j: int| 9 <= j < 12 ==> #[trigger] residuals_9(cur, nxt, per)[j] == 0,
        residuals_10(cur, nxt, per)[0] == 0,
{
    let p: nat = MODULUS as nat;
    vstd::arithmetic::div_mod::lemma_small_mod(0, p);
    vstd::arithmetic::div_mod::lemma_small_mod(1, p);
    assert forall|x: u64| #[trigger] mul_spec(0u64, x) == 0 by {
        assert(0u64 * x == 0);
    }
    assert forall|x: u64| #[trigger] mul_spec(1u64, x) == reduce(x as int) by {
        assert(1u64 * x == x);
    }
    assert forall|x: u64| #[trigger] sub_spec(x, x) == 0 by {}
    assert(sub_spec(1u64, 1u64) == 0);
    assert(sub_spec(1u64, 0u64) == 1);
    if r == 567 {
        assert(leaf[0] == 0 && leaf[1] == 0 && leaf[2] == 0 && leaf[3] == 0);
    }
    assert forall|j: int| 9 <= j < 12 implies #[trigger] residuals_9(cur, nxt, per)[j] == 0 by {
        reveal(residuals_9);
    }
    assert(residuals_10(cur, nxt, per)[0] == 0) by {
        reveal(residuals_10);
    }
}

/// The residuals of the frozen tree (constraints 157..170).
#[verifier::spinoff_prover]
#[verifier::rlimit(100)]
proof fn lemma_frozen_residuals(cur: Seq<u64>, nxt: Seq<u64>, per: Seq<u64>, r: int)
    requires
        cur.len() == TRACE_WIDTH,
        nxt.len() == TRACE_WIDTH,
        per.len() == 48,
        per[46] == (if r == 823 { 1u64 } else { 0u64 }),
        per[47] == (if frozen_link_row(r) { 1u64 } else { 0u64 }),
        r == 823 || frozen_link_row(r) ==> {
            &&& nxt[51] == 0 || nxt[51] == 1
            &&& forall|j: int| 0 <= j < 4 ==> #[trigger] nxt[j] == 0
            &&& r == 823 && nxt[51] == 1 ==> forall|j: int| 8 <= j < 12 ==> #[trigger] nxt[j] == 0
            &&& r == 823 && nxt[51] == 0 ==> forall|j: int| 4 <= j < 8 ==> #[trigger] nxt[j] == 0
            &&& frozen_link_row(r) && nxt[51] == 1 ==> forall|j: int| 8 <= j < 12 ==> #[trigger] nxt[j] == cur[j - 4]
            &&& frozen_link_row(r) && nxt[51] == 0 ==> forall|j: int| 4 <= j < 8 ==> #[trigger] nxt[j] == cur[j]
        },
        cur[51] == 0 || cur[51] == 1,
    ensures
        forall|j: int| 1 <= j < 12 ==> #[trigger] residuals_11(cur, nxt, per)[j] == 0,
        forall|j: int| 0 <= j < 2 ==> #[trigger] residuals_12(cur, nxt, per)[j] == 0,
{
    let p: nat = MODULUS as nat;
    vstd::arithmetic::div_mod::lemma_small_mod(0, p);
    vstd::arithmetic::div_mod::lemma_small_mod(1, p);
    assert forall|x: u64| #[trigger] mul_spec(0u64, x) == 0 by {
        assert(0u64 * x == 0);
    }
    assert forall|x: u64| #[trigger] mul_spec(1u64, x) == reduce(x as int) by {
        assert(1u64 * x == x);
    }
    assert forall|x: u64| #[trigger] sub_spec(x, x) == 0 by {}
    assert(sub_spec(1u64, 1u64) == 0);
    assert(sub_spec(1u64, 0u64) == 1);
    assert(add_spec(per[46], per[47]) == if r == 823 || frozen_link_row(r) { 1u64 } else { 0u64 });
    assert(mul_spec(cur[51], sub_spec(cur[51], 1u64)) == 0) by {
        if cur[51] == 1 {
            assert(sub_spec(1u64, 1u64) == 0);
        } else {
            assert(0u64 * sub_spec(cur[51], 1u64) == 0);
        }
    }
    assert forall|j: int| 1 <= j < 12 implies #[trigger] residuals_11(cur, nxt, per)[j] == 0 by {
        reveal(residuals_11);
    }
    assert forall|j: int| 0 <= j < 2 implies #[trigger] residuals_12(cur, nxt, per)[j] == 0 by {
        reveal(residuals_12);
    }
}

/// The residuals of the balances.
#[verifier::spinoff_prover]
#[verifier::rlimit(60)]
proof fn lemma_balance_residuals(cur: Seq<u64>, nxt: Seq<u64>, per: Seq<u64>)
    requires
        cur.len() == TRACE_WIDTH,
        nxt.len() == TRACE_WIDTH,
        per.len() == 48,
        cur[35] == sub_spec(cur[33], cur[43]),
        cur[42] == add_spec(cur[40], cur[43]),
    ensures
        residuals_5(cur, nxt, per)[11] == 0,
        residuals_6(cur, nxt, per)[0] == 0,
{
    vstd::arithmetic::div_mod::lemma_small_mod(0, MODULUS as nat);
    assert(sub_spec(cur[35], sub_spec(cur[33], cur[43])) == 0);
    assert(sub_spec(cur[42], add_spec(cur[40], cur[43])) == 0);
    assert(residuals_5(cur, nxt, per)[11] == 0) by {
        reveal(residuals_5);
    }
    assert(residuals_6(cur, nxt, per)[0] == 0) by {
        reveal(residuals_6);
    }
}

/// The residuals of the constant columns.
#[verifier::spinoff_prover]
#[verifier::rlimit(60)]
proof fn lemma_constant_residuals(cur: Seq<u64>, nxt: Seq<u64>, per: Seq<u64>)
    requires
        cur.len() == TRACE_WIDTH,
        nxt.len() == TRACE_WIDTH,
        per.len() == 48,
        forall|col: int| 25 <= col < 49 ==> #[trigger] sub_spec(nxt[col], cur[col]) == 0,
    ensures
        forall|j: int| 1 <= j < 12 ==> #[trigger] residuals_6(cur, nxt, per)[j] == 0,
        forall|j: int| 0 <= j < 12 ==> #[trigger] residuals_7(cur, nxt, per)[j] == 0,
        residuals_8(cur, nxt, per)[0] == 0,
{
    assert(sub_spec(nxt[25], cur[25]) == 0);
    assert(sub_spec(nxt[26], cur[26]) == 0);
    assert(sub_spec(nxt[27], cur[27]) == 0);
    assert(sub_spec(nxt[28], cur[28]) == 0);
    assert(sub_spec(nxt[29], cur[29]) == 0);
    assert(sub_spec(nxt[30], cur[30]) == 0);
    assert(sub_spec(nxt[31], cur[31]) == 0);
    assert(sub_spec(nxt[32], cur[32]) == 0);
    assert(sub_spec(nxt[33], cur[33]) == 0);
    assert(sub_spec(nxt[34], cur[34]) == 0);
    assert(sub_spec(nxt[35], cur[35]) == 0);
    assert(sub_spec(nxt[36], cur[36]) == 0);
    assert(sub_spec(nxt[37], cur[37]) == 0);
    assert(sub_spec(nxt[38], cur[38]) == 0);
    assert(sub_spec(nxt[39], cur[39]) == 0);
    assert(sub_spec(nxt[40], cur[40]) == 0);
    assert(sub_spec(nxt[41], cur[41]) == 0);
    assert(sub_spec(nxt[42], cur[42]) == 0);
    assert(sub_spec(nxt[43], cur[43]) == 0);
    assert(sub_spec(nxt[44], cur[44]) == 0);
    assert(sub_spec(nxt[45], cur[45]) == 0);
    assert(sub_spec(nxt[46], cur[46]) == 0);
    assert(sub_spec(nxt[47], cur[47]) == 0);
    assert(sub_spec(nxt[48], cur[48]) == 0);
    assert forall|j: int| 1 <= j < 12 implies #[trigger] residuals_6(cur, nxt, per)[j] == 0 by {
        reveal(residuals_6);
    }
    assert forall|j: int| 0 <= j < 12 implies #[trigger] residuals_7(cur, nxt, per)[j] == 0 by {
        reveal(residuals_7);
    }
    assert(residuals_8(cur, nxt, per)[0] == 0) by {
        reveal(residuals_8);
    }
}

proof fn lemma_residuals_len_12(cur: Seq<u64>, nxt: Seq<u64>, per: Seq<u64>)
    ensures
        residuals_12(cur, nxt, per).len() == 2,
{
    reveal(residuals_12);
}

/// Every step of an honest trace satisfies every transition constraint,
/// for an honest settlement: the rounds of both lanes, the nonces after
/// the leaves, the three shared climbs, the receiver's leaf after the
/// sender's root, the key derivation and its identity, the nullifier and
/// the free position it goes into, the frozen tree, the carried
/// intermediate root, the balances, the seven range checks, and the
/// constant columns.
#[verifier::spinoff_prover]
#[verifier::rlimit(100)]
pub proof fn lemma_trace_satisfies_constraints(sender: SenderWitness, receiver: ReceiverWitness, amount: u64, credited: u64, limit: u64, s_id: Seq<u64>, null_path: MerklePath, null_leaf_a: Digest, frozen_path: MerklePath, t: Seq<Vec<u64>>, r: int)
    requires
        t.len() == TRACE_WIDTH,
        forall|col: int, q: int|
            0 <= col < TRACE_WIDTH && 0 <= q < TRACE_LENGTH ==> #[trigger] t[col][q] == cell_spec(sender, receiver, amount, credited, limit, s_id, null_path, null_leaf_a, frozen_path, col, q),
        lanes_hold(sender, receiver, amount, credited, limit, s_id, null_path, null_leaf_a, frozen_path),
        path_ok(sender.path, 32),
        path_ok(receiver.path, 32),
        path_ok(null_path, 32),
        path_ok(frozen_path, 24),
        honest_settlement(sender, receiver, amount, credited, limit, s_id, null_leaf_a),
        0 <= r < TRACE_LENGTH - 1,
    ensures
        forall|k: int| 0 <= k < NUM_CONSTRAINTS ==> #[trigger] constraint_spec(k, row_of(t, r), row_of(t, r + 1), periodic_row(r)) == 0,
{
    let cur = row_of(t, r);
    let nxt = row_of(t, r + 1);
    let per = periodic_row(r);
    lemma_trace_satisfies_round_constraints(sender, receiver, amount, credited, limit, s_id, null_path, null_leaf_a, frozen_path, t, r);
    lemma_trace_range_constraints(sender, receiver, amount, credited, limit, s_id, null_path, null_leaf_a, frozen_path, t, r);
    lemma_link_selectors(r);
    if level_link_row(r) {
        lemma_level_link_facts(sender, receiver, amount, credited, limit, s_id, null_path, null_leaf_a, frozen_path, t, r);
    }
    if r == 567 {
        lemma_null_entry_facts(sender, receiver, amount, credited, limit, s_id, null_path, null_leaf_a, frozen_path, t);
    }
    if r == 823 || frozen_link_row(r) {
        lemma_frozen_facts(sender, receiver, amount, credited, limit, s_id, null_path, null_leaf_a, frozen_path, t, r);
    }
    if r == 7 || r == 279 || r == 559 {
        lemma_nonce_link_facts(sender, receiver, amount, credited, limit, s_id, null_path, null_leaf_a, frozen_path, t, r);
    }
    if r == 271 || r == 543 || r == 551 {
        lemma_root_row_facts(sender, receiver, amount, credited, limit, s_id, null_path, null_leaf_a, frozen_path, t, r);
    }
    if r == 0 {
        lemma_first_row_facts(sender, receiver, amount, credited, limit, s_id, null_path, null_leaf_a, frozen_path, t);
    }
    assert(cur[24] == 0 || cur[24] == 1) by {
        assert(t[24][r] == cell_spec(sender, receiver, amount, credited, limit, s_id, null_path, null_leaf_a, frozen_path, 24, r));
    }
    assert(cur[51] == 0 || cur[51] == 1) by {
        assert(t[51][r] == cell_spec(sender, receiver, amount, credited, limit, s_id, null_path, null_leaf_a, frozen_path, 51, r));
    }
    assert(cur[35] == sub_spec(cur[33], cur[43]) && cur[42] == add_spec(cur[40], cur[43])) by {
        assert(t[33][r] == cell_spec(sender, receiver, amount, credited, limit, s_id, null_path, null_leaf_a, frozen_path, 33, r));
        assert(t[35][r] == cell_spec(sender, receiver, amount, credited, limit, s_id, null_path, null_leaf_a, frozen_path, 35, r));
        assert(t[40][r] == cell_spec(sender, receiver, amount, credited, limit, s_id, null_path, null_leaf_a, frozen_path, 40, r));
        assert(t[42][r] == cell_spec(sender, receiver, amount, credited, limit, s_id, null_path, null_leaf_a, frozen_path, 42, r));
        assert(t[43][r] == cell_spec(sender, receiver, amount, credited, limit, s_id, null_path, null_leaf_a, frozen_path, 43, r));
    }
    assert forall|col: int| 25 <= col < 49 implies #[trigger] sub_spec(nxt[col], cur[col]) == 0 by {
        assert(t[col][r] == cell_spec(sender, receiver, amount, credited, limit, s_id, null_path, null_leaf_a, frozen_path, col, r));
        assert(t[col][r + 1] == cell_spec(sender, receiver, amount, credited, limit, s_id, null_path, null_leaf_a, frozen_path, col, r + 1));
    }
    lemma_level_residuals_a(cur, nxt, per, r, null_leaf_a@);
    lemma_level_residuals_b(cur, nxt, per, r, null_leaf_a@);
    lemma_nonce_residuals(cur, nxt, per, r);
    lemma_root_residuals(cur, nxt, per, r);
    lemma_key_residuals(cur, nxt, per, r);
    lemma_free_leaf_residuals(cur, nxt, per, r, null_leaf_a@);
    lemma_frozen_residuals(cur, nxt, per, r);
    lemma_balance_residuals(cur, nxt, per);
    lemma_constant_residuals(cur, nxt, per);
    lemma_residuals_len_0(cur, nxt, per);
    lemma_residuals_len_1(cur, nxt, per);
    lemma_residuals_len_2(cur, nxt, per);
    lemma_residuals_len_3(cur, nxt, per);
    lemma_residuals_len_4(cur, nxt, per);
    lemma_residuals_len_5(cur, nxt, per);
    lemma_residuals_len_6(cur, nxt, per);
    lemma_residuals_len_7(cur, nxt, per);
    lemma_residuals_len_8(cur, nxt, per);
    lemma_residuals_len_9(cur, nxt, per);
    lemma_residuals_len_10(cur, nxt, per);
    lemma_residuals_len_11(cur, nxt, per);
    lemma_residuals_len_12(cur, nxt, per);
    assert forall|k: int| 24 <= k < NUM_CONSTRAINTS implies #[trigger] constraint_spec(k, cur, nxt, per) == 0 by {
        if k < 36 {
            assert(constraint_spec(k, cur, nxt, per) == residuals_0(cur, nxt, per)[k - 24]);
        } else if k < 48 {
            assert(constraint_spec(k, cur, nxt, per) == residuals_1(cur, nxt, per)[k - 36]);
        } else if k < 60 {
            assert(constraint_spec(k, cur, nxt, per) == residuals_2(cur, nxt, per)[k - 48]);
        } else if k < 72 {
            assert(constraint_spec(k, cur, nxt, per) == residuals_3(cur, nxt, per)[k - 60]);
        } else if k < 84 {
            assert(constraint_spec(k, cur, nxt, per) == residuals_4(cur, nxt, per)[k - 72]);
        } else if k < 96 {
            assert(constraint_spec(k, cur, nxt, per) == residuals_5(cur, nxt, per)[k - 84]);
        } else if k < 108 {
            assert(constraint_spec(k, cur, nxt, per) == residuals_6(cur, nxt, per)[k - 96]);
        } else if k < 120 {
            assert(constraint_spec(k, cur, nxt, per) == residuals_7(cur, nxt, per)[k - 108]);
        } else if k < 132 {
            assert(constraint_spec(k, cur, nxt, per) == residuals_8(cur, nxt, per)[k - 120]);
        } else if k < 144 {
            assert(constraint_spec(k, cur, nxt, per) == residuals_9(cur, nxt, per)[k - 132]);
        } else if k < 156 {
            assert(constraint_spec(k, cur, nxt, per) == residuals_10(cur, nxt, per)[k - 144]);
        } else if k < 168 {
            assert(constraint_spec(k, cur, nxt, per) == residuals_11(cur, nxt, per)[k - 156]);
        } else {
            assert(constraint_spec(k, cur, nxt, per) == residuals_12(cur, nxt, per)[k - 168]);
        }
    }
}

#[verifier::spinoff_prover]
#[verifier::rlimit(100)]
proof fn lemma_accepted_constraint_145(cur: Seq<u64>, nxt: Seq<u64>, per: Seq<u64>)
    requires
        cur.len() == TRACE_WIDTH,
        nxt.len() == TRACE_WIDTH,
        all_canonical(cur),
        all_canonical(nxt),
        constraint_spec(145, cur, nxt, per) == 0,
    ensures
        cur[49] <= 1,
{
    lemma_residuals_len_0(cur, nxt, per);
    lemma_residuals_len_1(cur, nxt, per);
    lemma_residuals_len_2(cur, nxt, per);
    lemma_residuals_len_3(cur, nxt, per);
    lemma_residuals_len_4(cur, nxt, per);
    lemma_residuals_len_5(cur, nxt, per);
    lemma_residuals_len_6(cur, nxt, per);
    lemma_residuals_len_7(cur, nxt, per);
    lemma_residuals_len_8(cur, nxt, per);
    lemma_residuals_len_9(cur, nxt, per);
    lemma_residuals_len_10(cur, nxt, per);
    lemma_residuals_len_11(cur, nxt, per);
    lemma_residuals_len_12(cur, nxt, per);
    assert(constraint_spec(145, cur, nxt, per) == residuals_10(cur, nxt, per)[1]);
    reveal(residuals_10);
    lemma_field_bit(cur[49]);
}

#[verifier::spinoff_prover]
#[verifier::rlimit(100)]
proof fn lemma_accepted_constraint_148(cur: Seq<u64>, nxt: Seq<u64>, per: Seq<u64>)
    requires
        cur.len() == TRACE_WIDTH,
        nxt.len() == TRACE_WIDTH,
        all_canonical(cur),
        all_canonical(nxt),
        constraint_spec(148, cur, nxt, per) == 0,
    ensures
        per[37] == 1 ==> cur[50] == 0,
{
    lemma_residuals_len_0(cur, nxt, per);
    lemma_residuals_len_1(cur, nxt, per);
    lemma_residuals_len_2(cur, nxt, per);
    lemma_residuals_len_3(cur, nxt, per);
    lemma_residuals_len_4(cur, nxt, per);
    lemma_residuals_len_5(cur, nxt, per);
    lemma_residuals_len_6(cur, nxt, per);
    lemma_residuals_len_7(cur, nxt, per);
    lemma_residuals_len_8(cur, nxt, per);
    lemma_residuals_len_9(cur, nxt, per);
    lemma_residuals_len_10(cur, nxt, per);
    lemma_residuals_len_11(cur, nxt, per);
    lemma_residuals_len_12(cur, nxt, per);
    assert(constraint_spec(148, cur, nxt, per) == residuals_10(cur, nxt, per)[4]);
    reveal(residuals_10);
    if per[37] == 1 {
        lemma_selected(cur[50]);
    }
}

#[verifier::spinoff_prover]
#[verifier::rlimit(100)]
proof fn lemma_accepted_constraint_149(cur: Seq<u64>, nxt: Seq<u64>, per: Seq<u64>)
    requires
        cur.len() == TRACE_WIDTH,
        nxt.len() == TRACE_WIDTH,
        all_canonical(cur),
        all_canonical(nxt),
        constraint_spec(149, cur, nxt, per) == 0,
    ensures
        per[38] == 1 ==> nxt[50] == add_spec(add_spec(cur[50], cur[50]), nxt[49]),
{
    lemma_residuals_len_0(cur, nxt, per);
    lemma_residuals_len_1(cur, nxt, per);
    lemma_residuals_len_2(cur, nxt, per);
    lemma_residuals_len_3(cur, nxt, per);
    lemma_residuals_len_4(cur, nxt, per);
    lemma_residuals_len_5(cur, nxt, per);
    lemma_residuals_len_6(cur, nxt, per);
    lemma_residuals_len_7(cur, nxt, per);
    lemma_residuals_len_8(cur, nxt, per);
    lemma_residuals_len_9(cur, nxt, per);
    lemma_residuals_len_10(cur, nxt, per);
    lemma_residuals_len_11(cur, nxt, per);
    lemma_residuals_len_12(cur, nxt, per);
    assert(constraint_spec(149, cur, nxt, per) == residuals_10(cur, nxt, per)[5]);
    reveal(residuals_10);
    lemma_reduce_canonical(cur[50] + cur[50]);
    lemma_reduce_canonical(add_spec(cur[50], cur[50]) + nxt[49]);
    if per[38] == 1 {
        lemma_selected_equal(per[38], nxt[50], add_spec(add_spec(cur[50], cur[50]), nxt[49]));
    }
}

#[verifier::spinoff_prover]
#[verifier::rlimit(100)]
proof fn lemma_accepted_constraint_150(cur: Seq<u64>, nxt: Seq<u64>, per: Seq<u64>)
    requires
        cur.len() == TRACE_WIDTH,
        nxt.len() == TRACE_WIDTH,
        all_canonical(cur),
        all_canonical(nxt),
        constraint_spec(150, cur, nxt, per) == 0,
    ensures
        per[39] == 1 ==> nxt[50] == cur[33],
{
    lemma_residuals_len_0(cur, nxt, per);
    lemma_residuals_len_1(cur, nxt, per);
    lemma_residuals_len_2(cur, nxt, per);
    lemma_residuals_len_3(cur, nxt, per);
    lemma_residuals_len_4(cur, nxt, per);
    lemma_residuals_len_5(cur, nxt, per);
    lemma_residuals_len_6(cur, nxt, per);
    lemma_residuals_len_7(cur, nxt, per);
    lemma_residuals_len_8(cur, nxt, per);
    lemma_residuals_len_9(cur, nxt, per);
    lemma_residuals_len_10(cur, nxt, per);
    lemma_residuals_len_11(cur, nxt, per);
    lemma_residuals_len_12(cur, nxt, per);
    assert(constraint_spec(150, cur, nxt, per) == residuals_10(cur, nxt, per)[6]);
    reveal(residuals_10);
    if per[39] == 1 {
        lemma_selected_equal(per[39], nxt[50], cur[33]);
    }
}

#[verifier::spinoff_prover]
#[verifier::rlimit(100)]
proof fn lemma_accepted_constraint_151(cur: Seq<u64>, nxt: Seq<u64>, per: Seq<u64>)
    requires
        cur.len() == TRACE_WIDTH,
        nxt.len() == TRACE_WIDTH,
        all_canonical(cur),
        all_canonical(nxt),
        constraint_spec(151, cur, nxt, per) == 0,
    ensures
        per[40] == 1 ==> nxt[50] == cur[40],
{
    lemma_residuals_len_0(cur, nxt, per);
    lemma_residuals_len_1(cur, nxt, per);
    lemma_residuals_len_2(cur, nxt, per);
    lemma_residuals_len_3(cur, nxt, per);
    lemma_residuals_len_4(cur, nxt, per);
    lemma_residuals_len_5(cur, nxt, per);
    lemma_residuals_len_6(cur, nxt, per);
    lemma_residuals_len_7(cur, nxt, per);
    lemma_residuals_len_8(cur, nxt, per);
    lemma_residuals_len_9(cur, nxt, per);
    lemma_residuals_len_10(cur, nxt, per);
    lemma_residuals_len_11(cur, nxt, per);
    lemma_residuals_len_12(cur, nxt, per);
    assert(constraint_spec(151, cur, nxt, per) == residuals_10(cur, nxt, per)[7]);
    reveal(residuals_10);
    if per[40] == 1 {
        lemma_selected_equal(per[40], nxt[50], cur[40]);
    }
}

#[verifier::spinoff_prover]
#[verifier::rlimit(100)]
proof fn lemma_accepted_constraint_152(cur: Seq<u64>, nxt: Seq<u64>, per: Seq<u64>)
    requires
        cur.len() == TRACE_WIDTH,
        nxt.len() == TRACE_WIDTH,
        all_canonical(cur),
        all_canonical(nxt),
        constraint_spec(152, cur, nxt, per) == 0,
    ensures
        per[41] == 1 ==> nxt[50] == cur[43],
{
    lemma_residuals_len_0(cur, nxt, per);
    lemma_residuals_len_1(cur, nxt, per);
    lemma_residuals_len_2(cur, nxt, per);
    lemma_residuals_len_3(cur, nxt, per);
    lemma_residuals_len_4(cur, nxt, per);
    lemma_residuals_len_5(cur, nxt, per);
    lemma_residuals_len_6(cur, nxt, per);
    lemma_residuals_len_7(cur, nxt, per);
    lemma_residuals_len_8(cur, nxt, per);
    lemma_residuals_len_9(cur, nxt, per);
    lemma_residuals_len_10(cur, nxt, per);
    lemma_residuals_len_11(cur, nxt, per);
    lemma_residuals_len_12(cur, nxt, per);
    assert(constraint_spec(152, cur, nxt, per) == residuals_10(cur, nxt, per)[8]);
    reveal(residuals_10);
    if per[41] == 1 {
        lemma_selected_equal(per[41], nxt[50], cur[43]);
    }
}

#[verifier::spinoff_prover]
#[verifier::rlimit(100)]
proof fn lemma_accepted_constraint_153(cur: Seq<u64>, nxt: Seq<u64>, per: Seq<u64>)
    requires
        cur.len() == TRACE_WIDTH,
        nxt.len() == TRACE_WIDTH,
        all_canonical(cur),
        all_canonical(nxt),
        constraint_spec(153, cur, nxt, per) == 0,
    ensures
        per[42] == 1 ==> nxt[50] == cur[44],
{
    lemma_residuals_len_0(cur, nxt, per);
    lemma_residuals_len_1(cur, nxt, per);
    lemma_residuals_len_2(cur, nxt, per);
    lemma_residuals_len_3(cur, nxt, per);
    lemma_residuals_len_4(cur, nxt, per);
    lemma_residuals_len_5(cur, nxt, per);
    lemma_residuals_len_6(cur, nxt, per);
    lemma_residuals_len_7(cur, nxt, per);
    lemma_residuals_len_8(cur, nxt, per);
    lemma_residuals_len_9(cur, nxt, per);
    lemma_residuals_len_10(cur, nxt, per);
    lemma_residuals_len_11(cur, nxt, per);
    lemma_residuals_len_12(cur, nxt, per);
    assert(constraint_spec(153, cur, nxt, per) == residuals_10(cur, nxt, per)[9]);
    reveal(residuals_10);
    if per[42] == 1 {
        lemma_selected_equal(per[42], nxt[50], cur[44]);
    }
}

#[verifier::spinoff_prover]
#[verifier::rlimit(100)]
proof fn lemma_accepted_constraint_154(cur: Seq<u64>, nxt: Seq<u64>, per: Seq<u64>)
    requires
        cur.len() == TRACE_WIDTH,
        nxt.len() == TRACE_WIDTH,
        all_canonical(cur),
        all_canonical(nxt),
        constraint_spec(154, cur, nxt, per) == 0,
    ensures
        per[43] == 1 ==> nxt[50] == cur[35],
{
    lemma_residuals_len_0(cur, nxt, per);
    lemma_residuals_len_1(cur, nxt, per);
    lemma_residuals_len_2(cur, nxt, per);
    lemma_residuals_len_3(cur, nxt, per);
    lemma_residuals_len_4(cur, nxt, per);
    lemma_residuals_len_5(cur, nxt, per);
    lemma_residuals_len_6(cur, nxt, per);
    lemma_residuals_len_7(cur, nxt, per);
    lemma_residuals_len_8(cur, nxt, per);
    lemma_residuals_len_9(cur, nxt, per);
    lemma_residuals_len_10(cur, nxt, per);
    lemma_residuals_len_11(cur, nxt, per);
    lemma_residuals_len_12(cur, nxt, per);
    assert(constraint_spec(154, cur, nxt, per) == residuals_10(cur, nxt, per)[10]);
    reveal(residuals_10);
    if per[43] == 1 {
        lemma_selected_equal(per[43], nxt[50], cur[35]);
    }
}

#[verifier::spinoff_prover]
#[verifier::rlimit(100)]
proof fn lemma_accepted_constraint_155(cur: Seq<u64>, nxt: Seq<u64>, per: Seq<u64>)
    requires
        cur.len() == TRACE_WIDTH,
        nxt.len() == TRACE_WIDTH,
        all_canonical(cur),
        all_canonical(nxt),
        constraint_spec(155, cur, nxt, per) == 0,
    ensures
        per[44] == 1 ==> nxt[50] == sub_spec(cur[44], cur[43]),
{
    lemma_residuals_len_0(cur, nxt, per);
    lemma_residuals_len_1(cur, nxt, per);
    lemma_residuals_len_2(cur, nxt, per);
    lemma_residuals_len_3(cur, nxt, per);
    lemma_residuals_len_4(cur, nxt, per);
    lemma_residuals_len_5(cur, nxt, per);
    lemma_residuals_len_6(cur, nxt, per);
    lemma_residuals_len_7(cur, nxt, per);
    lemma_residuals_len_8(cur, nxt, per);
    lemma_residuals_len_9(cur, nxt, per);
    lemma_residuals_len_10(cur, nxt, per);
    lemma_residuals_len_11(cur, nxt, per);
    lemma_residuals_len_12(cur, nxt, per);
    assert(constraint_spec(155, cur, nxt, per) == residuals_10(cur, nxt, per)[11]);
    reveal(residuals_10);
    lemma_reduce_canonical(cur[44] - cur[43]);
    if per[44] == 1 {
        lemma_selected_equal(per[44], nxt[50], sub_spec(cur[44], cur[43]));
    }
}

#[verifier::spinoff_prover]
#[verifier::rlimit(100)]
proof fn lemma_accepted_constraint_156(cur: Seq<u64>, nxt: Seq<u64>, per: Seq<u64>)
    requires
        cur.len() == TRACE_WIDTH,
        nxt.len() == TRACE_WIDTH,
        all_canonical(cur),
        all_canonical(nxt),
        constraint_spec(156, cur, nxt, per) == 0,
    ensures
        per[45] == 1 ==> nxt[50] == cur[42],
{
    lemma_residuals_len_0(cur, nxt, per);
    lemma_residuals_len_1(cur, nxt, per);
    lemma_residuals_len_2(cur, nxt, per);
    lemma_residuals_len_3(cur, nxt, per);
    lemma_residuals_len_4(cur, nxt, per);
    lemma_residuals_len_5(cur, nxt, per);
    lemma_residuals_len_6(cur, nxt, per);
    lemma_residuals_len_7(cur, nxt, per);
    lemma_residuals_len_8(cur, nxt, per);
    lemma_residuals_len_9(cur, nxt, per);
    lemma_residuals_len_10(cur, nxt, per);
    lemma_residuals_len_11(cur, nxt, per);
    lemma_residuals_len_12(cur, nxt, per);
    assert(constraint_spec(156, cur, nxt, per) == residuals_11(cur, nxt, per)[0]);
    reveal(residuals_11);
    if per[45] == 1 {
        lemma_selected_equal(per[45], nxt[50], cur[42]);
    }
}

#[verifier::spinoff_prover]
#[verifier::rlimit(100)]
proof fn lemma_accepted_constraint_101(cur: Seq<u64>, nxt: Seq<u64>, per: Seq<u64>)
    requires
        cur.len() == TRACE_WIDTH,
        nxt.len() == TRACE_WIDTH,
        all_canonical(cur),
        all_canonical(nxt),
        constraint_spec(101, cur, nxt, per) == 0,
    ensures
        nxt[33] == cur[33],
{
    lemma_residuals_len_0(cur, nxt, per);
    lemma_residuals_len_1(cur, nxt, per);
    lemma_residuals_len_2(cur, nxt, per);
    lemma_residuals_len_3(cur, nxt, per);
    lemma_residuals_len_4(cur, nxt, per);
    lemma_residuals_len_5(cur, nxt, per);
    lemma_residuals_len_6(cur, nxt, per);
    lemma_residuals_len_7(cur, nxt, per);
    lemma_residuals_len_8(cur, nxt, per);
    lemma_residuals_len_9(cur, nxt, per);
    lemma_residuals_len_10(cur, nxt, per);
    lemma_residuals_len_11(cur, nxt, per);
    lemma_residuals_len_12(cur, nxt, per);
    assert(constraint_spec(101, cur, nxt, per) == residuals_6(cur, nxt, per)[5]);
    reveal(residuals_6);
    lemma_equal(nxt[33], cur[33]);
}

#[verifier::spinoff_prover]
#[verifier::rlimit(100)]
proof fn lemma_accepted_constraint_103(cur: Seq<u64>, nxt: Seq<u64>, per: Seq<u64>)
    requires
        cur.len() == TRACE_WIDTH,
        nxt.len() == TRACE_WIDTH,
        all_canonical(cur),
        all_canonical(nxt),
        constraint_spec(103, cur, nxt, per) == 0,
    ensures
        nxt[35] == cur[35],
{
    lemma_residuals_len_0(cur, nxt, per);
    lemma_residuals_len_1(cur, nxt, per);
    lemma_residuals_len_2(cur, nxt, per);
    lemma_residuals_len_3(cur, nxt, per);
    lemma_residuals_len_4(cur, nxt, per);
    lemma_residuals_len_5(cur, nxt, per);
    lemma_residuals_len_6(cur, nxt, per);
    lemma_residuals_len_7(cur, nxt, per);
    lemma_residuals_len_8(cur, nxt, per);
    lemma_residuals_len_9(cur, nxt, per);
    lemma_residuals_len_10(cur, nxt, per);
    lemma_residuals_len_11(cur, nxt, per);
    lemma_residuals_len_12(cur, nxt, per);
    assert(constraint_spec(103, cur, nxt, per) == residuals_6(cur, nxt, per)[7]);
    reveal(residuals_6);
    lemma_equal(nxt[35], cur[35]);
}

#[verifier::spinoff_prover]
#[verifier::rlimit(100)]
proof fn lemma_accepted_constraint_104(cur: Seq<u64>, nxt: Seq<u64>, per: Seq<u64>)
    requires
        cur.len() == TRACE_WIDTH,
        nxt.len() == TRACE_WIDTH,
        all_canonical(cur),
        all_canonical(nxt),
        constraint_spec(104, cur, nxt, per) == 0,
    ensures
        nxt[40] == cur[40],
{
    lemma_residuals_len_0(cur, nxt, per);
    lemma_residuals_len_1(cur, nxt, per);
    lemma_residuals_len_2(cur, nxt, per);
    lemma_residuals_len_3(cur, nxt, per);
    lemma_residuals_len_4(cur, nxt, per);
    lemma_residuals_len_5(cur, nxt, per);
    lemma_residuals_len_6(cur, nxt, per);
    lemma_residuals_len_7(cur, nxt, per);
    lemma_residuals_len_8(cur, nxt, per);
    lemma_residuals_len_9(cur, nxt, per);
    lemma_residuals_len_10(cur, nxt, per);
    lemma_residuals_len_11(cur, nxt, per);
    lemma_residuals_len_12(cur, nxt, per);
    assert(constraint_spec(104, cur, nxt, per) == residuals_6(cur, nxt, per)[8]);
    reveal(residuals_6);
    lemma_equal(nxt[40], cur[40]);
}

#[verifier::spinoff_prover]
#[verifier::rlimit(100)]
proof fn lemma_accepted_constraint_106(cur: Seq<u64>, nxt: Seq<u64>, per: Seq<u64>)
    requires
        cur.len() == TRACE_WIDTH,
        nxt.len() == TRACE_WIDTH,
        all_canonical(cur),
        all_canonical(nxt),
        constraint_spec(106, cur, nxt, per) == 0,
    ensures
        nxt[42] == cur[42],
{
    lemma_residuals_len_0(cur, nxt, per);
    lemma_residuals_len_1(cur, nxt, per);
    lemma_residuals_len_2(cur, nxt, per);
    lemma_residuals_len_3(cur, nxt, per);
    lemma_residuals_len_4(cur, nxt, per);
    lemma_residuals_len_5(cur, nxt, per);
    lemma_residuals_len_6(cur, nxt, per);
    lemma_residuals_len_7(cur, nxt, per);
    lemma_residuals_len_8(cur, nxt, per);
    lemma_residuals_len_9(cur, nxt, per);
    lemma_residuals_len_10(cur, nxt, per);
    lemma_residuals_len_11(cur, nxt, per);
    lemma_residuals_len_12(cur, nxt, per);
    assert(constraint_spec(106, cur, nxt, per) == residuals_6(cur, nxt, per)[10]);
    reveal(residuals_6);
    lemma_equal(nxt[42], cur[42]);
}

#[verifier::spinoff_prover]
#[verifier::rlimit(100)]
proof fn lemma_accepted_constraint_107(cur: Seq<u64>, nxt: Seq<u64>, per: Seq<u64>)
    requires
        cur.len() == TRACE_WIDTH,
        nxt.len() == TRACE_WIDTH,
        all_canonical(cur),
        all_canonical(nxt),
        constraint_spec(107, cur, nxt, per) == 0,
    ensures
        nxt[43] == cur[43],
{
    lemma_residuals_len_0(cur, nxt, per);
    lemma_residuals_len_1(cur, nxt, per);
    lemma_residuals_len_2(cur, nxt, per);
    lemma_residuals_len_3(cur, nxt, per);
    lemma_residuals_len_4(cur, nxt, per);
    lemma_residuals_len_5(cur, nxt, per);
    lemma_residuals_len_6(cur, nxt, per);
    lemma_residuals_len_7(cur, nxt, per);
    lemma_residuals_len_8(cur, nxt, per);
    lemma_residuals_len_9(cur, nxt, per);
    lemma_residuals_len_10(cur, nxt, per);
    lemma_residuals_len_11(cur, nxt, per);
    lemma_residuals_len_12(cur, nxt, per);
    assert(constraint_spec(107, cur, nxt, per) == residuals_6(cur, nxt, per)[11]);
    reveal(residuals_6);
    lemma_equal(nxt[43], cur[43]);
}

#[verifier::spinoff_prover]
#[verifier::rlimit(100)]
proof fn lemma_accepted_constraint_108(cur: Seq<u64>, nxt: Seq<u64>, per: Seq<u64>)
    requires
        cur.len() == TRACE_WIDTH,
        nxt.len() == TRACE_WIDTH,
        all_canonical(cur),
        all_canonical(nxt),
        constraint_spec(108, cur, nxt, per) == 0,
    ensures
        nxt[44] == cur[44],
{
    lemma_residuals_len_0(cur, nxt, per);
    lemma_residuals_len_1(cur, nxt, per);
    lemma_residuals_len_2(cur, nxt, per);
    lemma_residuals_len_3(cur, nxt, per);
    lemma_residuals_len_4(cur, nxt, per);
    lemma_residuals_len_5(cur, nxt, per);
    lemma_residuals_len_6(cur, nxt, per);
    lemma_residuals_len_7(cur, nxt, per);
    lemma_residuals_len_8(cur, nxt, per);
    lemma_residuals_len_9(cur, nxt, per);
    lemma_residuals_len_10(cur, nxt, per);
    lemma_residuals_len_11(cur, nxt, per);
    lemma_residuals_len_12(cur, nxt, per);
    assert(constraint_spec(108, cur, nxt, per) == residuals_7(cur, nxt, per)[0]);
    reveal(residuals_7);
    lemma_equal(nxt[44], cur[44]);
}

#[verifier::spinoff_prover]
#[verifier::rlimit(100)]
proof fn lemma_accepted_constraint_95(cur: Seq<u64>, nxt: Seq<u64>, per: Seq<u64>)
    requires
        cur.len() == TRACE_WIDTH,
        nxt.len() == TRACE_WIDTH,
        all_canonical(cur),
        all_canonical(nxt),
        constraint_spec(95, cur, nxt, per) == 0,
    ensures
        cur[35] == sub_spec(cur[33], cur[43]),
{
    lemma_residuals_len_0(cur, nxt, per);
    lemma_residuals_len_1(cur, nxt, per);
    lemma_residuals_len_2(cur, nxt, per);
    lemma_residuals_len_3(cur, nxt, per);
    lemma_residuals_len_4(cur, nxt, per);
    lemma_residuals_len_5(cur, nxt, per);
    lemma_residuals_len_6(cur, nxt, per);
    lemma_residuals_len_7(cur, nxt, per);
    lemma_residuals_len_8(cur, nxt, per);
    lemma_residuals_len_9(cur, nxt, per);
    lemma_residuals_len_10(cur, nxt, per);
    lemma_residuals_len_11(cur, nxt, per);
    lemma_residuals_len_12(cur, nxt, per);
    assert(constraint_spec(95, cur, nxt, per) == residuals_5(cur, nxt, per)[11]);
    reveal(residuals_5);
    lemma_reduce_canonical(cur[33] - cur[43]);
    lemma_equal(cur[35], sub_spec(cur[33], cur[43]));
}

#[verifier::spinoff_prover]
#[verifier::rlimit(100)]
proof fn lemma_accepted_constraint_96(cur: Seq<u64>, nxt: Seq<u64>, per: Seq<u64>)
    requires
        cur.len() == TRACE_WIDTH,
        nxt.len() == TRACE_WIDTH,
        all_canonical(cur),
        all_canonical(nxt),
        constraint_spec(96, cur, nxt, per) == 0,
    ensures
        cur[42] == add_spec(cur[40], cur[43]),
{
    lemma_residuals_len_0(cur, nxt, per);
    lemma_residuals_len_1(cur, nxt, per);
    lemma_residuals_len_2(cur, nxt, per);
    lemma_residuals_len_3(cur, nxt, per);
    lemma_residuals_len_4(cur, nxt, per);
    lemma_residuals_len_5(cur, nxt, per);
    lemma_residuals_len_6(cur, nxt, per);
    lemma_residuals_len_7(cur, nxt, per);
    lemma_residuals_len_8(cur, nxt, per);
    lemma_residuals_len_9(cur, nxt, per);
    lemma_residuals_len_10(cur, nxt, per);
    lemma_residuals_len_11(cur, nxt, per);
    lemma_residuals_len_12(cur, nxt, per);
    assert(constraint_spec(96, cur, nxt, per) == residuals_6(cur, nxt, per)[0]);
    reveal(residuals_6);
    lemma_reduce_canonical(cur[40] + cur[43]);
    lemma_equal(cur[42], add_spec(cur[40], cur[43]));
}

/// What the range-check constraints of one accepted step say: on the
/// first row of a segment the accumulator is zero, inside a segment the
/// next accumulator doubles it and adds the next bit, on the row before a
/// segment ends its accumulator is the value checked there, the
/// new balances are the debit and the credit, and the balances, amount
/// and limit keep their values.
pub open spec fn range_step_facts(cur: Seq<u64>, nxt: Seq<u64>, per: Seq<u64>) -> bool {
    &&& cur[49] <= 1
    &&& per[37] == 1 ==> cur[50] == 0
    &&& per[38] == 1 ==> nxt[50] == add_spec(add_spec(cur[50], cur[50]), nxt[49])
    &&& per[39] == 1 ==> nxt[50] == cur[33]
    &&& per[40] == 1 ==> nxt[50] == cur[40]
    &&& per[41] == 1 ==> nxt[50] == cur[43]
    &&& per[42] == 1 ==> nxt[50] == cur[44]
    &&& per[43] == 1 ==> nxt[50] == cur[35]
    &&& per[44] == 1 ==> nxt[50] == sub_spec(cur[44], cur[43])
    &&& per[45] == 1 ==> nxt[50] == cur[42]
    &&& nxt[33] == cur[33]
    &&& nxt[35] == cur[35]
    &&& nxt[40] == cur[40]
    &&& nxt[42] == cur[42]
    &&& nxt[43] == cur[43]
    &&& nxt[44] == cur[44]
    &&& cur[35] == sub_spec(cur[33], cur[43])
    &&& cur[42] == add_spec(cur[40], cur[43])
}

#[verifier::spinoff_prover]
#[verifier::rlimit(100)]
proof fn lemma_accepted_range_step(cur: Seq<u64>, nxt: Seq<u64>, per: Seq<u64>)
    requires
        cur.len() == TRACE_WIDTH,
        nxt.len() == TRACE_WIDTH,
        all_canonical(cur),
        all_canonical(nxt),
        forall|k: int| 0 <= k < NUM_CONSTRAINTS ==> #[trigger] constraint_spec(k, cur, nxt, per) == 0,
    ensures
        range_step_facts(cur, nxt, per),
{

    lemma_accepted_constraint_145(cur, nxt, per);
    lemma_accepted_constraint_148(cur, nxt, per);
    lemma_accepted_constraint_149(cur, nxt, per);
    lemma_accepted_constraint_150(cur, nxt, per);
    lemma_accepted_constraint_151(cur, nxt, per);
    lemma_accepted_constraint_152(cur, nxt, per);
    lemma_accepted_constraint_153(cur, nxt, per);
    lemma_accepted_constraint_154(cur, nxt, per);
    lemma_accepted_constraint_155(cur, nxt, per);
    lemma_accepted_constraint_156(cur, nxt, per);
    lemma_accepted_constraint_101(cur, nxt, per);
    lemma_accepted_constraint_103(cur, nxt, per);
    lemma_accepted_constraint_104(cur, nxt, per);
    lemma_accepted_constraint_106(cur, nxt, per);
    lemma_accepted_constraint_107(cur, nxt, per);
    lemma_accepted_constraint_108(cur, nxt, per);
    lemma_accepted_constraint_95(cur, nxt, per);
    lemma_accepted_constraint_96(cur, nxt, per);


}

/// The range-check segment starting on row `s` of an accepted trace ends
/// on a value below `2^63`.
#[verifier::spinoff_prover]
#[verifier::rlimit(100)]
proof fn lemma_accepted_range_segment(t: Seq<Vec<u64>>, s: int)
    requires
        t.len() == TRACE_WIDTH,
        columns_shape(t, TRACE_LENGTH as nat),
        forall|r: int| #![trigger periodic_row(r)] 0 <= r < TRACE_LENGTH - 1 ==> range_step_facts(row_of(t, r), row_of(t, r + 1), periodic_row(r)),
        s == 0 || s == 64 || s == 128 || s == 192 || s == 256 || s == 320 || s == 384,
        s + 64 < TRACE_LENGTH,
    ensures
        t[50][s + 63] < 0x8000_0000_0000_0000,
{
    let bits = t[49]@;
    let accs = t[50]@;
    let firsts: Seq<usize> = seq![0usize, 64, 128, 192, 256, 320, 384];
    assert(firsts[s / 64] == s);
    assert(range_step_facts(row_of(t, s), row_of(t, s + 1), periodic_row(s)));
    assert(periodic_row(s)[37] == periodic_spec(37, s));
    assert(periodic_row(s)[37] == 1);
    assert(row_of(t, s)[50] == accs[s]);
    assert forall|i: int| s <= i < s + 63 implies #[trigger] accs[i + 1] == add_spec(add_spec(accs[i], accs[i]), bits[i + 1]) by {
        assert(range_step_facts(row_of(t, i), row_of(t, i + 1), periodic_row(i)));
        assert(i % 64 != 63);
        assert(periodic_row(i)[38] == periodic_spec(38, i));
        assert(periodic_row(i)[38] == 1);
        assert(row_of(t, i)[50] == accs[i]);
        assert(row_of(t, i + 1)[50] == accs[i + 1]);
        assert(row_of(t, i + 1)[49] == bits[i + 1]);
    }
    assert forall|i: int| s <= i < s + 64 implies #[trigger] bits[i] <= 1 by {
        assert(range_step_facts(row_of(t, i), row_of(t, i + 1), periodic_row(i)));
        assert(row_of(t, i)[49] == bits[i]);
    }
    lemma_accepted_segment(bits, accs, s);
}

/// What an accepted settlement trace proves. Take any trace whose every
/// step satisfies every transition constraint with the periodic values of
/// `periodic_columns` (the field is prime, so `b * (b - 1) = 0` makes each
/// range-check cell a bit). Its seven range-check segments end on the
/// sender's balance, the receiver's balance, the amount, the limit, the
/// sender's new balance (`balance - amount` in the field), `limit - amount`
/// and the receiver's new balance of its first row, each below `2^63`. So
/// the amount is at most the sender's balance and at most the regulatory
/// limit, for every amount up to `p - 2^63`: a settlement over the limit or
/// beyond the balance has no accepted trace.
#[verifier::spinoff_prover]
#[verifier::rlimit(100)]
pub proof fn lemma_accepted_settlement_is_covered(t: Seq<Vec<u64>>)
    requires
        t.len() == TRACE_WIDTH,
        columns_shape(t, TRACE_LENGTH as nat),
        forall|r: int, k: int|
            0 <= r < TRACE_LENGTH - 1 && 0 <= k < NUM_CONSTRAINTS ==> #[trigger] constraint_spec(
                k,
                row_of(t, r),
                row_of(t, r + 1),
                periodic_row(r),
            ) == 0,
    ensures
        t[50][63] == t[33][0],
        t[50][127] == t[40][0],
        t[50][191] == t[43][0],
        t[50][255] == t[44][0],
        t[50][319] == t[35][0],
        t[50][383] == sub_spec(t[44][0], t[43][0]),
        t[50][447] == t[42][0],
        t[35][0] == sub_spec(t[33][0], t[43][0]),
        t[42][0] == add_spec(t[40][0], t[43][0]),
        t[33][0] < 0x8000_0000_0000_0000,
        t[40][0] < 0x8000_0000_0000_0000,
        t[43][0] < 0x8000_0000_0000_0000,
        t[44][0] < 0x8000_0000_0000_0000,
        t[35][0] < 0x8000_0000_0000_0000,
        sub_spec(t[44][0], t[43][0]) < 0x8000_0000_0000_0000,
        t[42][0] < 0x8000_0000_0000_0000,
        t[43][0] <= MODULUS - 0x8000_0000_0000_0000 ==> t[43][0] <= t[33][0] && t[43][0] <= t[44][0],
{
    assert forall|r: int| #![trigger periodic_row(r)] 0 <= r < TRACE_LENGTH - 1 implies range_step_facts(row_of(t, r), row_of(t, r + 1), periodic_row(r)) by {
        let cur = row_of(t, r);
        let nxt = row_of(t, r + 1);
        assert forall|k: int| 0 <= k < NUM_CONSTRAINTS implies #[trigger] constraint_spec(k, cur, nxt, periodic_row(r)) == 0 by {
            assert(constraint_spec(k, row_of(t, r), row_of(t, r + 1), periodic_row(r)) == 0);
        }
        assert forall|c: int| 0 <= c < TRACE_WIDTH implies #[trigger] cur[c] < MODULUS && nxt[c] < MODULUS by {
            assert(all_canonical(t[c]@));
        }
        lemma_accepted_range_step(cur, nxt, periodic_row(r));
    }
    assert forall|q: int| 0 <= q < 447 implies #[trigger] t[33]@[q + 1] == t[33]@[q] by {
        assert(range_step_facts(row_of(t, q), row_of(t, q + 1), periodic_row(q)));
    }
    lemma_column_kept(t[33]@, 446);
    assert forall|q: int| 0 <= q < 447 implies #[trigger] t[35]@[q + 1] == t[35]@[q] by {
        assert(range_step_facts(row_of(t, q), row_of(t, q + 1), periodic_row(q)));
    }
    lemma_column_kept(t[35]@, 446);
    assert forall|q: int| 0 <= q < 447 implies #[trigger] t[40]@[q + 1] == t[40]@[q] by {
        assert(range_step_facts(row_of(t, q), row_of(t, q + 1), periodic_row(q)));
    }
    lemma_column_kept(t[40]@, 446);
    assert forall|q: int| 0 <= q < 447 implies #[trigger] t[42]@[q + 1] == t[42]@[q] by {
        assert(range_step_facts(row_of(t, q), row_of(t, q + 1), periodic_row(q)));
    }
    lemma_column_kept(t[42]@, 446);
    assert forall|q: int| 0 <= q < 447 implies #[trigger] t[43]@[q + 1] == t[43]@[q] by {
        assert(range_step_facts(row_of(t, q), row_of(t, q + 1), periodic_row(q)));
    }
    lemma_column_kept(t[43]@, 446);
    assert forall|q: int| 0 <= q < 447 implies #[trigger] t[44]@[q + 1] == t[44]@[q] by {
        assert(range_step_facts(row_of(t, q), row_of(t, q + 1), periodic_row(q)));
    }
    lemma_column_kept(t[44]@, 446);
    assert(periodic_row(62)[39] == 1) by {
        let one: Seq<usize> = seq![(64 * (39 - 38) - 2) as usize];
        assert(one[0] == 62);
        assert(periodic_row(62)[39] == selector_spec(one, 62));
    }
    assert(range_step_facts(row_of(t, 62), row_of(t, 63), periodic_row(62)));
    assert(periodic_row(126)[40] == 1) by {
        let one: Seq<usize> = seq![(64 * (40 - 38) - 2) as usize];
        assert(one[0] == 126);
        assert(periodic_row(126)[40] == selector_spec(one, 126));
    }
    assert(range_step_facts(row_of(t, 126), row_of(t, 127), periodic_row(126)));
    assert(periodic_row(190)[41] == 1) by {
        let one: Seq<usize> = seq![(64 * (41 - 38) - 2) as usize];
        assert(one[0] == 190);
        assert(periodic_row(190)[41] == selector_spec(one, 190));
    }
    assert(range_step_facts(row_of(t, 190), row_of(t, 191), periodic_row(190)));
    assert(periodic_row(254)[42] == 1) by {
        let one: Seq<usize> = seq![(64 * (42 - 38) - 2) as usize];
        assert(one[0] == 254);
        assert(periodic_row(254)[42] == selector_spec(one, 254));
    }
    assert(range_step_facts(row_of(t, 254), row_of(t, 255), periodic_row(254)));
    assert(periodic_row(318)[43] == 1) by {
        let one: Seq<usize> = seq![(64 * (43 - 38) - 2) as usize];
        assert(one[0] == 318);
        assert(periodic_row(318)[43] == selector_spec(one, 318));
    }
    assert(range_step_facts(row_of(t, 318), row_of(t, 319), periodic_row(318)));
    assert(periodic_row(382)[44] == 1) by {
        let one: Seq<usize> = seq![(64 * (44 - 38) - 2) as usize];
        assert(one[0] == 382);
        assert(periodic_row(382)[44] == selector_spec(one, 382));
    }
    assert(range_step_facts(row_of(t, 382), row_of(t, 383), periodic_row(382)));
    assert(periodic_row(446)[45] == 1) by {
        let one: Seq<usize> = seq![(64 * (45 - 38) - 2) as usize];
        assert(one[0] == 446);
        assert(periodic_row(446)[45] == selector_spec(one, 446));
    }
    assert(range_step_facts(row_of(t, 446), row_of(t, 447), periodic_row(446)));
    lemma_accepted_range_segment(t, 0);
    lemma_accepted_range_segment(t, 64);
    lemma_accepted_range_segment(t, 128);
    lemma_accepted_range_segment(t, 192);
    lemma_accepted_range_segment(t, 256);
    lemma_accepted_range_segment(t, 320);
    lemma_accepted_range_segment(t, 384);
    assert(range_step_facts(row_of(t, 0), row_of(t, 1), periodic_row(0)));
    assert(t[33]@[62] == t[33]@[0] && t[40]@[126] == t[40]@[0] && t[43]@[190] == t[43]@[0]);
    assert(t[44]@[254] == t[44]@[0] && t[35]@[318] == t[35]@[0] && t[44]@[382] == t[44]@[0]);
    assert(t[43]@[382] == t[43]@[0] && t[42]@[446] == t[42]@[0]);
    assert(all_canonical(t[33]@) && all_canonical(t[44]@));
    if t[43][0] <= MODULUS - 0x8000_0000_0000_0000 {
        lemma_checked_difference(t[33][0], t[43][0]);
        lemma_checked_difference(t[44][0], t[43][0]);
    }
}

} // verus!
