//! Send, second form: the same proof as the first, with two more
//! compressions. The account leaf is wrapped with the leaf salt,
//! `H(leaf, leaf_salt)`, and the pending commitment wraps a refund
//! envelope `X` composed outside the circuit: `C2 = H(C1, X)` with
//! `C1 = H(H(receiver_id, salt), amount)`. The envelope enters as a
//! witness and is never published; the public inputs are those of the
//! first form.
//!
//! | Cycles | Phase |
//! |---|---|
//! | 0..3 | leaf, nonce, leaf salt |
//! | 3..35 | account climb |
//! | 35 | identity from the key |
//! | 36..60 | frozen tree |
//! | 60..63 | C1 and C2 |
//! | 63..95 | pending tree |

use vstd::prelude::*;
use crate::boundary::{pairs, push_pairs, push_run, run};
use crate::circuit_send::{pending_commitment_spec, segment_values_spec, send_values, SendInputs, SendPublicInputs, SendValues};
use crate::circuit_settlement::{frozen_root_of, leaf_salted_spec, path_ok, place_arr, public_id_wide_spec, root_of};
use crate::domains::SPEND_KEY_DOMAIN;
use crate::constraints::{lemma_equal, lemma_reduce_canonical, lemma_selected, lemma_selected_equal, rounds_hold, round_residuals, round_residuals_spec};
use crate::field::{MODULUS, add_spec, all_canonical, fadd, felt, fmul, fsub, mul_spec, reduce, sub_spec};
use crate::lane::{cycle_start, cycle_digest, lane_value, lemma_append_link, lemma_fresh_link, lemma_lane_digest_row, link_start, program_columns, Link};
use crate::merkle::{climb_links, climb_spec, climb_step, lemma_links_climb, push_climb_links, sibling_seqs, MerklePath};
use crate::periodic::{ark_spec, continue_column, continue_spec, cycle_end_rows, hash_flag_spec, push_cycle_end_rows, push_row_selector, round_columns, selector_column, selector_spec};
use crate::prime::lemma_field_bit;
use crate::rescue::{as_digest, as_digest_spec, digest_arr, lemma_digest_arr, lemma_merge_arr, merge_arr, merge_spec, merge_state, merge_state_of, Digest};
use crate::solvency::{lemma_accepted_segment, lemma_checked_difference, seg_acc, seg_bit, segment_columns};
use crate::trace::{lemma_column_kept, row_of, columns_shape, constant_column, cycle_bit_column, cycle_bit_spec, prefix_bits};

verus! {

pub const TRACE_LENGTH: usize = 1024;
pub const SEGMENT_LENGTH: usize = 64;
pub const NUM_SEGMENTS: usize = 5;

pub const COL_BIT: usize = 24;
pub const COL_KEY: usize = 25;
pub const COL_ACC_ID: usize = 29;
pub const COL_BAL: usize = 33;
pub const COL_BAL_NEW: usize = 34;
pub const COL_NONCE: usize = 35;
pub const COL_AMT: usize = 36;
pub const COL_SUPPLY_OLD: usize = 37;
pub const COL_SUPPLY_NEW: usize = 38;
pub const COL_SBIT: usize = 39;
pub const COL_SACC: usize = 40;
pub const COL_FBIT: usize = 41;
pub const COL_PBIT: usize = 42;
pub const COL_R_ID: usize = 43;
pub const COL_SALT: usize = 47;
pub const COL_LIMIT: usize = 51;
pub const COL_LEAF_SALT: usize = 52;
pub const COL_X: usize = 56;
pub const TRACE_WIDTH: usize = 60;

pub const CYC_ACC: usize = 3;
pub const CYC_FROZEN: usize = 36;
pub const CYC_PEND_CLIMB: usize = 63;
pub const ROW_LEAF_LINK: usize = 7;
pub const ROW_SALT_LINK: usize = 15;
pub const ROW_LEAF_DONE: usize = 23;
pub const ROW_ROOT: usize = 279;
pub const ROW_PK_START: usize = 280;
pub const ROW_PK_DONE: usize = 287;
pub const ROW_FROZEN_ROOT: usize = 479;
pub const ROW_PEND_INNER: usize = 487;
pub const ROW_PEND_ENV: usize = 495;
pub const ROW_PENDING_ENTRY: usize = 503;
pub const ROW_PENDING_ROOT: usize = 759;

/// The commitment of the second form: `H(C1, X)`.
pub open spec fn enveloped_commitment_spec(receiver_id: Seq<u64>, salt: Seq<u64>, amount: u64, envelope: Seq<u64>) -> Seq<u64> {
    merge_spec(pending_commitment_spec(receiver_id, salt, amount), envelope)
}

/// The inputs of the second form: those of the first, the leaf salt and
/// the envelope.
pub struct SendV2Inputs {
    pub base: SendInputs,
    pub leaf_salt: Digest,
    pub envelope: Digest,
}

pub open spec fn inputs_ok(inp: SendV2Inputs) -> bool {
    &&& crate::circuit_send::inputs_ok(inp.base)
    &&& all_canonical(inp.leaf_salt@)
    &&& all_canonical(inp.envelope@)
}

/// The links of a lane, the pending tree entered by `pending_entry`.
pub open spec fn send_links(inp: SendV2Inputs, v: SendValues, pending_entry: Seq<Link>) -> Seq<Link> {
    let b = inp.base;
    seq![
        Link::Place { other: digest_arr(b.nonce), right: false },
        Link::Place { other: inp.leaf_salt, right: false },
    ] + climb_links(b.path.siblings@, b.path.is_right@, 0, 32) + seq![
        Link::Fresh { state: merge_arr(digest_arr(SPEND_KEY_DOMAIN), b.spend_key) },
        Link::Fresh {
            state: place_arr([0u64, 0u64, 0u64, 0u64], b.frozen_path.siblings@[0], b.frozen_path.is_right@[0]),
        },
    ] + climb_links(b.frozen_path.siblings@, b.frozen_path.is_right@, 1, 23) + seq![
        Link::Fresh { state: merge_arr(b.receiver_id, b.salt) },
        Link::Place { other: digest_arr(v.amt), right: false },
        Link::Place { other: inp.envelope, right: false },
    ] + pending_entry + climb_links(b.pending_path.siblings@, b.pending_path.is_right@, 1, 31)
}

pub open spec fn lane_links(inp: SendV2Inputs, new: bool) -> Seq<Link> {
    let p = inp.base.pending_path;
    let entry = if new {
        climb_links(p.siblings@, p.is_right@, 0, 1)
    } else {
        seq![Link::Fresh { state: place_arr([0u64, 0u64, 0u64, 0u64], p.siblings@[0], p.is_right@[0]) }]
    };
    send_links(inp, send_values(inp.base), entry)
}

pub open spec fn lane_start(inp: SendV2Inputs, new: bool) -> Seq<u64> {
    let v = send_values(inp.base);
    merge_state(inp.base.account_id@, as_digest_spec(if new { v.bal_new } else { v.bal }))
}

/// The value of the trace at column `col` and row `r`.
pub open spec fn cell_spec(inp: SendV2Inputs, col: int, r: int) -> u64 {
    let b = inp.base;
    let v = send_values(b);
    let segs = segment_values_spec(v);
    if col < 12 {
        lane_value(lane_start(inp, false), lane_links(inp, false), col, r)
    } else if col < 24 {
        lane_value(lane_start(inp, true), lane_links(inp, true), col - 12, r)
    } else if col == COL_BIT {
        cycle_bit_spec(b.path.is_right@.subrange(0, 32), CYC_ACC as int, r)
    } else if col < COL_ACC_ID {
        b.spend_key@[col - COL_KEY]
    } else if col < COL_BAL {
        b.account_id@[col - COL_ACC_ID]
    } else if col == COL_BAL {
        v.bal
    } else if col == COL_BAL_NEW {
        v.bal_new
    } else if col == COL_NONCE {
        b.nonce
    } else if col == COL_AMT {
        v.amt
    } else if col == COL_SUPPLY_OLD {
        v.supply_old
    } else if col == COL_SUPPLY_NEW {
        v.supply_new
    } else if col == COL_SBIT {
        if r < 320 {
            seg_bit(segs[r / 64], 64, (r % 64) as nat)
        } else {
            0
        }
    } else if col == COL_SACC {
        if r < 320 {
            reduce(seg_acc(segs[r / 64], 64, (r % 64) as nat) as int)
        } else {
            0
        }
    } else if col == COL_FBIT {
        cycle_bit_spec(b.frozen_path.is_right@.subrange(0, 24), CYC_FROZEN as int, r)
    } else if col == COL_PBIT {
        cycle_bit_spec(b.pending_path.is_right@.subrange(0, 32), CYC_PEND_CLIMB as int, r)
    } else if col < COL_SALT {
        b.receiver_id@[col - COL_R_ID]
    } else if col < COL_LIMIT {
        b.salt@[col - COL_SALT]
    } else if col == COL_LIMIT {
        v.lim
    } else if col < COL_X {
        inp.leaf_salt@[col - COL_LEAF_SALT]
    } else {
        inp.envelope@[col - COL_X]
    }
}

/// Builds the links of one lane.
fn build_send_links(
    inp: Ghost<SendV2Inputs>,
    nonce: u64,
    leaf_salt: &Digest,
    path: &MerklePath,
    spend_key: &Digest,
    frozen_path: &MerklePath,
    receiver_id: &Digest,
    salt: &Digest,
    amt: u64,
    envelope: &Digest,
    pending_entry: Link,
    pending_path: &MerklePath,
) -> (links: Vec<Link>)
    requires
        inputs_ok(inp@),
        inp@.base.nonce == nonce,
        inp@.leaf_salt == *leaf_salt,
        inp@.base.path == *path,
        inp@.base.spend_key == *spend_key,
        inp@.base.frozen_path == *frozen_path,
        inp@.base.receiver_id == *receiver_id,
        inp@.base.salt == *salt,
        amt == send_values(inp@.base).amt,
        inp@.envelope == *envelope,
        inp@.base.pending_path == *pending_path,
        crate::lane::link_canonical(pending_entry),
    ensures
        links@ == send_links(inp@, send_values(inp@.base), seq![pending_entry]),
        crate::lane::links_canonical(links@),
        links.len() == 94,
{
    let mut links: Vec<Link> = Vec::new();
    links.push(Link::Place { other: as_digest(nonce), right: false });
    links.push(Link::Place { other: *leaf_salt, right: false });
    push_climb_links(&mut links, &path.siblings, &path.is_right, 0, 32);
    links.push(Link::Fresh { state: merge_state_of(&as_digest(SPEND_KEY_DOMAIN), spend_key) });
    let zero: Digest = [0, 0, 0, 0];
    assert(all_canonical(frozen_path.siblings@[0]@));
    let fstate = if frozen_path.is_right[0] {
        merge_state_of(&frozen_path.siblings[0], &zero)
    } else {
        merge_state_of(&zero, &frozen_path.siblings[0])
    };
    links.push(Link::Fresh { state: fstate });
    push_climb_links(&mut links, &frozen_path.siblings, &frozen_path.is_right, 1, 24);
    links.push(Link::Fresh { state: merge_state_of(receiver_id, salt) });
    links.push(Link::Place { other: as_digest(amt), right: false });
    links.push(Link::Place { other: *envelope, right: false });
    links.push(pending_entry);
    push_climb_links(&mut links, &pending_path.siblings, &pending_path.is_right, 1, 32);
    assert(links@ =~= send_links(inp@, send_values(inp@.base), seq![pending_entry]));
    links
}

/// The inputs, gathered.
pub open spec fn v2_inputs(
    spend_key: Digest,
    account_id: Digest,
    balance: u64,
    nonce: u64,
    leaf_salt: Digest,
    path: MerklePath,
    frozen_path: MerklePath,
    amount: u64,
    regulatory_limit: u64,
    supply_old: u64,
    supply_delta: u64,
    receiver_id: Digest,
    salt: Digest,
    envelope: Digest,
    pending_path: MerklePath,
) -> SendV2Inputs {
    SendV2Inputs {
        base: SendInputs {
            spend_key,
            account_id,
            balance,
            nonce,
            path,
            frozen_path,
            amount,
            regulatory_limit,
            supply_old,
            supply_delta,
            receiver_id,
            salt,
            pending_path,
        },
        leaf_salt,
        envelope,
    }
}

/// Builds the trace of a send of the second form. As in the first form,
/// `supply_delta` should be zero and the supply constraint rejects any
/// other value.
pub fn build_trace(
    spend_key: &Digest,
    account_id: &Digest,
    balance: u64,
    nonce: u64,
    leaf_salt: &Digest,
    path: &MerklePath,
    frozen_path: &MerklePath,
    amount: u64,
    regulatory_limit: u64,
    supply_old: u64,
    supply_delta: u64,
    receiver_id: &Digest,
    salt: &Digest,
    envelope: &Digest,
    pending_path: &MerklePath,
) -> (cols: Vec<Vec<u64>>)
    requires
        inputs_ok(
            v2_inputs(
                *spend_key,
                *account_id,
                balance,
                nonce,
                *leaf_salt,
                *path,
                *frozen_path,
                amount,
                regulatory_limit,
                supply_old,
                supply_delta,
                *receiver_id,
                *salt,
                *envelope,
                *pending_path,
            ),
        ),
    ensures
        cols.len() == TRACE_WIDTH,
        columns_shape(cols@, TRACE_LENGTH as nat),
        forall|col: int, r: int|
            0 <= col < TRACE_WIDTH && 0 <= r < TRACE_LENGTH ==> #[trigger] cols[col][r] == cell_spec(
                v2_inputs(
                    *spend_key,
                    *account_id,
                    balance,
                    nonce,
                    *leaf_salt,
                    *path,
                    *frozen_path,
                    amount,
                    regulatory_limit,
                    supply_old,
                    supply_delta,
                    *receiver_id,
                    *salt,
                    *envelope,
                    *pending_path,
                ),
                col,
                r,
            ),
        forall|r: int, k: int|
            0 <= r < TRACE_LENGTH - 1 && 0 <= k < 24 ==> #[trigger] constraint_spec(
                k,
                row_of(cols@, r),
                row_of(cols@, r + 1),
                periodic_row(r),
            ) == 0,
        honest_send_v2(v2_inputs(
            *spend_key,
            *account_id,
            balance,
            nonce,
            *leaf_salt,
            *path,
            *frozen_path,
            amount,
            regulatory_limit,
            supply_old,
            supply_delta,
            *receiver_id,
            *salt,
            *envelope,
            *pending_path,
        )) ==> forall|r: int, k: int|
            0 <= r < TRACE_LENGTH - 1 && 0 <= k < NUM_CONSTRAINTS ==> #[trigger] constraint_spec(
                k,
                row_of(cols@, r),
                row_of(cols@, r + 1),
                periodic_row(r),
            ) == 0,
{
    let ghost inp = v2_inputs(
        *spend_key,
        *account_id,
        balance,
        nonce,
        *leaf_salt,
        *path,
        *frozen_path,
        amount,
        regulatory_limit,
        supply_old,
        supply_delta,
        *receiver_id,
        *salt,
        *envelope,
        *pending_path,
    );
    let ghost v = send_values(inp.base);
    let c_bal = felt(balance);
    let c_amt = felt(amount);
    let c_bal_new = fsub(c_bal, c_amt);
    let c_supply_old = felt(supply_old);
    let c_supply_new = fsub(c_supply_old, felt(supply_delta));
    let c_lim = felt(regulatory_limit);

    let zero: Digest = [0, 0, 0, 0];
    assert(all_canonical(pending_path.siblings@[0]@));
    let entry_state = if pending_path.is_right[0] {
        merge_state_of(&pending_path.siblings[0], &zero)
    } else {
        merge_state_of(&zero, &pending_path.siblings[0])
    };
    let entry_a = Link::Fresh { state: entry_state };
    let entry_b = Link::Place { other: pending_path.siblings[0], right: pending_path.is_right[0] };
    let lanes_a = build_send_links(
        Ghost(inp), nonce, leaf_salt, path, spend_key, frozen_path, receiver_id, salt, c_amt, envelope, entry_a,
        pending_path,
    );
    let lanes_b = build_send_links(
        Ghost(inp), nonce, leaf_salt, path, spend_key, frozen_path, receiver_id, salt, c_amt, envelope, entry_b,
        pending_path,
    );
    assert(seq![entry_b] =~= climb_links(pending_path.siblings@, pending_path.is_right@, 0, 1));
    assert(lanes_a@ == lane_links(inp, false));
    assert(lanes_b@ == lane_links(inp, true));
    let s0a = merge_state_of(account_id, &as_digest(c_bal));
    let s0b = merge_state_of(account_id, &as_digest(c_bal_new));
    let mut cols = program_columns(&s0a, &lanes_a, TRACE_LENGTH);
    let mut cols_b = program_columns(&s0b, &lanes_b, TRACE_LENGTH);
    let ghost lanes_ok = lanes_hold(inp);
    proof {
        assert(lanes_ok);
    }
    cols.append(&mut cols_b);
    let bits = prefix_bits(&path.is_right, 32);
    cols.push(cycle_bit_column(&bits, CYC_ACC, TRACE_LENGTH));
    push_digest_columns(&mut cols, spend_key, Ghost(inp));
    push_digest_columns(&mut cols, account_id, Ghost(inp));
    cols.push(constant_column(c_bal, TRACE_LENGTH));
    cols.push(constant_column(c_bal_new, TRACE_LENGTH));
    cols.push(constant_column(nonce, TRACE_LENGTH));
    cols.push(constant_column(c_amt, TRACE_LENGTH));
    cols.push(constant_column(c_supply_old, TRACE_LENGTH));
    cols.push(constant_column(c_supply_new, TRACE_LENGTH));
    let c_diff = fsub(c_lim, c_amt);
    let segment_values: Vec<u64> = vec![c_bal, c_amt, c_bal_new, c_supply_new, c_diff];
    assert(segment_values@ =~= segment_values_spec(v));
    let (sbit_col, sacc_col) = segment_columns(&segment_values, SEGMENT_LENGTH, TRACE_LENGTH);
    cols.push(sbit_col);
    cols.push(sacc_col);
    proof {
        assert forall|col: int, r: int|
            COL_SBIT <= col < cols.len() && 0 <= r < TRACE_LENGTH implies #[trigger] cols[col][r] == cell_spec(inp, col, r) by {
            if r < 320 {
                let sg = r / 64;
                let p = r % 64;
                assert(r == sg * 64 + p);
            }
        }
    }
    let f_bits = prefix_bits(&frozen_path.is_right, 24);
    cols.push(cycle_bit_column(&f_bits, CYC_FROZEN, TRACE_LENGTH));
    let p_bits = prefix_bits(&pending_path.is_right, 32);
    cols.push(cycle_bit_column(&p_bits, CYC_PEND_CLIMB, TRACE_LENGTH));
    push_digest_columns(&mut cols, receiver_id, Ghost(inp));
    push_digest_columns(&mut cols, salt, Ghost(inp));
    cols.push(constant_column(c_lim, TRACE_LENGTH));
    push_digest_columns(&mut cols, leaf_salt, Ghost(inp));
    push_digest_columns(&mut cols, envelope, Ghost(inp));
    proof {
        assert forall|r: int, k: int|
            0 <= r < TRACE_LENGTH - 1 && 0 <= k < 24 implies #[trigger] constraint_spec(
            k,
            row_of(cols@, r),
            row_of(cols@, r + 1),
            periodic_row(r),
        ) == 0 by {
            lemma_trace_satisfies_round_constraints(inp, cols@, r);
        }
        if honest_send_v2(inp) {
            assert forall|r: int, k: int|
                0 <= r < TRACE_LENGTH - 1 && 0 <= k < NUM_CONSTRAINTS implies #[trigger] constraint_spec(
                k,
                row_of(cols@, r),
                row_of(cols@, r + 1),
                periodic_row(r),
            ) == 0 by {
                lemma_trace_satisfies_constraints(inp, cols@, r);
            }
        }
    }
    cols
}

/// Appends the four constant columns of a digest that the trace carries
/// from column `cols.len()` on.
fn push_digest_columns(cols: &mut Vec<Vec<u64>>, d: &Digest, inp: Ghost<SendV2Inputs>)
    requires
        all_canonical(d@),
        columns_shape(old(cols)@, TRACE_LENGTH as nat),
        old(cols).len() + 4 <= TRACE_WIDTH,
        forall|col: int, r: int|
            old(cols).len() <= col < old(cols).len() + 4 && 0 <= r < TRACE_LENGTH ==> #[trigger] cell_spec(inp@, col, r) == d@[col - old(cols).len()],
        forall|col: int, r: int|
            0 <= col < old(cols).len() && 0 <= r < TRACE_LENGTH ==> #[trigger] old(cols)[col][r] == cell_spec(inp@, col, r),
    ensures
        final(cols).len() == old(cols).len() + 4,
        columns_shape(final(cols)@, TRACE_LENGTH as nat),
        forall|col: int, r: int|
            0 <= col < final(cols).len() && 0 <= r < TRACE_LENGTH ==> #[trigger] final(cols)[col][r] == cell_spec(inp@, col, r),
{
    let ghost start = cols.len();
    let mut i: usize = 0;
    while i < 4
        invariant
            i <= 4,
            all_canonical(d@),
            cols.len() == start + i,
            start + 4 <= TRACE_WIDTH,
            columns_shape(cols@, TRACE_LENGTH as nat),
            forall|col: int, r: int| start <= col < start + 4 && 0 <= r < TRACE_LENGTH ==> #[trigger] cell_spec(inp@, col, r) == d@[col - start],
            forall|col: int, r: int|
                0 <= col < cols.len() && 0 <= r < TRACE_LENGTH ==> #[trigger] cols[col][r] == cell_spec(inp@, col, r),
        decreases 4 - i,
    {
        cols.push(constant_column(d[i], TRACE_LENGTH));
        proof {
            assert forall|r: int| 0 <= r < TRACE_LENGTH implies #[trigger] cols[(start + i) as int][r] == cell_spec(inp@, start + i, r) by {
                assert(cell_spec(inp@, start + i, r) == d@[(start + i) - start]);
            }
        }
        i = i + 1;
    }
}

/// The digests a lane computes, cycle by cycle.
proof fn lemma_send_digests(inp: SendV2Inputs, bal: u64, entry: Seq<Link>)
    requires
        inputs_ok(inp),
        entry.len() == 1,
    ensures
        ({
            let b = inp.base;
            let v = send_values(b);
            let s0 = merge_state(b.account_id@, as_digest_spec(bal));
            let l = send_links(inp, v, entry);
            let leaf = leaf_salted_spec(b.account_id@, bal, b.nonce, inp.leaf_salt@);
            &&& l.len() == 94
            &&& cycle_digest(s0, l, 2) == leaf
            &&& cycle_digest(s0, l, 34) == root_of(leaf, b.path)
            &&& cycle_digest(s0, l, 35) == public_id_wide_spec(b.spend_key@)
            &&& cycle_digest(s0, l, 59) == frozen_root_of(b.frozen_path)
            &&& cycle_digest(s0, l, 62) == enveloped_commitment_spec(b.receiver_id@, b.salt@, v.amt, inp.envelope@)
            &&& l[62] == entry[0]
        }),
{
    let b = inp.base;
    let v = send_values(b);
    let s0 = merge_state(b.account_id@, as_digest_spec(bal));
    let l = send_links(inp, v, entry);
    let fsibs = b.frozen_path.siblings@;
    let fbits = b.frozen_path.is_right@;
    lemma_digest_arr(b.nonce);
    lemma_digest_arr(SPEND_KEY_DOMAIN);
    lemma_digest_arr(v.amt);
    assert(l[0] == Link::Place { other: digest_arr(b.nonce), right: false });
    lemma_append_link(s0, l, 0, digest_arr(b.nonce));
    assert(l[1] == Link::Place { other: inp.leaf_salt, right: false });
    lemma_append_link(s0, l, 1, inp.leaf_salt);
    let leaf = leaf_salted_spec(b.account_id@, bal, b.nonce, inp.leaf_salt@);
    assert(l.subrange(2, 34) =~= climb_links(b.path.siblings@, b.path.is_right@, 0, 32));
    lemma_links_climb(s0, l, 2, leaf, b.path.siblings@, b.path.is_right@, 0, 32);
    let ks = merge_arr(digest_arr(SPEND_KEY_DOMAIN), b.spend_key);
    assert(l[34] == Link::Fresh { state: ks });
    lemma_fresh_link(s0, l, 34, ks);
    lemma_merge_arr(digest_arr(SPEND_KEY_DOMAIN), b.spend_key);
    let zero: Digest = [0u64, 0u64, 0u64, 0u64];
    let fstate = place_arr(zero, fsibs[0], fbits[0]);
    assert(l[35] == Link::Fresh { state: fstate });
    lemma_fresh_link(s0, l, 35, fstate);
    lemma_merge_arr(zero, fsibs[0]);
    lemma_merge_arr(fsibs[0], zero);
    assert(zero@ =~= seq![0u64, 0u64, 0u64, 0u64]);
    assert(sibling_seqs(fsibs)[0] == fsibs[0]@);
    assert(climb_spec(zero@, sibling_seqs(fsibs), fbits, 1) == climb_step(
        climb_spec(zero@, sibling_seqs(fsibs), fbits, 0),
        sibling_seqs(fsibs)[0],
        fbits[0],
    ));
    assert(l.subrange(36, 59) =~= climb_links(fsibs, fbits, 1, 23));
    lemma_links_climb(s0, l, 36, zero@, fsibs, fbits, 1, 23);
    let cs = merge_arr(b.receiver_id, b.salt);
    assert(l[59] == Link::Fresh { state: cs });
    lemma_fresh_link(s0, l, 59, cs);
    lemma_merge_arr(b.receiver_id, b.salt);
    assert(l[60] == Link::Place { other: digest_arr(v.amt), right: false });
    lemma_append_link(s0, l, 60, digest_arr(v.amt));
    assert(l[61] == Link::Place { other: inp.envelope, right: false });
    lemma_append_link(s0, l, 61, inp.envelope);
    assert(l[62] == entry[0]);
}

/// Where the trace shows what the send proves: the roots of the salted
/// leaf before and after, the identity derived from the key, the frozen
/// root, the enveloped commitment, and the pending roots before (zero
/// leaf) and after (the commitment).
pub proof fn lemma_trace_landmarks(inp: SendV2Inputs)
    requires
        inputs_ok(inp),
    ensures
        ({
            let b = inp.base;
            let v = send_values(b);
            let leaf_old = leaf_salted_spec(b.account_id@, v.bal, b.nonce, inp.leaf_salt@);
            let leaf_new = leaf_salted_spec(b.account_id@, v.bal_new, b.nonce, inp.leaf_salt@);
            let commitment = enveloped_commitment_spec(b.receiver_id@, b.salt@, v.amt, inp.envelope@);
            &&& forall|i: int| 0 <= i < 4 ==> #[trigger] cell_spec(inp, 4 + i, ROW_ROOT as int) == root_of(leaf_old, b.path)[i]
            &&& forall|i: int| 0 <= i < 4 ==> #[trigger] cell_spec(inp, 16 + i, ROW_ROOT as int) == root_of(leaf_new, b.path)[i]
            &&& forall|i: int| 0 <= i < 4 ==> #[trigger] cell_spec(inp, 4 + i, ROW_PK_DONE as int) == public_id_wide_spec(b.spend_key@)[i]
            &&& forall|i: int| 0 <= i < 4 ==> #[trigger] cell_spec(inp, 4 + i, ROW_FROZEN_ROOT as int) == frozen_root_of(b.frozen_path)[i]
            &&& forall|i: int| 0 <= i < 4 ==> #[trigger] cell_spec(inp, 16 + i, ROW_PENDING_ENTRY as int) == commitment[i]
            &&& forall|i: int| 0 <= i < 4 ==> #[trigger] cell_spec(inp, 4 + i, ROW_PENDING_ROOT as int) == root_of(
                seq![0u64, 0u64, 0u64, 0u64],
                b.pending_path,
            )[i]
            &&& forall|i: int| 0 <= i < 4 ==> #[trigger] cell_spec(inp, 16 + i, ROW_PENDING_ROOT as int) == root_of(commitment, b.pending_path)[i]
        }),
{
    let b = inp.base;
    let v = send_values(b);
    let psibs = b.pending_path.siblings@;
    let pbits = b.pending_path.is_right@;
    let zero: Digest = [0u64, 0u64, 0u64, 0u64];
    let entry_a = seq![Link::Fresh { state: place_arr(zero, psibs[0], pbits[0]) }];
    let entry_b = climb_links(psibs, pbits, 0, 1);
    let la = lane_links(inp, false);
    let lb = lane_links(inp, true);
    let s0a = lane_start(inp, false);
    let s0b = lane_start(inp, true);
    lemma_send_digests(inp, v.bal, entry_a);
    lemma_send_digests(inp, v.bal_new, entry_b);
    lemma_fresh_link(s0a, la, 62, place_arr(zero, psibs[0], pbits[0]));
    lemma_merge_arr(zero, psibs[0]);
    lemma_merge_arr(psibs[0], zero);
    assert(zero@ =~= seq![0u64, 0u64, 0u64, 0u64]);
    assert(sibling_seqs(psibs)[0] == psibs[0]@);
    assert(climb_spec(zero@, sibling_seqs(psibs), pbits, 1) == climb_step(
        climb_spec(zero@, sibling_seqs(psibs), pbits, 0),
        sibling_seqs(psibs)[0],
        pbits[0],
    ));
    assert(la.subrange(63, 94) =~= climb_links(psibs, pbits, 1, 31));
    lemma_links_climb(s0a, la, 63, zero@, psibs, pbits, 1, 31);
    let commitment = enveloped_commitment_spec(b.receiver_id@, b.salt@, v.amt, inp.envelope@);
    assert(lb.subrange(62, 63) =~= climb_links(psibs, pbits, 0, 1)) by {
        assert(lb.subrange(62, 63)[0] == lb[62]);
    }
    lemma_links_climb(s0b, lb, 62, commitment, psibs, pbits, 0, 1);
    assert(lb.subrange(63, 94) =~= climb_links(psibs, pbits, 1, 31));
    lemma_links_climb(s0b, lb, 63, commitment, psibs, pbits, 1, 31);
    lemma_lane_digest_row(s0a, la, 34);
    lemma_lane_digest_row(s0b, lb, 34);
    lemma_lane_digest_row(s0a, la, 35);
    lemma_lane_digest_row(s0a, la, 59);
    lemma_lane_digest_row(s0b, lb, 62);
    lemma_lane_digest_row(s0a, la, 94);
    lemma_lane_digest_row(s0b, lb, 94);
}

/// The public inputs a trace of the second form shows: those of the
/// first form, at this trace's rows.
pub fn public_inputs_of(trace: &Vec<Vec<u64>>) -> (pi: SendPublicInputs)
    requires
        trace.len() == TRACE_WIDTH,
        columns_shape(trace@, TRACE_LENGTH as nat),
    ensures
        forall|i: int| 0 <= i < 4 ==> #[trigger] pi.root_old[i] == trace[4 + i][ROW_ROOT as int],
        forall|i: int| 0 <= i < 4 ==> #[trigger] pi.root_new[i] == trace[16 + i][ROW_ROOT as int],
        forall|i: int| 0 <= i < 4 ==> #[trigger] pi.frozen_root[i] == trace[4 + i][ROW_FROZEN_ROOT as int],
        forall|i: int| 0 <= i < 4 ==> #[trigger] pi.pending_root_old[i] == trace[4 + i][ROW_PENDING_ROOT as int],
        forall|i: int| 0 <= i < 4 ==> #[trigger] pi.pending_root_new[i] == trace[16 + i][ROW_PENDING_ROOT as int],
        pi.amount == trace[COL_AMT as int][0],
        pi.regulatory_limit == trace[COL_LIMIT as int][0],
        pi.supply_old == trace[COL_SUPPLY_OLD as int][0],
        pi.supply_new == trace[COL_SUPPLY_NEW as int][0],
{
    SendPublicInputs {
        root_old: [trace[4][ROW_ROOT], trace[5][ROW_ROOT], trace[6][ROW_ROOT], trace[7][ROW_ROOT]],
        root_new: [trace[16][ROW_ROOT], trace[17][ROW_ROOT], trace[18][ROW_ROOT], trace[19][ROW_ROOT]],
        frozen_root: [
            trace[4][ROW_FROZEN_ROOT],
            trace[5][ROW_FROZEN_ROOT],
            trace[6][ROW_FROZEN_ROOT],
            trace[7][ROW_FROZEN_ROOT],
        ],
        pending_root_old: [
            trace[4][ROW_PENDING_ROOT],
            trace[5][ROW_PENDING_ROOT],
            trace[6][ROW_PENDING_ROOT],
            trace[7][ROW_PENDING_ROOT],
        ],
        pending_root_new: [
            trace[16][ROW_PENDING_ROOT],
            trace[17][ROW_PENDING_ROOT],
            trace[18][ROW_PENDING_ROOT],
            trace[19][ROW_PENDING_ROOT],
        ],
        amount: trace[COL_AMT][0],
        regulatory_limit: trace[COL_LIMIT][0],
        supply_old: trace[COL_SUPPLY_OLD][0],
        supply_new: trace[COL_SUPPLY_NEW][0],
    }
}

/// The value of periodic column `j` at row `r`.
pub open spec fn periodic_spec(j: int, r: int) -> u64 {
    let active = ROW_PENDING_ROOT as int + 1;
    if j == 0 {
        hash_flag_spec(active, r)
    } else if j < 13 {
        ark_spec(false, j - 1, active, r)
    } else if j < 25 {
        ark_spec(true, j - 13, active, r)
    } else if j == 25 {
        selector_spec(cycle_end_rows(CYC_ACC as int, 31), r)
    } else if j == 26 {
        selector_spec(seq![ROW_LEAF_LINK], r)
    } else if j == 27 {
        selector_spec(seq![ROW_SALT_LINK], r)
    } else if j == 28 {
        selector_spec(seq![ROW_LEAF_DONE], r)
    } else if j == 29 {
        selector_spec(seq![0usize], r)
    } else if j == 30 {
        selector_spec(seq![ROW_ROOT], r)
    } else if j == 31 {
        selector_spec(seq![ROW_PK_DONE], r)
    } else if j == 32 {
        selector_spec(seq![0usize, 64, 128, 192, 256], r)
    } else if j == 33 {
        continue_spec(NUM_SEGMENTS as int, SEGMENT_LENGTH as int, r)
    } else if j < 39 {
        selector_spec(seq![(64 * (j - 33) - 2) as usize], r)
    } else if j == 39 {
        selector_spec(seq![ROW_PK_DONE], r)
    } else if j == 40 {
        selector_spec(cycle_end_rows(CYC_FROZEN as int, 23), r)
    } else if j == 41 {
        selector_spec(seq![ROW_FROZEN_ROOT], r)
    } else if j == 42 {
        selector_spec(seq![ROW_PEND_INNER], r)
    } else if j == 43 {
        selector_spec(seq![ROW_PEND_ENV], r)
    } else if j == 44 {
        selector_spec(seq![ROW_PENDING_ENTRY], r)
    } else {
        selector_spec(cycle_end_rows(CYC_PEND_CLIMB as int, 31), r)
    }
}

/// The 46 periodic columns.
pub fn periodic_columns() -> (cols: Vec<Vec<u64>>)
    ensures
        cols.len() == 46,
        forall|j: int| 0 <= j < 46 ==> (#[trigger] cols[j]).len() == TRACE_LENGTH,
        forall|j: int, r: int| 0 <= j < 46 && 0 <= r < TRACE_LENGTH ==> #[trigger] cols[j][r] == periodic_spec(j, r),
        forall|j: int| 0 <= j < 46 ==> all_canonical(#[trigger] cols[j]@),
{
    let mut cols = round_columns(ROW_PENDING_ROOT + 1, TRACE_LENGTH);
    let ghost rounds = cols@;
    let mut acc_rows: Vec<usize> = Vec::new();
    push_cycle_end_rows(&mut acc_rows, CYC_ACC, 31);
    assert(acc_rows@ =~= cycle_end_rows(CYC_ACC as int, 31));
    cols.push(selector_column(&acc_rows, TRACE_LENGTH));
    push_row_selector(&mut cols, ROW_LEAF_LINK, TRACE_LENGTH);
    push_row_selector(&mut cols, ROW_SALT_LINK, TRACE_LENGTH);
    push_row_selector(&mut cols, ROW_LEAF_DONE, TRACE_LENGTH);
    push_row_selector(&mut cols, 0, TRACE_LENGTH);
    push_row_selector(&mut cols, ROW_ROOT, TRACE_LENGTH);
    push_row_selector(&mut cols, ROW_PK_DONE, TRACE_LENGTH);
    let firsts = vec![0usize, 64, 128, 192, 256];
    assert(firsts@ =~= seq![0usize, 64, 128, 192, 256]);
    cols.push(selector_column(&firsts, TRACE_LENGTH));
    cols.push(continue_column(NUM_SEGMENTS, SEGMENT_LENGTH, TRACE_LENGTH));
    let mut seg: usize = 0;
    while seg < NUM_SEGMENTS
        invariant
            seg <= NUM_SEGMENTS,
            cols.len() == 34 + seg,
            forall|j: int| 0 <= j < cols.len() ==> (#[trigger] cols[j]).len() == TRACE_LENGTH,
            forall|j: int, r: int|
                0 <= j < cols.len() && 0 <= r < TRACE_LENGTH ==> #[trigger] cols[j][r] == periodic_spec(j, r),
        decreases NUM_SEGMENTS - seg,
    {
        let row: usize = (seg + 1) * SEGMENT_LENGTH - 2;
        assert(row == (64 * ((34 + seg) as int - 33) - 2) as usize);
        push_row_selector(&mut cols, row, TRACE_LENGTH);
        seg = seg + 1;
    }
    push_row_selector(&mut cols, ROW_PK_DONE, TRACE_LENGTH);
    let mut frozen_rows: Vec<usize> = Vec::new();
    push_cycle_end_rows(&mut frozen_rows, CYC_FROZEN, 23);
    assert(frozen_rows@ =~= cycle_end_rows(CYC_FROZEN as int, 23));
    cols.push(selector_column(&frozen_rows, TRACE_LENGTH));
    push_row_selector(&mut cols, ROW_FROZEN_ROOT, TRACE_LENGTH);
    push_row_selector(&mut cols, ROW_PEND_INNER, TRACE_LENGTH);
    push_row_selector(&mut cols, ROW_PEND_ENV, TRACE_LENGTH);
    push_row_selector(&mut cols, ROW_PENDING_ENTRY, TRACE_LENGTH);
    let mut pend_rows: Vec<usize> = Vec::new();
    push_cycle_end_rows(&mut pend_rows, CYC_PEND_CLIMB, 31);
    assert(pend_rows@ =~= cycle_end_rows(CYC_PEND_CLIMB as int, 31));
    cols.push(selector_column(&pend_rows, TRACE_LENGTH));
    proof {
        assert forall|j: int| 0 <= j < 46 implies all_canonical(#[trigger] cols[j]@) by {
            assert forall|r: int| 0 <= r < cols[j]@.len() implies #[trigger] cols[j]@[r] < MODULUS by {
                if j < 25 {
                    assert(all_canonical(rounds[j]@));
                    assert(rounds[j][r] == cols[j][r]);
                } else {
                    assert(cols[j][r] == periodic_spec(j, r));
                }
            }
        }
    }
    cols
}

/// The 42 boundary assertions, those of the first form at this trace's
/// rows.
pub open spec fn assertions_spec(pi: SendPublicInputs) -> Seq<(usize, usize, u64)> {
    let z = seq![0u64, 0u64, 0u64, 0u64];
    pairs(4, 0, 0, z, 12, 0, z) + pairs(3, 9, 0, z, 21, 0, z) + pairs(4, 4, ROW_ROOT, pi.root_old@, 16, ROW_ROOT, pi.root_new@)
        + run(1, 4, ROW_PK_START, seq![SPEND_KEY_DOMAIN]) + run(3, 5, ROW_PK_START, z)
        + run(1, COL_AMT as int, 0, seq![pi.amount]) + run(1, COL_LIMIT as int, 0, seq![pi.regulatory_limit])
        + run(1, COL_SUPPLY_OLD as int, 0, seq![pi.supply_old]) + run(1, COL_SUPPLY_NEW as int, 0, seq![pi.supply_new])
        + run(4, 4, ROW_FROZEN_ROOT, pi.frozen_root@)
        + pairs(4, 4, ROW_PENDING_ROOT, pi.pending_root_old@, 16, ROW_PENDING_ROOT, pi.pending_root_new@)
}

/// The boundary assertions of a send of the second form.
pub fn assertions(pi: &SendPublicInputs) -> (a: Vec<(usize, usize, u64)>)
    ensures
        a@ == assertions_spec(*pi),
        a.len() == 42,
{
    let z = vec![0u64, 0, 0, 0];
    let root_old = vec![pi.root_old[0], pi.root_old[1], pi.root_old[2], pi.root_old[3]];
    let root_new = vec![pi.root_new[0], pi.root_new[1], pi.root_new[2], pi.root_new[3]];
    let frozen = vec![pi.frozen_root[0], pi.frozen_root[1], pi.frozen_root[2], pi.frozen_root[3]];
    let pro = vec![pi.pending_root_old[0], pi.pending_root_old[1], pi.pending_root_old[2], pi.pending_root_old[3]];
    let prn = vec![pi.pending_root_new[0], pi.pending_root_new[1], pi.pending_root_new[2], pi.pending_root_new[3]];
    let key_domain = vec![SPEND_KEY_DOMAIN];
    let amount = vec![pi.amount];
    let limit = vec![pi.regulatory_limit];
    let supply_old = vec![pi.supply_old];
    let supply_new = vec![pi.supply_new];
    assert(z@ =~= seq![0u64, 0u64, 0u64, 0u64]);
    assert(root_old@ =~= pi.root_old@);
    assert(root_new@ =~= pi.root_new@);
    assert(frozen@ =~= pi.frozen_root@);
    assert(pro@ =~= pi.pending_root_old@);
    assert(prn@ =~= pi.pending_root_new@);
    assert(key_domain@ =~= seq![SPEND_KEY_DOMAIN]);
    assert(amount@ =~= seq![pi.amount]);
    assert(limit@ =~= seq![pi.regulatory_limit]);
    assert(supply_old@ =~= seq![pi.supply_old]);
    assert(supply_new@ =~= seq![pi.supply_new]);
    let mut a: Vec<(usize, usize, u64)> = Vec::new();
    push_pairs(&mut a, 4, 0, 0, &z, 12, 0, &z);
    push_pairs(&mut a, 3, 9, 0, &z, 21, 0, &z);
    push_pairs(&mut a, 4, 4, ROW_ROOT, &root_old, 16, ROW_ROOT, &root_new);
    push_run(&mut a, 1, 4, ROW_PK_START, &key_domain);
    push_run(&mut a, 3, 5, ROW_PK_START, &z);
    push_run(&mut a, 1, COL_AMT, 0, &amount);
    push_run(&mut a, 1, COL_LIMIT, 0, &limit);
    push_run(&mut a, 1, COL_SUPPLY_OLD, 0, &supply_old);
    push_run(&mut a, 1, COL_SUPPLY_NEW, 0, &supply_new);
    push_run(&mut a, 4, 4, ROW_FROZEN_ROOT, &frozen);
    push_pairs(&mut a, 4, 4, ROW_PENDING_ROOT, &pro, 16, ROW_PENDING_ROOT, &prn);
    a
}


/// The number of transition constraints.
pub const NUM_CONSTRAINTS: usize = 211;

/// The residuals of constraints 24..=35.
#[verifier::opaque]
pub open spec fn residuals_0(cur: Seq<u64>, nxt: Seq<u64>, per: Seq<u64>) -> Seq<u64> {
    seq![
        mul_spec(add_spec(per[25], per[28]), nxt[0]),
        mul_spec(add_spec(per[25], per[28]), nxt[1]),
        mul_spec(add_spec(per[25], per[28]), nxt[2]),
        mul_spec(add_spec(per[25], per[28]), nxt[3]),
        mul_spec(add_spec(per[25], per[28]), nxt[12]),
        mul_spec(add_spec(per[25], per[28]), nxt[13]),
        mul_spec(add_spec(per[25], per[28]), nxt[14]),
        mul_spec(add_spec(per[25], per[28]), nxt[15]),
        mul_spec(add_spec(per[25], per[28]), add_spec(mul_spec(sub_spec(1u64, nxt[24]), sub_spec(nxt[4], cur[4])), mul_spec(nxt[24], sub_spec(nxt[8], cur[4])))),
        mul_spec(add_spec(per[25], per[28]), add_spec(mul_spec(sub_spec(1u64, nxt[24]), sub_spec(nxt[5], cur[5])), mul_spec(nxt[24], sub_spec(nxt[9], cur[5])))),
        mul_spec(add_spec(per[25], per[28]), add_spec(mul_spec(sub_spec(1u64, nxt[24]), sub_spec(nxt[6], cur[6])), mul_spec(nxt[24], sub_spec(nxt[10], cur[6])))),
        mul_spec(add_spec(per[25], per[28]), add_spec(mul_spec(sub_spec(1u64, nxt[24]), sub_spec(nxt[7], cur[7])), mul_spec(nxt[24], sub_spec(nxt[11], cur[7])))),
    ]
}

fn residuals_0_eval(cur: &Vec<u64>, nxt: &Vec<u64>, per: &Vec<u64>) -> (r: Vec<u64>)
    requires
        cur.len() == TRACE_WIDTH,
        nxt.len() == TRACE_WIDTH,
        per.len() == 46,
        all_canonical(cur@),
        all_canonical(nxt@),
        all_canonical(per@),
    ensures
        r@ == residuals_0(cur@, nxt@, per@),
        r.len() == 12,
{
    let r = vec![
        fmul(fadd(per[25], per[28]), nxt[0]),
        fmul(fadd(per[25], per[28]), nxt[1]),
        fmul(fadd(per[25], per[28]), nxt[2]),
        fmul(fadd(per[25], per[28]), nxt[3]),
        fmul(fadd(per[25], per[28]), nxt[12]),
        fmul(fadd(per[25], per[28]), nxt[13]),
        fmul(fadd(per[25], per[28]), nxt[14]),
        fmul(fadd(per[25], per[28]), nxt[15]),
        fmul(fadd(per[25], per[28]), fadd(fmul(fsub(1u64, nxt[24]), fsub(nxt[4], cur[4])), fmul(nxt[24], fsub(nxt[8], cur[4])))),
        fmul(fadd(per[25], per[28]), fadd(fmul(fsub(1u64, nxt[24]), fsub(nxt[5], cur[5])), fmul(nxt[24], fsub(nxt[9], cur[5])))),
        fmul(fadd(per[25], per[28]), fadd(fmul(fsub(1u64, nxt[24]), fsub(nxt[6], cur[6])), fmul(nxt[24], fsub(nxt[10], cur[6])))),
        fmul(fadd(per[25], per[28]), fadd(fmul(fsub(1u64, nxt[24]), fsub(nxt[7], cur[7])), fmul(nxt[24], fsub(nxt[11], cur[7])))),
    ];
    proof {
        reveal(residuals_0);
    }
    assert(r@ =~= residuals_0(cur@, nxt@, per@));
    r
}

/// The residuals of constraints 36..=47.
#[verifier::opaque]
pub open spec fn residuals_1(cur: Seq<u64>, nxt: Seq<u64>, per: Seq<u64>) -> Seq<u64> {
    seq![
        mul_spec(add_spec(per[25], per[28]), add_spec(mul_spec(sub_spec(1u64, nxt[24]), sub_spec(nxt[16], cur[16])), mul_spec(nxt[24], sub_spec(nxt[20], cur[16])))),
        mul_spec(add_spec(per[25], per[28]), add_spec(mul_spec(sub_spec(1u64, nxt[24]), sub_spec(nxt[17], cur[17])), mul_spec(nxt[24], sub_spec(nxt[21], cur[17])))),
        mul_spec(add_spec(per[25], per[28]), add_spec(mul_spec(sub_spec(1u64, nxt[24]), sub_spec(nxt[18], cur[18])), mul_spec(nxt[24], sub_spec(nxt[22], cur[18])))),
        mul_spec(add_spec(per[25], per[28]), add_spec(mul_spec(sub_spec(1u64, nxt[24]), sub_spec(nxt[19], cur[19])), mul_spec(nxt[24], sub_spec(nxt[23], cur[19])))),
        mul_spec(add_spec(per[25], per[28]), sub_spec(add_spec(mul_spec(sub_spec(1u64, nxt[24]), nxt[8]), mul_spec(nxt[24], nxt[4])), add_spec(mul_spec(sub_spec(1u64, nxt[24]), nxt[20]), mul_spec(nxt[24], nxt[16])))),
        mul_spec(add_spec(per[25], per[28]), sub_spec(add_spec(mul_spec(sub_spec(1u64, nxt[24]), nxt[9]), mul_spec(nxt[24], nxt[5])), add_spec(mul_spec(sub_spec(1u64, nxt[24]), nxt[21]), mul_spec(nxt[24], nxt[17])))),
        mul_spec(add_spec(per[25], per[28]), sub_spec(add_spec(mul_spec(sub_spec(1u64, nxt[24]), nxt[10]), mul_spec(nxt[24], nxt[6])), add_spec(mul_spec(sub_spec(1u64, nxt[24]), nxt[22]), mul_spec(nxt[24], nxt[18])))),
        mul_spec(add_spec(per[25], per[28]), sub_spec(add_spec(mul_spec(sub_spec(1u64, nxt[24]), nxt[11]), mul_spec(nxt[24], nxt[7])), add_spec(mul_spec(sub_spec(1u64, nxt[24]), nxt[23]), mul_spec(nxt[24], nxt[19])))),
        mul_spec(cur[24], sub_spec(cur[24], 1u64)),
        mul_spec(per[26], nxt[0]),
        mul_spec(per[26], nxt[1]),
        mul_spec(per[26], nxt[2]),
    ]
}

fn residuals_1_eval(cur: &Vec<u64>, nxt: &Vec<u64>, per: &Vec<u64>) -> (r: Vec<u64>)
    requires
        cur.len() == TRACE_WIDTH,
        nxt.len() == TRACE_WIDTH,
        per.len() == 46,
        all_canonical(cur@),
        all_canonical(nxt@),
        all_canonical(per@),
    ensures
        r@ == residuals_1(cur@, nxt@, per@),
        r.len() == 12,
{
    let r = vec![
        fmul(fadd(per[25], per[28]), fadd(fmul(fsub(1u64, nxt[24]), fsub(nxt[16], cur[16])), fmul(nxt[24], fsub(nxt[20], cur[16])))),
        fmul(fadd(per[25], per[28]), fadd(fmul(fsub(1u64, nxt[24]), fsub(nxt[17], cur[17])), fmul(nxt[24], fsub(nxt[21], cur[17])))),
        fmul(fadd(per[25], per[28]), fadd(fmul(fsub(1u64, nxt[24]), fsub(nxt[18], cur[18])), fmul(nxt[24], fsub(nxt[22], cur[18])))),
        fmul(fadd(per[25], per[28]), fadd(fmul(fsub(1u64, nxt[24]), fsub(nxt[19], cur[19])), fmul(nxt[24], fsub(nxt[23], cur[19])))),
        fmul(fadd(per[25], per[28]), fsub(fadd(fmul(fsub(1u64, nxt[24]), nxt[8]), fmul(nxt[24], nxt[4])), fadd(fmul(fsub(1u64, nxt[24]), nxt[20]), fmul(nxt[24], nxt[16])))),
        fmul(fadd(per[25], per[28]), fsub(fadd(fmul(fsub(1u64, nxt[24]), nxt[9]), fmul(nxt[24], nxt[5])), fadd(fmul(fsub(1u64, nxt[24]), nxt[21]), fmul(nxt[24], nxt[17])))),
        fmul(fadd(per[25], per[28]), fsub(fadd(fmul(fsub(1u64, nxt[24]), nxt[10]), fmul(nxt[24], nxt[6])), fadd(fmul(fsub(1u64, nxt[24]), nxt[22]), fmul(nxt[24], nxt[18])))),
        fmul(fadd(per[25], per[28]), fsub(fadd(fmul(fsub(1u64, nxt[24]), nxt[11]), fmul(nxt[24], nxt[7])), fadd(fmul(fsub(1u64, nxt[24]), nxt[23]), fmul(nxt[24], nxt[19])))),
        fmul(cur[24], fsub(cur[24], 1u64)),
        fmul(per[26], nxt[0]),
        fmul(per[26], nxt[1]),
        fmul(per[26], nxt[2]),
    ];
    proof {
        reveal(residuals_1);
    }
    assert(r@ =~= residuals_1(cur@, nxt@, per@));
    r
}

/// The residuals of constraints 48..=59.
#[verifier::opaque]
pub open spec fn residuals_2(cur: Seq<u64>, nxt: Seq<u64>, per: Seq<u64>) -> Seq<u64> {
    seq![
        mul_spec(per[26], nxt[3]),
        mul_spec(per[26], nxt[12]),
        mul_spec(per[26], nxt[13]),
        mul_spec(per[26], nxt[14]),
        mul_spec(per[26], nxt[15]),
        mul_spec(per[26], sub_spec(nxt[4], cur[4])),
        mul_spec(per[26], sub_spec(nxt[5], cur[5])),
        mul_spec(per[26], sub_spec(nxt[6], cur[6])),
        mul_spec(per[26], sub_spec(nxt[7], cur[7])),
        mul_spec(per[26], sub_spec(nxt[16], cur[16])),
        mul_spec(per[26], sub_spec(nxt[17], cur[17])),
        mul_spec(per[26], sub_spec(nxt[18], cur[18])),
    ]
}

fn residuals_2_eval(cur: &Vec<u64>, nxt: &Vec<u64>, per: &Vec<u64>) -> (r: Vec<u64>)
    requires
        cur.len() == TRACE_WIDTH,
        nxt.len() == TRACE_WIDTH,
        per.len() == 46,
        all_canonical(cur@),
        all_canonical(nxt@),
        all_canonical(per@),
    ensures
        r@ == residuals_2(cur@, nxt@, per@),
        r.len() == 12,
{
    let r = vec![
        fmul(per[26], nxt[3]),
        fmul(per[26], nxt[12]),
        fmul(per[26], nxt[13]),
        fmul(per[26], nxt[14]),
        fmul(per[26], nxt[15]),
        fmul(per[26], fsub(nxt[4], cur[4])),
        fmul(per[26], fsub(nxt[5], cur[5])),
        fmul(per[26], fsub(nxt[6], cur[6])),
        fmul(per[26], fsub(nxt[7], cur[7])),
        fmul(per[26], fsub(nxt[16], cur[16])),
        fmul(per[26], fsub(nxt[17], cur[17])),
        fmul(per[26], fsub(nxt[18], cur[18])),
    ];
    proof {
        reveal(residuals_2);
    }
    assert(r@ =~= residuals_2(cur@, nxt@, per@));
    r
}

/// The residuals of constraints 60..=71.
#[verifier::opaque]
pub open spec fn residuals_3(cur: Seq<u64>, nxt: Seq<u64>, per: Seq<u64>) -> Seq<u64> {
    seq![
        mul_spec(per[26], sub_spec(nxt[19], cur[19])),
        mul_spec(per[26], sub_spec(nxt[8], cur[35])),
        mul_spec(per[26], sub_spec(nxt[20], cur[35])),
        mul_spec(per[29], sub_spec(cur[4], cur[29])),
        mul_spec(per[29], sub_spec(cur[5], cur[30])),
        mul_spec(per[29], sub_spec(cur[6], cur[31])),
        mul_spec(per[29], sub_spec(cur[7], cur[32])),
        mul_spec(per[29], sub_spec(cur[8], cur[33])),
        mul_spec(per[29], sub_spec(cur[16], cur[29])),
        mul_spec(per[29], sub_spec(cur[17], cur[30])),
        mul_spec(per[29], sub_spec(cur[18], cur[31])),
        mul_spec(per[29], sub_spec(cur[19], cur[32])),
    ]
}

fn residuals_3_eval(cur: &Vec<u64>, nxt: &Vec<u64>, per: &Vec<u64>) -> (r: Vec<u64>)
    requires
        cur.len() == TRACE_WIDTH,
        nxt.len() == TRACE_WIDTH,
        per.len() == 46,
        all_canonical(cur@),
        all_canonical(nxt@),
        all_canonical(per@),
    ensures
        r@ == residuals_3(cur@, nxt@, per@),
        r.len() == 12,
{
    let r = vec![
        fmul(per[26], fsub(nxt[19], cur[19])),
        fmul(per[26], fsub(nxt[8], cur[35])),
        fmul(per[26], fsub(nxt[20], cur[35])),
        fmul(per[29], fsub(cur[4], cur[29])),
        fmul(per[29], fsub(cur[5], cur[30])),
        fmul(per[29], fsub(cur[6], cur[31])),
        fmul(per[29], fsub(cur[7], cur[32])),
        fmul(per[29], fsub(cur[8], cur[33])),
        fmul(per[29], fsub(cur[16], cur[29])),
        fmul(per[29], fsub(cur[17], cur[30])),
        fmul(per[29], fsub(cur[18], cur[31])),
        fmul(per[29], fsub(cur[19], cur[32])),
    ];
    proof {
        reveal(residuals_3);
    }
    assert(r@ =~= residuals_3(cur@, nxt@, per@));
    r
}

/// The residuals of constraints 72..=83.
#[verifier::opaque]
pub open spec fn residuals_4(cur: Seq<u64>, nxt: Seq<u64>, per: Seq<u64>) -> Seq<u64> {
    seq![
        mul_spec(per[29], sub_spec(cur[20], cur[34])),
        mul_spec(per[30], sub_spec(nxt[8], cur[25])),
        mul_spec(per[30], sub_spec(nxt[9], cur[26])),
        mul_spec(per[30], sub_spec(nxt[10], cur[27])),
        mul_spec(per[30], sub_spec(nxt[11], cur[28])),
        mul_spec(per[30], sub_spec(nxt[20], cur[25])),
        mul_spec(per[30], sub_spec(nxt[21], cur[26])),
        mul_spec(per[30], sub_spec(nxt[22], cur[27])),
        mul_spec(per[30], sub_spec(nxt[23], cur[28])),
        mul_spec(per[31], sub_spec(cur[4], cur[29])),
        mul_spec(per[31], sub_spec(cur[5], cur[30])),
        mul_spec(per[31], sub_spec(cur[6], cur[31])),
    ]
}

fn residuals_4_eval(cur: &Vec<u64>, nxt: &Vec<u64>, per: &Vec<u64>) -> (r: Vec<u64>)
    requires
        cur.len() == TRACE_WIDTH,
        nxt.len() == TRACE_WIDTH,
        per.len() == 46,
        all_canonical(cur@),
        all_canonical(nxt@),
        all_canonical(per@),
    ensures
        r@ == residuals_4(cur@, nxt@, per@),
        r.len() == 12,
{
    let r = vec![
        fmul(per[29], fsub(cur[20], cur[34])),
        fmul(per[30], fsub(nxt[8], cur[25])),
        fmul(per[30], fsub(nxt[9], cur[26])),
        fmul(per[30], fsub(nxt[10], cur[27])),
        fmul(per[30], fsub(nxt[11], cur[28])),
        fmul(per[30], fsub(nxt[20], cur[25])),
        fmul(per[30], fsub(nxt[21], cur[26])),
        fmul(per[30], fsub(nxt[22], cur[27])),
        fmul(per[30], fsub(nxt[23], cur[28])),
        fmul(per[31], fsub(cur[4], cur[29])),
        fmul(per[31], fsub(cur[5], cur[30])),
        fmul(per[31], fsub(cur[6], cur[31])),
    ];
    proof {
        reveal(residuals_4);
    }
    assert(r@ =~= residuals_4(cur@, nxt@, per@));
    r
}

/// The residuals of constraints 84..=95.
#[verifier::opaque]
pub open spec fn residuals_5(cur: Seq<u64>, nxt: Seq<u64>, per: Seq<u64>) -> Seq<u64> {
    seq![
        mul_spec(per[31], sub_spec(cur[7], cur[32])),
        sub_spec(cur[34], sub_spec(cur[33], cur[36])),
        sub_spec(cur[38], cur[37]),
        sub_spec(nxt[25], cur[25]),
        sub_spec(nxt[26], cur[26]),
        sub_spec(nxt[27], cur[27]),
        sub_spec(nxt[28], cur[28]),
        sub_spec(nxt[33], cur[33]),
        sub_spec(nxt[34], cur[34]),
        sub_spec(nxt[35], cur[35]),
        sub_spec(nxt[36], cur[36]),
        sub_spec(nxt[37], cur[37]),
    ]
}

fn residuals_5_eval(cur: &Vec<u64>, nxt: &Vec<u64>, per: &Vec<u64>) -> (r: Vec<u64>)
    requires
        cur.len() == TRACE_WIDTH,
        nxt.len() == TRACE_WIDTH,
        per.len() == 46,
        all_canonical(cur@),
        all_canonical(nxt@),
        all_canonical(per@),
    ensures
        r@ == residuals_5(cur@, nxt@, per@),
        r.len() == 12,
{
    let r = vec![
        fmul(per[31], fsub(cur[7], cur[32])),
        fsub(cur[34], fsub(cur[33], cur[36])),
        fsub(cur[38], cur[37]),
        fsub(nxt[25], cur[25]),
        fsub(nxt[26], cur[26]),
        fsub(nxt[27], cur[27]),
        fsub(nxt[28], cur[28]),
        fsub(nxt[33], cur[33]),
        fsub(nxt[34], cur[34]),
        fsub(nxt[35], cur[35]),
        fsub(nxt[36], cur[36]),
        fsub(nxt[37], cur[37]),
    ];
    proof {
        reveal(residuals_5);
    }
    assert(r@ =~= residuals_5(cur@, nxt@, per@));
    r
}

/// The residuals of constraints 96..=107.
#[verifier::opaque]
pub open spec fn residuals_6(cur: Seq<u64>, nxt: Seq<u64>, per: Seq<u64>) -> Seq<u64> {
    seq![
        sub_spec(nxt[38], cur[38]),
        sub_spec(nxt[43], cur[43]),
        sub_spec(nxt[44], cur[44]),
        sub_spec(nxt[45], cur[45]),
        sub_spec(nxt[46], cur[46]),
        sub_spec(nxt[47], cur[47]),
        sub_spec(nxt[48], cur[48]),
        sub_spec(nxt[49], cur[49]),
        sub_spec(nxt[50], cur[50]),
        sub_spec(nxt[29], cur[29]),
        sub_spec(nxt[30], cur[30]),
        sub_spec(nxt[31], cur[31]),
    ]
}

fn residuals_6_eval(cur: &Vec<u64>, nxt: &Vec<u64>, per: &Vec<u64>) -> (r: Vec<u64>)
    requires
        cur.len() == TRACE_WIDTH,
        nxt.len() == TRACE_WIDTH,
        per.len() == 46,
        all_canonical(cur@),
        all_canonical(nxt@),
        all_canonical(per@),
    ensures
        r@ == residuals_6(cur@, nxt@, per@),
        r.len() == 12,
{
    let r = vec![
        fsub(nxt[38], cur[38]),
        fsub(nxt[43], cur[43]),
        fsub(nxt[44], cur[44]),
        fsub(nxt[45], cur[45]),
        fsub(nxt[46], cur[46]),
        fsub(nxt[47], cur[47]),
        fsub(nxt[48], cur[48]),
        fsub(nxt[49], cur[49]),
        fsub(nxt[50], cur[50]),
        fsub(nxt[29], cur[29]),
        fsub(nxt[30], cur[30]),
        fsub(nxt[31], cur[31]),
    ];
    proof {
        reveal(residuals_6);
    }
    assert(r@ =~= residuals_6(cur@, nxt@, per@));
    r
}

/// The residuals of constraints 108..=119.
#[verifier::opaque]
pub open spec fn residuals_7(cur: Seq<u64>, nxt: Seq<u64>, per: Seq<u64>) -> Seq<u64> {
    seq![
        sub_spec(nxt[32], cur[32]),
        mul_spec(cur[39], sub_spec(cur[39], 1u64)),
        mul_spec(nxt[39], sub_spec(nxt[39], 1u64)),
        mul_spec(per[32], cur[39]),
        mul_spec(per[32], cur[40]),
        mul_spec(per[33], sub_spec(nxt[40], add_spec(add_spec(cur[40], cur[40]), nxt[39]))),
        mul_spec(per[34], sub_spec(nxt[40], cur[33])),
        mul_spec(per[35], sub_spec(nxt[40], cur[36])),
        mul_spec(per[36], sub_spec(nxt[40], cur[34])),
        mul_spec(per[37], sub_spec(nxt[40], cur[38])),
        mul_spec(per[38], sub_spec(nxt[40], sub_spec(cur[51], cur[36]))),
        mul_spec(add_spec(per[39], per[40]), nxt[0]),
    ]
}

fn residuals_7_eval(cur: &Vec<u64>, nxt: &Vec<u64>, per: &Vec<u64>) -> (r: Vec<u64>)
    requires
        cur.len() == TRACE_WIDTH,
        nxt.len() == TRACE_WIDTH,
        per.len() == 46,
        all_canonical(cur@),
        all_canonical(nxt@),
        all_canonical(per@),
    ensures
        r@ == residuals_7(cur@, nxt@, per@),
        r.len() == 12,
{
    let r = vec![
        fsub(nxt[32], cur[32]),
        fmul(cur[39], fsub(cur[39], 1u64)),
        fmul(nxt[39], fsub(nxt[39], 1u64)),
        fmul(per[32], cur[39]),
        fmul(per[32], cur[40]),
        fmul(per[33], fsub(nxt[40], fadd(fadd(cur[40], cur[40]), nxt[39]))),
        fmul(per[34], fsub(nxt[40], cur[33])),
        fmul(per[35], fsub(nxt[40], cur[36])),
        fmul(per[36], fsub(nxt[40], cur[34])),
        fmul(per[37], fsub(nxt[40], cur[38])),
        fmul(per[38], fsub(nxt[40], fsub(cur[51], cur[36]))),
        fmul(fadd(per[39], per[40]), nxt[0]),
    ];
    proof {
        reveal(residuals_7);
    }
    assert(r@ =~= residuals_7(cur@, nxt@, per@));
    r
}

/// The residuals of constraints 120..=131.
#[verifier::opaque]
pub open spec fn residuals_8(cur: Seq<u64>, nxt: Seq<u64>, per: Seq<u64>) -> Seq<u64> {
    seq![
        mul_spec(add_spec(per[39], per[40]), nxt[1]),
        mul_spec(add_spec(per[39], per[40]), nxt[2]),
        mul_spec(add_spec(per[39], per[40]), nxt[3]),
        mul_spec(per[39], add_spec(mul_spec(sub_spec(1u64, nxt[41]), nxt[4]), mul_spec(nxt[41], nxt[8]))),
        mul_spec(per[39], add_spec(mul_spec(sub_spec(1u64, nxt[41]), nxt[5]), mul_spec(nxt[41], nxt[9]))),
        mul_spec(per[39], add_spec(mul_spec(sub_spec(1u64, nxt[41]), nxt[6]), mul_spec(nxt[41], nxt[10]))),
        mul_spec(per[39], add_spec(mul_spec(sub_spec(1u64, nxt[41]), nxt[7]), mul_spec(nxt[41], nxt[11]))),
        mul_spec(per[40], add_spec(mul_spec(sub_spec(1u64, nxt[41]), sub_spec(nxt[4], cur[4])), mul_spec(nxt[41], sub_spec(nxt[8], cur[4])))),
        mul_spec(per[40], add_spec(mul_spec(sub_spec(1u64, nxt[41]), sub_spec(nxt[5], cur[5])), mul_spec(nxt[41], sub_spec(nxt[9], cur[5])))),
        mul_spec(per[40], add_spec(mul_spec(sub_spec(1u64, nxt[41]), sub_spec(nxt[6], cur[6])), mul_spec(nxt[41], sub_spec(nxt[10], cur[6])))),
        mul_spec(per[40], add_spec(mul_spec(sub_spec(1u64, nxt[41]), sub_spec(nxt[7], cur[7])), mul_spec(nxt[41], sub_spec(nxt[11], cur[7])))),
        mul_spec(cur[41], sub_spec(cur[41], 1u64)),
    ]
}

fn residuals_8_eval(cur: &Vec<u64>, nxt: &Vec<u64>, per: &Vec<u64>) -> (r: Vec<u64>)
    requires
        cur.len() == TRACE_WIDTH,
        nxt.len() == TRACE_WIDTH,
        per.len() == 46,
        all_canonical(cur@),
        all_canonical(nxt@),
        all_canonical(per@),
    ensures
        r@ == residuals_8(cur@, nxt@, per@),
        r.len() == 12,
{
    let r = vec![
        fmul(fadd(per[39], per[40]), nxt[1]),
        fmul(fadd(per[39], per[40]), nxt[2]),
        fmul(fadd(per[39], per[40]), nxt[3]),
        fmul(per[39], fadd(fmul(fsub(1u64, nxt[41]), nxt[4]), fmul(nxt[41], nxt[8]))),
        fmul(per[39], fadd(fmul(fsub(1u64, nxt[41]), nxt[5]), fmul(nxt[41], nxt[9]))),
        fmul(per[39], fadd(fmul(fsub(1u64, nxt[41]), nxt[6]), fmul(nxt[41], nxt[10]))),
        fmul(per[39], fadd(fmul(fsub(1u64, nxt[41]), nxt[7]), fmul(nxt[41], nxt[11]))),
        fmul(per[40], fadd(fmul(fsub(1u64, nxt[41]), fsub(nxt[4], cur[4])), fmul(nxt[41], fsub(nxt[8], cur[4])))),
        fmul(per[40], fadd(fmul(fsub(1u64, nxt[41]), fsub(nxt[5], cur[5])), fmul(nxt[41], fsub(nxt[9], cur[5])))),
        fmul(per[40], fadd(fmul(fsub(1u64, nxt[41]), fsub(nxt[6], cur[6])), fmul(nxt[41], fsub(nxt[10], cur[6])))),
        fmul(per[40], fadd(fmul(fsub(1u64, nxt[41]), fsub(nxt[7], cur[7])), fmul(nxt[41], fsub(nxt[11], cur[7])))),
        fmul(cur[41], fsub(cur[41], 1u64)),
    ];
    proof {
        reveal(residuals_8);
    }
    assert(r@ =~= residuals_8(cur@, nxt@, per@));
    r
}

/// The residuals of constraints 132..=143.
#[verifier::opaque]
pub open spec fn residuals_9(cur: Seq<u64>, nxt: Seq<u64>, per: Seq<u64>) -> Seq<u64> {
    seq![
        mul_spec(per[41], nxt[0]),
        mul_spec(per[41], nxt[1]),
        mul_spec(per[41], nxt[2]),
        mul_spec(per[41], nxt[3]),
        mul_spec(per[41], sub_spec(nxt[4], cur[43])),
        mul_spec(per[41], sub_spec(nxt[5], cur[44])),
        mul_spec(per[41], sub_spec(nxt[6], cur[45])),
        mul_spec(per[41], sub_spec(nxt[7], cur[46])),
        mul_spec(per[41], sub_spec(nxt[8], cur[47])),
        mul_spec(per[41], sub_spec(nxt[9], cur[48])),
        mul_spec(per[41], sub_spec(nxt[10], cur[49])),
        mul_spec(per[41], sub_spec(nxt[11], cur[50])),
    ]
}

fn residuals_9_eval(cur: &Vec<u64>, nxt: &Vec<u64>, per: &Vec<u64>) -> (r: Vec<u64>)
    requires
        cur.len() == TRACE_WIDTH,
        nxt.len() == TRACE_WIDTH,
        per.len() == 46,
        all_canonical(cur@),
        all_canonical(nxt@),
        all_canonical(per@),
    ensures
        r@ == residuals_9(cur@, nxt@, per@),
        r.len() == 12,
{
    let r = vec![
        fmul(per[41], nxt[0]),
        fmul(per[41], nxt[1]),
        fmul(per[41], nxt[2]),
        fmul(per[41], nxt[3]),
        fmul(per[41], fsub(nxt[4], cur[43])),
        fmul(per[41], fsub(nxt[5], cur[44])),
        fmul(per[41], fsub(nxt[6], cur[45])),
        fmul(per[41], fsub(nxt[7], cur[46])),
        fmul(per[41], fsub(nxt[8], cur[47])),
        fmul(per[41], fsub(nxt[9], cur[48])),
        fmul(per[41], fsub(nxt[10], cur[49])),
        fmul(per[41], fsub(nxt[11], cur[50])),
    ];
    proof {
        reveal(residuals_9);
    }
    assert(r@ =~= residuals_9(cur@, nxt@, per@));
    r
}

/// The residuals of constraints 144..=155.
#[verifier::opaque]
pub open spec fn residuals_10(cur: Seq<u64>, nxt: Seq<u64>, per: Seq<u64>) -> Seq<u64> {
    seq![
        mul_spec(per[42], sub_spec(nxt[4], cur[4])),
        mul_spec(per[42], sub_spec(nxt[5], cur[5])),
        mul_spec(per[42], sub_spec(nxt[6], cur[6])),
        mul_spec(per[42], sub_spec(nxt[7], cur[7])),
        mul_spec(per[42], sub_spec(nxt[8], cur[36])),
        mul_spec(add_spec(per[44], per[45]), nxt[0]),
        mul_spec(add_spec(per[44], per[45]), nxt[1]),
        mul_spec(add_spec(per[44], per[45]), nxt[2]),
        mul_spec(add_spec(per[44], per[45]), nxt[3]),
        mul_spec(add_spec(per[44], per[45]), nxt[12]),
        mul_spec(add_spec(per[44], per[45]), nxt[13]),
        mul_spec(add_spec(per[44], per[45]), nxt[14]),
    ]
}

fn residuals_10_eval(cur: &Vec<u64>, nxt: &Vec<u64>, per: &Vec<u64>) -> (r: Vec<u64>)
    requires
        cur.len() == TRACE_WIDTH,
        nxt.len() == TRACE_WIDTH,
        per.len() == 46,
        all_canonical(cur@),
        all_canonical(nxt@),
        all_canonical(per@),
    ensures
        r@ == residuals_10(cur@, nxt@, per@),
        r.len() == 12,
{
    let r = vec![
        fmul(per[42], fsub(nxt[4], cur[4])),
        fmul(per[42], fsub(nxt[5], cur[5])),
        fmul(per[42], fsub(nxt[6], cur[6])),
        fmul(per[42], fsub(nxt[7], cur[7])),
        fmul(per[42], fsub(nxt[8], cur[36])),
        fmul(fadd(per[44], per[45]), nxt[0]),
        fmul(fadd(per[44], per[45]), nxt[1]),
        fmul(fadd(per[44], per[45]), nxt[2]),
        fmul(fadd(per[44], per[45]), nxt[3]),
        fmul(fadd(per[44], per[45]), nxt[12]),
        fmul(fadd(per[44], per[45]), nxt[13]),
        fmul(fadd(per[44], per[45]), nxt[14]),
    ];
    proof {
        reveal(residuals_10);
    }
    assert(r@ =~= residuals_10(cur@, nxt@, per@));
    r
}

/// The residuals of constraints 156..=167.
#[verifier::opaque]
pub open spec fn residuals_11(cur: Seq<u64>, nxt: Seq<u64>, per: Seq<u64>) -> Seq<u64> {
    seq![
        mul_spec(add_spec(per[44], per[45]), nxt[15]),
        mul_spec(per[44], add_spec(mul_spec(sub_spec(1u64, nxt[42]), nxt[4]), mul_spec(nxt[42], nxt[8]))),
        mul_spec(per[44], add_spec(mul_spec(sub_spec(1u64, nxt[42]), nxt[5]), mul_spec(nxt[42], nxt[9]))),
        mul_spec(per[44], add_spec(mul_spec(sub_spec(1u64, nxt[42]), nxt[6]), mul_spec(nxt[42], nxt[10]))),
        mul_spec(per[44], add_spec(mul_spec(sub_spec(1u64, nxt[42]), nxt[7]), mul_spec(nxt[42], nxt[11]))),
        mul_spec(per[44], add_spec(mul_spec(sub_spec(1u64, nxt[42]), sub_spec(nxt[16], cur[16])), mul_spec(nxt[42], sub_spec(nxt[20], cur[16])))),
        mul_spec(per[44], add_spec(mul_spec(sub_spec(1u64, nxt[42]), sub_spec(nxt[17], cur[17])), mul_spec(nxt[42], sub_spec(nxt[21], cur[17])))),
        mul_spec(per[44], add_spec(mul_spec(sub_spec(1u64, nxt[42]), sub_spec(nxt[18], cur[18])), mul_spec(nxt[42], sub_spec(nxt[22], cur[18])))),
        mul_spec(per[44], add_spec(mul_spec(sub_spec(1u64, nxt[42]), sub_spec(nxt[19], cur[19])), mul_spec(nxt[42], sub_spec(nxt[23], cur[19])))),
        mul_spec(per[45], add_spec(mul_spec(sub_spec(1u64, nxt[42]), sub_spec(nxt[4], cur[4])), mul_spec(nxt[42], sub_spec(nxt[8], cur[4])))),
        mul_spec(per[45], add_spec(mul_spec(sub_spec(1u64, nxt[42]), sub_spec(nxt[5], cur[5])), mul_spec(nxt[42], sub_spec(nxt[9], cur[5])))),
        mul_spec(per[45], add_spec(mul_spec(sub_spec(1u64, nxt[42]), sub_spec(nxt[6], cur[6])), mul_spec(nxt[42], sub_spec(nxt[10], cur[6])))),
    ]
}

fn residuals_11_eval(cur: &Vec<u64>, nxt: &Vec<u64>, per: &Vec<u64>) -> (r: Vec<u64>)
    requires
        cur.len() == TRACE_WIDTH,
        nxt.len() == TRACE_WIDTH,
        per.len() == 46,
        all_canonical(cur@),
        all_canonical(nxt@),
        all_canonical(per@),
    ensures
        r@ == residuals_11(cur@, nxt@, per@),
        r.len() == 12,
{
    let r = vec![
        fmul(fadd(per[44], per[45]), nxt[15]),
        fmul(per[44], fadd(fmul(fsub(1u64, nxt[42]), nxt[4]), fmul(nxt[42], nxt[8]))),
        fmul(per[44], fadd(fmul(fsub(1u64, nxt[42]), nxt[5]), fmul(nxt[42], nxt[9]))),
        fmul(per[44], fadd(fmul(fsub(1u64, nxt[42]), nxt[6]), fmul(nxt[42], nxt[10]))),
        fmul(per[44], fadd(fmul(fsub(1u64, nxt[42]), nxt[7]), fmul(nxt[42], nxt[11]))),
        fmul(per[44], fadd(fmul(fsub(1u64, nxt[42]), fsub(nxt[16], cur[16])), fmul(nxt[42], fsub(nxt[20], cur[16])))),
        fmul(per[44], fadd(fmul(fsub(1u64, nxt[42]), fsub(nxt[17], cur[17])), fmul(nxt[42], fsub(nxt[21], cur[17])))),
        fmul(per[44], fadd(fmul(fsub(1u64, nxt[42]), fsub(nxt[18], cur[18])), fmul(nxt[42], fsub(nxt[22], cur[18])))),
        fmul(per[44], fadd(fmul(fsub(1u64, nxt[42]), fsub(nxt[19], cur[19])), fmul(nxt[42], fsub(nxt[23], cur[19])))),
        fmul(per[45], fadd(fmul(fsub(1u64, nxt[42]), fsub(nxt[4], cur[4])), fmul(nxt[42], fsub(nxt[8], cur[4])))),
        fmul(per[45], fadd(fmul(fsub(1u64, nxt[42]), fsub(nxt[5], cur[5])), fmul(nxt[42], fsub(nxt[9], cur[5])))),
        fmul(per[45], fadd(fmul(fsub(1u64, nxt[42]), fsub(nxt[6], cur[6])), fmul(nxt[42], fsub(nxt[10], cur[6])))),
    ];
    proof {
        reveal(residuals_11);
    }
    assert(r@ =~= residuals_11(cur@, nxt@, per@));
    r
}

/// The residuals of constraints 168..=179.
#[verifier::opaque]
pub open spec fn residuals_12(cur: Seq<u64>, nxt: Seq<u64>, per: Seq<u64>) -> Seq<u64> {
    seq![
        mul_spec(per[45], add_spec(mul_spec(sub_spec(1u64, nxt[42]), sub_spec(nxt[7], cur[7])), mul_spec(nxt[42], sub_spec(nxt[11], cur[7])))),
        mul_spec(per[45], add_spec(mul_spec(sub_spec(1u64, nxt[42]), sub_spec(nxt[16], cur[16])), mul_spec(nxt[42], sub_spec(nxt[20], cur[16])))),
        mul_spec(per[45], add_spec(mul_spec(sub_spec(1u64, nxt[42]), sub_spec(nxt[17], cur[17])), mul_spec(nxt[42], sub_spec(nxt[21], cur[17])))),
        mul_spec(per[45], add_spec(mul_spec(sub_spec(1u64, nxt[42]), sub_spec(nxt[18], cur[18])), mul_spec(nxt[42], sub_spec(nxt[22], cur[18])))),
        mul_spec(per[45], add_spec(mul_spec(sub_spec(1u64, nxt[42]), sub_spec(nxt[19], cur[19])), mul_spec(nxt[42], sub_spec(nxt[23], cur[19])))),
        mul_spec(per[45], sub_spec(add_spec(mul_spec(sub_spec(1u64, nxt[42]), nxt[8]), mul_spec(nxt[42], nxt[4])), add_spec(mul_spec(sub_spec(1u64, nxt[42]), nxt[20]), mul_spec(nxt[42], nxt[16])))),
        mul_spec(per[45], sub_spec(add_spec(mul_spec(sub_spec(1u64, nxt[42]), nxt[9]), mul_spec(nxt[42], nxt[5])), add_spec(mul_spec(sub_spec(1u64, nxt[42]), nxt[21]), mul_spec(nxt[42], nxt[17])))),
        mul_spec(per[45], sub_spec(add_spec(mul_spec(sub_spec(1u64, nxt[42]), nxt[10]), mul_spec(nxt[42], nxt[6])), add_spec(mul_spec(sub_spec(1u64, nxt[42]), nxt[22]), mul_spec(nxt[42], nxt[18])))),
        mul_spec(per[45], sub_spec(add_spec(mul_spec(sub_spec(1u64, nxt[42]), nxt[11]), mul_spec(nxt[42], nxt[7])), add_spec(mul_spec(sub_spec(1u64, nxt[42]), nxt[23]), mul_spec(nxt[42], nxt[19])))),
        mul_spec(cur[42], sub_spec(cur[42], 1u64)),
        mul_spec(per[27], nxt[0]),
        mul_spec(per[27], nxt[1]),
    ]
}

fn residuals_12_eval(cur: &Vec<u64>, nxt: &Vec<u64>, per: &Vec<u64>) -> (r: Vec<u64>)
    requires
        cur.len() == TRACE_WIDTH,
        nxt.len() == TRACE_WIDTH,
        per.len() == 46,
        all_canonical(cur@),
        all_canonical(nxt@),
        all_canonical(per@),
    ensures
        r@ == residuals_12(cur@, nxt@, per@),
        r.len() == 12,
{
    let r = vec![
        fmul(per[45], fadd(fmul(fsub(1u64, nxt[42]), fsub(nxt[7], cur[7])), fmul(nxt[42], fsub(nxt[11], cur[7])))),
        fmul(per[45], fadd(fmul(fsub(1u64, nxt[42]), fsub(nxt[16], cur[16])), fmul(nxt[42], fsub(nxt[20], cur[16])))),
        fmul(per[45], fadd(fmul(fsub(1u64, nxt[42]), fsub(nxt[17], cur[17])), fmul(nxt[42], fsub(nxt[21], cur[17])))),
        fmul(per[45], fadd(fmul(fsub(1u64, nxt[42]), fsub(nxt[18], cur[18])), fmul(nxt[42], fsub(nxt[22], cur[18])))),
        fmul(per[45], fadd(fmul(fsub(1u64, nxt[42]), fsub(nxt[19], cur[19])), fmul(nxt[42], fsub(nxt[23], cur[19])))),
        fmul(per[45], fsub(fadd(fmul(fsub(1u64, nxt[42]), nxt[8]), fmul(nxt[42], nxt[4])), fadd(fmul(fsub(1u64, nxt[42]), nxt[20]), fmul(nxt[42], nxt[16])))),
        fmul(per[45], fsub(fadd(fmul(fsub(1u64, nxt[42]), nxt[9]), fmul(nxt[42], nxt[5])), fadd(fmul(fsub(1u64, nxt[42]), nxt[21]), fmul(nxt[42], nxt[17])))),
        fmul(per[45], fsub(fadd(fmul(fsub(1u64, nxt[42]), nxt[10]), fmul(nxt[42], nxt[6])), fadd(fmul(fsub(1u64, nxt[42]), nxt[22]), fmul(nxt[42], nxt[18])))),
        fmul(per[45], fsub(fadd(fmul(fsub(1u64, nxt[42]), nxt[11]), fmul(nxt[42], nxt[7])), fadd(fmul(fsub(1u64, nxt[42]), nxt[23]), fmul(nxt[42], nxt[19])))),
        fmul(cur[42], fsub(cur[42], 1u64)),
        fmul(per[27], nxt[0]),
        fmul(per[27], nxt[1]),
    ];
    proof {
        reveal(residuals_12);
    }
    assert(r@ =~= residuals_12(cur@, nxt@, per@));
    r
}

/// The residuals of constraints 180..=191.
#[verifier::opaque]
pub open spec fn residuals_13(cur: Seq<u64>, nxt: Seq<u64>, per: Seq<u64>) -> Seq<u64> {
    seq![
        mul_spec(per[27], nxt[2]),
        mul_spec(per[27], nxt[3]),
        mul_spec(per[27], nxt[12]),
        mul_spec(per[27], nxt[13]),
        mul_spec(per[27], nxt[14]),
        mul_spec(per[27], nxt[15]),
        mul_spec(per[27], sub_spec(nxt[4], cur[4])),
        mul_spec(per[27], sub_spec(nxt[5], cur[5])),
        mul_spec(per[27], sub_spec(nxt[6], cur[6])),
        mul_spec(per[27], sub_spec(nxt[7], cur[7])),
        mul_spec(per[27], sub_spec(nxt[16], cur[16])),
        mul_spec(per[27], sub_spec(nxt[17], cur[17])),
    ]
}

fn residuals_13_eval(cur: &Vec<u64>, nxt: &Vec<u64>, per: &Vec<u64>) -> (r: Vec<u64>)
    requires
        cur.len() == TRACE_WIDTH,
        nxt.len() == TRACE_WIDTH,
        per.len() == 46,
        all_canonical(cur@),
        all_canonical(nxt@),
        all_canonical(per@),
    ensures
        r@ == residuals_13(cur@, nxt@, per@),
        r.len() == 12,
{
    let r = vec![
        fmul(per[27], nxt[2]),
        fmul(per[27], nxt[3]),
        fmul(per[27], nxt[12]),
        fmul(per[27], nxt[13]),
        fmul(per[27], nxt[14]),
        fmul(per[27], nxt[15]),
        fmul(per[27], fsub(nxt[4], cur[4])),
        fmul(per[27], fsub(nxt[5], cur[5])),
        fmul(per[27], fsub(nxt[6], cur[6])),
        fmul(per[27], fsub(nxt[7], cur[7])),
        fmul(per[27], fsub(nxt[16], cur[16])),
        fmul(per[27], fsub(nxt[17], cur[17])),
    ];
    proof {
        reveal(residuals_13);
    }
    assert(r@ =~= residuals_13(cur@, nxt@, per@));
    r
}

/// The residuals of constraints 192..=203.
#[verifier::opaque]
pub open spec fn residuals_14(cur: Seq<u64>, nxt: Seq<u64>, per: Seq<u64>) -> Seq<u64> {
    seq![
        mul_spec(per[27], sub_spec(nxt[18], cur[18])),
        mul_spec(per[27], sub_spec(nxt[19], cur[19])),
        mul_spec(per[27], sub_spec(nxt[8], cur[52])),
        mul_spec(per[27], sub_spec(nxt[9], cur[53])),
        mul_spec(per[27], sub_spec(nxt[10], cur[54])),
        mul_spec(per[27], sub_spec(nxt[11], cur[55])),
        mul_spec(per[27], sub_spec(nxt[20], cur[52])),
        mul_spec(per[27], sub_spec(nxt[21], cur[53])),
        mul_spec(per[27], sub_spec(nxt[22], cur[54])),
        mul_spec(per[27], sub_spec(nxt[23], cur[55])),
        sub_spec(nxt[51], cur[51]),
        mul_spec(per[43], sub_spec(nxt[4], cur[4])),
    ]
}

fn residuals_14_eval(cur: &Vec<u64>, nxt: &Vec<u64>, per: &Vec<u64>) -> (r: Vec<u64>)
    requires
        cur.len() == TRACE_WIDTH,
        nxt.len() == TRACE_WIDTH,
        per.len() == 46,
        all_canonical(cur@),
        all_canonical(nxt@),
        all_canonical(per@),
    ensures
        r@ == residuals_14(cur@, nxt@, per@),
        r.len() == 12,
{
    let r = vec![
        fmul(per[27], fsub(nxt[18], cur[18])),
        fmul(per[27], fsub(nxt[19], cur[19])),
        fmul(per[27], fsub(nxt[8], cur[52])),
        fmul(per[27], fsub(nxt[9], cur[53])),
        fmul(per[27], fsub(nxt[10], cur[54])),
        fmul(per[27], fsub(nxt[11], cur[55])),
        fmul(per[27], fsub(nxt[20], cur[52])),
        fmul(per[27], fsub(nxt[21], cur[53])),
        fmul(per[27], fsub(nxt[22], cur[54])),
        fmul(per[27], fsub(nxt[23], cur[55])),
        fsub(nxt[51], cur[51]),
        fmul(per[43], fsub(nxt[4], cur[4])),
    ];
    proof {
        reveal(residuals_14);
    }
    assert(r@ =~= residuals_14(cur@, nxt@, per@));
    r
}

/// The residuals of constraints 204..=210.
#[verifier::opaque]
pub open spec fn residuals_15(cur: Seq<u64>, nxt: Seq<u64>, per: Seq<u64>) -> Seq<u64> {
    seq![
        mul_spec(per[43], sub_spec(nxt[5], cur[5])),
        mul_spec(per[43], sub_spec(nxt[6], cur[6])),
        mul_spec(per[43], sub_spec(nxt[7], cur[7])),
        mul_spec(per[43], sub_spec(nxt[8], cur[56])),
        mul_spec(per[43], sub_spec(nxt[9], cur[57])),
        mul_spec(per[43], sub_spec(nxt[10], cur[58])),
        mul_spec(per[43], sub_spec(nxt[11], cur[59])),
    ]
}

fn residuals_15_eval(cur: &Vec<u64>, nxt: &Vec<u64>, per: &Vec<u64>) -> (r: Vec<u64>)
    requires
        cur.len() == TRACE_WIDTH,
        nxt.len() == TRACE_WIDTH,
        per.len() == 46,
        all_canonical(cur@),
        all_canonical(nxt@),
        all_canonical(per@),
    ensures
        r@ == residuals_15(cur@, nxt@, per@),
        r.len() == 7,
{
    let r = vec![
        fmul(per[43], fsub(nxt[5], cur[5])),
        fmul(per[43], fsub(nxt[6], cur[6])),
        fmul(per[43], fsub(nxt[7], cur[7])),
        fmul(per[43], fsub(nxt[8], cur[56])),
        fmul(per[43], fsub(nxt[9], cur[57])),
        fmul(per[43], fsub(nxt[10], cur[58])),
        fmul(per[43], fsub(nxt[11], cur[59])),
    ];
    proof {
        reveal(residuals_15);
    }
    assert(r@ =~= residuals_15(cur@, nxt@, per@));
    r
}

/// The residuals of all transition constraints of a step, in the order of
/// their indices: the rounds of lane A and of lane B, then the rest.
pub open spec fn residuals(cur: Seq<u64>, nxt: Seq<u64>, per: Seq<u64>) -> Seq<u64> {
    round_residuals_spec(cur, nxt, per, 0, 0, 1, 13) + round_residuals_spec(cur, nxt, per, 12, 0, 1, 13)
        + residuals_0(cur, nxt, per) + residuals_1(cur, nxt, per) + residuals_2(cur, nxt, per) + residuals_3(cur, nxt, per) + residuals_4(cur, nxt, per) + residuals_5(cur, nxt, per) + residuals_6(cur, nxt, per) + residuals_7(cur, nxt, per) + residuals_8(cur, nxt, per) + residuals_9(cur, nxt, per) + residuals_10(cur, nxt, per) + residuals_11(cur, nxt, per) + residuals_12(cur, nxt, per) + residuals_13(cur, nxt, per) + residuals_14(cur, nxt, per) + residuals_15(cur, nxt, per)
}

/// Constraint `k` of a step, over the current row, the next row and the
/// periodic values.
pub open spec fn constraint_spec(k: int, current: Seq<u64>, next: Seq<u64>, periodic: Seq<u64>) -> u64 {
    residuals(current, next, periodic)[k]
}

/// Evaluates the transition constraints of a step over the base field: a
/// step satisfies the AIR when every residual is zero.
pub fn evaluate_transition(current: &Vec<u64>, next: &Vec<u64>, periodic: &Vec<u64>) -> (result: Vec<u64>)
    requires
        current.len() == TRACE_WIDTH,
        next.len() == TRACE_WIDTH,
        periodic.len() == 46,
        all_canonical(current@),
        all_canonical(next@),
        all_canonical(periodic@),
    ensures
        result.len() == NUM_CONSTRAINTS,
        forall|k: int| 0 <= k < NUM_CONSTRAINTS ==> #[trigger] result[k] == constraint_spec(k, current@, next@, periodic@),
{
    let mut r = round_residuals(current, next, periodic, 0, 0, 1, 13);
    let mut lane_b = round_residuals(current, next, periodic, 12, 0, 1, 13);
    r.append(&mut lane_b);

    let mut p0 = residuals_0_eval(current, next, periodic);
    r.append(&mut p0);
    let mut p1 = residuals_1_eval(current, next, periodic);
    r.append(&mut p1);
    let mut p2 = residuals_2_eval(current, next, periodic);
    r.append(&mut p2);
    let mut p3 = residuals_3_eval(current, next, periodic);
    r.append(&mut p3);
    let mut p4 = residuals_4_eval(current, next, periodic);
    r.append(&mut p4);
    let mut p5 = residuals_5_eval(current, next, periodic);
    r.append(&mut p5);
    let mut p6 = residuals_6_eval(current, next, periodic);
    r.append(&mut p6);
    let mut p7 = residuals_7_eval(current, next, periodic);
    r.append(&mut p7);
    let mut p8 = residuals_8_eval(current, next, periodic);
    r.append(&mut p8);
    let mut p9 = residuals_9_eval(current, next, periodic);
    r.append(&mut p9);
    let mut p10 = residuals_10_eval(current, next, periodic);
    r.append(&mut p10);
    let mut p11 = residuals_11_eval(current, next, periodic);
    r.append(&mut p11);
    let mut p12 = residuals_12_eval(current, next, periodic);
    r.append(&mut p12);
    let mut p13 = residuals_13_eval(current, next, periodic);
    r.append(&mut p13);
    let mut p14 = residuals_14_eval(current, next, periodic);
    r.append(&mut p14);
    let mut p15 = residuals_15_eval(current, next, periodic);
    r.append(&mut p15);
    assert(r@ =~= residuals(current@, next@, periodic@));
    r
}


proof fn lemma_residuals_len_0(cur: Seq<u64>, nxt: Seq<u64>, per: Seq<u64>)
    ensures
        residuals_0(cur, nxt, per).len() == 12,
{
    reveal(residuals_0);
}

proof fn lemma_residuals_len_1(cur: Seq<u64>, nxt: Seq<u64>, per: Seq<u64>)
    ensures
        residuals_1(cur, nxt, per).len() == 12,
{
    reveal(residuals_1);
}

proof fn lemma_residuals_len_2(cur: Seq<u64>, nxt: Seq<u64>, per: Seq<u64>)
    ensures
        residuals_2(cur, nxt, per).len() == 12,
{
    reveal(residuals_2);
}

proof fn lemma_residuals_len_3(cur: Seq<u64>, nxt: Seq<u64>, per: Seq<u64>)
    ensures
        residuals_3(cur, nxt, per).len() == 12,
{
    reveal(residuals_3);
}

proof fn lemma_residuals_len_4(cur: Seq<u64>, nxt: Seq<u64>, per: Seq<u64>)
    ensures
        residuals_4(cur, nxt, per).len() == 12,
{
    reveal(residuals_4);
}

proof fn lemma_residuals_len_5(cur: Seq<u64>, nxt: Seq<u64>, per: Seq<u64>)
    ensures
        residuals_5(cur, nxt, per).len() == 12,
{
    reveal(residuals_5);
}











/// Constraint 81 of a step.
pub proof fn lemma_constraint_81(current: Seq<u64>, next: Seq<u64>, periodic: Seq<u64>)
    ensures
        constraint_spec(81, current, next, periodic) == mul_spec(periodic[31], sub_spec(current[4], current[29])),
{
    lemma_residuals_len_0(current, next, periodic);
    lemma_residuals_len_1(current, next, periodic);
    lemma_residuals_len_2(current, next, periodic);
    lemma_residuals_len_3(current, next, periodic);
    lemma_residuals_len_4(current, next, periodic);
    assert(constraint_spec(81, current, next, periodic) == residuals_4(current, next, periodic)[9]);
    reveal(residuals_4);
}

/// Constraint 82 of a step.
pub proof fn lemma_constraint_82(current: Seq<u64>, next: Seq<u64>, periodic: Seq<u64>)
    ensures
        constraint_spec(82, current, next, periodic) == mul_spec(periodic[31], sub_spec(current[5], current[30])),
{
    lemma_residuals_len_0(current, next, periodic);
    lemma_residuals_len_1(current, next, periodic);
    lemma_residuals_len_2(current, next, periodic);
    lemma_residuals_len_3(current, next, periodic);
    lemma_residuals_len_4(current, next, periodic);
    assert(constraint_spec(82, current, next, periodic) == residuals_4(current, next, periodic)[10]);
    reveal(residuals_4);
}

/// Constraint 83 of a step.
pub proof fn lemma_constraint_83(current: Seq<u64>, next: Seq<u64>, periodic: Seq<u64>)
    ensures
        constraint_spec(83, current, next, periodic) == mul_spec(periodic[31], sub_spec(current[6], current[31])),
{
    lemma_residuals_len_0(current, next, periodic);
    lemma_residuals_len_1(current, next, periodic);
    lemma_residuals_len_2(current, next, periodic);
    lemma_residuals_len_3(current, next, periodic);
    lemma_residuals_len_4(current, next, periodic);
    assert(constraint_spec(83, current, next, periodic) == residuals_4(current, next, periodic)[11]);
    reveal(residuals_4);
}

/// Constraint 84 of a step.
pub proof fn lemma_constraint_84(current: Seq<u64>, next: Seq<u64>, periodic: Seq<u64>)
    ensures
        constraint_spec(84, current, next, periodic) == mul_spec(periodic[31], sub_spec(current[7], current[32])),
{
    lemma_residuals_len_0(current, next, periodic);
    lemma_residuals_len_1(current, next, periodic);
    lemma_residuals_len_2(current, next, periodic);
    lemma_residuals_len_3(current, next, periodic);
    lemma_residuals_len_4(current, next, periodic);
    lemma_residuals_len_5(current, next, periodic);
    assert(constraint_spec(84, current, next, periodic) == residuals_5(current, next, periodic)[0]);
    reveal(residuals_5);
}

/// Constraint 85 of a step.
pub proof fn lemma_constraint_85(current: Seq<u64>, next: Seq<u64>, periodic: Seq<u64>)
    ensures
        constraint_spec(85, current, next, periodic) == sub_spec(current[34], sub_spec(current[33], current[36])),
{
    lemma_residuals_len_0(current, next, periodic);
    lemma_residuals_len_1(current, next, periodic);
    lemma_residuals_len_2(current, next, periodic);
    lemma_residuals_len_3(current, next, periodic);
    lemma_residuals_len_4(current, next, periodic);
    lemma_residuals_len_5(current, next, periodic);
    assert(constraint_spec(85, current, next, periodic) == residuals_5(current, next, periodic)[1]);
    reveal(residuals_5);
}

/// Constraint 86 of a step.
pub proof fn lemma_constraint_86(current: Seq<u64>, next: Seq<u64>, periodic: Seq<u64>)
    ensures
        constraint_spec(86, current, next, periodic) == sub_spec(current[38], current[37]),
{
    lemma_residuals_len_0(current, next, periodic);
    lemma_residuals_len_1(current, next, periodic);
    lemma_residuals_len_2(current, next, periodic);
    lemma_residuals_len_3(current, next, periodic);
    lemma_residuals_len_4(current, next, periodic);
    lemma_residuals_len_5(current, next, periodic);
    assert(constraint_spec(86, current, next, periodic) == residuals_5(current, next, periodic)[2]);
    reveal(residuals_5);
}


/// What the constraints force on a step whose residuals are all zero: the
/// new balance is the old one minus the amount, the supply is unchanged,
/// and on the step that ends the key derivation (periodic column 31 on)
/// the identity derived from the key in lane A is the account's identity.
pub proof fn lemma_zero_residuals_force(current: Seq<u64>, next: Seq<u64>, periodic: Seq<u64>)
    requires
        current.len() == TRACE_WIDTH,
        next.len() == TRACE_WIDTH,
        periodic.len() == 46,
        all_canonical(current),
        all_canonical(next),
        all_canonical(periodic),
        forall|k: int| 0 <= k < NUM_CONSTRAINTS ==> #[trigger] constraint_spec(k, current, next, periodic) == 0,
    ensures
        current[COL_BAL_NEW as int] == sub_spec(current[COL_BAL as int], current[COL_AMT as int]),
        current[COL_SUPPLY_NEW as int] == current[COL_SUPPLY_OLD as int],
        periodic[31] == 1 ==> forall|i: int| 0 <= i < 4 ==> #[trigger] current[4 + i] == current[COL_ACC_ID + i],
{
    let (cur, per) = (current, periodic);
    assert(constraint_spec(81, current, next, periodic) == 0);
    assert(constraint_spec(82, current, next, periodic) == 0);
    assert(constraint_spec(83, current, next, periodic) == 0);
    assert(constraint_spec(84, current, next, periodic) == 0);
    assert(constraint_spec(85, current, next, periodic) == 0);
    assert(constraint_spec(86, current, next, periodic) == 0);
    lemma_constraint_81(current, next, periodic);
    lemma_constraint_82(current, next, periodic);
    lemma_constraint_83(current, next, periodic);
    lemma_constraint_84(current, next, periodic);
    lemma_constraint_85(current, next, periodic);
    lemma_constraint_86(current, next, periodic);
    crate::constraints::lemma_reduce_canonical(cur[33] - cur[36]);
    crate::constraints::lemma_equal(cur[34], sub_spec(cur[33], cur[36]));
    crate::constraints::lemma_equal(cur[38], cur[37]);
    if per[31] == 1 {
        crate::constraints::lemma_selected_equal(per[31], cur[4], cur[29]);
        crate::constraints::lemma_selected_equal(per[31], cur[5], cur[30]);
        crate::constraints::lemma_selected_equal(per[31], cur[6], cur[31]);
        crate::constraints::lemma_selected_equal(per[31], cur[7], cur[32]);
    }
}


/// The periodic values of step `r`.
pub open spec fn periodic_row(r: int) -> Seq<u64> {
    Seq::new(46, |j: int| periodic_spec(j, r))
}

/// Every cycle of both hash lanes runs the rounds of the permutation.
pub open spec fn lanes_hold(inp: SendV2Inputs) -> bool {
    
    &&& forall|c: nat| c <= lane_links(inp, false).len() ==> #[trigger] rounds_hold(cycle_start(lane_start(inp, false), lane_links(inp, false), c))
    &&& forall|c: nat| c <= lane_links(inp, true).len() ==> #[trigger] rounds_hold(cycle_start(lane_start(inp, true), lane_links(inp, true), c))
}

/// Every step of the trace satisfies the round constraints of both hash
/// lanes (constraints 0..24): on a round row each lane goes from one round
/// of its permutation to the next, with that round's constants in the
/// periodic values; elsewhere the round flag is off.
pub proof fn lemma_trace_satisfies_round_constraints(inp: SendV2Inputs, t: Seq<Vec<u64>>, r: int)
    requires
        t.len() == TRACE_WIDTH,
        forall|col: int, q: int|
            0 <= col < TRACE_WIDTH && 0 <= q < TRACE_LENGTH ==> #[trigger] t[col][q] == cell_spec(inp, col, q),
        lanes_hold(inp),
        0 <= r < TRACE_LENGTH - 1,
    ensures
        forall|k: int| 0 <= k < 24 ==> #[trigger] constraint_spec(k, row_of(t, r), row_of(t, r + 1), periodic_row(r)) == 0,
{
    
    let cur = row_of(t, r);
    let nxt = row_of(t, r + 1);
    let per = periodic_row(r);
    let active = ROW_PENDING_ROOT as int + 1;
    assert forall|j: int| 0 <= j < 12 implies #[trigger] cur[0 + j] == lane_value(lane_start(inp, false), lane_links(inp, false), j, r) by {
        assert(cur[j] == t[j][r]);
    }
    assert forall|j: int| 0 <= j < 12 implies #[trigger] nxt[0 + j] == lane_value(lane_start(inp, false), lane_links(inp, false), j, r + 1) by {
        assert(nxt[j] == t[j][r + 1]);
    }
    assert forall|j: int| 0 <= j < 12 implies #[trigger] cur[12 + j] == lane_value(lane_start(inp, true), lane_links(inp, true), j, r) by {
        assert(cur[12 + j] == t[12 + j][r]);
    }
    assert forall|j: int| 0 <= j < 12 implies #[trigger] nxt[12 + j] == lane_value(lane_start(inp, true), lane_links(inp, true), j, r + 1) by {
        assert(nxt[12 + j] == t[12 + j][r + 1]);
    }
    assert(per[0] == crate::periodic::hash_flag_spec(active, r));
    assert forall|j: int| 0 <= j < 12 implies #[trigger] per[1 + j] == crate::periodic::ark_spec(false, j, active, r) by {
        assert(per[1 + j] == periodic_spec(1 + j, r));
    }
    assert forall|j: int| 0 <= j < 12 implies #[trigger] per[13 + j] == crate::periodic::ark_spec(true, j, active, r) by {
        assert(per[13 + j] == periodic_spec(13 + j, r));
    }
    crate::lane::lemma_lane_round_residuals(cur, nxt, per, 0, 0, 1, 13, lane_start(inp, false), lane_links(inp, false), active, r);
    crate::lane::lemma_lane_round_residuals(cur, nxt, per, 12, 0, 1, 13, lane_start(inp, true), lane_links(inp, true), active, r);
    assert forall|k: int| 0 <= k < 24 implies #[trigger] constraint_spec(k, cur, nxt, per) == 0 by {
        if k < 12 {
            assert(constraint_spec(k, cur, nxt, per) == crate::constraints::round_residual(cur, nxt, per, 0, 0, 1, 13, k));
        } else {
            assert(constraint_spec(k, cur, nxt, per) == crate::constraints::round_residual(cur, nxt, per, 12, 0, 1, 13, k - 12));
        }
    }
}

/// The honest inputs of a send of the second form: those of the first.
pub open spec fn honest_send_v2(inp: SendV2Inputs) -> bool {
    crate::circuit_send::honest_send(inp.base)
}
/// The rows that end a level of the account's climb.
pub open spec fn acct_link_row(r: int) -> bool {
    r % 8 == 7 && 23 <= r <= 271
}

/// The rows that end a level of the frozen tree's climb.
pub open spec fn frozen_link_row(r: int) -> bool {
    r % 8 == 7 && 295 <= r <= 471
}

/// The rows that end a level of the pending tree's climb.
pub open spec fn pend_link_row(r: int) -> bool {
    r % 8 == 7 && 511 <= r <= 751
}

/// What a step of an honest trace holds, row kind by row kind, as far as
/// the constraints after the rounds and the range checks read it.
pub open spec fn step_facts(cur: Seq<u64>, nxt: Seq<u64>, per: Seq<u64>, r: int) -> bool {
    &&& cur.len() == TRACE_WIDTH
    &&& nxt.len() == TRACE_WIDTH
    &&& per.len() == 46
    &&& per[25] == (if acct_link_row(r) && r != 23 { 1u64 } else { 0u64 })
    &&& per[26] == (if r == 7 { 1u64 } else { 0u64 })
    &&& per[27] == (if r == 15 { 1u64 } else { 0u64 })
    &&& per[28] == (if r == 23 { 1u64 } else { 0u64 })
    &&& per[29] == (if r == 0 { 1u64 } else { 0u64 })
    &&& per[30] == (if r == 279 { 1u64 } else { 0u64 })
    &&& per[31] == (if r == 287 { 1u64 } else { 0u64 })
    &&& per[39] == (if r == 287 { 1u64 } else { 0u64 })
    &&& per[40] == (if frozen_link_row(r) { 1u64 } else { 0u64 })
    &&& per[41] == (if r == 479 { 1u64 } else { 0u64 })
    &&& per[42] == (if r == 487 { 1u64 } else { 0u64 })
    &&& per[43] == (if r == 495 { 1u64 } else { 0u64 })
    &&& per[44] == (if r == 503 { 1u64 } else { 0u64 })
    &&& per[45] == (if pend_link_row(r) { 1u64 } else { 0u64 })
    &&& (acct_link_row(r)) ==> {
        &&& nxt[24] == 0 || nxt[24] == 1
        &&& forall|j: int| (0 <= j < 4 || 12 <= j < 16) ==> #[trigger] nxt[j] == 0
        &&& nxt[24] == 1 ==> forall|j: int| (8 <= j < 12 || 20 <= j < 24) ==> #[trigger] nxt[j] == cur[j - 4]
        &&& nxt[24] == 1 ==> forall|j: int| 4 <= j < 8 ==> #[trigger] nxt[j] == nxt[j + 12]
        &&& nxt[24] == 0 ==> forall|j: int| (4 <= j < 8 || 16 <= j < 20) ==> #[trigger] nxt[j] == cur[j]
        &&& nxt[24] == 0 ==> forall|j: int| 8 <= j < 12 ==> #[trigger] nxt[j] == nxt[j + 12]
    }
    &&& (pend_link_row(r)) ==> {
        &&& nxt[42] == 0 || nxt[42] == 1
        &&& forall|j: int| (0 <= j < 4 || 12 <= j < 16) ==> #[trigger] nxt[j] == 0
        &&& nxt[42] == 1 ==> forall|j: int| (8 <= j < 12 || 20 <= j < 24) ==> #[trigger] nxt[j] == cur[j - 4]
        &&& nxt[42] == 1 ==> forall|j: int| 4 <= j < 8 ==> #[trigger] nxt[j] == nxt[j + 12]
        &&& nxt[42] == 0 ==> forall|j: int| (4 <= j < 8 || 16 <= j < 20) ==> #[trigger] nxt[j] == cur[j]
        &&& nxt[42] == 0 ==> forall|j: int| 8 <= j < 12 ==> #[trigger] nxt[j] == nxt[j + 12]
    }
    &&& (r == 503) ==> {
        &&& nxt[42] == 0 || nxt[42] == 1
        &&& forall|j: int| (0 <= j < 4 || 12 <= j < 16) ==> #[trigger] nxt[j] == 0
        &&& nxt[42] == 1 ==> forall|j: int| 20 <= j < 24 ==> #[trigger] nxt[j] == cur[j - 4]
        &&& nxt[42] == 1 ==> forall|j: int| 4 <= j < 8 ==> #[trigger] nxt[j] == nxt[j + 12] && nxt[j + 4] == 0
        &&& nxt[42] == 0 ==> forall|j: int| 16 <= j < 20 ==> #[trigger] nxt[j] == cur[j]
        &&& nxt[42] == 0 ==> forall|j: int| 8 <= j < 12 ==> #[trigger] nxt[j] == nxt[j + 12] && nxt[j - 4] == 0
    }
    &&& (r == 287 || frozen_link_row(r)) ==> {
        &&& nxt[41] == 0 || nxt[41] == 1
        &&& forall|j: int| 0 <= j < 4 ==> #[trigger] nxt[j] == 0
        &&& r == 287 && nxt[41] == 1 ==> forall|j: int| 8 <= j < 12 ==> #[trigger] nxt[j] == 0
        &&& r == 287 && nxt[41] == 0 ==> forall|j: int| 4 <= j < 8 ==> #[trigger] nxt[j] == 0
        &&& frozen_link_row(r) && nxt[41] == 1 ==> forall|j: int| 8 <= j < 12 ==> #[trigger] nxt[j] == cur[j - 4]
        &&& frozen_link_row(r) && nxt[41] == 0 ==> forall|j: int| 4 <= j < 8 ==> #[trigger] nxt[j] == cur[j]
    }
    &&& (r == 7) ==> {
        &&& forall|j: int| (0 <= j < 4 || 12 <= j < 16) ==> #[trigger] nxt[j] == 0
        &&& forall|j: int| (4 <= j < 8 || 16 <= j < 20) ==> #[trigger] nxt[j] == cur[j]
        &&& nxt[8] == cur[35] && nxt[20] == cur[35]
    }
    &&& (r == 15) ==> {
        &&& forall|j: int| (0 <= j < 4 || 12 <= j < 16) ==> #[trigger] nxt[j] == 0
        &&& forall|j: int| (4 <= j < 8 || 16 <= j < 20) ==> #[trigger] nxt[j] == cur[j]
        &&& forall|j: int| (8 <= j < 12 || 20 <= j < 24) ==> #[trigger] nxt[j] == cur[if j < 12 { j + 44 } else { j + 32 }]
    }
    &&& (r == 0) ==> {
        &&& forall|j: int| (4 <= j < 8 || 16 <= j < 20) ==> #[trigger] cur[j] == cur[if j < 8 { j + 25 } else { j + 13 }]
        &&& cur[8] == cur[33] && cur[20] == cur[34]
    }
    &&& (r == 279) ==> {
        &&& forall|j: int| (8 <= j < 12 || 20 <= j < 24) ==> #[trigger] nxt[j] == cur[if j < 12 { j + 17 } else { j + 5 }]
    }
    &&& (r == 287) ==> {
        &&& forall|j: int| 4 <= j < 8 ==> #[trigger] cur[j] == cur[j + 25]
    }
    &&& (r == 479) ==> {
        &&& forall|j: int| 0 <= j < 4 ==> #[trigger] nxt[j] == 0
        &&& forall|j: int| 4 <= j < 12 ==> #[trigger] nxt[j] == cur[j + 39]
    }
    &&& (r == 487) ==> {
        &&& forall|j: int| 4 <= j < 8 ==> #[trigger] nxt[j] == cur[j]
        &&& nxt[8] == cur[36]
    }
    &&& (r == 495) ==> {
        &&& forall|j: int| 4 <= j < 8 ==> #[trigger] nxt[j] == cur[j]
        &&& forall|j: int| 8 <= j < 12 ==> #[trigger] nxt[j] == cur[j + 48]
    }
    &&& cur[24] == 0 || cur[24] == 1
    &&& cur[41] == 0 || cur[41] == 1
    &&& cur[42] == 0 || cur[42] == 1
    &&& cur[34] == sub_spec(cur[33], cur[36])
    &&& cur[38] == cur[37]
    &&& forall|col: int| (25 <= col < 39 || 43 <= col < 60) ==> #[trigger] sub_spec(nxt[col], cur[col]) == 0
}

/// The cells of a level link of the account or pending climb: both lanes
/// start from their node and the same sibling, on the side the bit says.
#[verifier::spinoff_prover]
#[verifier::rlimit(100)]
proof fn lemma_shared_link_facts(inp: SendV2Inputs, t: Seq<Vec<u64>>, r: int)
    requires
        t.len() == TRACE_WIDTH,
        forall|col: int, q: int|
            0 <= col < TRACE_WIDTH && 0 <= q < TRACE_LENGTH ==> #[trigger] t[col][q] == cell_spec(inp, col, q),
        inputs_ok(inp),
        acct_link_row(r) || pend_link_row(r),
    ensures
        ({
            let cur = row_of(t, r);
            let nxt = row_of(t, r + 1);
            &&& acct_link_row(r) ==> {
                &&& nxt[24] == 0 || nxt[24] == 1
                &&& forall|j: int| (0 <= j < 4 || 12 <= j < 16) ==> #[trigger] nxt[j] == 0
                &&& nxt[24] == 1 ==> forall|j: int| (8 <= j < 12 || 20 <= j < 24) ==> #[trigger] nxt[j] == cur[j - 4]
                &&& nxt[24] == 1 ==> forall|j: int| 4 <= j < 8 ==> #[trigger] nxt[j] == nxt[j + 12]
                &&& nxt[24] == 0 ==> forall|j: int| (4 <= j < 8 || 16 <= j < 20) ==> #[trigger] nxt[j] == cur[j]
                &&& nxt[24] == 0 ==> forall|j: int| 8 <= j < 12 ==> #[trigger] nxt[j] == nxt[j + 12]
            }
            &&& pend_link_row(r) ==> {
                &&& nxt[42] == 0 || nxt[42] == 1
                &&& forall|j: int| (0 <= j < 4 || 12 <= j < 16) ==> #[trigger] nxt[j] == 0
                &&& nxt[42] == 1 ==> forall|j: int| (8 <= j < 12 || 20 <= j < 24) ==> #[trigger] nxt[j] == cur[j - 4]
                &&& nxt[42] == 1 ==> forall|j: int| 4 <= j < 8 ==> #[trigger] nxt[j] == nxt[j + 12]
                &&& nxt[42] == 0 ==> forall|j: int| (4 <= j < 8 || 16 <= j < 20) ==> #[trigger] nxt[j] == cur[j]
                &&& nxt[42] == 0 ==> forall|j: int| 8 <= j < 12 ==> #[trigger] nxt[j] == nxt[j + 12]
            }
        }),
{
    let cur = row_of(t, r);
    let nxt = row_of(t, r + 1);
    let sa = lane_start(inp, false);
    let sb = lane_start(inp, true);
    let la = lane_links(inp, false);
    let lb = lane_links(inp, true);
    assert forall|i: int| 0 <= i < 12 implies #[trigger] cur[i] == lane_value(sa, la, i, r) && nxt[i] == lane_value(sa, la, i, r + 1)
        && cur[12 + i] == lane_value(sb, lb, i, r) && nxt[12 + i] == lane_value(sb, lb, i, r + 1) by {
        assert(t[i][r] == cell_spec(inp, i, r));
        assert(t[i][r + 1] == cell_spec(inp, i, r + 1));
        assert(t[12 + i][r] == cell_spec(inp, 12 + i, r));
        assert(t[12 + i][r + 1] == cell_spec(inp, 12 + i, r + 1));
    }
    let c = r / 8;
    assert(r == 8 * c + 7 && (r + 1) / 8 == c + 1 && (r + 1) % 8 == 0);
    assert(la.len() == 94 && lb.len() == 94);
    crate::lane::lemma_lane_link_row(sa, la, c as nat);
    crate::lane::lemma_lane_link_row(sb, lb, c as nat);
    lemma_lane_digest_row(sa, la, c as nat);
    lemma_lane_digest_row(sb, lb, c as nat);
    let da = cycle_digest(sa, la, c as nat);
    let db = cycle_digest(sb, lb, c as nat);
    assert(da.len() == 4 && db.len() == 4);
    assert forall|i: int| 0 <= i < 12 implies #[trigger] nxt[i] == link_start(la[c], da)[i] && nxt[12 + i] == link_start(lb[c], db)[i] by {}
    assert forall|j: int| (4 <= j < 8 || 16 <= j < 20) implies #[trigger] cur[j] == (if j < 8 { da[j - 4] } else { db[j - 16] }) by {
        if j < 8 {
            assert(lane_value(sa, la, 4 + (j - 4), r) == da[j - 4]);
        } else {
            assert(lane_value(sb, lb, 4 + (j - 16), r) == db[j - 16]);
        }
    }
    let sib = if c <= 33 { inp.base.path.siblings@[c - 2] } else { inp.base.pending_path.siblings@[c - 62] };
    let b = if c <= 33 { inp.base.path.is_right@[c - 2] } else { inp.base.pending_path.is_right@[c - 62] };
    assert(la[c] == Link::Place { other: sib, right: b });
    assert(lb[c] == Link::Place { other: sib, right: b });
    let bit = if c <= 33 { 24int } else { 42int };
    assert(nxt[bit] == t[bit][r + 1]);
    assert(t[bit][r + 1] == cell_spec(inp, bit, r + 1));
    assert(nxt[bit] == if b { 1u64 } else { 0u64 });
    assert(sib@.len() == 4);
    assert forall|j: int| (0 <= j < 4 || 12 <= j < 16) implies #[trigger] nxt[j] == 0 by {
        if j >= 12 {
            assert(nxt[12 + (j - 12)] == link_start(lb[c], db)[j - 12]);
        }
    }
    if b {
        assert forall|j: int| (8 <= j < 12 || 20 <= j < 24) implies #[trigger] nxt[j] == cur[j - 4] by {
            if j >= 20 {
                assert(nxt[12 + (j - 12)] == link_start(lb[c], db)[j - 12]);
            }
        }
        assert forall|j: int| 4 <= j < 8 implies #[trigger] nxt[j] == nxt[j + 12] by {
            assert(nxt[12 + j] == link_start(lb[c], db)[j]);
        }
    } else {
        assert forall|j: int| (4 <= j < 8 || 16 <= j < 20) implies #[trigger] nxt[j] == cur[j] by {
            if j >= 16 {
                assert(nxt[12 + (j - 12)] == link_start(lb[c], db)[j - 12]);
            }
        }
        assert forall|j: int| 8 <= j < 12 implies #[trigger] nxt[j] == nxt[j + 12] by {
            assert(nxt[12 + j] == link_start(lb[c], db)[j]);
        }
    }
}

/// The cells where the pending tree is entered (row 503): lane B places
/// the commitment beside the first sibling, lane A a zero leaf beside the
/// same sibling.
#[verifier::spinoff_prover]
#[verifier::rlimit(100)]
proof fn lemma_pending_entry_facts(inp: SendV2Inputs, t: Seq<Vec<u64>>, r: int)
    requires
        t.len() == TRACE_WIDTH,
        forall|col: int, q: int|
            0 <= col < TRACE_WIDTH && 0 <= q < TRACE_LENGTH ==> #[trigger] t[col][q] == cell_spec(inp, col, q),
        inputs_ok(inp),
        r == 503,
    ensures
        ({
            let cur = row_of(t, r);
            let nxt = row_of(t, r + 1);
            &&& nxt[42] == 0 || nxt[42] == 1
            &&& forall|j: int| (0 <= j < 4 || 12 <= j < 16) ==> #[trigger] nxt[j] == 0
            &&& nxt[42] == 1 ==> forall|j: int| 20 <= j < 24 ==> #[trigger] nxt[j] == cur[j - 4]
            &&& nxt[42] == 1 ==> forall|j: int| 4 <= j < 8 ==> #[trigger] nxt[j] == nxt[j + 12] && nxt[j + 4] == 0
            &&& nxt[42] == 0 ==> forall|j: int| 16 <= j < 20 ==> #[trigger] nxt[j] == cur[j]
            &&& nxt[42] == 0 ==> forall|j: int| 8 <= j < 12 ==> #[trigger] nxt[j] == nxt[j + 12] && nxt[j - 4] == 0
        }),
{
    let cur = row_of(t, r);
    let nxt = row_of(t, r + 1);
    let sa = lane_start(inp, false);
    let sb = lane_start(inp, true);
    let la = lane_links(inp, false);
    let lb = lane_links(inp, true);
    assert forall|i: int| 0 <= i < 12 implies #[trigger] cur[i] == lane_value(sa, la, i, r) && nxt[i] == lane_value(sa, la, i, r + 1)
        && cur[12 + i] == lane_value(sb, lb, i, r) && nxt[12 + i] == lane_value(sb, lb, i, r + 1) by {
        assert(t[i][r] == cell_spec(inp, i, r));
        assert(t[i][r + 1] == cell_spec(inp, i, r + 1));
        assert(t[12 + i][r] == cell_spec(inp, 12 + i, r));
        assert(t[12 + i][r + 1] == cell_spec(inp, 12 + i, r + 1));
    }
    let c = r / 8;
    assert(r == 8 * c + 7 && (r + 1) / 8 == c + 1 && (r + 1) % 8 == 0);
    assert(la.len() == 94 && lb.len() == 94);
    crate::lane::lemma_lane_link_row(sa, la, c as nat);
    crate::lane::lemma_lane_link_row(sb, lb, c as nat);
    lemma_lane_digest_row(sa, la, c as nat);
    lemma_lane_digest_row(sb, lb, c as nat);
    let da = cycle_digest(sa, la, c as nat);
    let db = cycle_digest(sb, lb, c as nat);
    assert(da.len() == 4 && db.len() == 4);
    assert forall|i: int| 0 <= i < 12 implies #[trigger] nxt[i] == link_start(la[c], da)[i] && nxt[12 + i] == link_start(lb[c], db)[i] by {}
    assert forall|j: int| (4 <= j < 8 || 16 <= j < 20) implies #[trigger] cur[j] == (if j < 8 { da[j - 4] } else { db[j - 16] }) by {
        if j < 8 {
            assert(lane_value(sa, la, 4 + (j - 4), r) == da[j - 4]);
        } else {
            assert(lane_value(sb, lb, 4 + (j - 16), r) == db[j - 16]);
        }
    }
    let sib = inp.base.pending_path.siblings@[0];
    let b = inp.base.pending_path.is_right@[0];
    assert(la[c] == Link::Fresh { state: place_arr([0u64, 0u64, 0u64, 0u64], sib, b) });
    assert(lb[c] == Link::Place { other: sib, right: b });
    assert(nxt[42] == t[42][r + 1]);
    assert(t[42][r + 1] == cell_spec(inp, 42, r + 1));
    assert(nxt[42] == if b { 1u64 } else { 0u64 });
    assert(sib@.len() == 4);
    assert forall|j: int| (0 <= j < 4 || 12 <= j < 16) implies #[trigger] nxt[j] == 0 by {
        if j >= 12 {
            assert(nxt[12 + (j - 12)] == link_start(lb[c], db)[j - 12]);
        }
    }
    if b {
        assert forall|j: int| 20 <= j < 24 implies #[trigger] nxt[j] == cur[j - 4] by {
            assert(nxt[12 + (j - 12)] == link_start(lb[c], db)[j - 12]);
        }
        assert forall|j: int| 4 <= j < 8 implies #[trigger] nxt[j] == nxt[j + 12] && nxt[j + 4] == 0 by {
            assert(nxt[12 + j] == link_start(lb[c], db)[j]);
        }
    } else {
        assert forall|j: int| 16 <= j < 20 implies #[trigger] nxt[j] == cur[j] by {
            assert(nxt[12 + (j - 12)] == link_start(lb[c], db)[j - 12]);
        }
        assert forall|j: int| 8 <= j < 12 implies #[trigger] nxt[j] == nxt[j + 12] && nxt[j - 4] == 0 by {
            assert(nxt[12 + j] == link_start(lb[c], db)[j]);
        }
    }
}

/// The cells of the frozen tree in lane A: its entry (row 287) places a
/// zero leaf beside the first sibling, and each later level starts from
/// the node on the side the bit says.
#[verifier::spinoff_prover]
#[verifier::rlimit(100)]
proof fn lemma_frozen_facts(inp: SendV2Inputs, t: Seq<Vec<u64>>, r: int)
    requires
        t.len() == TRACE_WIDTH,
        forall|col: int, q: int|
            0 <= col < TRACE_WIDTH && 0 <= q < TRACE_LENGTH ==> #[trigger] t[col][q] == cell_spec(inp, col, q),
        inputs_ok(inp),
        r == 287 || frozen_link_row(r),
    ensures
        ({
            let cur = row_of(t, r);
            let nxt = row_of(t, r + 1);
            &&& nxt[41] == 0 || nxt[41] == 1
            &&& forall|j: int| 0 <= j < 4 ==> #[trigger] nxt[j] == 0
            &&& r == 287 && nxt[41] == 1 ==> forall|j: int| 8 <= j < 12 ==> #[trigger] nxt[j] == 0
            &&& r == 287 && nxt[41] == 0 ==> forall|j: int| 4 <= j < 8 ==> #[trigger] nxt[j] == 0
            &&& frozen_link_row(r) && nxt[41] == 1 ==> forall|j: int| 8 <= j < 12 ==> #[trigger] nxt[j] == cur[j - 4]
            &&& frozen_link_row(r) && nxt[41] == 0 ==> forall|j: int| 4 <= j < 8 ==> #[trigger] nxt[j] == cur[j]
        }),
{
    let cur = row_of(t, r);
    let nxt = row_of(t, r + 1);
    let sa = lane_start(inp, false);
    let sb = lane_start(inp, true);
    let la = lane_links(inp, false);
    let lb = lane_links(inp, true);
    assert forall|i: int| 0 <= i < 12 implies #[trigger] cur[i] == lane_value(sa, la, i, r) && nxt[i] == lane_value(sa, la, i, r + 1)
        && cur[12 + i] == lane_value(sb, lb, i, r) && nxt[12 + i] == lane_value(sb, lb, i, r + 1) by {
        assert(t[i][r] == cell_spec(inp, i, r));
        assert(t[i][r + 1] == cell_spec(inp, i, r + 1));
        assert(t[12 + i][r] == cell_spec(inp, 12 + i, r));
        assert(t[12 + i][r + 1] == cell_spec(inp, 12 + i, r + 1));
    }
    let c = r / 8;
    assert(r == 8 * c + 7 && (r + 1) / 8 == c + 1 && (r + 1) % 8 == 0);
    assert(la.len() == 94 && lb.len() == 94);
    crate::lane::lemma_lane_link_row(sa, la, c as nat);
    crate::lane::lemma_lane_link_row(sb, lb, c as nat);
    lemma_lane_digest_row(sa, la, c as nat);
    lemma_lane_digest_row(sb, lb, c as nat);
    let da = cycle_digest(sa, la, c as nat);
    let db = cycle_digest(sb, lb, c as nat);
    assert(da.len() == 4 && db.len() == 4);
    assert forall|i: int| 0 <= i < 12 implies #[trigger] nxt[i] == link_start(la[c], da)[i] && nxt[12 + i] == link_start(lb[c], db)[i] by {}
    assert forall|j: int| (4 <= j < 8 || 16 <= j < 20) implies #[trigger] cur[j] == (if j < 8 { da[j - 4] } else { db[j - 16] }) by {
        if j < 8 {
            assert(lane_value(sa, la, 4 + (j - 4), r) == da[j - 4]);
        } else {
            assert(lane_value(sb, lb, 4 + (j - 16), r) == db[j - 16]);
        }
    }
    let k = c - 35;
    let sib = inp.base.frozen_path.siblings@[k];
    let b = inp.base.frozen_path.is_right@[k];
    if r == 287 {
        assert(la[c] == Link::Fresh { state: place_arr([0u64, 0u64, 0u64, 0u64], sib, b) });
    } else {
        assert(la[c] == Link::Place { other: sib, right: b });
    }
    assert(nxt[41] == t[41][r + 1]);
    assert(t[41][r + 1] == cell_spec(inp, 41, r + 1));
    assert(nxt[41] == if b { 1u64 } else { 0u64 });
    assert(sib@.len() == 4);
}

/// The cells after the leaf (the nonce, then the leaf salt), after the
/// root (the key), after the key derivation (the identity is the
/// account's), after the frozen root (the receiver and the salt) and
/// after them (the amount, then the envelope).
#[verifier::spinoff_prover]
#[verifier::rlimit(100)]
proof fn lemma_row_facts(inp: SendV2Inputs, t: Seq<Vec<u64>>, r: int)
    requires
        t.len() == TRACE_WIDTH,
        forall|col: int, q: int|
            0 <= col < TRACE_WIDTH && 0 <= q < TRACE_LENGTH ==> #[trigger] t[col][q] == cell_spec(inp, col, q),
        inputs_ok(inp),
        honest_send_v2(inp),
        r == 7 || r == 15 || r == 279 || r == 287 || r == 479 || r == 487 || r == 495,
    ensures
        ({
            let cur = row_of(t, r);
            let nxt = row_of(t, r + 1);
            &&& (r == 7 || r == 15) ==> {
                &&& forall|j: int| (0 <= j < 4 || 12 <= j < 16) ==> #[trigger] nxt[j] == 0
                &&& forall|j: int| (4 <= j < 8 || 16 <= j < 20) ==> #[trigger] nxt[j] == cur[j]
            }
            &&& r == 7 ==> nxt[8] == cur[35] && nxt[20] == cur[35]
            &&& r == 15 ==> forall|j: int| (8 <= j < 12 || 20 <= j < 24) ==> #[trigger] nxt[j] == cur[if j < 12 { j + 44 } else { j + 32 }]
            &&& r == 279 ==> forall|j: int| (8 <= j < 12 || 20 <= j < 24) ==> #[trigger] nxt[j] == cur[if j < 12 { j + 17 } else { j + 5 }]
            &&& r == 287 ==> forall|j: int| 4 <= j < 8 ==> #[trigger] cur[j] == cur[j + 25]
            &&& r == 479 ==> forall|j: int| 0 <= j < 4 ==> #[trigger] nxt[j] == 0
            &&& r == 479 ==> forall|j: int| 4 <= j < 12 ==> #[trigger] nxt[j] == cur[j + 39]
            &&& (r == 487 || r == 495) ==> forall|j: int| 4 <= j < 8 ==> #[trigger] nxt[j] == cur[j]
            &&& r == 487 ==> nxt[8] == cur[36]
            &&& r == 495 ==> forall|j: int| 8 <= j < 12 ==> #[trigger] nxt[j] == cur[j + 48]
        }),
{
    let cur = row_of(t, r);
    let nxt = row_of(t, r + 1);
    let sa = lane_start(inp, false);
    let sb = lane_start(inp, true);
    let la = lane_links(inp, false);
    let lb = lane_links(inp, true);
    assert forall|i: int| 0 <= i < 12 implies #[trigger] cur[i] == lane_value(sa, la, i, r) && nxt[i] == lane_value(sa, la, i, r + 1)
        && cur[12 + i] == lane_value(sb, lb, i, r) && nxt[12 + i] == lane_value(sb, lb, i, r + 1) by {
        assert(t[i][r] == cell_spec(inp, i, r));
        assert(t[i][r + 1] == cell_spec(inp, i, r + 1));
        assert(t[12 + i][r] == cell_spec(inp, 12 + i, r));
        assert(t[12 + i][r + 1] == cell_spec(inp, 12 + i, r + 1));
    }
    let c = r / 8;
    assert(r == 8 * c + 7 && (r + 1) / 8 == c + 1 && (r + 1) % 8 == 0);
    assert(la.len() == 94 && lb.len() == 94);
    crate::lane::lemma_lane_link_row(sa, la, c as nat);
    crate::lane::lemma_lane_link_row(sb, lb, c as nat);
    lemma_lane_digest_row(sa, la, c as nat);
    lemma_lane_digest_row(sb, lb, c as nat);
    let da = cycle_digest(sa, la, c as nat);
    let db = cycle_digest(sb, lb, c as nat);
    assert(da.len() == 4 && db.len() == 4);
    assert forall|i: int| 0 <= i < 12 implies #[trigger] nxt[i] == link_start(la[c], da)[i] && nxt[12 + i] == link_start(lb[c], db)[i] by {}
    assert forall|j: int| (4 <= j < 8 || 16 <= j < 20) implies #[trigger] cur[j] == (if j < 8 { da[j - 4] } else { db[j - 16] }) by {
        if j < 8 {
            assert(lane_value(sa, la, 4 + (j - 4), r) == da[j - 4]);
        } else {
            assert(lane_value(sb, lb, 4 + (j - 16), r) == db[j - 16]);
        }
    }
    assert forall|j: int| 25 <= j < 60 implies #[trigger] cur[j] == t[j][r] && cur[j] == cell_spec(inp, j, r) by {
        assert(t[j][r] == cell_spec(inp, j, r));
    }
    let v = send_values(inp.base);
    if r == 7 || r == 15 {
        if r == 7 {
            assert(la[c] == Link::Place { other: digest_arr(inp.base.nonce), right: false });
            assert(lb[c] == Link::Place { other: digest_arr(inp.base.nonce), right: false });
        } else {
            assert(la[c] == Link::Place { other: inp.leaf_salt, right: false });
            assert(lb[c] == Link::Place { other: inp.leaf_salt, right: false });
        }
        assert forall|j: int| (0 <= j < 4 || 12 <= j < 16) implies #[trigger] nxt[j] == 0 by {
            if j >= 12 {
                assert(nxt[12 + (j - 12)] == link_start(lb[c], db)[j - 12]);
            }
        }
        assert forall|j: int| (4 <= j < 8 || 16 <= j < 20) implies #[trigger] nxt[j] == cur[j] by {
            if j >= 16 {
                assert(nxt[12 + (j - 12)] == link_start(lb[c], db)[j - 12]);
            }
        }
        assert forall|j: int| (8 <= j < 12 || 20 <= j < 24) implies #[trigger] nxt[j] == link_start(la[c], da)[if j < 12 { j } else { j - 12 }] by {
            if j >= 20 {
                assert(nxt[12 + (j - 12)] == link_start(lb[c], db)[j - 12]);
            }
        }
    } else if r == 279 {
        assert(la[c] == Link::Fresh { state: merge_arr(digest_arr(SPEND_KEY_DOMAIN), inp.base.spend_key) });
        assert(lb[c] == Link::Fresh { state: merge_arr(digest_arr(SPEND_KEY_DOMAIN), inp.base.spend_key) });
        assert forall|j: int| (8 <= j < 12 || 20 <= j < 24) implies #[trigger] nxt[j] == cur[if j < 12 { j + 17 } else { j + 5 }] by {
            if j >= 20 {
                assert(nxt[12 + (j - 12)] == link_start(lb[c], db)[j - 12]);
            }
        }
    } else if r == 287 {
        lemma_trace_landmarks(inp);
        assert forall|j: int| 4 <= j < 8 implies #[trigger] cur[j] == cur[j + 25] by {
            assert(cell_spec(inp, 4 + (j - 4), ROW_PK_DONE as int) == public_id_wide_spec(inp.base.spend_key@)[j - 4]);
            assert(t[j][r] == cell_spec(inp, j, r));
        }
    } else if r == 479 {
        assert(la[c] == Link::Fresh { state: merge_arr(inp.base.receiver_id, inp.base.salt) });
    } else if r == 487 {
        assert(la[c] == Link::Place { other: digest_arr(v.amt), right: false });
    } else {
        assert(la[c] == Link::Place { other: inp.envelope, right: false });
    }
}

/// What the range checks read of a step: the bits are bits, each segment
/// starts from zero, the accumulator takes one bit per row, and each
/// segment ends on its value.
pub open spec fn range_facts(cur: Seq<u64>, nxt: Seq<u64>, per: Seq<u64>) -> bool {
    &&& cur[39] == 0 || cur[39] == 1
    &&& nxt[39] == 0 || nxt[39] == 1
    &&& per[32] == 0 || (per[32] == 1 && cur[39] == 0 && cur[40] == 0)
    &&& per[33] == 0 || (per[33] == 1 && nxt[40] == add_spec(add_spec(cur[40], cur[40]), nxt[39]))
    &&& per[34] == 0 || (per[34] == 1 && nxt[40] == cur[33])
    &&& per[35] == 0 || (per[35] == 1 && nxt[40] == cur[36])
    &&& per[36] == 0 || (per[36] == 1 && nxt[40] == cur[34])
    &&& per[37] == 0 || (per[37] == 1 && nxt[40] == cur[38])
    &&& per[38] == 0 || (per[38] == 1 && nxt[40] == sub_spec(cur[51], cur[36]))
}

/// The range checks of an honest trace: five segments of 64 rows over the
/// balance, the amount, the new balance, the new supply and the room under
/// the limit.
#[verifier::spinoff_prover]
#[verifier::rlimit(100)]
proof fn lemma_trace_range_facts(inp: SendV2Inputs, t: Seq<Vec<u64>>, r: int)
    requires
        t.len() == TRACE_WIDTH,
        forall|col: int, q: int|
            0 <= col < TRACE_WIDTH && 0 <= q < TRACE_LENGTH ==> #[trigger] t[col][q] == cell_spec(inp, col, q),
        honest_send_v2(inp),
        0 <= r < TRACE_LENGTH - 1,
    ensures
        range_facts(row_of(t, r), row_of(t, r + 1), periodic_row(r)),
{
    let cur = row_of(t, r);
    let nxt = row_of(t, r + 1);
    let per = periodic_row(r);
    let p: nat = MODULUS as nat;
    let v = send_values(inp.base);
    vstd::arithmetic::div_mod::lemma_small_mod(0, p);
    vstd::arithmetic::div_mod::lemma_small_mod(1, p);
    vstd::arithmetic::div_mod::lemma_small_mod((v.bal - v.amt) as nat, p);
    vstd::arithmetic::div_mod::lemma_small_mod((v.lim - v.amt) as nat, p);
    vstd::arithmetic::div_mod::lemma_small_mod(v.supply_old as nat, p);
    let segs = segment_values_spec(v);
    assert(segs[2] == v.bal - v.amt && segs[3] == v.supply_old && segs[4] == v.lim - v.amt);
    assert forall|s: int| 0 <= s < 5 implies #[trigger] segs[s] < 0x8000_0000_0000_0000 by {}
    assert forall|c: int| 0 <= c < TRACE_WIDTH implies #[trigger] cur[c] == t[c][r] && nxt[c] == t[c][r + 1] by {}
    assert forall|q: int| 0 <= q < TRACE_LENGTH implies (#[trigger] t[39][q] == (if q < 320 { seg_bit(segs[q / 64], 64, (q % 64) as nat) } else { 0u64 })
        && t[40][q] == (if q < 320 { reduce(seg_acc(segs[q / 64], 64, (q % 64) as nat) as int) } else { 0u64 })) by {
        assert(t[39][q] == cell_spec(inp, 39, q));
        assert(t[40][q] == cell_spec(inp, 40, q));
    }
    assert(cur[33] == v.bal && cur[36] == v.amt && cur[34] == segs[2] && cur[38] == segs[3] && cur[51] == v.lim) by {
        assert(t[33][r] == cell_spec(inp, 33, r));
        assert(t[36][r] == cell_spec(inp, 36, r));
        assert(t[34][r] == cell_spec(inp, 34, r));
        assert(t[38][r] == cell_spec(inp, 38, r));
        assert(t[51][r] == cell_spec(inp, 51, r));
    }
    assert(sub_spec(cur[51], cur[36]) == segs[4]);
    assert forall|q: int| 0 <= q < TRACE_LENGTH implies (#[trigger] t[39][q] == 0 || t[39][q] == 1) by {
        if q < 320 {
            crate::solvency::lemma_wide_segment(segs[q / 64], (q % 64) as nat);
        }
    }
    let s_first: Seq<usize> = seq![0usize, 64, 128, 192, 256];
    assert(per[32] == selector_spec(s_first, r));
    assert(per[33] == continue_spec(NUM_SEGMENTS as int, SEGMENT_LENGTH as int, r));
    if r % 64 == 0 && r < 320 {
        assert(s_first[r / 64] == r);
        crate::solvency::lemma_wide_segment(segs[r / 64], 0);
        assert(cur[39] == 0 && cur[40] == 0);
    } else {
        assert forall|l: int| 0 <= l < s_first.len() implies s_first[l] != r by {}
        assert(per[32] == 0);
    }
    if r < 320 && r % 64 != 63 {
        let w = segs[r / 64];
        let q = r % 64;
        assert((r + 1) / 64 == r / 64 && (r + 1) % 64 == q + 1);
        crate::solvency::lemma_wide_segment(w, q as nat);
        crate::solvency::lemma_wide_segment(w, (q + 1) as nat);
        vstd::arithmetic::div_mod::lemma_small_mod(seg_acc(w, 64, q as nat) as nat, p);
        vstd::arithmetic::div_mod::lemma_small_mod(seg_acc(w, 64, (q + 1) as nat) as nat, p);
        assert(cur[40] == seg_acc(w, 64, q as nat));
        assert(nxt[40] == seg_acc(w, 64, (q + 1) as nat));
        assert(nxt[39] == seg_bit(w, 64, (q + 1) as nat));
        vstd::arithmetic::div_mod::lemma_small_mod((cur[40] + cur[40]) as nat, p);
        vstd::arithmetic::div_mod::lemma_small_mod((cur[40] + cur[40] + nxt[39]) as nat, p);
        assert(add_spec(add_spec(cur[40], cur[40]), nxt[39]) == nxt[40]);
    } else {
        assert(per[33] == 0);
    }
    let e0: Seq<usize> = seq![62usize];
    assert(per[34] == selector_spec(e0, r));
    if r == 62 {
        assert(e0[0] == 62);
        crate::solvency::lemma_wide_segment(segs[0], 63);
        vstd::arithmetic::div_mod::lemma_small_mod(segs[0] as nat, p);
        assert(nxt[40] == segs[0]);
    } else {
        assert(per[34] == 0);
    }
    let e1: Seq<usize> = seq![126usize];
    assert(per[35] == selector_spec(e1, r));
    if r == 126 {
        assert(e1[0] == 126);
        crate::solvency::lemma_wide_segment(segs[1], 63);
        vstd::arithmetic::div_mod::lemma_small_mod(segs[1] as nat, p);
        assert(nxt[40] == segs[1]);
    } else {
        assert(per[35] == 0);
    }
    let e2: Seq<usize> = seq![190usize];
    assert(per[36] == selector_spec(e2, r));
    if r == 190 {
        assert(e2[0] == 190);
        crate::solvency::lemma_wide_segment(segs[2], 63);
        vstd::arithmetic::div_mod::lemma_small_mod(segs[2] as nat, p);
        assert(nxt[40] == segs[2]);
    } else {
        assert(per[36] == 0);
    }
    let e3: Seq<usize> = seq![254usize];
    assert(per[37] == selector_spec(e3, r));
    if r == 254 {
        assert(e3[0] == 254);
        crate::solvency::lemma_wide_segment(segs[3], 63);
        vstd::arithmetic::div_mod::lemma_small_mod(segs[3] as nat, p);
        assert(nxt[40] == segs[3]);
    } else {
        assert(per[37] == 0);
    }
    let e4: Seq<usize> = seq![318usize];
    assert(per[38] == selector_spec(e4, r));
    if r == 318 {
        assert(e4[0] == 318);
        crate::solvency::lemma_wide_segment(segs[4], 63);
        vstd::arithmetic::div_mod::lemma_small_mod(segs[4] as nat, p);
        assert(nxt[40] == segs[4]);
    } else {
        assert(per[38] == 0);
    }
}

/// The cells of the first row: both lanes start from the account's
/// identity, with its old (A) and new (B) balance.
#[verifier::spinoff_prover]
#[verifier::rlimit(60)]
proof fn lemma_first_row_facts(inp: SendV2Inputs, t: Seq<Vec<u64>>)
    requires
        t.len() == TRACE_WIDTH,
        forall|col: int, q: int|
            0 <= col < TRACE_WIDTH && 0 <= q < TRACE_LENGTH ==> #[trigger] t[col][q] == cell_spec(inp, col, q),
    ensures
        ({
            let cur = row_of(t, 0);
            &&& forall|j: int| (4 <= j < 8 || 16 <= j < 20) ==> #[trigger] cur[j] == cur[if j < 8 { j + 25 } else { j + 13 }]
            &&& cur[8] == cur[33] && cur[20] == cur[34]
        }),
{
    let cur = row_of(t, 0);
    let sa = lane_start(inp, false);
    let sb = lane_start(inp, true);
    let la = lane_links(inp, false);
    let lb = lane_links(inp, true);
    assert(crate::rescue::rounds(cycle_start(sa, la, 0), 0) == sa);
    assert(crate::rescue::rounds(cycle_start(sb, lb, 0), 0) == sb);
    assert forall|i: int| 0 <= i < 12 implies #[trigger] cur[i] == sa[i] && cur[12 + i] == sb[i] by {
        assert(t[i][0] == cell_spec(inp, i, 0));
        assert(t[12 + i][0] == cell_spec(inp, 12 + i, 0));
    }
    assert forall|j: int| 25 <= j < 60 implies #[trigger] cur[j] == cell_spec(inp, j, 0) by {
        assert(t[j][0] == cell_spec(inp, j, 0));
    }
    assert forall|j: int| (4 <= j < 8 || 16 <= j < 20) implies #[trigger] cur[j] == cur[if j < 8 { j + 25 } else { j + 13 }] by {
        if j >= 16 {
            assert(cur[12 + (j - 12)] == sb[j - 12]);
        }
    }
    assert(cur[20] == sb[8]);
}

/// The selectors of the links at step `r`.
#[verifier::spinoff_prover]
#[verifier::rlimit(60)]
proof fn lemma_link_selectors(r: int)
    requires
        0 <= r < TRACE_LENGTH - 1,
    ensures
        periodic_row(r)[25] == (if acct_link_row(r) && r != 23 { 1u64 } else { 0u64 }),
        periodic_row(r)[26] == (if r == 7 { 1u64 } else { 0u64 }),
        periodic_row(r)[27] == (if r == 15 { 1u64 } else { 0u64 }),
        periodic_row(r)[28] == (if r == 23 { 1u64 } else { 0u64 }),
        periodic_row(r)[29] == (if r == 0 { 1u64 } else { 0u64 }),
        periodic_row(r)[30] == (if r == 279 { 1u64 } else { 0u64 }),
        periodic_row(r)[31] == (if r == 287 { 1u64 } else { 0u64 }),
        periodic_row(r)[39] == (if r == 287 { 1u64 } else { 0u64 }),
        periodic_row(r)[40] == (if frozen_link_row(r) { 1u64 } else { 0u64 }),
        periodic_row(r)[41] == (if r == 479 { 1u64 } else { 0u64 }),
        periodic_row(r)[42] == (if r == 487 { 1u64 } else { 0u64 }),
        periodic_row(r)[43] == (if r == 495 { 1u64 } else { 0u64 }),
        periodic_row(r)[44] == (if r == 503 { 1u64 } else { 0u64 }),
        periodic_row(r)[45] == (if pend_link_row(r) { 1u64 } else { 0u64 }),
{
    let per = periodic_row(r);
    let s26: Seq<usize> = seq![ROW_LEAF_LINK];
    assert(per[26] == selector_spec(s26, r));
    if r == 7 {
        assert(s26[0] == r);
    }
    let s27: Seq<usize> = seq![ROW_SALT_LINK];
    assert(per[27] == selector_spec(s27, r));
    if r == 15 {
        assert(s27[0] == r);
    }
    let s28: Seq<usize> = seq![ROW_LEAF_DONE];
    assert(per[28] == selector_spec(s28, r));
    if r == 23 {
        assert(s28[0] == r);
    }
    let s29: Seq<usize> = seq![0usize];
    assert(per[29] == selector_spec(s29, r));
    if r == 0 {
        assert(s29[0] == r);
    }
    let s30: Seq<usize> = seq![ROW_ROOT];
    assert(per[30] == selector_spec(s30, r));
    if r == 279 {
        assert(s30[0] == r);
    }
    let s31: Seq<usize> = seq![ROW_PK_DONE];
    assert(per[31] == selector_spec(s31, r));
    if r == 287 {
        assert(s31[0] == r);
    }
    let s39: Seq<usize> = seq![ROW_PK_DONE];
    assert(per[39] == selector_spec(s39, r));
    if r == 287 {
        assert(s39[0] == r);
    }
    let s41: Seq<usize> = seq![ROW_FROZEN_ROOT];
    assert(per[41] == selector_spec(s41, r));
    if r == 479 {
        assert(s41[0] == r);
    }
    let s42: Seq<usize> = seq![ROW_PEND_INNER];
    assert(per[42] == selector_spec(s42, r));
    if r == 487 {
        assert(s42[0] == r);
    }
    let s43: Seq<usize> = seq![ROW_PEND_ENV];
    assert(per[43] == selector_spec(s43, r));
    if r == 495 {
        assert(s43[0] == r);
    }
    let s44: Seq<usize> = seq![ROW_PENDING_ENTRY];
    assert(per[44] == selector_spec(s44, r));
    if r == 503 {
        assert(s44[0] == r);
    }
    let m25 = cycle_end_rows(3, 31);
    assert(per[25] == selector_spec(m25, r));
    if acct_link_row(r) && r != 23 {
        assert(m25[r / 8 - 3] == r);
    } else {
        assert forall|l: int| 0 <= l < m25.len() implies m25[l] != r by {}
    }
    let m40 = cycle_end_rows(36, 23);
    assert(per[40] == selector_spec(m40, r));
    if frozen_link_row(r) {
        assert(m40[r / 8 - 36] == r);
    } else {
        assert forall|l: int| 0 <= l < m40.len() implies m40[l] != r by {}
    }
    let m45 = cycle_end_rows(63, 31);
    assert(per[45] == selector_spec(m45, r));
    if pend_link_row(r) {
        assert(m45[r / 8 - 63] == r);
    } else {
        assert forall|l: int| 0 <= l < m45.len() implies m45[l] != r by {}
    }
}

/// The residuals of constraints 24..36 vanish on a step that holds the
/// facts of an honest trace.
#[verifier::spinoff_prover]
#[verifier::rlimit(100)]
proof fn lemma_residuals_0_vanish(cur: Seq<u64>, nxt: Seq<u64>, per: Seq<u64>, r: int)
    requires
        step_facts(cur, nxt, per, r),
        range_facts(cur, nxt, per),
    ensures
        forall|j: int| 0 <= j < 12 ==> #[trigger] residuals_0(cur, nxt, per)[j] == 0,
{
    let p: nat = MODULUS as nat;
    vstd::arithmetic::div_mod::lemma_small_mod(0, p);
    vstd::arithmetic::div_mod::lemma_small_mod(1, p);
    assert forall|x: u64| #[trigger] mul_spec(0u64, x) == 0 by {
        assert(0u64 * x == 0);
    }
    assert forall|x: u64| #[trigger] mul_spec(1u64, x) == reduce(x as int) by {
        assert(1u64 * x == x);
    }
    assert forall|x: u64| #[trigger] sub_spec(x, x) == 0 by {}
    assert(sub_spec(1u64, 1u64) == 0);
    assert(sub_spec(1u64, 0u64) == 1);
    assert forall|j: int| 0 <= j < 12 implies #[trigger] residuals_0(cur, nxt, per)[j] == 0 by {
        reveal(residuals_0);
    }
}

/// The residuals of constraints 36..48 vanish on a step that holds the
/// facts of an honest trace.
#[verifier::spinoff_prover]
#[verifier::rlimit(100)]
proof fn lemma_residuals_1_vanish(cur: Seq<u64>, nxt: Seq<u64>, per: Seq<u64>, r: int)
    requires
        step_facts(cur, nxt, per, r),
        range_facts(cur, nxt, per),
    ensures
        forall|j: int| 0 <= j < 12 ==> #[trigger] residuals_1(cur, nxt, per)[j] == 0,
{
    let p: nat = MODULUS as nat;
    vstd::arithmetic::div_mod::lemma_small_mod(0, p);
    vstd::arithmetic::div_mod::lemma_small_mod(1, p);
    assert forall|x: u64| #[trigger] mul_spec(0u64, x) == 0 by {
        assert(0u64 * x == 0);
    }
    assert forall|x: u64| #[trigger] mul_spec(1u64, x) == reduce(x as int) by {
        assert(1u64 * x == x);
    }
    assert forall|x: u64| #[trigger] sub_spec(x, x) == 0 by {}
    assert(sub_spec(1u64, 1u64) == 0);
    assert(sub_spec(1u64, 0u64) == 1);
    assert forall|j: int| 0 <= j < 12 implies #[trigger] residuals_1(cur, nxt, per)[j] == 0 by {
        reveal(residuals_1);
    }
}

/// The residuals of constraints 48..60 vanish on a step that holds the
/// facts of an honest trace.
#[verifier::spinoff_prover]
#[verifier::rlimit(100)]
proof fn lemma_residuals_2_vanish(cur: Seq<u64>, nxt: Seq<u64>, per: Seq<u64>, r: int)
    requires
        step_facts(cur, nxt, per, r),
        range_facts(cur, nxt, per),
    ensures
        forall|j: int| 0 <= j < 12 ==> #[trigger] residuals_2(cur, nxt, per)[j] == 0,
{
    let p: nat = MODULUS as nat;
    vstd::arithmetic::div_mod::lemma_small_mod(0, p);
    vstd::arithmetic::div_mod::lemma_small_mod(1, p);
    assert forall|x: u64| #[trigger] mul_spec(0u64, x) == 0 by {
        assert(0u64 * x == 0);
    }
    assert forall|x: u64| #[trigger] mul_spec(1u64, x) == reduce(x as int) by {
        assert(1u64 * x == x);
    }
    assert forall|x: u64| #[trigger] sub_spec(x, x) == 0 by {}
    assert(sub_spec(1u64, 1u64) == 0);
    assert(sub_spec(1u64, 0u64) == 1);
    assert forall|j: int| 0 <= j < 12 implies #[trigger] residuals_2(cur, nxt, per)[j] == 0 by {
        reveal(residuals_2);
    }
}

/// The residuals of constraints 60..72 vanish on a step that holds the
/// facts of an honest trace.
#[verifier::spinoff_prover]
#[verifier::rlimit(100)]
proof fn lemma_residuals_3_vanish(cur: Seq<u64>, nxt: Seq<u64>, per: Seq<u64>, r: int)
    requires
        step_facts(cur, nxt, per, r),
        range_facts(cur, nxt, per),
    ensures
        forall|j: int| 0 <= j < 12 ==> #[trigger] residuals_3(cur, nxt, per)[j] == 0,
{
    let p: nat = MODULUS as nat;
    vstd::arithmetic::div_mod::lemma_small_mod(0, p);
    vstd::arithmetic::div_mod::lemma_small_mod(1, p);
    assert forall|x: u64| #[trigger] mul_spec(0u64, x) == 0 by {
        assert(0u64 * x == 0);
    }
    assert forall|x: u64| #[trigger] mul_spec(1u64, x) == reduce(x as int) by {
        assert(1u64 * x == x);
    }
    assert forall|x: u64| #[trigger] sub_spec(x, x) == 0 by {}
    assert(sub_spec(1u64, 1u64) == 0);
    assert(sub_spec(1u64, 0u64) == 1);
    assert forall|j: int| 0 <= j < 12 implies #[trigger] residuals_3(cur, nxt, per)[j] == 0 by {
        reveal(residuals_3);
    }
}

/// The residuals of constraints 72..84 vanish on a step that holds the
/// facts of an honest trace.
#[verifier::spinoff_prover]
#[verifier::rlimit(100)]
proof fn lemma_residuals_4_vanish(cur: Seq<u64>, nxt: Seq<u64>, per: Seq<u64>, r: int)
    requires
        step_facts(cur, nxt, per, r),
        range_facts(cur, nxt, per),
    ensures
        forall|j: int| 0 <= j < 12 ==> #[trigger] residuals_4(cur, nxt, per)[j] == 0,
{
    let p: nat = MODULUS as nat;
    vstd::arithmetic::div_mod::lemma_small_mod(0, p);
    vstd::arithmetic::div_mod::lemma_small_mod(1, p);
    assert forall|x: u64| #[trigger] mul_spec(0u64, x) == 0 by {
        assert(0u64 * x == 0);
    }
    assert forall|x: u64| #[trigger] mul_spec(1u64, x) == reduce(x as int) by {
        assert(1u64 * x == x);
    }
    assert forall|x: u64| #[trigger] sub_spec(x, x) == 0 by {}
    assert(sub_spec(1u64, 1u64) == 0);
    assert(sub_spec(1u64, 0u64) == 1);
    assert forall|j: int| 0 <= j < 12 implies #[trigger] residuals_4(cur, nxt, per)[j] == 0 by {
        reveal(residuals_4);
    }
}

/// The residuals of constraints 84..96 vanish on a step that holds the
/// facts of an honest trace.
#[verifier::spinoff_prover]
#[verifier::rlimit(100)]
proof fn lemma_residuals_5_vanish(cur: Seq<u64>, nxt: Seq<u64>, per: Seq<u64>, r: int)
    requires
        step_facts(cur, nxt, per, r),
        range_facts(cur, nxt, per),
    ensures
        forall|j: int| 0 <= j < 12 ==> #[trigger] residuals_5(cur, nxt, per)[j] == 0,
{
    let p: nat = MODULUS as nat;
    vstd::arithmetic::div_mod::lemma_small_mod(0, p);
    vstd::arithmetic::div_mod::lemma_small_mod(1, p);
    assert forall|x: u64| #[trigger] mul_spec(0u64, x) == 0 by {
        assert(0u64 * x == 0);
    }
    assert forall|x: u64| #[trigger] mul_spec(1u64, x) == reduce(x as int) by {
        assert(1u64 * x == x);
    }
    assert forall|x: u64| #[trigger] sub_spec(x, x) == 0 by {}
    assert(sub_spec(1u64, 1u64) == 0);
    assert(sub_spec(1u64, 0u64) == 1);
    assert forall|j: int| 0 <= j < 12 implies #[trigger] residuals_5(cur, nxt, per)[j] == 0 by {
        reveal(residuals_5);
    }
}

/// The residuals of constraints 96..108 vanish on a step that holds the
/// facts of an honest trace.
#[verifier::spinoff_prover]
#[verifier::rlimit(100)]
proof fn lemma_residuals_6_vanish(cur: Seq<u64>, nxt: Seq<u64>, per: Seq<u64>, r: int)
    requires
        step_facts(cur, nxt, per, r),
        range_facts(cur, nxt, per),
    ensures
        forall|j: int| 0 <= j < 12 ==> #[trigger] residuals_6(cur, nxt, per)[j] == 0,
{
    let p: nat = MODULUS as nat;
    vstd::arithmetic::div_mod::lemma_small_mod(0, p);
    vstd::arithmetic::div_mod::lemma_small_mod(1, p);
    assert forall|x: u64| #[trigger] mul_spec(0u64, x) == 0 by {
        assert(0u64 * x == 0);
    }
    assert forall|x: u64| #[trigger] mul_spec(1u64, x) == reduce(x as int) by {
        assert(1u64 * x == x);
    }
    assert forall|x: u64| #[trigger] sub_spec(x, x) == 0 by {}
    assert(sub_spec(1u64, 1u64) == 0);
    assert(sub_spec(1u64, 0u64) == 1);
    assert forall|j: int| 0 <= j < 12 implies #[trigger] residuals_6(cur, nxt, per)[j] == 0 by {
        reveal(residuals_6);
    }
}

/// The residuals of constraints 108..120 vanish on a step that holds the
/// facts of an honest trace.
#[verifier::spinoff_prover]
#[verifier::rlimit(100)]
proof fn lemma_residuals_7_vanish(cur: Seq<u64>, nxt: Seq<u64>, per: Seq<u64>, r: int)
    requires
        step_facts(cur, nxt, per, r),
        range_facts(cur, nxt, per),
    ensures
        forall|j: int| 0 <= j < 12 ==> #[trigger] residuals_7(cur, nxt, per)[j] == 0,
{
    let p: nat = MODULUS as nat;
    vstd::arithmetic::div_mod::lemma_small_mod(0, p);
    vstd::arithmetic::div_mod::lemma_small_mod(1, p);
    assert forall|x: u64| #[trigger] mul_spec(0u64, x) == 0 by {
        assert(0u64 * x == 0);
    }
    assert forall|x: u64| #[trigger] mul_spec(1u64, x) == reduce(x as int) by {
        assert(1u64 * x == x);
    }
    assert forall|x: u64| #[trigger] sub_spec(x, x) == 0 by {}
    assert(sub_spec(1u64, 1u64) == 0);
    assert(sub_spec(1u64, 0u64) == 1);
    assert forall|j: int| 0 <= j < 12 implies #[trigger] residuals_7(cur, nxt, per)[j] == 0 by {
        reveal(residuals_7);
    }
}

/// The residuals of constraints 120..132 vanish on a step that holds the
/// facts of an honest trace.
#[verifier::spinoff_prover]
#[verifier::rlimit(100)]
proof fn lemma_residuals_8_vanish(cur: Seq<u64>, nxt: Seq<u64>, per: Seq<u64>, r: int)
    requires
        step_facts(cur, nxt, per, r),
        range_facts(cur, nxt, per),
    ensures
        forall|j: int| 0 <= j < 12 ==> #[trigger] residuals_8(cur, nxt, per)[j] == 0,
{
    let p: nat = MODULUS as nat;
    vstd::arithmetic::div_mod::lemma_small_mod(0, p);
    vstd::arithmetic::div_mod::lemma_small_mod(1, p);
    assert forall|x: u64| #[trigger] mul_spec(0u64, x) == 0 by {
        assert(0u64 * x == 0);
    }
    assert forall|x: u64| #[trigger] mul_spec(1u64, x) == reduce(x as int) by {
        assert(1u64 * x == x);
    }
    assert forall|x: u64| #[trigger] sub_spec(x, x) == 0 by {}
    assert(sub_spec(1u64, 1u64) == 0);
    assert(sub_spec(1u64, 0u64) == 1);
    assert forall|j: int| 0 <= j < 12 implies #[trigger] residuals_8(cur, nxt, per)[j] == 0 by {
        reveal(residuals_8);
    }
}

/// The residuals of constraints 132..144 vanish on a step that holds the
/// facts of an honest trace.
#[verifier::spinoff_prover]
#[verifier::rlimit(100)]
proof fn lemma_residuals_9_vanish(cur: Seq<u64>, nxt: Seq<u64>, per: Seq<u64>, r: int)
    requires
        step_facts(cur, nxt, per, r),
        range_facts(cur, nxt, per),
    ensures
        forall|j: int| 0 <= j < 12 ==> #[trigger] residuals_9(cur, nxt, per)[j] == 0,
{
    let p: nat = MODULUS as nat;
    vstd::arithmetic::div_mod::lemma_small_mod(0, p);
    vstd::arithmetic::div_mod::lemma_small_mod(1, p);
    assert forall|x: u64| #[trigger] mul_spec(0u64, x) == 0 by {
        assert(0u64 * x == 0);
    }
    assert forall|x: u64| #[trigger] mul_spec(1u64, x) == reduce(x as int) by {
        assert(1u64 * x == x);
    }
    assert forall|x: u64| #[trigger] sub_spec(x, x) == 0 by {}
    assert(sub_spec(1u64, 1u64) == 0);
    assert(sub_spec(1u64, 0u64) == 1);
    assert forall|j: int| 0 <= j < 12 implies #[trigger] residuals_9(cur, nxt, per)[j] == 0 by {
        reveal(residuals_9);
    }
}

/// The residuals of constraints 144..156 vanish on a step that holds the
/// facts of an honest trace.
#[verifier::spinoff_prover]
#[verifier::rlimit(100)]
proof fn lemma_residuals_10_vanish(cur: Seq<u64>, nxt: Seq<u64>, per: Seq<u64>, r: int)
    requires
        step_facts(cur, nxt, per, r),
        range_facts(cur, nxt, per),
    ensures
        forall|j: int| 0 <= j < 12 ==> #[trigger] residuals_10(cur, nxt, per)[j] == 0,
{
    let p: nat = MODULUS as nat;
    vstd::arithmetic::div_mod::lemma_small_mod(0, p);
    vstd::arithmetic::div_mod::lemma_small_mod(1, p);
    assert forall|x: u64| #[trigger] mul_spec(0u64, x) == 0 by {
        assert(0u64 * x == 0);
    }
    assert forall|x: u64| #[trigger] mul_spec(1u64, x) == reduce(x as int) by {
        assert(1u64 * x == x);
    }
    assert forall|x: u64| #[trigger] sub_spec(x, x) == 0 by {}
    assert(sub_spec(1u64, 1u64) == 0);
    assert(sub_spec(1u64, 0u64) == 1);
    assert forall|j: int| 0 <= j < 12 implies #[trigger] residuals_10(cur, nxt, per)[j] == 0 by {
        reveal(residuals_10);
    }
}

/// The residuals of constraints 156..168 vanish on a step that holds the
/// facts of an honest trace.
#[verifier::spinoff_prover]
#[verifier::rlimit(100)]
proof fn lemma_residuals_11_vanish(cur: Seq<u64>, nxt: Seq<u64>, per: Seq<u64>, r: int)
    requires
        step_facts(cur, nxt, per, r),
        range_facts(cur, nxt, per),
    ensures
        forall|j: int| 0 <= j < 12 ==> #[trigger] residuals_11(cur, nxt, per)[j] == 0,
{
    let p: nat = MODULUS as nat;
    vstd::arithmetic::div_mod::lemma_small_mod(0, p);
    vstd::arithmetic::div_mod::lemma_small_mod(1, p);
    assert forall|x: u64| #[trigger] mul_spec(0u64, x) == 0 by {
        assert(0u64 * x == 0);
    }
    assert forall|x: u64| #[trigger] mul_spec(1u64, x) == reduce(x as int) by {
        assert(1u64 * x == x);
    }
    assert forall|x: u64| #[trigger] sub_spec(x, x) == 0 by {}
    assert(sub_spec(1u64, 1u64) == 0);
    assert(sub_spec(1u64, 0u64) == 1);
    assert forall|j: int| 0 <= j < 12 implies #[trigger] residuals_11(cur, nxt, per)[j] == 0 by {
        reveal(residuals_11);
    }
}

/// The residuals of constraints 168..180 vanish on a step that holds the
/// facts of an honest trace.
#[verifier::spinoff_prover]
#[verifier::rlimit(100)]
proof fn lemma_residuals_12_vanish(cur: Seq<u64>, nxt: Seq<u64>, per: Seq<u64>, r: int)
    requires
        step_facts(cur, nxt, per, r),
        range_facts(cur, nxt, per),
    ensures
        forall|j: int| 0 <= j < 12 ==> #[trigger] residuals_12(cur, nxt, per)[j] == 0,
{
    let p: nat = MODULUS as nat;
    vstd::arithmetic::div_mod::lemma_small_mod(0, p);
    vstd::arithmetic::div_mod::lemma_small_mod(1, p);
    assert forall|x: u64| #[trigger] mul_spec(0u64, x) == 0 by {
        assert(0u64 * x == 0);
    }
    assert forall|x: u64| #[trigger] mul_spec(1u64, x) == reduce(x as int) by {
        assert(1u64 * x == x);
    }
    assert forall|x: u64| #[trigger] sub_spec(x, x) == 0 by {}
    assert(sub_spec(1u64, 1u64) == 0);
    assert(sub_spec(1u64, 0u64) == 1);
    assert forall|j: int| 0 <= j < 12 implies #[trigger] residuals_12(cur, nxt, per)[j] == 0 by {
        reveal(residuals_12);
    }
}

/// The residuals of constraints 180..192 vanish on a step that holds the
/// facts of an honest trace.
#[verifier::spinoff_prover]
#[verifier::rlimit(100)]
proof fn lemma_residuals_13_vanish(cur: Seq<u64>, nxt: Seq<u64>, per: Seq<u64>, r: int)
    requires
        step_facts(cur, nxt, per, r),
        range_facts(cur, nxt, per),
    ensures
        forall|j: int| 0 <= j < 12 ==> #[trigger] residuals_13(cur, nxt, per)[j] == 0,
{
    let p: nat = MODULUS as nat;
    vstd::arithmetic::div_mod::lemma_small_mod(0, p);
    vstd::arithmetic::div_mod::lemma_small_mod(1, p);
    assert forall|x: u64| #[trigger] mul_spec(0u64, x) == 0 by {
        assert(0u64 * x == 0);
    }
    assert forall|x: u64| #[trigger] mul_spec(1u64, x) == reduce(x as int) by {
        assert(1u64 * x == x);
    }
    assert forall|x: u64| #[trigger] sub_spec(x, x) == 0 by {}
    assert(sub_spec(1u64, 1u64) == 0);
    assert(sub_spec(1u64, 0u64) == 1);
    assert forall|j: int| 0 <= j < 12 implies #[trigger] residuals_13(cur, nxt, per)[j] == 0 by {
        reveal(residuals_13);
    }
}

/// The residuals of constraints 192..204 vanish on a step that holds the
/// facts of an honest trace.
#[verifier::spinoff_prover]
#[verifier::rlimit(100)]
proof fn lemma_residuals_14_vanish(cur: Seq<u64>, nxt: Seq<u64>, per: Seq<u64>, r: int)
    requires
        step_facts(cur, nxt, per, r),
        range_facts(cur, nxt, per),
    ensures
        forall|j: int| 0 <= j < 12 ==> #[trigger] residuals_14(cur, nxt, per)[j] == 0,
{
    let p: nat = MODULUS as nat;
    vstd::arithmetic::div_mod::lemma_small_mod(0, p);
    vstd::arithmetic::div_mod::lemma_small_mod(1, p);
    assert forall|x: u64| #[trigger] mul_spec(0u64, x) == 0 by {
        assert(0u64 * x == 0);
    }
    assert forall|x: u64| #[trigger] mul_spec(1u64, x) == reduce(x as int) by {
        assert(1u64 * x == x);
    }
    assert forall|x: u64| #[trigger] sub_spec(x, x) == 0 by {}
    assert(sub_spec(1u64, 1u64) == 0);
    assert(sub_spec(1u64, 0u64) == 1);
    assert forall|j: int| 0 <= j < 12 implies #[trigger] residuals_14(cur, nxt, per)[j] == 0 by {
        reveal(residuals_14);
    }
}

/// The residuals of constraints 204..211 vanish on a step that holds the
/// facts of an honest trace.
#[verifier::spinoff_prover]
#[verifier::rlimit(100)]
proof fn lemma_residuals_15_vanish(cur: Seq<u64>, nxt: Seq<u64>, per: Seq<u64>, r: int)
    requires
        step_facts(cur, nxt, per, r),
        range_facts(cur, nxt, per),
    ensures
        forall|j: int| 0 <= j < 7 ==> #[trigger] residuals_15(cur, nxt, per)[j] == 0,
{
    let p: nat = MODULUS as nat;
    vstd::arithmetic::div_mod::lemma_small_mod(0, p);
    vstd::arithmetic::div_mod::lemma_small_mod(1, p);
    assert forall|x: u64| #[trigger] mul_spec(0u64, x) == 0 by {
        assert(0u64 * x == 0);
    }
    assert forall|x: u64| #[trigger] mul_spec(1u64, x) == reduce(x as int) by {
        assert(1u64 * x == x);
    }
    assert forall|x: u64| #[trigger] sub_spec(x, x) == 0 by {}
    assert(sub_spec(1u64, 1u64) == 0);
    assert(sub_spec(1u64, 0u64) == 1);
    assert forall|j: int| 0 <= j < 7 implies #[trigger] residuals_15(cur, nxt, per)[j] == 0 by {
        reveal(residuals_15);
    }
}

proof fn lemma_residuals_len_6(cur: Seq<u64>, nxt: Seq<u64>, per: Seq<u64>)
    ensures
        residuals_6(cur, nxt, per).len() == 12,
{
    reveal(residuals_6);
}

proof fn lemma_residuals_len_7(cur: Seq<u64>, nxt: Seq<u64>, per: Seq<u64>)
    ensures
        residuals_7(cur, nxt, per).len() == 12,
{
    reveal(residuals_7);
}

proof fn lemma_residuals_len_8(cur: Seq<u64>, nxt: Seq<u64>, per: Seq<u64>)
    ensures
        residuals_8(cur, nxt, per).len() == 12,
{
    reveal(residuals_8);
}

proof fn lemma_residuals_len_9(cur: Seq<u64>, nxt: Seq<u64>, per: Seq<u64>)
    ensures
        residuals_9(cur, nxt, per).len() == 12,
{
    reveal(residuals_9);
}

proof fn lemma_residuals_len_10(cur: Seq<u64>, nxt: Seq<u64>, per: Seq<u64>)
    ensures
        residuals_10(cur, nxt, per).len() == 12,
{
    reveal(residuals_10);
}

proof fn lemma_residuals_len_11(cur: Seq<u64>, nxt: Seq<u64>, per: Seq<u64>)
    ensures
        residuals_11(cur, nxt, per).len() == 12,
{
    reveal(residuals_11);
}

proof fn lemma_residuals_len_12(cur: Seq<u64>, nxt: Seq<u64>, per: Seq<u64>)
    ensures
        residuals_12(cur, nxt, per).len() == 12,
{
    reveal(residuals_12);
}

proof fn lemma_residuals_len_13(cur: Seq<u64>, nxt: Seq<u64>, per: Seq<u64>)
    ensures
        residuals_13(cur, nxt, per).len() == 12,
{
    reveal(residuals_13);
}

proof fn lemma_residuals_len_14(cur: Seq<u64>, nxt: Seq<u64>, per: Seq<u64>)
    ensures
        residuals_14(cur, nxt, per).len() == 12,
{
    reveal(residuals_14);
}

proof fn lemma_residuals_len_15(cur: Seq<u64>, nxt: Seq<u64>, per: Seq<u64>)
    ensures
        residuals_15(cur, nxt, per).len() == 7,
{
    reveal(residuals_15);
}


/// Every step of an honest trace satisfies every transition constraint,
/// for an honest send: the rounds of both lanes, the nonce after the leaf,
/// the shared account climb, the key derivation and its identity, the
/// frozen tree, the receiver and the salt of the commitment, its amount and
/// envelope, the free position in the pending tree and its climb, the new balance,
/// the unchanged supply, the five range checks, and the constant columns.
#[verifier::spinoff_prover]
#[verifier::rlimit(100)]
pub proof fn lemma_trace_satisfies_constraints(inp: SendV2Inputs, t: Seq<Vec<u64>>, r: int)
    requires
        t.len() == TRACE_WIDTH,
        forall|col: int, q: int|
            0 <= col < TRACE_WIDTH && 0 <= q < TRACE_LENGTH ==> #[trigger] t[col][q] == cell_spec(inp, col, q),
        lanes_hold(inp),
        inputs_ok(inp),
        honest_send_v2(inp),
        0 <= r < TRACE_LENGTH - 1,
    ensures
        forall|k: int| 0 <= k < NUM_CONSTRAINTS ==> #[trigger] constraint_spec(k, row_of(t, r), row_of(t, r + 1), periodic_row(r)) == 0,
{
    let cur = row_of(t, r);
    let nxt = row_of(t, r + 1);
    let per = periodic_row(r);
    let v = send_values(inp.base);
    lemma_trace_satisfies_round_constraints(inp, t, r);
    lemma_trace_range_facts(inp, t, r);
    lemma_link_selectors(r);
    if acct_link_row(r) || pend_link_row(r) {
        lemma_shared_link_facts(inp, t, r);
    }
    if r == 503 {
        lemma_pending_entry_facts(inp, t, r);
    }
    if r == 287 || frozen_link_row(r) {
        lemma_frozen_facts(inp, t, r);
    }
    if r == 7 || r == 15 || r == 279 || r == 287 || r == 479 || r == 487 || r == 495 {
        lemma_row_facts(inp, t, r);
    }
    if r == 0 {
        lemma_first_row_facts(inp, t);
    }
    vstd::arithmetic::div_mod::lemma_small_mod(v.supply_old as nat, MODULUS as nat);
    assert forall|col: int| 24 <= col < 60 implies #[trigger] cur[col] == cell_spec(inp, col, r) && nxt[col] == cell_spec(inp, col, r + 1) by {
        assert(t[col][r] == cell_spec(inp, col, r));
        assert(t[col][r + 1] == cell_spec(inp, col, r + 1));
    }
    assert(cur[24] == 0 || cur[24] == 1);
    assert(cur[41] == 0 || cur[41] == 1);
    assert(cur[42] == 0 || cur[42] == 1);
    assert(cur[34] == sub_spec(cur[33], cur[36]));
    assert(cur[38] == cur[37]);
    assert forall|col: int| (25 <= col < 39 || 43 <= col < 60) implies #[trigger] sub_spec(nxt[col], cur[col]) == 0 by {}
    assert(step_facts(cur, nxt, per, r));
    lemma_residuals_0_vanish(cur, nxt, per, r);
    lemma_residuals_1_vanish(cur, nxt, per, r);
    lemma_residuals_2_vanish(cur, nxt, per, r);
    lemma_residuals_3_vanish(cur, nxt, per, r);
    lemma_residuals_4_vanish(cur, nxt, per, r);
    lemma_residuals_5_vanish(cur, nxt, per, r);
    lemma_residuals_6_vanish(cur, nxt, per, r);
    lemma_residuals_7_vanish(cur, nxt, per, r);
    lemma_residuals_8_vanish(cur, nxt, per, r);
    lemma_residuals_9_vanish(cur, nxt, per, r);
    lemma_residuals_10_vanish(cur, nxt, per, r);
    lemma_residuals_11_vanish(cur, nxt, per, r);
    lemma_residuals_12_vanish(cur, nxt, per, r);
    lemma_residuals_13_vanish(cur, nxt, per, r);
    lemma_residuals_14_vanish(cur, nxt, per, r);
    lemma_residuals_15_vanish(cur, nxt, per, r);
    lemma_residuals_len_0(cur, nxt, per);
    lemma_residuals_len_1(cur, nxt, per);
    lemma_residuals_len_2(cur, nxt, per);
    lemma_residuals_len_3(cur, nxt, per);
    lemma_residuals_len_4(cur, nxt, per);
    lemma_residuals_len_5(cur, nxt, per);
    lemma_residuals_len_6(cur, nxt, per);
    lemma_residuals_len_7(cur, nxt, per);
    lemma_residuals_len_8(cur, nxt, per);
    lemma_residuals_len_9(cur, nxt, per);
    lemma_residuals_len_10(cur, nxt, per);
    lemma_residuals_len_11(cur, nxt, per);
    lemma_residuals_len_12(cur, nxt, per);
    lemma_residuals_len_13(cur, nxt, per);
    lemma_residuals_len_14(cur, nxt, per);
    lemma_residuals_len_15(cur, nxt, per);
    assert forall|k: int| 24 <= k < NUM_CONSTRAINTS implies #[trigger] constraint_spec(k, cur, nxt, per) == 0 by {
        if k < 36 {
            assert(constraint_spec(k, cur, nxt, per) == residuals_0(cur, nxt, per)[k - 24]);
        } else if k < 48 {
            assert(constraint_spec(k, cur, nxt, per) == residuals_1(cur, nxt, per)[k - 36]);
        } else if k < 60 {
            assert(constraint_spec(k, cur, nxt, per) == residuals_2(cur, nxt, per)[k - 48]);
        } else if k < 72 {
            assert(constraint_spec(k, cur, nxt, per) == residuals_3(cur, nxt, per)[k - 60]);
        } else if k < 84 {
            assert(constraint_spec(k, cur, nxt, per) == residuals_4(cur, nxt, per)[k - 72]);
        } else if k < 96 {
            assert(constraint_spec(k, cur, nxt, per) == residuals_5(cur, nxt, per)[k - 84]);
        } else if k < 108 {
            assert(constraint_spec(k, cur, nxt, per) == residuals_6(cur, nxt, per)[k - 96]);
        } else if k < 120 {
            assert(constraint_spec(k, cur, nxt, per) == residuals_7(cur, nxt, per)[k - 108]);
        } else if k < 132 {
            assert(constraint_spec(k, cur, nxt, per) == residuals_8(cur, nxt, per)[k - 120]);
        } else if k < 144 {
            assert(constraint_spec(k, cur, nxt, per) == residuals_9(cur, nxt, per)[k - 132]);
        } else if k < 156 {
            assert(constraint_spec(k, cur, nxt, per) == residuals_10(cur, nxt, per)[k - 144]);
        } else if k < 168 {
            assert(constraint_spec(k, cur, nxt, per) == residuals_11(cur, nxt, per)[k - 156]);
        } else if k < 180 {
            assert(constraint_spec(k, cur, nxt, per) == residuals_12(cur, nxt, per)[k - 168]);
        } else if k < 192 {
            assert(constraint_spec(k, cur, nxt, per) == residuals_13(cur, nxt, per)[k - 180]);
        } else if k < 204 {
            assert(constraint_spec(k, cur, nxt, per) == residuals_14(cur, nxt, per)[k - 192]);
        } else {
            assert(constraint_spec(k, cur, nxt, per) == residuals_15(cur, nxt, per)[k - 204]);
        }
    }
}

#[verifier::spinoff_prover]
#[verifier::rlimit(100)]
proof fn lemma_accepted_constraint_109(cur: Seq<u64>, nxt: Seq<u64>, per: Seq<u64>)
    requires
        cur.len() == TRACE_WIDTH,
        nxt.len() == TRACE_WIDTH,
        all_canonical(cur),
        all_canonical(nxt),
        constraint_spec(109, cur, nxt, per) == 0,
    ensures
        cur[39] <= 1,
{
    lemma_residuals_len_0(cur, nxt, per);
    lemma_residuals_len_1(cur, nxt, per);
    lemma_residuals_len_2(cur, nxt, per);
    lemma_residuals_len_3(cur, nxt, per);
    lemma_residuals_len_4(cur, nxt, per);
    lemma_residuals_len_5(cur, nxt, per);
    lemma_residuals_len_6(cur, nxt, per);
    lemma_residuals_len_7(cur, nxt, per);
    lemma_residuals_len_8(cur, nxt, per);
    lemma_residuals_len_9(cur, nxt, per);
    lemma_residuals_len_10(cur, nxt, per);
    lemma_residuals_len_11(cur, nxt, per);
    lemma_residuals_len_12(cur, nxt, per);
    lemma_residuals_len_13(cur, nxt, per);
    lemma_residuals_len_14(cur, nxt, per);
    lemma_residuals_len_15(cur, nxt, per);
    assert(constraint_spec(109, cur, nxt, per) == residuals_7(cur, nxt, per)[1]);
    reveal(residuals_7);
    lemma_field_bit(cur[39]);
}

#[verifier::spinoff_prover]
#[verifier::rlimit(100)]
proof fn lemma_accepted_constraint_112(cur: Seq<u64>, nxt: Seq<u64>, per: Seq<u64>)
    requires
        cur.len() == TRACE_WIDTH,
        nxt.len() == TRACE_WIDTH,
        all_canonical(cur),
        all_canonical(nxt),
        constraint_spec(112, cur, nxt, per) == 0,
    ensures
        per[32] == 1 ==> cur[40] == 0,
{
    lemma_residuals_len_0(cur, nxt, per);
    lemma_residuals_len_1(cur, nxt, per);
    lemma_residuals_len_2(cur, nxt, per);
    lemma_residuals_len_3(cur, nxt, per);
    lemma_residuals_len_4(cur, nxt, per);
    lemma_residuals_len_5(cur, nxt, per);
    lemma_residuals_len_6(cur, nxt, per);
    lemma_residuals_len_7(cur, nxt, per);
    lemma_residuals_len_8(cur, nxt, per);
    lemma_residuals_len_9(cur, nxt, per);
    lemma_residuals_len_10(cur, nxt, per);
    lemma_residuals_len_11(cur, nxt, per);
    lemma_residuals_len_12(cur, nxt, per);
    lemma_residuals_len_13(cur, nxt, per);
    lemma_residuals_len_14(cur, nxt, per);
    lemma_residuals_len_15(cur, nxt, per);
    assert(constraint_spec(112, cur, nxt, per) == residuals_7(cur, nxt, per)[4]);
    reveal(residuals_7);
    if per[32] == 1 {
        lemma_selected(cur[40]);
    }
}

#[verifier::spinoff_prover]
#[verifier::rlimit(100)]
proof fn lemma_accepted_constraint_113(cur: Seq<u64>, nxt: Seq<u64>, per: Seq<u64>)
    requires
        cur.len() == TRACE_WIDTH,
        nxt.len() == TRACE_WIDTH,
        all_canonical(cur),
        all_canonical(nxt),
        constraint_spec(113, cur, nxt, per) == 0,
    ensures
        per[33] == 1 ==> nxt[40] == add_spec(add_spec(cur[40], cur[40]), nxt[39]),
{
    lemma_residuals_len_0(cur, nxt, per);
    lemma_residuals_len_1(cur, nxt, per);
    lemma_residuals_len_2(cur, nxt, per);
    lemma_residuals_len_3(cur, nxt, per);
    lemma_residuals_len_4(cur, nxt, per);
    lemma_residuals_len_5(cur, nxt, per);
    lemma_residuals_len_6(cur, nxt, per);
    lemma_residuals_len_7(cur, nxt, per);
    lemma_residuals_len_8(cur, nxt, per);
    lemma_residuals_len_9(cur, nxt, per);
    lemma_residuals_len_10(cur, nxt, per);
    lemma_residuals_len_11(cur, nxt, per);
    lemma_residuals_len_12(cur, nxt, per);
    lemma_residuals_len_13(cur, nxt, per);
    lemma_residuals_len_14(cur, nxt, per);
    lemma_residuals_len_15(cur, nxt, per);
    assert(constraint_spec(113, cur, nxt, per) == residuals_7(cur, nxt, per)[5]);
    reveal(residuals_7);
    lemma_reduce_canonical(cur[40] + cur[40]);
    lemma_reduce_canonical(add_spec(cur[40], cur[40]) + nxt[39]);
    if per[33] == 1 {
        lemma_selected_equal(per[33], nxt[40], add_spec(add_spec(cur[40], cur[40]), nxt[39]));
    }
}

#[verifier::spinoff_prover]
#[verifier::rlimit(100)]
proof fn lemma_accepted_constraint_114(cur: Seq<u64>, nxt: Seq<u64>, per: Seq<u64>)
    requires
        cur.len() == TRACE_WIDTH,
        nxt.len() == TRACE_WIDTH,
        all_canonical(cur),
        all_canonical(nxt),
        constraint_spec(114, cur, nxt, per) == 0,
    ensures
        per[34] == 1 ==> nxt[40] == cur[33],
{
    lemma_residuals_len_0(cur, nxt, per);
    lemma_residuals_len_1(cur, nxt, per);
    lemma_residuals_len_2(cur, nxt, per);
    lemma_residuals_len_3(cur, nxt, per);
    lemma_residuals_len_4(cur, nxt, per);
    lemma_residuals_len_5(cur, nxt, per);
    lemma_residuals_len_6(cur, nxt, per);
    lemma_residuals_len_7(cur, nxt, per);
    lemma_residuals_len_8(cur, nxt, per);
    lemma_residuals_len_9(cur, nxt, per);
    lemma_residuals_len_10(cur, nxt, per);
    lemma_residuals_len_11(cur, nxt, per);
    lemma_residuals_len_12(cur, nxt, per);
    lemma_residuals_len_13(cur, nxt, per);
    lemma_residuals_len_14(cur, nxt, per);
    lemma_residuals_len_15(cur, nxt, per);
    assert(constraint_spec(114, cur, nxt, per) == residuals_7(cur, nxt, per)[6]);
    reveal(residuals_7);
    if per[34] == 1 {
        lemma_selected_equal(per[34], nxt[40], cur[33]);
    }
}

#[verifier::spinoff_prover]
#[verifier::rlimit(100)]
proof fn lemma_accepted_constraint_115(cur: Seq<u64>, nxt: Seq<u64>, per: Seq<u64>)
    requires
        cur.len() == TRACE_WIDTH,
        nxt.len() == TRACE_WIDTH,
        all_canonical(cur),
        all_canonical(nxt),
        constraint_spec(115, cur, nxt, per) == 0,
    ensures
        per[35] == 1 ==> nxt[40] == cur[36],
{
    lemma_residuals_len_0(cur, nxt, per);
    lemma_residuals_len_1(cur, nxt, per);
    lemma_residuals_len_2(cur, nxt, per);
    lemma_residuals_len_3(cur, nxt, per);
    lemma_residuals_len_4(cur, nxt, per);
    lemma_residuals_len_5(cur, nxt, per);
    lemma_residuals_len_6(cur, nxt, per);
    lemma_residuals_len_7(cur, nxt, per);
    lemma_residuals_len_8(cur, nxt, per);
    lemma_residuals_len_9(cur, nxt, per);
    lemma_residuals_len_10(cur, nxt, per);
    lemma_residuals_len_11(cur, nxt, per);
    lemma_residuals_len_12(cur, nxt, per);
    lemma_residuals_len_13(cur, nxt, per);
    lemma_residuals_len_14(cur, nxt, per);
    lemma_residuals_len_15(cur, nxt, per);
    assert(constraint_spec(115, cur, nxt, per) == residuals_7(cur, nxt, per)[7]);
    reveal(residuals_7);
    if per[35] == 1 {
        lemma_selected_equal(per[35], nxt[40], cur[36]);
    }
}

#[verifier::spinoff_prover]
#[verifier::rlimit(100)]
proof fn lemma_accepted_constraint_116(cur: Seq<u64>, nxt: Seq<u64>, per: Seq<u64>)
    requires
        cur.len() == TRACE_WIDTH,
        nxt.len() == TRACE_WIDTH,
        all_canonical(cur),
        all_canonical(nxt),
        constraint_spec(116, cur, nxt, per) == 0,
    ensures
        per[36] == 1 ==> nxt[40] == cur[34],
{
    lemma_residuals_len_0(cur, nxt, per);
    lemma_residuals_len_1(cur, nxt, per);
    lemma_residuals_len_2(cur, nxt, per);
    lemma_residuals_len_3(cur, nxt, per);
    lemma_residuals_len_4(cur, nxt, per);
    lemma_residuals_len_5(cur, nxt, per);
    lemma_residuals_len_6(cur, nxt, per);
    lemma_residuals_len_7(cur, nxt, per);
    lemma_residuals_len_8(cur, nxt, per);
    lemma_residuals_len_9(cur, nxt, per);
    lemma_residuals_len_10(cur, nxt, per);
    lemma_residuals_len_11(cur, nxt, per);
    lemma_residuals_len_12(cur, nxt, per);
    lemma_residuals_len_13(cur, nxt, per);
    lemma_residuals_len_14(cur, nxt, per);
    lemma_residuals_len_15(cur, nxt, per);
    assert(constraint_spec(116, cur, nxt, per) == residuals_7(cur, nxt, per)[8]);
    reveal(residuals_7);
    if per[36] == 1 {
        lemma_selected_equal(per[36], nxt[40], cur[34]);
    }
}

#[verifier::spinoff_prover]
#[verifier::rlimit(100)]
proof fn lemma_accepted_constraint_117(cur: Seq<u64>, nxt: Seq<u64>, per: Seq<u64>)
    requires
        cur.len() == TRACE_WIDTH,
        nxt.len() == TRACE_WIDTH,
        all_canonical(cur),
        all_canonical(nxt),
        constraint_spec(117, cur, nxt, per) == 0,
    ensures
        per[37] == 1 ==> nxt[40] == cur[38],
{
    lemma_residuals_len_0(cur, nxt, per);
    lemma_residuals_len_1(cur, nxt, per);
    lemma_residuals_len_2(cur, nxt, per);
    lemma_residuals_len_3(cur, nxt, per);
    lemma_residuals_len_4(cur, nxt, per);
    lemma_residuals_len_5(cur, nxt, per);
    lemma_residuals_len_6(cur, nxt, per);
    lemma_residuals_len_7(cur, nxt, per);
    lemma_residuals_len_8(cur, nxt, per);
    lemma_residuals_len_9(cur, nxt, per);
    lemma_residuals_len_10(cur, nxt, per);
    lemma_residuals_len_11(cur, nxt, per);
    lemma_residuals_len_12(cur, nxt, per);
    lemma_residuals_len_13(cur, nxt, per);
    lemma_residuals_len_14(cur, nxt, per);
    lemma_residuals_len_15(cur, nxt, per);
    assert(constraint_spec(117, cur, nxt, per) == residuals_7(cur, nxt, per)[9]);
    reveal(residuals_7);
    if per[37] == 1 {
        lemma_selected_equal(per[37], nxt[40], cur[38]);
    }
}

#[verifier::spinoff_prover]
#[verifier::rlimit(100)]
proof fn lemma_accepted_constraint_118(cur: Seq<u64>, nxt: Seq<u64>, per: Seq<u64>)
    requires
        cur.len() == TRACE_WIDTH,
        nxt.len() == TRACE_WIDTH,
        all_canonical(cur),
        all_canonical(nxt),
        constraint_spec(118, cur, nxt, per) == 0,
    ensures
        per[38] == 1 ==> nxt[40] == sub_spec(cur[51], cur[36]),
{
    lemma_residuals_len_0(cur, nxt, per);
    lemma_residuals_len_1(cur, nxt, per);
    lemma_residuals_len_2(cur, nxt, per);
    lemma_residuals_len_3(cur, nxt, per);
    lemma_residuals_len_4(cur, nxt, per);
    lemma_residuals_len_5(cur, nxt, per);
    lemma_residuals_len_6(cur, nxt, per);
    lemma_residuals_len_7(cur, nxt, per);
    lemma_residuals_len_8(cur, nxt, per);
    lemma_residuals_len_9(cur, nxt, per);
    lemma_residuals_len_10(cur, nxt, per);
    lemma_residuals_len_11(cur, nxt, per);
    lemma_residuals_len_12(cur, nxt, per);
    lemma_residuals_len_13(cur, nxt, per);
    lemma_residuals_len_14(cur, nxt, per);
    lemma_residuals_len_15(cur, nxt, per);
    assert(constraint_spec(118, cur, nxt, per) == residuals_7(cur, nxt, per)[10]);
    reveal(residuals_7);
    lemma_reduce_canonical(cur[51] - cur[36]);
    if per[38] == 1 {
        lemma_selected_equal(per[38], nxt[40], sub_spec(cur[51], cur[36]));
    }
}

#[verifier::spinoff_prover]
#[verifier::rlimit(100)]
proof fn lemma_accepted_constraint_91(cur: Seq<u64>, nxt: Seq<u64>, per: Seq<u64>)
    requires
        cur.len() == TRACE_WIDTH,
        nxt.len() == TRACE_WIDTH,
        all_canonical(cur),
        all_canonical(nxt),
        constraint_spec(91, cur, nxt, per) == 0,
    ensures
        nxt[33] == cur[33],
{
    lemma_residuals_len_0(cur, nxt, per);
    lemma_residuals_len_1(cur, nxt, per);
    lemma_residuals_len_2(cur, nxt, per);
    lemma_residuals_len_3(cur, nxt, per);
    lemma_residuals_len_4(cur, nxt, per);
    lemma_residuals_len_5(cur, nxt, per);
    lemma_residuals_len_6(cur, nxt, per);
    lemma_residuals_len_7(cur, nxt, per);
    lemma_residuals_len_8(cur, nxt, per);
    lemma_residuals_len_9(cur, nxt, per);
    lemma_residuals_len_10(cur, nxt, per);
    lemma_residuals_len_11(cur, nxt, per);
    lemma_residuals_len_12(cur, nxt, per);
    lemma_residuals_len_13(cur, nxt, per);
    lemma_residuals_len_14(cur, nxt, per);
    lemma_residuals_len_15(cur, nxt, per);
    assert(constraint_spec(91, cur, nxt, per) == residuals_5(cur, nxt, per)[7]);
    reveal(residuals_5);
    lemma_equal(nxt[33], cur[33]);
}

#[verifier::spinoff_prover]
#[verifier::rlimit(100)]
proof fn lemma_accepted_constraint_92(cur: Seq<u64>, nxt: Seq<u64>, per: Seq<u64>)
    requires
        cur.len() == TRACE_WIDTH,
        nxt.len() == TRACE_WIDTH,
        all_canonical(cur),
        all_canonical(nxt),
        constraint_spec(92, cur, nxt, per) == 0,
    ensures
        nxt[34] == cur[34],
{
    lemma_residuals_len_0(cur, nxt, per);
    lemma_residuals_len_1(cur, nxt, per);
    lemma_residuals_len_2(cur, nxt, per);
    lemma_residuals_len_3(cur, nxt, per);
    lemma_residuals_len_4(cur, nxt, per);
    lemma_residuals_len_5(cur, nxt, per);
    lemma_residuals_len_6(cur, nxt, per);
    lemma_residuals_len_7(cur, nxt, per);
    lemma_residuals_len_8(cur, nxt, per);
    lemma_residuals_len_9(cur, nxt, per);
    lemma_residuals_len_10(cur, nxt, per);
    lemma_residuals_len_11(cur, nxt, per);
    lemma_residuals_len_12(cur, nxt, per);
    lemma_residuals_len_13(cur, nxt, per);
    lemma_residuals_len_14(cur, nxt, per);
    lemma_residuals_len_15(cur, nxt, per);
    assert(constraint_spec(92, cur, nxt, per) == residuals_5(cur, nxt, per)[8]);
    reveal(residuals_5);
    lemma_equal(nxt[34], cur[34]);
}

#[verifier::spinoff_prover]
#[verifier::rlimit(100)]
proof fn lemma_accepted_constraint_94(cur: Seq<u64>, nxt: Seq<u64>, per: Seq<u64>)
    requires
        cur.len() == TRACE_WIDTH,
        nxt.len() == TRACE_WIDTH,
        all_canonical(cur),
        all_canonical(nxt),
        constraint_spec(94, cur, nxt, per) == 0,
    ensures
        nxt[36] == cur[36],
{
    lemma_residuals_len_0(cur, nxt, per);
    lemma_residuals_len_1(cur, nxt, per);
    lemma_residuals_len_2(cur, nxt, per);
    lemma_residuals_len_3(cur, nxt, per);
    lemma_residuals_len_4(cur, nxt, per);
    lemma_residuals_len_5(cur, nxt, per);
    lemma_residuals_len_6(cur, nxt, per);
    lemma_residuals_len_7(cur, nxt, per);
    lemma_residuals_len_8(cur, nxt, per);
    lemma_residuals_len_9(cur, nxt, per);
    lemma_residuals_len_10(cur, nxt, per);
    lemma_residuals_len_11(cur, nxt, per);
    lemma_residuals_len_12(cur, nxt, per);
    lemma_residuals_len_13(cur, nxt, per);
    lemma_residuals_len_14(cur, nxt, per);
    lemma_residuals_len_15(cur, nxt, per);
    assert(constraint_spec(94, cur, nxt, per) == residuals_5(cur, nxt, per)[10]);
    reveal(residuals_5);
    lemma_equal(nxt[36], cur[36]);
}

#[verifier::spinoff_prover]
#[verifier::rlimit(100)]
proof fn lemma_accepted_constraint_96(cur: Seq<u64>, nxt: Seq<u64>, per: Seq<u64>)
    requires
        cur.len() == TRACE_WIDTH,
        nxt.len() == TRACE_WIDTH,
        all_canonical(cur),
        all_canonical(nxt),
        constraint_spec(96, cur, nxt, per) == 0,
    ensures
        nxt[38] == cur[38],
{
    lemma_residuals_len_0(cur, nxt, per);
    lemma_residuals_len_1(cur, nxt, per);
    lemma_residuals_len_2(cur, nxt, per);
    lemma_residuals_len_3(cur, nxt, per);
    lemma_residuals_len_4(cur, nxt, per);
    lemma_residuals_len_5(cur, nxt, per);
    lemma_residuals_len_6(cur, nxt, per);
    lemma_residuals_len_7(cur, nxt, per);
    lemma_residuals_len_8(cur, nxt, per);
    lemma_residuals_len_9(cur, nxt, per);
    lemma_residuals_len_10(cur, nxt, per);
    lemma_residuals_len_11(cur, nxt, per);
    lemma_residuals_len_12(cur, nxt, per);
    lemma_residuals_len_13(cur, nxt, per);
    lemma_residuals_len_14(cur, nxt, per);
    lemma_residuals_len_15(cur, nxt, per);
    assert(constraint_spec(96, cur, nxt, per) == residuals_6(cur, nxt, per)[0]);
    reveal(residuals_6);
    lemma_equal(nxt[38], cur[38]);
}

#[verifier::spinoff_prover]
#[verifier::rlimit(100)]
proof fn lemma_accepted_constraint_202(cur: Seq<u64>, nxt: Seq<u64>, per: Seq<u64>)
    requires
        cur.len() == TRACE_WIDTH,
        nxt.len() == TRACE_WIDTH,
        all_canonical(cur),
        all_canonical(nxt),
        constraint_spec(202, cur, nxt, per) == 0,
    ensures
        nxt[51] == cur[51],
{
    lemma_residuals_len_0(cur, nxt, per);
    lemma_residuals_len_1(cur, nxt, per);
    lemma_residuals_len_2(cur, nxt, per);
    lemma_residuals_len_3(cur, nxt, per);
    lemma_residuals_len_4(cur, nxt, per);
    lemma_residuals_len_5(cur, nxt, per);
    lemma_residuals_len_6(cur, nxt, per);
    lemma_residuals_len_7(cur, nxt, per);
    lemma_residuals_len_8(cur, nxt, per);
    lemma_residuals_len_9(cur, nxt, per);
    lemma_residuals_len_10(cur, nxt, per);
    lemma_residuals_len_11(cur, nxt, per);
    lemma_residuals_len_12(cur, nxt, per);
    lemma_residuals_len_13(cur, nxt, per);
    lemma_residuals_len_14(cur, nxt, per);
    lemma_residuals_len_15(cur, nxt, per);
    assert(constraint_spec(202, cur, nxt, per) == residuals_14(cur, nxt, per)[10]);
    reveal(residuals_14);
    lemma_equal(nxt[51], cur[51]);
}

#[verifier::spinoff_prover]
#[verifier::rlimit(100)]
proof fn lemma_accepted_constraint_85(cur: Seq<u64>, nxt: Seq<u64>, per: Seq<u64>)
    requires
        cur.len() == TRACE_WIDTH,
        nxt.len() == TRACE_WIDTH,
        all_canonical(cur),
        all_canonical(nxt),
        constraint_spec(85, cur, nxt, per) == 0,
    ensures
        cur[34] == sub_spec(cur[33], cur[36]),
{
    lemma_residuals_len_0(cur, nxt, per);
    lemma_residuals_len_1(cur, nxt, per);
    lemma_residuals_len_2(cur, nxt, per);
    lemma_residuals_len_3(cur, nxt, per);
    lemma_residuals_len_4(cur, nxt, per);
    lemma_residuals_len_5(cur, nxt, per);
    lemma_residuals_len_6(cur, nxt, per);
    lemma_residuals_len_7(cur, nxt, per);
    lemma_residuals_len_8(cur, nxt, per);
    lemma_residuals_len_9(cur, nxt, per);
    lemma_residuals_len_10(cur, nxt, per);
    lemma_residuals_len_11(cur, nxt, per);
    lemma_residuals_len_12(cur, nxt, per);
    lemma_residuals_len_13(cur, nxt, per);
    lemma_residuals_len_14(cur, nxt, per);
    lemma_residuals_len_15(cur, nxt, per);
    assert(constraint_spec(85, cur, nxt, per) == residuals_5(cur, nxt, per)[1]);
    reveal(residuals_5);
    lemma_reduce_canonical(cur[33] - cur[36]);
    lemma_equal(cur[34], sub_spec(cur[33], cur[36]));
}

/// What the range-check constraints of one accepted step say: on the
/// first row of a segment the accumulator is zero, inside a segment the
/// next accumulator doubles it and adds the next bit, on the row before a
/// segment ends its accumulator is the value checked there, the
/// new balance is the debit, and the balances, amount, supply and limit
/// keep their values.
pub open spec fn range_step_facts(cur: Seq<u64>, nxt: Seq<u64>, per: Seq<u64>) -> bool {
    &&& cur[39] <= 1
    &&& per[32] == 1 ==> cur[40] == 0
    &&& per[33] == 1 ==> nxt[40] == add_spec(add_spec(cur[40], cur[40]), nxt[39])
    &&& per[34] == 1 ==> nxt[40] == cur[33]
    &&& per[35] == 1 ==> nxt[40] == cur[36]
    &&& per[36] == 1 ==> nxt[40] == cur[34]
    &&& per[37] == 1 ==> nxt[40] == cur[38]
    &&& per[38] == 1 ==> nxt[40] == sub_spec(cur[51], cur[36])
    &&& nxt[33] == cur[33]
    &&& nxt[34] == cur[34]
    &&& nxt[36] == cur[36]
    &&& nxt[38] == cur[38]
    &&& nxt[51] == cur[51]
    &&& cur[34] == sub_spec(cur[33], cur[36])
}

#[verifier::spinoff_prover]
#[verifier::rlimit(100)]
proof fn lemma_accepted_range_step(cur: Seq<u64>, nxt: Seq<u64>, per: Seq<u64>)
    requires
        cur.len() == TRACE_WIDTH,
        nxt.len() == TRACE_WIDTH,
        all_canonical(cur),
        all_canonical(nxt),
        forall|k: int| 0 <= k < NUM_CONSTRAINTS ==> #[trigger] constraint_spec(k, cur, nxt, per) == 0,
    ensures
        range_step_facts(cur, nxt, per),
{

    lemma_accepted_constraint_109(cur, nxt, per);
    lemma_accepted_constraint_112(cur, nxt, per);
    lemma_accepted_constraint_113(cur, nxt, per);
    lemma_accepted_constraint_114(cur, nxt, per);
    lemma_accepted_constraint_115(cur, nxt, per);
    lemma_accepted_constraint_116(cur, nxt, per);
    lemma_accepted_constraint_117(cur, nxt, per);
    lemma_accepted_constraint_118(cur, nxt, per);
    lemma_accepted_constraint_91(cur, nxt, per);
    lemma_accepted_constraint_92(cur, nxt, per);
    lemma_accepted_constraint_94(cur, nxt, per);
    lemma_accepted_constraint_96(cur, nxt, per);
    lemma_accepted_constraint_202(cur, nxt, per);
    lemma_accepted_constraint_85(cur, nxt, per);


}

/// The range-check segment starting on row `s` of an accepted trace ends
/// on a value below `2^63`.
#[verifier::spinoff_prover]
#[verifier::rlimit(100)]
proof fn lemma_accepted_range_segment(t: Seq<Vec<u64>>, s: int)
    requires
        t.len() == TRACE_WIDTH,
        columns_shape(t, TRACE_LENGTH as nat),
        forall|r: int| #![trigger periodic_row(r)] 0 <= r < TRACE_LENGTH - 1 ==> range_step_facts(row_of(t, r), row_of(t, r + 1), periodic_row(r)),
        s == 0 || s == 64 || s == 128 || s == 192 || s == 256,
        s + 64 < TRACE_LENGTH,
    ensures
        t[40][s + 63] < 0x8000_0000_0000_0000,
{
    let bits = t[39]@;
    let accs = t[40]@;
    let firsts: Seq<usize> = seq![0usize, 64, 128, 192, 256];
    assert(firsts[s / 64] == s);
    assert(range_step_facts(row_of(t, s), row_of(t, s + 1), periodic_row(s)));
    assert(periodic_row(s)[32] == periodic_spec(32, s));
    assert(periodic_row(s)[32] == 1);
    assert(row_of(t, s)[40] == accs[s]);
    assert forall|i: int| s <= i < s + 63 implies #[trigger] accs[i + 1] == add_spec(add_spec(accs[i], accs[i]), bits[i + 1]) by {
        assert(range_step_facts(row_of(t, i), row_of(t, i + 1), periodic_row(i)));
        assert(i % 64 != 63);
        assert(periodic_row(i)[33] == periodic_spec(33, i));
        assert(periodic_row(i)[33] == 1);
        assert(row_of(t, i)[40] == accs[i]);
        assert(row_of(t, i + 1)[40] == accs[i + 1]);
        assert(row_of(t, i + 1)[39] == bits[i + 1]);
    }
    assert forall|i: int| s <= i < s + 64 implies #[trigger] bits[i] <= 1 by {
        assert(range_step_facts(row_of(t, i), row_of(t, i + 1), periodic_row(i)));
        assert(row_of(t, i)[39] == bits[i]);
    }
    lemma_accepted_segment(bits, accs, s);
}

/// What an accepted send trace proves. Take any trace whose every step
/// satisfies every transition constraint with the periodic values of
/// `periodic_columns` (the field is prime, so `b * (b - 1) = 0` makes each
/// range-check cell a bit). Its five range-check segments end on the
/// balance, the amount, the new balance (`balance - amount` in the field),
/// the new supply and `limit - amount` of its first row, each below `2^63`.
/// So the amount is at most the balance and at most the limit, for every
/// amount up to `p - 2^63`: sending more than the balance has no accepted
/// trace.
#[verifier::spinoff_prover]
#[verifier::rlimit(100)]
pub proof fn lemma_accepted_send_v2_is_covered(t: Seq<Vec<u64>>)
    requires
        t.len() == TRACE_WIDTH,
        columns_shape(t, TRACE_LENGTH as nat),
        forall|r: int, k: int|
            0 <= r < TRACE_LENGTH - 1 && 0 <= k < NUM_CONSTRAINTS ==> #[trigger] constraint_spec(
                k,
                row_of(t, r),
                row_of(t, r + 1),
                periodic_row(r),
            ) == 0,
    ensures
        t[40][63] == t[33][0],
        t[40][127] == t[36][0],
        t[40][191] == t[34][0],
        t[40][255] == t[38][0],
        t[40][319] == sub_spec(t[51][0], t[36][0]),
        t[34][0] == sub_spec(t[33][0], t[36][0]),
        t[33][0] < 0x8000_0000_0000_0000,
        t[36][0] < 0x8000_0000_0000_0000,
        t[34][0] < 0x8000_0000_0000_0000,
        t[38][0] < 0x8000_0000_0000_0000,
        sub_spec(t[51][0], t[36][0]) < 0x8000_0000_0000_0000,
        t[36][0] <= MODULUS - 0x8000_0000_0000_0000 ==> t[36][0] <= t[33][0] && t[36][0] <= t[51][0],
{
    assert forall|r: int| #![trigger periodic_row(r)] 0 <= r < TRACE_LENGTH - 1 implies range_step_facts(row_of(t, r), row_of(t, r + 1), periodic_row(r)) by {
        let cur = row_of(t, r);
        let nxt = row_of(t, r + 1);
        assert forall|k: int| 0 <= k < NUM_CONSTRAINTS implies #[trigger] constraint_spec(k, cur, nxt, periodic_row(r)) == 0 by {
            assert(constraint_spec(k, row_of(t, r), row_of(t, r + 1), periodic_row(r)) == 0);
        }
        assert forall|c: int| 0 <= c < TRACE_WIDTH implies #[trigger] cur[c] < MODULUS && nxt[c] < MODULUS by {
            assert(all_canonical(t[c]@));
        }
        lemma_accepted_range_step(cur, nxt, periodic_row(r));
    }
    assert forall|q: int| 0 <= q < 319 implies #[trigger] t[33]@[q + 1] == t[33]@[q] by {
        assert(range_step_facts(row_of(t, q), row_of(t, q + 1), periodic_row(q)));
    }
    lemma_column_kept(t[33]@, 318);
    assert forall|q: int| 0 <= q < 319 implies #[trigger] t[34]@[q + 1] == t[34]@[q] by {
        assert(range_step_facts(row_of(t, q), row_of(t, q + 1), periodic_row(q)));
    }
    lemma_column_kept(t[34]@, 318);
    assert forall|q: int| 0 <= q < 319 implies #[trigger] t[36]@[q + 1] == t[36]@[q] by {
        assert(range_step_facts(row_of(t, q), row_of(t, q + 1), periodic_row(q)));
    }
    lemma_column_kept(t[36]@, 318);
    assert forall|q: int| 0 <= q < 319 implies #[trigger] t[38]@[q + 1] == t[38]@[q] by {
        assert(range_step_facts(row_of(t, q), row_of(t, q + 1), periodic_row(q)));
    }
    lemma_column_kept(t[38]@, 318);
    assert forall|q: int| 0 <= q < 319 implies #[trigger] t[51]@[q + 1] == t[51]@[q] by {
        assert(range_step_facts(row_of(t, q), row_of(t, q + 1), periodic_row(q)));
    }
    lemma_column_kept(t[51]@, 318);
    assert(periodic_row(62)[34] == 1) by {
        let one: Seq<usize> = seq![(64 * (34 - 33) - 2) as usize];
        assert(one[0] == 62);
        assert(periodic_row(62)[34] == selector_spec(one, 62));
    }
    assert(range_step_facts(row_of(t, 62), row_of(t, 63), periodic_row(62)));
    assert(periodic_row(126)[35] == 1) by {
        let one: Seq<usize> = seq![(64 * (35 - 33) - 2) as usize];
        assert(one[0] == 126);
        assert(periodic_row(126)[35] == selector_spec(one, 126));
    }
    assert(range_step_facts(row_of(t, 126), row_of(t, 127), periodic_row(126)));
    assert(periodic_row(190)[36] == 1) by {
        let one: Seq<usize> = seq![(64 * (36 - 33) - 2) as usize];
        assert(one[0] == 190);
        assert(periodic_row(190)[36] == selector_spec(one, 190));
    }
    assert(range_step_facts(row_of(t, 190), row_of(t, 191), periodic_row(190)));
    assert(periodic_row(254)[37] == 1) by {
        let one: Seq<usize> = seq![(64 * (37 - 33) - 2) as usize];
        assert(one[0] == 254);
        assert(periodic_row(254)[37] == selector_spec(one, 254));
    }
    assert(range_step_facts(row_of(t, 254), row_of(t, 255), periodic_row(254)));
    assert(periodic_row(318)[38] == 1) by {
        let one: Seq<usize> = seq![(64 * (38 - 33) - 2) as usize];
        assert(one[0] == 318);
        assert(periodic_row(318)[38] == selector_spec(one, 318));
    }
    assert(range_step_facts(row_of(t, 318), row_of(t, 319), periodic_row(318)));
    lemma_accepted_range_segment(t, 0);
    lemma_accepted_range_segment(t, 64);
    lemma_accepted_range_segment(t, 128);
    lemma_accepted_range_segment(t, 192);
    lemma_accepted_range_segment(t, 256);
    assert(range_step_facts(row_of(t, 0), row_of(t, 1), periodic_row(0)));
    assert(t[33]@[62] == t[33]@[0] && t[36]@[126] == t[36]@[0] && t[34]@[190] == t[34]@[0]);
    assert(t[38]@[254] == t[38]@[0] && t[51]@[318] == t[51]@[0] && t[36]@[318] == t[36]@[0]);
    assert(all_canonical(t[33]@) && all_canonical(t[51]@));
    if t[36][0] <= MODULUS - 0x8000_0000_0000_0000 {
        lemma_checked_difference(t[33][0], t[36][0]);
        lemma_checked_difference(t[51][0], t[36][0]);
    }
}

} // verus!
