//! The Rescue-Prime permutation `Rp64_256` of winterfell, over canonical
//! field elements, and the two-to-one compression built on it.

use vstd::prelude::*;
use winterfell::crypto::hashers::Rp64_256;
use winterfell::crypto::ElementHasher;
use winterfell::math::FieldElement;
use crate::field::{all_canonical, MODULUS};

verus! {

/// The base field element type of `Rp64_256`.
type Felt = <Rp64_256 as ElementHasher>::BaseField;

/// Width of the sponge state.
pub const STATE_WIDTH: usize = 12;
/// Rounds of the permutation.
pub const NUM_ROUNDS: usize = 7;

/// A digest: four field elements.
pub type Digest = [u64; 4];

/// What `Rp64_256::apply_round` makes of a canonical state in a given round.
pub uninterp spec fn rescue_round_result(state: Seq<u64>, round: nat) -> Seq<u64>;

/// Round constant `Rp64_256::ARK1[round][i]`, as a canonical integer.
pub uninterp spec fn rescue_ark1(round: nat, i: nat) -> u64;

/// Round constant `Rp64_256::ARK2[round][i]`, as a canonical integer.
pub uninterp spec fn rescue_ark2(round: nat, i: nat) -> u64;

/// Entry `Rp64_256::MDS[i][j]` of the MDS matrix, as a canonical integer.
pub uninterp spec fn rescue_mds(i: nat, j: nat) -> u64;

/// Entry `Rp64_256::INV_MDS[i][j]` of the inverse MDS matrix, as a
/// canonical integer.
pub uninterp spec fn rescue_inv_mds(i: nat, j: nat) -> u64;

/// The state after the rounds `0..k` of the permutation.
pub open spec fn rounds(state: Seq<u64>, k: nat) -> Seq<u64>
    decreases k,
{
    if k == 0 {
        state
    } else {
        rescue_round_result(rounds(state, (k - 1) as nat), (k - 1) as nat)
    }
}

/// The full permutation: rounds `0..NUM_ROUNDS`.
pub open spec fn permutation(state: Seq<u64>) -> Seq<u64> {
    rounds(state, NUM_ROUNDS as nat)
}

/// The digest part of the permuted state: elements `4..8`.
pub open spec fn digest_of(state: Seq<u64>) -> Seq<u64> {
    let p = permutation(state);
    seq![p[4], p[5], p[6], p[7]]
}

/// The state that compresses `a` (left) and `b` (right): zero capacity,
/// then the two digests in the rate.
pub open spec fn merge_state(a: Seq<u64>, b: Seq<u64>) -> Seq<u64> {
    seq![0u64, 0u64, 0u64, 0u64] + a + b
}

/// Two-to-one compression of digests.
pub open spec fn merge_spec(a: Seq<u64>, b: Seq<u64>) -> Seq<u64> {
    digest_of(merge_state(a, b))
}

/// A scalar as a digest: `[x, 0, 0, 0]`.
pub open spec fn as_digest_spec(x: u64) -> Seq<u64> {
    seq![x, 0u64, 0u64, 0u64]
}

/// Wraps `Rp64_256::apply_round`: one round of the permutation on a state
/// of canonical elements. Its result is named `rescue_round_result`; the
/// contract also states that the state stays canonical (the library hands
/// back `as_int`, the canonical representative), and what the round is
/// made of: `new = ARK2 + MDS * inv_sbox(MDS * sbox(old) + ARK1)`, stated
/// from its middle as `sbox(INV_MDS * (new - ARK2)) == MDS * sbox(old) +
/// ARK1` (`round_relation`), over the named entries of `MDS`, `INV_MDS`,
/// `ARK1` and `ARK2`. That form rests on `INV_MDS` being the inverse of
/// `MDS` and the inverse S-box undoing `x^7`, as the library defines them.
#[verifier::external_body]
pub(crate) fn apply_round(state: &mut [u64; 12], round: usize)
    requires
        round < NUM_ROUNDS,
        all_canonical(old(state)@),
    ensures
        final(state)@ == rescue_round_result(old(state)@, round as nat),
        all_canonical(final(state)@),
        crate::constraints::round_relation(old(state)@, final(state)@, round as nat),
{
    let mut s = [Felt::ZERO; 12];
    for i in 0..12 {
        s[i] = Felt::new(state[i]);
    }
    Rp64_256::apply_round(&mut s, round);
    for i in 0..12 {
        state[i] = s[i].as_int();
    }
}

/// The permutation: the rounds `0..NUM_ROUNDS` in order, as
/// `Rp64_256::apply_permutation` runs them.
pub(crate) fn apply_permutation(state: &mut [u64; 12])
    requires
        all_canonical(old(state)@),
    ensures
        final(state)@ == permutation(old(state)@),
        all_canonical(final(state)@),
{
    let ghost s0 = old(state)@;
    let mut round: usize = 0;
    while round < NUM_ROUNDS
        invariant
            round <= NUM_ROUNDS,
            state@ == rounds(s0, round as nat),
            all_canonical(state@),
        decreases NUM_ROUNDS - round,
    {
        apply_round(state, round);
        round = round + 1;
    }
}

/// Reads `Rp64_256::ARK1[round][i]` as a canonical integer.
#[verifier::external_body]
pub(crate) fn ark1(round: usize, i: usize) -> (r: u64)
    requires
        round < NUM_ROUNDS,
        i < STATE_WIDTH,
    ensures
        r == rescue_ark1(round as nat, i as nat),
        r < MODULUS,
{
    Rp64_256::ARK1[round][i].as_int()
}

/// Reads `Rp64_256::ARK2[round][i]` as a canonical integer.
#[verifier::external_body]
pub(crate) fn ark2(round: usize, i: usize) -> (r: u64)
    requires
        round < NUM_ROUNDS,
        i < STATE_WIDTH,
    ensures
        r == rescue_ark2(round as nat, i as nat),
        r < MODULUS,
{
    Rp64_256::ARK2[round][i].as_int()
}

/// A scalar as a digest: `[x, 0, 0, 0]`.
pub fn as_digest(x: u64) -> (d: Digest)
    ensures
        d@ == as_digest_spec(x),
        d == digest_arr(x),
{
    let d = [x, 0, 0, 0];
    assert(d@ =~= as_digest_spec(x));
    d
}

/// Two-to-one compression: zero capacity, `a` then `b` in the rate, the
/// permutation, and the elements `4..8` of the result.
pub fn native_merge(a: &Digest, b: &Digest) -> (r: Digest)
    requires
        all_canonical(a@),
        all_canonical(b@),
    ensures
        r@ == merge_spec(a@, b@),
        all_canonical(r@),
{
    let mut state: [u64; 12] = [0, 0, 0, 0, a[0], a[1], a[2], a[3], b[0], b[1], b[2], b[3]];
    assert(state@ =~= merge_state(a@, b@));
    apply_permutation(&mut state);
    let r = [state[4], state[5], state[6], state[7]];
    assert(r@ =~= digest_of(merge_state(a@, b@)));
    r
}


/// The last row of a cycle shows the digest of its start state in
/// elements 4..8.
pub proof fn lemma_digest_row(s: Seq<u64>)
    ensures
        forall|i: int| 0 <= i < 4 ==> #[trigger] rounds(s, 7)[4 + i] == digest_of(s)[i],
{
    assert(rounds(s, 7) == permutation(s));
}


/// `[x, 0, 0, 0]` as an array.
pub open spec fn digest_arr(x: u64) -> Digest {
    [x, 0, 0, 0]
}

/// The state that compresses `a` and `b`, as an array.
pub open spec fn merge_arr(a: Digest, b: Digest) -> [u64; 12] {
    [0, 0, 0, 0, a[0], a[1], a[2], a[3], b[0], b[1], b[2], b[3]]
}

/// The state that compresses `a` and `b`.
pub fn merge_state_of(a: &Digest, b: &Digest) -> (s: [u64; 12])
    ensures
        s == merge_arr(*a, *b),
        s@ == merge_state(a@, b@),
{
    let s = [0, 0, 0, 0, a[0], a[1], a[2], a[3], b[0], b[1], b[2], b[3]];
    assert(s@ =~= merge_state(a@, b@));
    s
}


/// The array form of a merge state has the merge state as its view.
pub proof fn lemma_merge_arr(a: Digest, b: Digest)
    ensures
        merge_arr(a, b)@ == merge_state(a@, b@),
        digest_arr(0)@ == as_digest_spec(0),
{
    assert(merge_arr(a, b)@ =~= merge_state(a@, b@));
    assert(digest_arr(0)@ =~= as_digest_spec(0));
}

/// The array form of a scalar digest has the scalar digest as its view.
pub proof fn lemma_digest_arr(x: u64)
    ensures
        digest_arr(x)@ == as_digest_spec(x),
{
    assert(digest_arr(x)@ =~= as_digest_spec(x));
}

/// Reads `Rp64_256::MDS[i][j]` as a canonical integer.
#[verifier::external_body]
pub(crate) fn mds(i: usize, j: usize) -> (r: u64)
    requires
        i < STATE_WIDTH,
        j < STATE_WIDTH,
    ensures
        r == rescue_mds(i as nat, j as nat),
        r < MODULUS,
{
    Rp64_256::MDS[i][j].as_int()
}

/// Reads `Rp64_256::INV_MDS[i][j]` as a canonical integer.
#[verifier::external_body]
pub(crate) fn inv_mds(i: usize, j: usize) -> (r: u64)
    requires
        i < STATE_WIDTH,
        j < STATE_WIDTH,
    ensures
        r == rescue_inv_mds(i as nat, j as nat),
        r < MODULUS,
{
    Rp64_256::INV_MDS[i][j].as_int()
}

} // verus!
