//! A hash lane: twelve trace columns that run the Rescue permutation in
//! cycles of eight rows. Row `8c + k` of cycle `c` holds the state after
//! rounds `0..k`; the start state of each cycle after the first is made by
//! a link from the digest of the cycle before it.

use vstd::prelude::*;
use crate::field::all_canonical;
use crate::rescue::{apply_round, digest_of, merge_spec, merge_state, rescue_round_result, rounds, Digest, NUM_ROUNDS};
use crate::constraints::{round_relation, rounds_hold};
use crate::trace::{columns_shape, lane_columns};

verus! {

/// Rows per hash cycle.
pub const CYCLE_LENGTH: usize = 8;

/// How the start state of a cycle is made from the digest `d` of the cycle
/// before it.
pub enum Link {
    /// `d` is compressed with `other`: on the right of it when `right`, on
    /// the left otherwise.
    Place { other: Digest, right: bool },
    /// The cycle starts from a given state, whatever `d` was.
    Fresh { state: [u64; 12] },
}

pub open spec fn link_start(l: Link, d: Seq<u64>) -> Seq<u64> {
    match l {
        Link::Place { other, right } => if right {
            merge_state(other@, d)
        } else {
            merge_state(d, other@)
        },
        Link::Fresh { state } => state@,
    }
}

pub open spec fn link_canonical(l: Link) -> bool {
    match l {
        Link::Place { other, right } => all_canonical(other@),
        Link::Fresh { state } => all_canonical(state@),
    }
}

pub open spec fn links_canonical(links: Seq<Link>) -> bool {
    forall|i: int| 0 <= i < links.len() ==> #[trigger] link_canonical(links[i])
}

/// The start state of cycle `c`.
pub open spec fn cycle_start(s0: Seq<u64>, links: Seq<Link>, c: nat) -> Seq<u64>
    decreases c,
{
    if c == 0 {
        s0
    } else {
        link_start(links[c - 1], digest_of(cycle_start(s0, links, (c - 1) as nat)))
    }
}

/// The digest of cycle `c`.
pub open spec fn cycle_digest(s0: Seq<u64>, links: Seq<Link>, c: nat) -> Seq<u64> {
    digest_of(cycle_start(s0, links, c))
}

/// The lane's state at row `8c + k`.
pub open spec fn lane_state(s0: Seq<u64>, links: Seq<Link>, c: nat, k: nat) -> Seq<u64> {
    rounds(cycle_start(s0, links, c), k)
}

/// `rows` is the lane that starts from `s0` and follows `links`: one cycle
/// more than there are links.
pub open spec fn is_lane(rows: Seq<[u64; 12]>, s0: Seq<u64>, links: Seq<Link>) -> bool {
    &&& rows.len() == CYCLE_LENGTH * (links.len() + 1)
    &&& forall|c: nat, k: nat|
        c <= links.len() && k < CYCLE_LENGTH ==> #[trigger] rows[(CYCLE_LENGTH * c + k) as int]@
            == lane_state(s0, links, c, k)
}

/// Builds the lane: `8 * (links.len() + 1)` states.
pub fn run_lane(s0: &[u64; 12], links: &Vec<Link>) -> (rows: Vec<[u64; 12]>)
    requires
        all_canonical(s0@),
        links_canonical(links@),
        links.len() < 0x1000_0000,
    ensures
        is_lane(rows@, s0@, links@),
        forall|r: int| 0 <= r < rows.len() ==> all_canonical(#[trigger] rows[r]@),
        forall|c: nat| c <= links.len() ==> #[trigger] rounds_hold(cycle_start(s0@, links@, c)),
{
    let mut rows: Vec<[u64; 12]> = Vec::new();
    let mut state: [u64; 12] = *s0;
    let n = links.len();
    let mut c: usize = 0;
    while c <= n
        invariant
            c <= n + 1,
            n == links.len(),
            n < 0x1000_0000,
            links_canonical(links@),
            all_canonical(s0@),
            rows.len() == CYCLE_LENGTH * c,
            c <= n ==> state@ == cycle_start(s0@, links@, c as nat),
            c <= n ==> all_canonical(state@),
            forall|cc: nat, k: nat|
                cc < c && k < CYCLE_LENGTH ==> #[trigger] rows@[(CYCLE_LENGTH * cc + k) as int]@
                    == lane_state(s0@, links@, cc, k),
            forall|r: int| 0 <= r < rows.len() ==> all_canonical(#[trigger] rows@[r]@),
            forall|cc: nat| cc < c ==> #[trigger] rounds_hold(cycle_start(s0@, links@, cc)),
        decreases n + 1 - c,
    {
        let ghost start = state@;
        let mut k: usize = 0;
        while k < CYCLE_LENGTH
            invariant
                k <= CYCLE_LENGTH,
                c <= n,
                n == links.len(),
                n < 0x1000_0000,
                start == cycle_start(s0@, links@, c as nat),
                rows.len() == CYCLE_LENGTH * c + k,
                state@ == rounds(start, if k <= 7 { k as nat } else { 7 }),
                all_canonical(state@),
                forall|cc: nat, kk: nat|
                    cc < c && kk < CYCLE_LENGTH ==> #[trigger] rows@[(CYCLE_LENGTH * cc + kk) as int]@
                        == lane_state(s0@, links@, cc, kk),
                forall|kk: nat|
                    kk < k ==> #[trigger] rows@[(CYCLE_LENGTH * c + kk) as int]@ == lane_state(
                        s0@,
                        links@,
                        c as nat,
                        kk,
                    ),
                forall|r: int| 0 <= r < rows.len() ==> all_canonical(#[trigger] rows@[r]@),
                forall|cc: nat| cc < c ==> #[trigger] rounds_hold(cycle_start(s0@, links@, cc)),
                forall|kk: nat| kk < k && kk < 7 ==> #[trigger] round_relation(rounds(start, kk), rescue_round_result(rounds(start, kk), kk), kk),
            decreases CYCLE_LENGTH - k,
        {
            rows.push(state);
            if k < NUM_ROUNDS {
                apply_round(&mut state, k);
            }
            k = k + 1;
        }
        assert(rounds_hold(start));
        assert forall|cc: nat, kk: nat|
            cc < c + 1 && kk < CYCLE_LENGTH implies #[trigger] rows@[(CYCLE_LENGTH * cc + kk) as int]@
                == lane_state(s0@, links@, cc, kk) by {
            if cc == c {
            }
        }
        if c < n {
            let d: Digest = [state[4], state[5], state[6], state[7]];
            assert(d@ =~= digest_of(start));
            state = match &links[c] {
                Link::Place { other, right } => {
                    if *right {
                        [0, 0, 0, 0, other[0], other[1], other[2], other[3], d[0], d[1], d[2], d[3]]
                    } else {
                        [0, 0, 0, 0, d[0], d[1], d[2], d[3], other[0], other[1], other[2], other[3]]
                    }
                },
                Link::Fresh { state: s } => *s,
            };
            assert(link_canonical(links@[c as int]));
            assert(state@ =~= cycle_start(s0@, links@, (c + 1) as nat));
        }
        c = c + 1;
    }
    rows
}


/// The value of lane column `i` at row `r`: the lane while it runs, zero
/// after its last cycle.
pub open spec fn lane_value(s0: Seq<u64>, links: Seq<Link>, i: int, r: int) -> u64 {
    if r < CYCLE_LENGTH * (links.len() + 1) {
        lane_state(s0, links, (r / 8) as nat, (r % 8) as nat)[i]
    } else {
        0
    }
}

/// Runs a lane and lays it out as twelve columns of `len` rows.
pub fn program_columns(s0: &[u64; 12], links: &Vec<Link>, len: usize) -> (cols: Vec<Vec<u64>>)
    requires
        all_canonical(s0@),
        links_canonical(links@),
        CYCLE_LENGTH * (links.len() + 1) <= len,
        len < 0x1000_0000,
    ensures
        cols.len() == 12,
        columns_shape(cols@, len as nat),
        forall|i: int, r: int| 0 <= i < 12 && 0 <= r < len ==> #[trigger] cols[i][r] == lane_value(s0@, links@, i, r),
        forall|c: nat| c <= links.len() ==> #[trigger] rounds_hold(cycle_start(s0@, links@, c)),
{
    let lane = run_lane(s0, links);
    let cols = lane_columns(&lane, len);
    assert forall|i: int, r: int| 0 <= i < 12 && 0 <= r < len implies #[trigger] cols[i][r] == lane_value(s0@, links@, i, r) by {
        if r < lane.len() {
            let c = r / 8;
            let k = r % 8;
            assert(r == CYCLE_LENGTH * (c as nat) + (k as nat));
            assert(lane@[(CYCLE_LENGTH * (c as nat) + (k as nat)) as int]@ == lane_state(s0@, links@, c as nat, k as nat));
        }
    }
    cols
}

/// After a link that compresses the digest with `x` on its right, the next
/// cycle's digest is that compression.
pub proof fn lemma_append_link(s0: Seq<u64>, links: Seq<Link>, c: nat, x: Digest)
    requires
        c < links.len(),
        links[c as int] == (Link::Place { other: x, right: false }),
    ensures
        cycle_digest(s0, links, c + 1) == merge_spec(cycle_digest(s0, links, c), x@),
{
    assert(cycle_start(s0, links, c + 1) == link_start(links[c as int], digest_of(cycle_start(s0, links, c))));
}

/// After a link to a fresh state, the next cycle's digest is that state's.
pub proof fn lemma_fresh_link(s0: Seq<u64>, links: Seq<Link>, c: nat, state: [u64; 12])
    requires
        c < links.len(),
        links[c as int] == (Link::Fresh { state }),
    ensures
        cycle_start(s0, links, c + 1) == state@,
        cycle_digest(s0, links, c + 1) == digest_of(state@),
{
    assert(cycle_start(s0, links, c + 1) == link_start(links[c as int], digest_of(cycle_start(s0, links, c))));
}

/// The row of the last round of a cycle shows its digest in elements 4..8.
pub proof fn lemma_lane_digest_row(s0: Seq<u64>, links: Seq<Link>, c: nat)
    requires
        c <= links.len(),
    ensures
        forall|i: int| 0 <= i < 4 ==> #[trigger] lane_value(s0, links, 4 + i, (8 * c + 7) as int) == cycle_digest(s0, links, c)[i],
{
    let r = (8 * c + 7) as int;
    assert(r / 8 == c && r % 8 == 7);
    crate::rescue::lemma_digest_row(cycle_start(s0, links, c));
}


/// The row after the last of cycle `c` holds the start of cycle `c + 1`:
/// the link applied to the digest of cycle `c`.
pub proof fn lemma_lane_link_row(s0: Seq<u64>, links: Seq<Link>, c: nat)
    requires
        c < links.len(),
    ensures
        forall|i: int| 0 <= i < 12 ==> #[trigger] lane_value(s0, links, i, (8 * c + 8) as int) == link_start(links[c as int], cycle_digest(s0, links, c))[i],
{
    let r = (8 * c + 8) as int;
    assert(r / 8 == c + 1 && r % 8 == 0);
    assert(rounds(cycle_start(s0, links, c + 1), 0) == cycle_start(s0, links, c + 1));
}

/// The round residuals of a lane vanish on every step of the trace: on a
/// round row the lane goes from one round of its permutation to the next
/// and the periodic values hold that round's constants; elsewhere the
/// round flag is off.
pub proof fn lemma_lane_round_residuals(
    cur: Seq<u64>,
    nxt: Seq<u64>,
    per: Seq<u64>,
    off: int,
    p_flag: int,
    p_ark1: int,
    p_ark2: int,
    s0: Seq<u64>,
    links: Seq<Link>,
    active: int,
    r: int,
)
    requires
        0 <= r,
        active <= CYCLE_LENGTH * (links.len() + 1),
        forall|c: nat| c <= links.len() ==> #[trigger] rounds_hold(cycle_start(s0, links, c)),
        forall|j: int| 0 <= j < 12 ==> #[trigger] cur[off + j] == lane_value(s0, links, j, r),
        forall|j: int| 0 <= j < 12 ==> #[trigger] nxt[off + j] == lane_value(s0, links, j, r + 1),
        per[p_flag] == crate::periodic::hash_flag_spec(active, r),
        forall|j: int| 0 <= j < 12 ==> #[trigger] per[p_ark1 + j] == crate::periodic::ark_spec(false, j, active, r),
        forall|j: int| 0 <= j < 12 ==> #[trigger] per[p_ark2 + j] == crate::periodic::ark_spec(true, j, active, r),
    ensures
        forall|i: int| 0 <= i < 12 ==> #[trigger] crate::constraints::round_residual(cur, nxt, per, off, p_flag, p_ark1, p_ark2, i) == 0,
{
    if r < active && r % 8 < 7 {
        let c = r / 8;
        let k = r % 8;
        assert((r + 1) / 8 == c && (r + 1) % 8 == k + 1);
        assert(c <= links.len());
        let start = cycle_start(s0, links, c as nat);
        assert forall|j: int| 0 <= j < 12 implies #[trigger] cur[off + j] == rounds(start, k as nat)[j] by {
            assert(cur[off + j] == lane_value(s0, links, j, r));
        }
        assert forall|j: int| 0 <= j < 12 implies #[trigger] nxt[off + j] == rescue_round_result(rounds(start, k as nat), k as nat)[j] by {
            assert(nxt[off + j] == lane_value(s0, links, j, r + 1));
        }
        assert forall|j: int| 0 <= j < 12 implies #[trigger] per[p_ark1 + j] == crate::rescue::rescue_ark1(k as nat, j as nat) by {
            assert(per[p_ark1 + j] == crate::periodic::ark_spec(false, j, active, r));
        }
        assert forall|j: int| 0 <= j < 12 implies #[trigger] per[p_ark2 + j] == crate::rescue::rescue_ark2(k as nat, j as nat) by {
            assert(per[p_ark2 + j] == crate::periodic::ark_spec(true, j, active, r));
        }
        crate::constraints::lemma_round_residuals_vanish(cur, nxt, per, off, p_flag, p_ark1, p_ark2, start, k as nat);
    } else {
        crate::constraints::lemma_round_residuals_idle(cur, nxt, per, off, p_flag, p_ark1, p_ark2);
    }
}


/// The round residuals of a lane given row by row as rounds of a
/// permutation vanish on every step: on a round row the lane holds round
/// `r % 8` of the permutation from `start` and the next row round
/// `r % 8 + 1`, with that round's constants in the periodic values;
/// elsewhere the round flag is off.
pub proof fn lemma_rounds_round_residuals(
    cur: Seq<u64>,
    nxt: Seq<u64>,
    per: Seq<u64>,
    off: int,
    p_flag: int,
    p_ark1: int,
    p_ark2: int,
    start: Seq<u64>,
    active: int,
    r: int,
)
    requires
        0 <= r,
        per[p_flag] == crate::periodic::hash_flag_spec(active, r),
        forall|j: int| 0 <= j < 12 ==> #[trigger] per[p_ark1 + j] == crate::periodic::ark_spec(false, j, active, r),
        forall|j: int| 0 <= j < 12 ==> #[trigger] per[p_ark2 + j] == crate::periodic::ark_spec(true, j, active, r),
        r < active && r % 8 < 7 ==> {
            &&& rounds_hold(start)
            &&& forall|j: int| 0 <= j < 12 ==> #[trigger] cur[off + j] == rounds(start, (r % 8) as nat)[j]
            &&& forall|j: int| 0 <= j < 12 ==> #[trigger] nxt[off + j] == rounds(start, (r % 8 + 1) as nat)[j]
        },
    ensures
        forall|i: int| 0 <= i < 12 ==> #[trigger] crate::constraints::round_residual(cur, nxt, per, off, p_flag, p_ark1, p_ark2, i) == 0,
{
    if r < active && r % 8 < 7 {
        let k = r % 8;
        assert forall|j: int| 0 <= j < 12 implies #[trigger] nxt[off + j] == rescue_round_result(rounds(start, k as nat), k as nat)[j] by {
            assert(nxt[off + j] == rounds(start, (k + 1) as nat)[j]);
        }
        assert forall|j: int| 0 <= j < 12 implies #[trigger] per[p_ark1 + j] == crate::rescue::rescue_ark1(k as nat, j as nat) by {
            assert(per[p_ark1 + j] == crate::periodic::ark_spec(false, j, active, r));
        }
        assert forall|j: int| 0 <= j < 12 implies #[trigger] per[p_ark2 + j] == crate::rescue::rescue_ark2(k as nat, j as nat) by {
            assert(per[p_ark2 + j] == crate::periodic::ark_spec(true, j, active, r));
        }
        crate::constraints::lemma_round_residuals_vanish(cur, nxt, per, off, p_flag, p_ark1, p_ark2, start, k as nat);
    } else {
        crate::constraints::lemma_round_residuals_idle(cur, nxt, per, off, p_flag, p_ark1, p_ark2);
    }
}

} // verus!
