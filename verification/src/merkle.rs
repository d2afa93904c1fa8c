//! Merkle paths over `native_merge`, and the climb from a leaf to a root.

use vstd::prelude::*;
use crate::field::all_canonical;
use crate::constraints::rounds_hold;
use crate::lane::{cycle_digest, cycle_start, link_start, links_canonical, link_canonical, run_lane, Link, CYCLE_LENGTH};
use crate::rescue::{digest_of, merge_spec, merge_state, native_merge, rounds, Digest};

verus! {

/// Depth of the account, nullifier and pending trees.
pub const TREE_DEPTH: usize = 32;

/// An authentication path: one sibling per level, bottom up, and whether
/// the node climbed so far sits on the right of that sibling.
#[derive(Clone, Debug)]
pub struct MerklePath {
    pub siblings: Vec<Digest>,
    pub is_right: Vec<bool>,
}

/// The siblings of a path, as sequences.
pub open spec fn sibling_seqs(siblings: Seq<Digest>) -> Seq<Seq<u64>> {
    siblings.map_values(|d: Digest| d@)
}

/// All siblings canonical.
pub open spec fn siblings_canonical(siblings: Seq<Digest>) -> bool {
    forall|i: int| 0 <= i < siblings.len() ==> all_canonical(#[trigger] siblings[i]@)
}

/// The state that merges the node `d` with its sibling `sib`.
pub open spec fn place_state(d: Seq<u64>, sib: Seq<u64>, right: bool) -> Seq<u64> {
    if right {
        merge_state(sib, d)
    } else {
        merge_state(d, sib)
    }
}

/// One level of a climb.
pub open spec fn climb_step(d: Seq<u64>, sib: Seq<u64>, right: bool) -> Seq<u64> {
    digest_of(place_state(d, sib, right))
}

/// The node reached from `leaf` after the first `n` levels of the path.
pub open spec fn climb_spec(leaf: Seq<u64>, siblings: Seq<Seq<u64>>, bits: Seq<bool>, n: nat) -> Seq<u64>
    decreases n,
{
    if n == 0 {
        leaf
    } else {
        climb_step(
            climb_spec(leaf, siblings, bits, (n - 1) as nat),
            siblings[n - 1],
            bits[n - 1],
        )
    }
}

/// Climbs `depth` levels from `leaf` along the path.
pub fn climb_levels(leaf: &Digest, siblings: &Vec<Digest>, is_right: &Vec<bool>, depth: usize) -> (r: Digest)
    requires
        all_canonical(leaf@),
        siblings_canonical(siblings@),
        depth <= siblings.len(),
        depth <= is_right.len(),
    ensures
        r@ == climb_spec(leaf@, sibling_seqs(siblings@), is_right@, depth as nat),
        all_canonical(r@),
{
    let mut current: Digest = *leaf;
    let mut level: usize = 0;
    while level < depth
        invariant
            level <= depth,
            depth <= siblings.len(),
            depth <= is_right.len(),
            siblings_canonical(siblings@),
            all_canonical(current@),
            current@ == climb_spec(leaf@, sibling_seqs(siblings@), is_right@, level as nat),
        decreases depth - level,
    {
        assert(all_canonical(siblings@[level as int]@));
        current = if is_right[level] {
            native_merge(&siblings[level], &current)
        } else {
            native_merge(&current, &siblings[level])
        };
        level = level + 1;
    }
    current
}

/// Links `c0 .. c0 + n` of a lane climb the path: the digest of cycle
/// `c0` goes up one level per link.
pub open spec fn links_climb(links: Seq<Link>, c0: nat, siblings: Seq<Seq<u64>>, bits: Seq<bool>, n: nat) -> bool {
    forall|i: nat, d: Seq<u64>|
        i < n ==> #[trigger] link_start(links[(c0 + i) as int], d) == place_state(d, siblings[i as int], bits[i as int])
}

/// When the links after cycle `c0` climb a path, the cycles that follow
/// start by placing the node climbed so far next to its sibling, and their
/// digests are the nodes of the climb.
pub proof fn lemma_lane_climb(
    s0: Seq<u64>,
    links: Seq<Link>,
    c0: nat,
    siblings: Seq<Seq<u64>>,
    bits: Seq<bool>,
    n: nat,
    i: nat,
)
    requires
        links_climb(links, c0, siblings, bits, n),
        i < n,
    ensures
        cycle_start(s0, links, c0 + i + 1) == place_state(
            climb_spec(cycle_digest(s0, links, c0), siblings, bits, i),
            siblings[i as int],
            bits[i as int],
        ),
        cycle_digest(s0, links, c0 + i + 1) == climb_spec(cycle_digest(s0, links, c0), siblings, bits, i + 1),
    decreases i,
{
    if i > 0 {
        lemma_lane_climb(s0, links, c0, siblings, bits, n, (i - 1) as nat);
    }
    assert(link_start(links[(c0 + i) as int], cycle_digest(s0, links, (c0 + i) as nat)) == place_state(
        cycle_digest(s0, links, (c0 + i) as nat),
        siblings[i as int],
        bits[i as int],
    ));
    assert(cycle_start(s0, links, c0 + i + 1) == link_start(
        links[(c0 + i) as int],
        digest_of(cycle_start(s0, links, (c0 + i) as nat)),
    ));
    let leaf = cycle_digest(s0, links, c0);
    assert(climb_spec(leaf, siblings, bits, i + 1) == climb_step(
        climb_spec(leaf, siblings, bits, i),
        siblings[i as int],
        bits[i as int],
    ));
}


/// The start state of cycle `c` of a lane that hashes `s0` and then climbs
/// the path: cycle `c > 0` places the node reached after `c - 1` levels
/// next to its sibling.
pub open spec fn climb_lane_start(s0: Seq<u64>, siblings: Seq<Seq<u64>>, bits: Seq<bool>, c: int) -> Seq<u64> {
    if c == 0 {
        s0
    } else {
        place_state(climb_spec(digest_of(s0), siblings, bits, (c - 1) as nat), siblings[c - 1], bits[c - 1])
    }
}

/// A lane that hashes `s0` in its first cycle and then climbs `depth`
/// levels of the path, one cycle per level.
pub fn climb_lane(s0: &[u64; 12], siblings: &Vec<Digest>, is_right: &Vec<bool>, depth: usize) -> (lane: Vec<[u64; 12]>)
    requires
        all_canonical(s0@),
        siblings_canonical(siblings@),
        depth <= siblings.len(),
        depth <= is_right.len(),
        depth < 0x1000,
    ensures
        lane.len() == CYCLE_LENGTH * (depth + 1),
        forall|r: int| 0 <= r < lane.len() ==> all_canonical(#[trigger] lane[r]@),
        forall|c: nat, k: nat|
            c <= depth && k < CYCLE_LENGTH ==> #[trigger] lane[(CYCLE_LENGTH * c + k) as int]@ == rounds(
                climb_lane_start(s0@, sibling_seqs(siblings@), is_right@, c as int),
                k,
            ),
        forall|c: nat| c <= depth ==> #[trigger] rounds_hold(climb_lane_start(s0@, sibling_seqs(siblings@), is_right@, c as int)),
{
    let mut links: Vec<Link> = Vec::new();
    let mut level: usize = 0;
    while level < depth
        invariant
            level <= depth,
            depth <= siblings.len(),
            depth <= is_right.len(),
            siblings_canonical(siblings@),
            links.len() == level,
            links_canonical(links@),
            links_climb(links@, 0, sibling_seqs(siblings@), is_right@, level as nat),
        decreases depth - level,
    {
        let ghost before = links@;
        links.push(Link::Place { other: siblings[level], right: is_right[level] });
        assert(all_canonical(siblings@[level as int]@));
        assert forall|i: nat, d: Seq<u64>|
            i < level + 1 implies #[trigger] link_start(links@[(0 + i) as int], d) == place_state(
            d,
            sibling_seqs(siblings@)[i as int],
            is_right@[i as int],
        ) by {
            if i < level {
                assert(links@[i as int] == before[i as int]);
            }
        }
        assert forall|i: int| 0 <= i < links@.len() implies #[trigger] link_canonical(links@[i]) by {
            if i < level {
                assert(links@[i] == before[i]);
            }
        }
        level = level + 1;
    }
    let lane = run_lane(s0, &links);
    proof {
        assert forall|c: nat, k: nat|
            c <= depth && k < CYCLE_LENGTH implies #[trigger] lane@[(CYCLE_LENGTH * c + k) as int]@ == rounds(
            climb_lane_start(s0@, sibling_seqs(siblings@), is_right@, c as int),
            k,
        ) by {
            if c > 0 {
                lemma_lane_climb(s0@, links@, 0, sibling_seqs(siblings@), is_right@, depth as nat, (c - 1) as nat);
            }
        }
        assert forall|c: nat| c <= depth implies #[trigger] rounds_hold(climb_lane_start(s0@, sibling_seqs(siblings@), is_right@, c as int)) by {
            assert(lane@[(CYCLE_LENGTH * c + 0) as int]@ == rounds(climb_lane_start(s0@, sibling_seqs(siblings@), is_right@, c as int), 0));
            assert(lane@[(CYCLE_LENGTH * c + 0) as int]@ == crate::lane::lane_state(s0@, links@, c, 0));
            assert(rounds_hold(cycle_start(s0@, links@, c)));
        }
    }
    lane
}


/// The links that climb the levels `lo .. lo + n` of a path.
pub open spec fn climb_links(siblings: Seq<Digest>, bits: Seq<bool>, lo: int, n: nat) -> Seq<Link> {
    Seq::new(n, |i: int| Link::Place { other: siblings[lo + i], right: bits[lo + i] })
}

/// When the digest of cycle `c0` is the node `m` levels up a climb, and the
/// next `n` links climb levels `m .. m + n`, the digest of cycle `c0 + n`
/// is the node `m + n` levels up.
pub proof fn lemma_links_climb(
    s0: Seq<u64>,
    links: Seq<Link>,
    c0: nat,
    leaf: Seq<u64>,
    siblings: Seq<Digest>,
    bits: Seq<bool>,
    m: nat,
    n: nat,
)
    requires
        c0 + n <= links.len(),
        links.subrange(c0 as int, (c0 + n) as int) == climb_links(siblings, bits, m as int, n),
        cycle_digest(s0, links, c0) == climb_spec(leaf, sibling_seqs(siblings), bits, m),
        m + n <= siblings.len(),
    ensures
        cycle_digest(s0, links, c0 + n) == climb_spec(leaf, sibling_seqs(siblings), bits, m + n),
    decreases n,
{
    if n > 0 {
        let k = (n - 1) as nat;
        assert(links.subrange(c0 as int, (c0 + k) as int) =~= climb_links(siblings, bits, m as int, k)) by {
            assert forall|i: int| 0 <= i < k implies links.subrange(c0 as int, (c0 + k) as int)[i] == climb_links(siblings, bits, m as int, k)[i] by {
                assert(links.subrange(c0 as int, (c0 + n) as int)[i] == climb_links(siblings, bits, m as int, n)[i]);
            }
        }
        lemma_links_climb(s0, links, c0, leaf, siblings, bits, m, k);
        assert(links[(c0 + k) as int] == links.subrange(c0 as int, (c0 + n) as int)[k as int]);
        let c = (c0 + k) as nat;
        assert(cycle_start(s0, links, c + 1) == link_start(links[c as int], digest_of(cycle_start(s0, links, c))));
        assert(sibling_seqs(siblings)[(m + k) as int] == siblings[(m + k) as int]@);
        assert(climb_spec(leaf, sibling_seqs(siblings), bits, m + n) == climb_step(
            climb_spec(leaf, sibling_seqs(siblings), bits, m + k),
            sibling_seqs(siblings)[(m + k) as int],
            bits[(m + k) as int],
        ));
    }
}

/// Appends the links that climb levels `lo .. hi` of a path.
pub fn push_climb_links(links: &mut Vec<Link>, siblings: &Vec<Digest>, is_right: &Vec<bool>, lo: usize, hi: usize)
    requires
        lo <= hi,
        hi <= siblings.len(),
        hi <= is_right.len(),
        siblings_canonical(siblings@),
        links_canonical(old(links)@),
    ensures
        final(links)@ == old(links)@ + climb_links(siblings@, is_right@, lo as int, (hi - lo) as nat),
        links_canonical(final(links)@),
{
    let ghost start = links@;
    let mut level: usize = lo;
    while level < hi
        invariant
            lo <= level <= hi,
            hi <= siblings.len(),
            hi <= is_right.len(),
            siblings_canonical(siblings@),
            links@ =~= start + climb_links(siblings@, is_right@, lo as int, (level - lo) as nat),
            links_canonical(links@),
        decreases hi - level,
    {
        let ghost before = links@;
        links.push(Link::Place { other: siblings[level], right: is_right[level] });
        assert(all_canonical(siblings@[level as int]@));
        assert forall|i: int| 0 <= i < links@.len() implies #[trigger] link_canonical(links@[i]) by {
            if i < before.len() {
                assert(links@[i] == before[i]);
            }
        }
        level = level + 1;
    }
}

} // verus!
