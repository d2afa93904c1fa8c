//! Builders for the periodic columns of the circuits: each column is one
//! period of values, a plain sequence of field elements.

use vstd::prelude::*;
use crate::rescue::{ark1, ark2, rescue_ark1, rescue_ark2, NUM_ROUNDS};
use crate::field::{all_canonical, fadd, reduce, MODULUS};
use vstd::arithmetic::power2::pow2;

verus! {

/// 1 on the round rows (position 0..7 of each cycle) of the first
/// `active` rows, 0 elsewhere.
pub open spec fn hash_flag_spec(active: int, r: int) -> u64 {
    if r < active && r % 8 < 7 {
        1
    } else {
        0
    }
}

/// Round constants aligned with the rounds of the first `active` rows.
pub open spec fn ark_spec(second: bool, i: int, active: int, r: int) -> u64 {
    if r < active && r % 8 < 7 {
        if second {
            rescue_ark2((r % 8) as nat, i as nat)
        } else {
            rescue_ark1((r % 8) as nat, i as nat)
        }
    } else {
        0
    }
}

/// 1 on the listed rows, 0 elsewhere.
pub open spec fn selector_spec(rows: Seq<usize>, r: int) -> u64 {
    if exists|j: int| 0 <= j < rows.len() && rows[j] == r {
        1
    } else {
        0
    }
}

/// 1 inside the first `segments` segments of `len` rows except on their
/// last row: the rows where the Horner accumulator continues.
pub open spec fn continue_spec(segments: int, len: int, r: int) -> u64 {
    if r < segments * len && r % len != len - 1 {
        1
    } else {
        0
    }
}

pub fn hash_flag_column(active: usize, len: usize) -> (col: Vec<u64>)
    ensures
        col.len() == len,
        forall|r: int| 0 <= r < len ==> #[trigger] col[r] == hash_flag_spec(active as int, r),
{
    let mut col: Vec<u64> = Vec::new();
    let mut r: usize = 0;
    while r < len
        invariant
            r <= len,
            col.len() == r,
            forall|rr: int| 0 <= rr < r ==> #[trigger] col[rr] == hash_flag_spec(active as int, rr),
        decreases len - r,
    {
        col.push(if r < active && r % 8 < 7 { 1 } else { 0 });
        r = r + 1;
    }
    col
}

pub fn ark_column(second: bool, i: usize, active: usize, len: usize) -> (col: Vec<u64>)
    requires
        i < 12,
    ensures
        col.len() == len,
        forall|r: int| 0 <= r < len ==> #[trigger] col[r] == ark_spec(second, i as int, active as int, r),
        all_canonical(col@),
{
    let mut col: Vec<u64> = Vec::new();
    let mut r: usize = 0;
    while r < len
        invariant
            r <= len,
            i < 12,
            col.len() == r,
            forall|rr: int| 0 <= rr < r ==> #[trigger] col[rr] == ark_spec(second, i as int, active as int, rr),
            all_canonical(col@),
        decreases len - r,
    {
        let v = if r < active && r % 8 < 7 {
            if second {
                ark2(r % 8, i)
            } else {
                ark1(r % 8, i)
            }
        } else {
            0
        };
        col.push(v);
        r = r + 1;
    }
    col
}

/// The hash flag, then the twelve ARK1 and the twelve ARK2 columns.
pub fn round_columns(active: usize, len: usize) -> (cols: Vec<Vec<u64>>)
    ensures
        cols.len() == 25,
        forall|j: int| 0 <= j < 25 ==> (#[trigger] cols[j]).len() == len,
        forall|r: int| 0 <= r < len ==> #[trigger] cols[0][r] == hash_flag_spec(active as int, r),
        forall|j: int, r: int|
            1 <= j < 13 && 0 <= r < len ==> #[trigger] cols[j][r] == ark_spec(false, j - 1, active as int, r),
        forall|j: int, r: int|
            13 <= j < 25 && 0 <= r < len ==> #[trigger] cols[j][r] == ark_spec(true, j - 13, active as int, r),
        forall|j: int| 0 <= j < 25 ==> all_canonical(#[trigger] cols[j]@),
{
    let mut cols: Vec<Vec<u64>> = Vec::new();
    let flag = hash_flag_column(active, len);
    assert(all_canonical(flag@)) by {
        assert forall|r: int| 0 <= r < flag@.len() implies flag@[r] < MODULUS by {
            assert(flag[r] == hash_flag_spec(active as int, r));
        }
    }
    cols.push(flag);
    let mut i: usize = 0;
    while i < 12
        invariant
            i <= 12,
            cols.len() == 1 + i,
            forall|j: int| 0 <= j < cols.len() ==> (#[trigger] cols[j]).len() == len,
            forall|r: int| 0 <= r < len ==> #[trigger] cols[0][r] == hash_flag_spec(active as int, r),
            forall|j: int, r: int|
                1 <= j < 1 + i && 0 <= r < len ==> #[trigger] cols[j][r] == ark_spec(false, j - 1, active as int, r),
            forall|j: int| 0 <= j < cols.len() ==> all_canonical(#[trigger] cols[j]@),
        decreases 12 - i,
    {
        cols.push(ark_column(false, i, active, len));
        i = i + 1;
    }
    let mut i: usize = 0;
    while i < 12
        invariant
            i <= 12,
            cols.len() == 13 + i,
            forall|j: int| 0 <= j < cols.len() ==> (#[trigger] cols[j]).len() == len,
            forall|r: int| 0 <= r < len ==> #[trigger] cols[0][r] == hash_flag_spec(active as int, r),
            forall|j: int, r: int|
                1 <= j < 13 && 0 <= r < len ==> #[trigger] cols[j][r] == ark_spec(false, j - 1, active as int, r),
            forall|j: int, r: int|
                13 <= j < 13 + i && 0 <= r < len ==> #[trigger] cols[j][r] == ark_spec(true, j - 13, active as int, r),
            forall|j: int| 0 <= j < cols.len() ==> all_canonical(#[trigger] cols[j]@),
        decreases 12 - i,
    {
        cols.push(ark_column(true, i, active, len));
        i = i + 1;
    }
    cols
}

/// 1 on the listed rows, 0 elsewhere.
pub fn selector_column(rows: &Vec<usize>, len: usize) -> (col: Vec<u64>)
    ensures
        col.len() == len,
        forall|r: int| 0 <= r < len ==> #[trigger] col[r] == selector_spec(rows@, r),
{
    let mut col: Vec<u64> = Vec::new();
    let mut r: usize = 0;
    while r < len
        invariant
            r <= len,
            col.len() == r,
            forall|rr: int| 0 <= rr < r ==> #[trigger] col[rr] == selector_spec(rows@, rr),
        decreases len - r,
    {
        let mut found = false;
        let mut j: usize = 0;
        while j < rows.len()
            invariant
                j <= rows.len(),
                found <==> exists|jj: int| 0 <= jj < j && rows@[jj] == r,
            decreases rows.len() - j,
        {
            if rows[j] == r {
                found = true;
            }
            j = j + 1;
        }
        col.push(if found { 1 } else { 0 });
        r = r + 1;
    }
    col
}

/// The Horner continuation selector of `segments` segments of `seg_len` rows.
pub fn continue_column(segments: usize, seg_len: usize, len: usize) -> (col: Vec<u64>)
    requires
        seg_len > 0,
        segments * seg_len < 0x1_0000_0000,
    ensures
        col.len() == len,
        forall|r: int| 0 <= r < len ==> #[trigger] col[r] == continue_spec(segments as int, seg_len as int, r),
{
    let mut col: Vec<u64> = Vec::new();
    let mut r: usize = 0;
    let end: usize = segments * seg_len;
    while r < len
        invariant
            r <= len,
            seg_len > 0,
            end == segments * seg_len,
            col.len() == r,
            forall|rr: int| 0 <= rr < r ==> #[trigger] col[rr] == continue_spec(segments as int, seg_len as int, rr),
        decreases len - r,
    {
        col.push(if r < end && r % seg_len != seg_len - 1 { 1 } else { 0 });
        r = r + 1;
    }
    col
}


/// The value the last listed point on row `r` gives, 0 if none does.
pub open spec fn point_spec(points: Seq<(usize, u64)>, r: int) -> u64
    decreases points.len(),
{
    if points.len() == 0 {
        0
    } else if points.last().0 == r {
        points.last().1
    } else {
        point_spec(points.drop_last(), r)
    }
}

/// A column holding given values on given rows, 0 elsewhere.
pub fn point_column(points: &Vec<(usize, u64)>, len: usize) -> (col: Vec<u64>)
    ensures
        col.len() == len,
        forall|r: int| 0 <= r < len ==> #[trigger] col[r] == point_spec(points@, r),
{
    let mut col: Vec<u64> = Vec::new();
    let mut r: usize = 0;
    while r < len
        invariant
            r <= len,
            col.len() == r,
            forall|rr: int| 0 <= rr < r ==> #[trigger] col[rr] == point_spec(points@, rr),
        decreases len - r,
    {
        let mut v: u64 = 0;
        let mut j: usize = 0;
        while j < points.len()
            invariant
                j <= points.len(),
                v == point_spec(points@.subrange(0, j as int), r as int),
            decreases points.len() - j,
        {
            assert(points@.subrange(0, j + 1).drop_last() =~= points@.subrange(0, j as int));
            if points[j].0 == r {
                v = points[j].1;
            }
            j = j + 1;
        }
        assert(points@.subrange(0, points.len() as int) =~= points@);
        col.push(v);
        r = r + 1;
    }
    col
}

/// The integer whose binary digits, least significant first, are the
/// first `n` bits.
pub open spec fn bits_value(bits: Seq<bool>, n: nat) -> int
    decreases n,
{
    if n == 0 {
        0
    } else {
        bits_value(bits, (n - 1) as nat) + if bits[n - 1] {
            pow2((n - 1) as nat) as int
        } else {
            0
        }
    }
}

/// The levels accumulated by row `r`: one per cycle completed before it,
/// at most `depth`.
pub open spec fn levels_done(r: int, depth: int) -> int {
    if r / 8 < depth {
        r / 8
    } else {
        depth
    }
}

/// A column that rebuilds an index from the direction bits of a climb: at
/// row `r`, the value of the bits of the levels whose link row precedes it.
pub fn index_acc_column(bits: &Vec<bool>, depth: usize, len: usize) -> (col: Vec<u64>)
    requires
        depth <= bits.len(),
        depth <= 63,
    ensures
        col.len() == len,
        forall|r: int| 0 <= r < len ==> #[trigger] col[r] == reduce(bits_value(bits@, levels_done(r, depth as int) as nat)),
        forall|r: int| 0 <= r < len ==> #[trigger] col[r] < MODULUS,
{
    let mut prefix: Vec<u64> = vec![0];
    let mut acc: u64 = 0;
    let mut p2: u64 = 1;
    let mut l: usize = 0;
    proof {
        vstd::arithmetic::power2::lemma2_to64();
    }
    while l < depth
        invariant
            l <= depth,
            depth <= bits.len(),
            depth <= 63,
            p2 as int == pow2(l as nat),
            acc == reduce(bits_value(bits@, l as nat)),
            acc < MODULUS,
            prefix.len() == l + 1,
            forall|n: int| 0 <= n <= l ==> #[trigger] prefix[n] == reduce(bits_value(bits@, n as nat)),
            forall|n: int| 0 <= n <= l ==> #[trigger] prefix[n] < MODULUS,
        decreases depth - l,
    {
        proof {
            vstd::arithmetic::power2::lemma_pow2_strictly_increases(l as nat, 63);
            vstd::arithmetic::power2::lemma2_to64_rest();
        }
        if bits[l] {
            let term = p2 % MODULUS;
            proof {
                let bv = bits_value(bits@, l as nat);
                vstd::arithmetic::div_mod::lemma_add_mod_noop(bv, p2 as int, 0xFFFF_FFFF_0000_0001int);
                vstd::arithmetic::div_mod::lemma_mod_twice(bv, 0xFFFF_FFFF_0000_0001int);
                vstd::arithmetic::div_mod::lemma_mod_twice(p2 as int, 0xFFFF_FFFF_0000_0001int);
                vstd::arithmetic::div_mod::lemma_add_mod_noop(
                    bv % 0xFFFF_FFFF_0000_0001int,
                    p2 as int % 0xFFFF_FFFF_0000_0001int,
                    0xFFFF_FFFF_0000_0001int,
                );
            }
            acc = fadd(acc, term);
        }
        prefix.push(acc);
        proof {
            vstd::arithmetic::power2::lemma_pow2_adds(l as nat, 1);
            vstd::arithmetic::power2::lemma_pow2_strictly_increases((l + 1) as nat, 64);
            vstd::arithmetic::power2::lemma2_to64();
            vstd::arithmetic::power2::lemma2_to64_rest();
        }
        p2 = p2 * 2;
        l = l + 1;
    }
    let mut col: Vec<u64> = Vec::new();
    let mut r: usize = 0;
    while r < len
        invariant
            r <= len,
            depth <= 63,
            prefix.len() == depth + 1,
            forall|n: int| 0 <= n <= depth ==> #[trigger] prefix[n] == reduce(bits_value(bits@, n as nat)),
            forall|n: int| 0 <= n <= depth ==> #[trigger] prefix[n] < MODULUS,
            col.len() == r,
            forall|rr: int| 0 <= rr < r ==> #[trigger] col[rr] == reduce(bits_value(bits@, levels_done(rr, depth as int) as nat)),
            forall|rr: int| 0 <= rr < r ==> #[trigger] col[rr] < MODULUS,
        decreases len - r,
    {
        let done: usize = if r / 8 < depth { r / 8 } else { depth };
        col.push(prefix[done]);
        r = r + 1;
    }
    col
}


/// The last rows of the `n` cycles that start at cycle `first`: the rows
/// where a climb links one level to the next.
pub open spec fn cycle_end_rows(first: int, n: nat) -> Seq<usize> {
    Seq::new(n, |l: int| (8 * (first + l) + 7) as usize)
}

/// Appends the last rows of the `n` cycles that start at cycle `first`.
pub fn push_cycle_end_rows(rows: &mut Vec<usize>, first: usize, n: usize)
    requires
        8 * (first + n) + 7 < 0x1_0000_0000,
    ensures
        final(rows)@ == old(rows)@ + cycle_end_rows(first as int, n as nat),
{
    let ghost start = rows@;
    let mut l: usize = 0;
    while l < n
        invariant
            l <= n,
            8 * (first + n) + 7 < 0x1_0000_0000,
            rows@ =~= start + cycle_end_rows(first as int, l as nat),
        decreases n - l,
    {
        rows.push(8 * (first + l) + 7);
        l = l + 1;
    }
}


/// Appends a column that selects one row.
pub fn push_row_selector(cols: &mut Vec<Vec<u64>>, row: usize, len: usize)
    ensures
        final(cols)@.len() == old(cols)@.len() + 1,
        forall|j: int| 0 <= j < old(cols)@.len() ==> final(cols)@[j] == old(cols)@[j],
        final(cols)@.last().len() == len,
        forall|r: int| 0 <= r < len ==> #[trigger] final(cols)@.last()[r] == selector_spec(seq![row], r),
{
    let rows = vec![row];
    assert(rows@ =~= seq![row]);
    cols.push(selector_column(&rows, len));
}


/// The levels accumulated by row `r` of a climb whose first link is in
/// cycle `first`: none before that cycle.
pub open spec fn levels_done_from(r: int, first: int, depth: int) -> int {
    if r < 8 * first {
        0
    } else {
        levels_done(r - 8 * first, depth)
    }
}

/// An index accumulator for a climb whose first link is in cycle `first`.
pub fn index_acc_column_from(bits: &Vec<bool>, first: usize, depth: usize, len: usize) -> (col: Vec<u64>)
    requires
        depth <= bits.len(),
        depth <= 63,
        8 * first <= len,
    ensures
        col.len() == len,
        forall|r: int|
            0 <= r < len ==> #[trigger] col[r] == reduce(bits_value(bits@, levels_done_from(r, first as int, depth as int) as nat)),
        forall|r: int| 0 <= r < len ==> #[trigger] col[r] < MODULUS,
{
    let base = index_acc_column(bits, depth, len);
    let start: usize = 8 * first;
    let mut col: Vec<u64> = Vec::new();
    let mut r: usize = 0;
    while r < len
        invariant
            r <= len,
            start == 8 * first,
            start <= len,
            base.len() == len,
            forall|q: int| 0 <= q < len ==> #[trigger] base[q] == reduce(bits_value(bits@, levels_done(q, depth as int) as nat)),
            forall|q: int| 0 <= q < len ==> #[trigger] base[q] < MODULUS,
            col.len() == r,
            forall|q: int|
                0 <= q < r ==> #[trigger] col[q] == reduce(bits_value(bits@, levels_done_from(q, first as int, depth as int) as nat)),
            forall|q: int| 0 <= q < r ==> #[trigger] col[q] < MODULUS,
        decreases len - r,
    {
        if r < start {
            proof {
                assert(reduce(bits_value(bits@, 0)) == 0);
            }
            col.push(0);
        } else {
            col.push(base[r - start]);
        }
        r = r + 1;
    }
    col
}

} // verus!
