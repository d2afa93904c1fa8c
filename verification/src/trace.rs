//! Column builders for execution traces. A trace is held column by column:
//! `columns[c][r]` is the value of column `c` at row `r`.

use vstd::prelude::*;
use crate::field::{all_canonical, MODULUS};
use crate::lane::CYCLE_LENGTH;

verus! {

/// Row `r` of a trace held column by column.
pub open spec fn row_of(cols: Seq<Vec<u64>>, r: int) -> Seq<u64> {
    Seq::new(cols.len(), |c: int| cols[c][r])
}

/// Every column has `len` rows and only canonical values.
pub open spec fn columns_shape(cols: Seq<Vec<u64>>, len: nat) -> bool {
    forall|c: int| 0 <= c < cols.len() ==> (#[trigger] cols[c]).len() == len && all_canonical(cols[c]@)
}

/// The twelve columns of a lane of `lane.len()` rows, then zero down to
/// row `len`.
pub fn lane_columns(lane: &Vec<[u64; 12]>, len: usize) -> (cols: Vec<Vec<u64>>)
    requires
        lane.len() <= len,
        forall|r: int| 0 <= r < lane.len() ==> all_canonical(#[trigger] lane[r]@),
    ensures
        cols.len() == 12,
        columns_shape(cols@, len as nat),
        forall|i: int, r: int| 0 <= i < 12 && 0 <= r < lane.len() ==> #[trigger] cols[i][r] == lane[r][i],
        forall|i: int, r: int| 0 <= i < 12 && lane.len() <= r < len ==> #[trigger] cols[i][r] == 0,
{
    let mut cols: Vec<Vec<u64>> = Vec::new();
    let mut i: usize = 0;
    while i < 12
        invariant
            i <= 12,
            cols.len() == i,
            lane.len() <= len,
            forall|r: int| 0 <= r < lane.len() ==> all_canonical(#[trigger] lane[r]@),
            columns_shape(cols@, len as nat),
            forall|ii: int, r: int| 0 <= ii < i && 0 <= r < lane.len() ==> #[trigger] cols[ii][r] == lane[r][ii],
            forall|ii: int, r: int| 0 <= ii < i && lane.len() <= r < len ==> #[trigger] cols[ii][r] == 0,
        decreases 12 - i,
    {
        let mut col: Vec<u64> = Vec::new();
        let mut r: usize = 0;
        while r < len
            invariant
                r <= len,
                i < 12,
                lane.len() <= len,
                forall|rr: int| 0 <= rr < lane.len() ==> all_canonical(#[trigger] lane[rr]@),
                col.len() == r,
                all_canonical(col@),
                forall|rr: int| 0 <= rr < r && rr < lane.len() ==> #[trigger] col[rr] == lane[rr][i as int],
                forall|rr: int| 0 <= rr < r && lane.len() <= rr ==> #[trigger] col[rr] == 0,
            decreases len - r,
        {
            if r < lane.len() {
                assert(all_canonical(lane[r as int]@));
                col.push(lane[r][i]);
            } else {
                col.push(0);
            }
            r = r + 1;
        }
        cols.push(col);
        i = i + 1;
    }
    cols
}

/// A column that holds `v` in every row.
pub fn constant_column(v: u64, len: usize) -> (col: Vec<u64>)
    requires
        v < MODULUS,
    ensures
        col.len() == len,
        all_canonical(col@),
        forall|r: int| 0 <= r < len ==> #[trigger] col[r] == v,
{
    let mut col: Vec<u64> = Vec::new();
    let mut r: usize = 0;
    while r < len
        invariant
            r <= len,
            v < MODULUS,
            col.len() == r,
            forall|rr: int| 0 <= rr < r ==> #[trigger] col[rr] == v,
        decreases len - r,
    {
        col.push(v);
        r = r + 1;
    }
    col
}

/// A column that holds, in every row of cycle `first + l`, 1 if `bits[l]`
/// and 0 otherwise, for the levels `l < bits.len()`; 0 in every other row.
pub fn cycle_bit_column(bits: &Vec<bool>, first: usize, len: usize) -> (col: Vec<u64>)
    requires
        CYCLE_LENGTH * (first + bits.len()) <= len,
        len < 0x1_0000_0000,
    ensures
        col.len() == len,
        all_canonical(col@),
        forall|r: int|
            0 <= r < len ==> #[trigger] col[r] == cycle_bit_spec(bits@, first as int, r),
{
    let mut col: Vec<u64> = Vec::new();
    let lo: usize = CYCLE_LENGTH * first;
    let hi: usize = CYCLE_LENGTH * (first + bits.len());
    let mut r: usize = 0;
    while r < len
        invariant
            r <= len,
            lo == CYCLE_LENGTH * first,
            hi == CYCLE_LENGTH * (first + bits.len()),
            hi <= len,
            len < 0x1_0000_0000,
            col.len() == r,
            forall|rr: int| 0 <= rr < r ==> #[trigger] col[rr] == cycle_bit_spec(bits@, first as int, rr),
            forall|rr: int| 0 <= rr < r ==> #[trigger] col[rr] < 2,
        decreases len - r,
    {
        if lo <= r && r < hi {
            let level: usize = r / CYCLE_LENGTH - first;
            col.push(if bits[level] { 1 } else { 0 });
        } else {
            col.push(0);
        }
        r = r + 1;
    }
    col
}

/// The value of a cycle-bit column at row `r`.
pub open spec fn cycle_bit_spec(bits: Seq<bool>, first: int, r: int) -> u64 {
    if CYCLE_LENGTH * first <= r < CYCLE_LENGTH * (first + bits.len()) {
        if bits[r / CYCLE_LENGTH as int - first] {
            1
        } else {
            0
        }
    } else {
        0
    }
}


/// Overlays two columns that are never both nonzero on the same row.
pub fn overlay_columns(a: &Vec<u64>, b: &Vec<u64>) -> (c: Vec<u64>)
    requires
        a.len() == b.len(),
        forall|r: int| 0 <= r < a.len() ==> a[r] == 0 || b[r] == 0,
    ensures
        c.len() == a.len(),
        forall|r: int| 0 <= r < a.len() ==> #[trigger] c[r] == if a[r] == 0 { b[r] } else { a[r] },
{
    let mut c: Vec<u64> = Vec::new();
    let mut r: usize = 0;
    while r < a.len()
        invariant
            r <= a.len(),
            a.len() == b.len(),
            c.len() == r,
            forall|rr: int| 0 <= rr < r ==> #[trigger] c[rr] == if a[rr] == 0 { b[rr] } else { a[rr] },
        decreases a.len() - r,
    {
        c.push(if a[r] == 0 { b[r] } else { a[r] });
        r = r + 1;
    }
    c
}

/// The first `n` elements of a vector of booleans.
pub fn prefix_bits(bits: &Vec<bool>, n: usize) -> (p: Vec<bool>)
    requires
        n <= bits.len(),
    ensures
        p@ == bits@.subrange(0, n as int),
{
    let mut p: Vec<bool> = Vec::new();
    let mut i: usize = 0;
    while i < n
        invariant
            i <= n,
            n <= bits.len(),
            p@ =~= bits@.subrange(0, i as int),
        decreases n - i,
    {
        p.push(bits[i]);
        i = i + 1;
    }
    p
}

/// A column whose every step keeps its value holds its first value on
/// every row up to `n`.
pub proof fn lemma_column_kept(col: Seq<u64>, n: int)
    requires
        0 <= n < col.len(),
        forall|q: int| 0 <= q < n ==> #[trigger] col[q + 1] == col[q],
    ensures
        forall|q: int| 0 <= q <= n ==> #[trigger] col[q] == col[0],
    decreases n,
{
    if n > 0 {
        lemma_column_kept(col, n - 1);
        assert(col[(n - 1) + 1] == col[n - 1]);
    }
}

} // verus!
