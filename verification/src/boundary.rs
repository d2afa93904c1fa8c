//! Boundary assertions, as (column, row, value) triples, and the runs of
//! them that the circuits are made of.

use vstd::prelude::*;

verus! {

/// `n` assertions on consecutive columns from `col`, on row `row`, with the
/// values `vals`.
pub open spec fn run(n: nat, col: int, row: usize, vals: Seq<u64>) -> Seq<(usize, usize, u64)> {
    Seq::new(n, |k: int| ((col + k) as usize, row, vals[k]))
}

/// `n` pairs of assertions: the `k`-th on column `col_a + k` and row
/// `row_a`, then the `k`-th on column `col_b + k` and row `row_b`.
pub open spec fn pairs(
    n: nat,
    col_a: int,
    row_a: usize,
    vals_a: Seq<u64>,
    col_b: int,
    row_b: usize,
    vals_b: Seq<u64>,
) -> Seq<(usize, usize, u64)> {
    Seq::new(
        2 * n,
        |k: int|
            if k % 2 == 0 {
                ((col_a + k / 2) as usize, row_a, vals_a[k / 2])
            } else {
                ((col_b + k / 2) as usize, row_b, vals_b[k / 2])
            },
    )
}

/// Appends a run of assertions.
pub fn push_run(a: &mut Vec<(usize, usize, u64)>, n: usize, col: usize, row: usize, vals: &Vec<u64>)
    requires
        n <= vals.len(),
        col + n < 0x1_0000_0000,
    ensures
        final(a)@ == old(a)@ + run(n as nat, col as int, row, vals@),
{
    let ghost start = a@;
    let mut k: usize = 0;
    while k < n
        invariant
            k <= n,
            n <= vals.len(),
            col + n < 0x1_0000_0000,
            a@ =~= start + run(k as nat, col as int, row, vals@),
        decreases n - k,
    {
        a.push((col + k, row, vals[k]));
        k = k + 1;
    }
}

/// Appends `n` pairs of assertions.
pub fn push_pairs(
    a: &mut Vec<(usize, usize, u64)>,
    n: usize,
    col_a: usize,
    row_a: usize,
    vals_a: &Vec<u64>,
    col_b: usize,
    row_b: usize,
    vals_b: &Vec<u64>,
)
    requires
        n <= vals_a.len(),
        n <= vals_b.len(),
        col_a + n < 0x1_0000_0000,
        col_b + n < 0x1_0000_0000,
    ensures
        final(a)@ == old(a)@ + pairs(n as nat, col_a as int, row_a, vals_a@, col_b as int, row_b, vals_b@),
{
    let ghost start = a@;
    let mut k: usize = 0;
    while k < n
        invariant
            k <= n,
            n <= vals_a.len(),
            n <= vals_b.len(),
            col_a + n < 0x1_0000_0000,
            col_b + n < 0x1_0000_0000,
            a@ =~= start + pairs(k as nat, col_a as int, row_a, vals_a@, col_b as int, row_b, vals_b@),
        decreases n - k,
    {
        a.push((col_a + k, row_a, vals_a[k]));
        a.push((col_b + k, row_b, vals_b[k]));
        proof {
            let p = pairs((k + 1) as nat, col_a as int, row_a, vals_a@, col_b as int, row_b, vals_b@);
            assert((2 * k) % 2 == 0 && (2 * k) / 2 == k) by (nonlinear_arith);
            assert((2 * k + 1) % 2 == 1 && (2 * k + 1) / 2 == k) by (nonlinear_arith);
            assert(a@ =~= start + p);
        }
        k = k + 1;
    }
}

} // verus!
