//! A census of what a serialised proof shows in the clear: how many times
//! the little-endian encoding of a value appears in the proof bytes, and
//! the trace of a toy circuit with a constant column, whose value should
//! not appear once the trace is hidden.

use vstd::prelude::*;
use crate::field::{add_spec, fadd, felt, fmul, mul_spec, reduce, MODULUS};

verus! {

/// Byte `k` of `v`, least significant first.
pub open spec fn le_byte(v: u64, k: int) -> u8 {
    ((v >> (8 * k) as u64) & 0xff) as u8
}

/// Whether the eight bytes from position `i` are the little-endian
/// encoding of `v`.
pub open spec fn encodes_at(bytes: Seq<u8>, i: int, v: u64) -> bool {
    forall|k: int| 0 <= k < 8 ==> #[trigger] bytes[i + k] == le_byte(v, k)
}

/// The number of windows of eight bytes, among the first `n` windows, that
/// are the little-endian encoding of `v`.
pub open spec fn count_encodings(bytes: Seq<u8>, v: u64, n: int) -> nat
    decreases n,
{
    if n <= 0 {
        0
    } else {
        count_encodings(bytes, v, n - 1) + if encodes_at(bytes, n - 1, v) {
            1nat
        } else {
            0nat
        }
    }
}

/// How many times the eight little-endian bytes of `v` appear in `bytes`,
/// overlapping windows included.
pub fn cuenta(bytes: &[u8], v: u64) -> (n: usize)
    ensures
        n == (if bytes.len() < 8 {
            0
        } else {
            count_encodings(bytes@, v, bytes.len() - 7)
        }),
{
    if bytes.len() < 8 {
        return 0;
    }
    let mut p: [u8; 8] = [0; 8];
    let mut k: usize = 0;
    while k < 8
        invariant
            k <= 8,
            forall|j: int| 0 <= j < k ==> #[trigger] p[j] == le_byte(v, j),
        decreases 8 - k,
    {
        p[k] = ((v >> (8 * k) as u64) & 0xff) as u8;
        k = k + 1;
    }
    let windows: usize = bytes.len() - 7;
    let mut n: usize = 0;
    let mut i: usize = 0;
    while i < windows
        invariant
            i <= windows,
            windows == bytes.len() - 7,
            forall|j: int| 0 <= j < 8 ==> #[trigger] p[j] == le_byte(v, j),
            n == count_encodings(bytes@, v, i as int),
            n <= i,
        decreases windows - i,
    {
        let mut same = true;
        let mut k: usize = 0;
        while k < 8
            invariant
                k <= 8,
                i < windows,
                windows == bytes.len() - 7,
                forall|j: int| 0 <= j < 8 ==> #[trigger] p[j] == le_byte(v, j),
                same == (forall|j: int| 0 <= j < k ==> #[trigger] bytes@[i + j] == le_byte(v, j)),
            decreases 8 - k,
        {
            if bytes[i + k] != p[k] {
                same = false;
            }
            k = k + 1;
        }
        if same {
            n = n + 1;
        }
        i = i + 1;
    }
    n
}

/// The key the toy circuit carries in its constant column.
pub const CLAVE: u64 = 0x7b24_ad75_3939_240c;
/// The number of rows of the toy circuit.
pub const FILAS: usize = 128;

/// The counter column at row `i`.
pub open spec fn counter_spec(i: nat) -> u64 {
    reduce(i as int)
}

/// The degree-seven column: `y(0) = key + 2`, `y(i) = y(i-1)^7 + (i - 1)`.
pub open spec fn power_spec(i: nat) -> u64
    decreases i,
{
    if i == 0 {
        add_spec(reduce(CLAVE as int), 2)
    } else {
        let y = power_spec((i - 1) as nat);
        let y2 = mul_spec(y, y);
        let y4 = mul_spec(y2, y2);
        add_spec(mul_spec(mul_spec(y4, y2), y), counter_spec((i - 1) as nat))
    }
}

/// The trace of the toy circuit, column by column: the key, a counter, and
/// a column of degree seven; and the value on its last row.
pub fn traza_constante() -> (r: (Vec<Vec<u64>>, u64))
    ensures
        r.0.len() == 3,
        forall|c: int| 0 <= c < 3 ==> (#[trigger] r.0[c]).len() == FILAS,
        forall|i: int| 0 <= i < FILAS ==> #[trigger] r.0[0][i] == reduce(CLAVE as int),
        forall|i: int| 0 <= i < FILAS ==> #[trigger] r.0[1][i] == counter_spec(i as nat),
        forall|i: int| 0 <= i < FILAS ==> #[trigger] r.0[2][i] == power_spec(i as nat),
        r.1 == power_spec((FILAS - 1) as nat),
{
    let clave = felt(CLAVE);
    let mut c0: Vec<u64> = Vec::new();
    let mut c1: Vec<u64> = Vec::new();
    let mut c2: Vec<u64> = Vec::new();
    c0.push(clave);
    c1.push(0);
    c2.push(fadd(clave, 2));
    let mut i: usize = 1;
    while i < FILAS
        invariant
            1 <= i <= FILAS,
            clave == reduce(CLAVE as int),
            c0.len() == i,
            c1.len() == i,
            c2.len() == i,
            forall|j: int| 0 <= j < i ==> #[trigger] c0[j] == reduce(CLAVE as int),
            forall|j: int| 0 <= j < i ==> #[trigger] c1[j] == counter_spec(j as nat),
            forall|j: int| 0 <= j < i ==> #[trigger] c2[j] == power_spec(j as nat),
            forall|j: int| 0 <= j < i ==> c1[j] < MODULUS && c2[j] < MODULUS,
        decreases FILAS - i,
    {
        let y = c2[i - 1];
        let y2 = fmul(y, y);
        let y4 = fmul(y2, y2);
        let next = fadd(fmul(fmul(y4, y2), y), c1[i - 1]);
        let count = fadd(c1[i - 1], 1);
        proof {
            assert(reduce((i - 1) as int) + 1 == i as int);
        }
        c0.push(clave);
        c1.push(count);
        c2.push(next);
        i = i + 1;
    }
    let last = c2[FILAS - 1];
    (vec![c0, c1, c2], last)
}

} // verus!
