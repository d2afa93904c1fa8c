//! The measurements of an end-to-end run of the compliance circuit.

use vstd::prelude::*;

verus! {

/// What one run measured: the time to build the trace, to prove and to
/// verify from the serialised bytes, the size of the proof, and the
/// security levels the proving library reports for it.
#[derive(Debug)]
pub struct StarkTimingReport {
    pub trace_ms: u128,
    pub prove_ms: u128,
    pub verify_ms: u128,
    pub proof_size_bytes: usize,
    /// Conjectured security, in bits.
    pub conjectured_security: u32,
    /// Provable security in the unique-decoding regime, in bits.
    pub proven_security_udr: u32,
    /// Provable security in the list-decoding regime, in bits.
    pub proven_security_ldr: u32,
}

} // verus!
