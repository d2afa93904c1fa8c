//! Verified trace construction and native commitments for a family of
//! STARK circuits over the Goldilocks field, hashed with Rescue-Prime
//! (`Rp64_256`).

pub mod domains;
pub mod field;
pub mod prime;
pub mod rescue;
pub mod lane;
pub mod merkle;
pub mod solvency;
pub mod trace;
pub mod periodic;
pub mod boundary;
pub mod constraints;
pub mod compliance_circuit;
pub mod circuit_threshold;
pub mod circuit_threshold_single;
pub mod circuit_threshold_single_nullifier;
pub mod circuit_settlement;
pub mod double_entry;
pub mod circuit_send;
pub mod circuit_send_v2;
pub mod circuit_recovery_salted;
pub mod circuit_recovery_climb_salted;
pub mod circuit_refund;
pub mod circuit_refund_v2;
pub mod iso_bridge;
pub mod census;
pub mod metrics;
