//! Domain-separation constants. Each derivation hashes its own domain tag
//! next to its input, so that one kind of value can never stand for another.

use vstd::prelude::*;

verus! {

/// Account identities from spend keys ("SPKY").
pub const SPEND_KEY_DOMAIN: u64 = 0x53504B59;

/// Nullifiers ("NULL").
pub const NULLIFIER_DOMAIN: u64 = 0x4E554C4C;

/// Custodian identities ("CUST").
pub const CUSTODIAN_DOMAIN: u64 = 0x43555354;

/// Governance authorisations ("GOVN").
pub const GOVERNANCE_DOMAIN: u64 = 0x474F564E;

/// Leaf salts ("SALTLEAF").
pub const LEAF_SALT_DOMAIN: u64 = 0x53414C54_4C454146;

/// View keys ("VIEWKEY\0").
pub const VIEW_KEY_DOMAIN: u64 = 0x56494557_4B455900;

} // verus!
