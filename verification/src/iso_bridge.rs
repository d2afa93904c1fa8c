//! A bridge from an ISO 20022 payment message to the compliance circuit:
//! the subset of a pacs.008 message that the circuit needs, the checks on
//! it, and the preparation of the statement to prove (the public inputs and
//! the trace). Proving needs no keys: there is no trusted setup.
//!
//! What the checks do not do: parse XML or validate a schema. The balance
//! comes in as a trusted parameter; the proof shows it is the one in the
//! tree, not who supplied it.

use vstd::prelude::*;
use crate::compliance_circuit::{
    build_trace, cell_spec, leaf_spec, native_leaf, native_nullifier, native_root, nullifier_spec, path_ok, root_spec,
    CompliancePublicInputs, TRACE_LENGTH, TRACE_WIDTH,
};
use crate::field::{felt, reduce, MODULUS};
use crate::merkle::MerklePath;
use crate::rescue::Digest;
use crate::trace::columns_shape;

verus! {

/// A subset of an ISO 20022 pacs.008 message.
#[derive(Debug, Clone)]
pub struct Pacs008Message {
    pub message_id: String,
    pub debtor_bic: String,
    pub creditor_bic: String,
    pub currency: String,
    pub instructed_amount_minor_units: u64,
}

/// Why the bridge refused a request.
#[derive(Debug)]
pub enum BridgeError {
    InvalidMessage(String),
    ProofError(String),
}

/// A settlement package: the message's identifiers, the public inputs of
/// the compliance proof, and the serialised proof.
pub struct SovereignSettlementPackage {
    pub message_id: String,
    pub currency: String,
    pub state_root: Digest,
    pub regulatory_limit: u64,
    pub nullifier: Digest,
    /// The proof, serialised for the message bus.
    pub proof: Vec<u8>,
}

/// Whether `c` has the Unicode White_Space property, the whitespace that
/// trimming removes.
pub open spec fn is_white_space(c: char) -> bool {
    let x = c as u32;
    ||| 0x9 <= x <= 0xD
    ||| x == 0x20
    ||| x == 0x85
    ||| x == 0xA0
    ||| x == 0x1680
    ||| 0x2000 <= x <= 0x200A
    ||| x == 0x2028
    ||| x == 0x2029
    ||| x == 0x202F
    ||| x == 0x205F
    ||| x == 0x3000
}

/// A text that trimming leaves empty: whitespace and nothing else.
pub open spec fn is_blank(s: Seq<char>) -> bool {
    forall|i: int| 0 <= i < s.len() ==> is_white_space(#[trigger] s[i])
}

fn white_space(c: char) -> (b: bool)
    ensures
        b == is_white_space(c),
{
    let x = c as u32;
    (0x9 <= x && x <= 0xD) || x == 0x20 || x == 0x85 || x == 0xA0 || x == 0x1680 || (0x2000 <= x && x <= 0x200A)
        || x == 0x2028 || x == 0x2029 || x == 0x202F || x == 0x205F || x == 0x3000
}

/// Whether a text is blank.
pub fn blank(s: &str) -> (b: bool)
    ensures
        b == is_blank(s@),
{
    broadcast use vstd::string::axiom_spec_iter;
    let mut all = true;
    for c in iter: s.chars()
        invariant
            all == (forall|i: int| 0 <= i < iter.index() ==> is_white_space(#[trigger] iter.seq()[i])),
    {
        if !white_space(c) {
            all = false;
        }
    }
    all
}

/// The first check a message fails, if any: a blank identifier, a blank
/// BIC, or a zero amount, in that order.
pub open spec fn message_fault(m: Pacs008Message) -> Option<Seq<char>> {
    if is_blank(m.message_id@) {
        Some("message_id no puede estar vacio"@)
    } else if is_blank(m.debtor_bic@) || is_blank(m.creditor_bic@) {
        Some("debtor_bic y creditor_bic son obligatorios"@)
    } else if m.instructed_amount_minor_units == 0 {
        Some("el importe instruido no puede ser cero"@)
    } else {
        None
    }
}

/// Checks a message before anything is proved: the identifier and both
/// BICs must not be blank, and the amount must not be zero.
pub fn validate_message(message: &Pacs008Message) -> (r: Result<(), BridgeError>)
    ensures
        r is Ok <==> message_fault(*message) is None,
        r is Err ==> (r->Err_0 matches BridgeError::InvalidMessage(s) && Some(s@) == message_fault(*message)),
{
    if blank(message.message_id.as_str()) {
        return Err(BridgeError::InvalidMessage("message_id no puede estar vacio".to_owned()));
    }
    if blank(message.debtor_bic.as_str()) || blank(message.creditor_bic.as_str()) {
        return Err(BridgeError::InvalidMessage("debtor_bic y creditor_bic son obligatorios".to_owned()));
    }
    if message.instructed_amount_minor_units == 0 {
        return Err(BridgeError::InvalidMessage("el importe instruido no puede ser cero".to_owned()));
    }
    Ok(())
}

/// A statement ready to be proved: the public inputs and the trace.
pub struct SettlementStatement {
    pub public_inputs: CompliancePublicInputs,
    pub trace: Vec<Vec<u64>>,
}

/// Translates a message into the statement of a compliance proof: checks
/// the message, computes the state root and the nullifier of the account
/// natively, and builds the trace for the instructed amount.
pub fn prepare_settlement(
    message: &Pacs008Message,
    account_id: u64,
    account_balance_minor_units: u64,
    account_nonce: u64,
    path: &MerklePath,
    regulatory_limit_minor_units: u64,
) -> (r: Result<SettlementStatement, BridgeError>)
    requires
        account_id < MODULUS,
        account_nonce < MODULUS,
        path_ok(*path),
    ensures
        r is Ok <==> message_fault(*message) is None,
        r is Err ==> (r->Err_0 matches BridgeError::InvalidMessage(s) && Some(s@) == message_fault(*message)),
        r matches Ok(st) ==> {
            &&& st.public_inputs.state_root@ == root_spec(
                leaf_spec(account_id, reduce(account_balance_minor_units as int), account_nonce),
                *path,
            )
            &&& st.public_inputs.regulatory_limit == reduce(regulatory_limit_minor_units as int)
            &&& st.public_inputs.nullifier@ == nullifier_spec(account_id, account_nonce)
            &&& st.trace.len() == TRACE_WIDTH
            &&& columns_shape(st.trace@, TRACE_LENGTH as nat)
            &&& forall|col: int, row: int|
                0 <= col < TRACE_WIDTH && 0 <= row < TRACE_LENGTH ==> #[trigger] st.trace[col][row] == cell_spec(
                    account_id,
                    account_balance_minor_units,
                    account_nonce,
                    message.instructed_amount_minor_units,
                    regulatory_limit_minor_units,
                    *path,
                    col,
                    row,
                )
        },
{
    match validate_message(message) {
        Err(e) => {
            return Err(e);
        },
        Ok(()) => {},
    }
    let amount = message.instructed_amount_minor_units;
    let leaf = native_leaf(account_id, felt(account_balance_minor_units), account_nonce);
    let state_root = native_root(&leaf, path);
    let nullifier = native_nullifier(account_id, account_nonce);
    let regulatory_limit = felt(regulatory_limit_minor_units);
    let trace = build_trace(
        account_id,
        account_balance_minor_units,
        account_nonce,
        amount,
        regulatory_limit_minor_units,
        path,
    );
    Ok(SettlementStatement {
        public_inputs: CompliancePublicInputs { state_root, regulatory_limit, nullifier },
        trace,
    })
}

/// The public inputs a package declares.
pub fn package_public_inputs(package: &SovereignSettlementPackage) -> (pi: CompliancePublicInputs)
    ensures
        pi.state_root == package.state_root,
        pi.regulatory_limit == package.regulatory_limit,
        pi.nullifier == package.nullifier,
{
    CompliancePublicInputs {
        state_root: package.state_root,
        regulatory_limit: package.regulatory_limit,
        nullifier: package.nullifier,
    }
}

} // verus!
