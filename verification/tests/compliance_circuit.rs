use stark_experiment::compliance_circuit::{
    build_trace, evaluate_transition, native_leaf, native_nullifier, native_root, periodic_columns, public_inputs_of, CompliancePublicInputs,
    COL_SACC, ROW_NULLIFIER, ROW_ROOT, TREE_DEPTH,
};
use stark_experiment::field::felt;
use stark_experiment::merkle::MerklePath;
use stark_experiment::rescue::Digest;

fn digest_from(n: u64) -> Digest {
    [felt(n), felt(n + 1), felt(n + 2), felt(n + 3)]
}

struct Scenario {
    account_id: u64,
    balance: u64,
    nonce: u64,
    amount: u64,
    limit: u64,
    path: MerklePath,
}

fn valid_scenario(balance: u64, amount: u64, limit: u64) -> Scenario {
    let siblings: Vec<Digest> = (0..TREE_DEPTH).map(|i| digest_from(i as u64 * 10)).collect();
    let is_right: Vec<bool> = (0..TREE_DEPTH).map(|i| i % 3 == 0).collect();
    Scenario {
        account_id: felt(12345),
        balance,
        nonce: felt(1),
        amount,
        limit,
        path: MerklePath { siblings, is_right },
    }
}

fn expected_public_inputs(s: &Scenario) -> CompliancePublicInputs {
    let leaf = native_leaf(s.account_id, felt(s.balance), s.nonce);
    CompliancePublicInputs {
        state_root: native_root(&leaf, &s.path),
        regulatory_limit: felt(s.limit),
        nullifier: native_nullifier(s.account_id, s.nonce),
    }
}

#[test]
fn compliance_circuit_trace_landmarks_match_native_computation() {
    let s = valid_scenario(1_000_000, 250_000, 500_000);
    let trace = build_trace(s.account_id, s.balance, s.nonce, s.amount, s.limit, &s.path);

    let leaf = native_leaf(s.account_id, felt(s.balance), s.nonce);
    let root = native_root(&leaf, &s.path);
    let nullifier = native_nullifier(s.account_id, s.nonce);

    for i in 0..4 {
        assert_eq!(trace[4 + i][15], leaf[i], "leaf at row 15, element {i}");
        assert_eq!(trace[4 + i][ROW_ROOT], root[i], "root at row 271, element {i}");
        assert_eq!(trace[4 + i][ROW_NULLIFIER], nullifier[i], "nullifier at row 287, element {i}");
    }
    assert_eq!(trace[COL_SACC][63], felt(s.balance));
    assert_eq!(trace[COL_SACC][127], felt(s.amount));
}

#[test]
fn compliance_public_inputs_of_the_trace_are_the_declared_ones() {
    let s = valid_scenario(1_000_000, 250_000, 500_000);
    let trace = build_trace(s.account_id, s.balance, s.nonce, s.amount, s.limit, &s.path);
    let derived = public_inputs_of(&trace);
    assert_eq!(derived.to_elements(), expected_public_inputs(&s).to_elements());
}

fn first_violation(
    trace: &Vec<Vec<u64>>,
    periodic: &Vec<Vec<u64>>,
    evaluate: fn(&Vec<u64>, &Vec<u64>, &Vec<u64>) -> Vec<u64>,
) -> Option<(usize, usize)> {
    let len = trace[0].len();
    for r in 0..len - 1 {
        let cur: Vec<u64> = trace.iter().map(|c| c[r]).collect();
        let next: Vec<u64> = trace.iter().map(|c| c[r + 1]).collect();
        let per: Vec<u64> = periodic.iter().map(|c| c[r % c.len()]).collect();
        if let Some(k) = evaluate(&cur, &next, &per).iter().position(|v| *v != 0) {
            return Some((r, k));
        }
    }
    None
}

// Every step of an honest compliance trace satisfies every constraint; an
// amount above the balance breaks one.
#[test]
fn an_honest_compliance_trace_satisfies_the_constraints() {
    let periodic = periodic_columns();
    let s = valid_scenario(1_000_000, 250_000, 500_000);
    let trace = build_trace(s.account_id, s.balance, s.nonce, s.amount, s.limit, &s.path);
    assert_eq!(first_violation(&trace, &periodic, evaluate_transition), None);
    let overdraft = valid_scenario(100, 250_000, 500_000);
    let trace = build_trace(overdraft.account_id, overdraft.balance, overdraft.nonce, overdraft.amount, overdraft.limit, &overdraft.path);
    assert!(first_violation(&trace, &periodic, evaluate_transition).is_some());
}
