use stark_experiment::circuit_settlement::derive_public_id;
use stark_experiment::circuit_threshold::{
    build_custodian_set, build_trace, climb, derive_custodian_id, public_inputs_of, ThresholdPublicInputs, COL_ACC_A,
    COL_ACC_B, COL_BIT_A, COL_BIT_B, COL_SACC, CUSTODIAN_DEPTH, LANE_B, ROW_ROOT,
};
use stark_experiment::circuit_threshold_single;
use stark_experiment::circuit_threshold_single_nullifier::{
    check_pair_inputs, commit_operation, decide_threshold_pair, derive_nullifier, NullifierThresholdPublicInputs,
    PairRejection, OP_FREEZE, OP_MINT,
};
use stark_experiment::field::{fsub, MODULUS};
use stark_experiment::rescue::Digest;

fn custodian_keys() -> Vec<u64> {
    vec![0xC0570D1A, 0xC0570D1B, 0xC0570D1C, 0xC0570D1D, 0xC0570D1E]
}

fn operacion(n: u64) -> Digest {
    [0xDEAD_0000 + n, 0, 0, 0]
}

fn params_mint(amount: u64, supply_old: u64, supply_new: u64) -> Vec<u64> {
    let mut v = vec![11u64; 4];
    v.extend_from_slice(&[22u64; 4]);
    v.push(amount);
    v.push(supply_old);
    v.push(supply_new);
    v.push(1_000_000_000);
    v
}

#[test]
fn custodian_domain_is_separated() {
    let k = 12345u64;
    assert_ne!(derive_custodian_id(k), derive_public_id(k));
}

#[test]
fn circuit_threshold_trace_roots_match_native() {
    let keys = custodian_keys();
    let (root, paths) = build_custodian_set(&keys);
    let trace = build_trace(keys[0], 0, &paths[0], keys[2], 2, &paths[2]);
    for i in 0..4 {
        assert_eq!(trace[4 + i][ROW_ROOT], root[i], "lane A elem {i}");
        assert_eq!(trace[LANE_B + 4 + i][ROW_ROOT], root[i], "lane B elem {i}");
    }
    assert_eq!(trace[COL_ACC_A][ROW_ROOT], 0);
    assert_eq!(trace[COL_ACC_B][ROW_ROOT], 2);
    let derivadas = public_inputs_of(&trace);
    assert_eq!(derivadas.to_elements(), ThresholdPublicInputs { custodian_set_root: root }.to_elements());
}

#[test]
fn trace_accumulators_and_bits_are_consistent() {
    let keys = custodian_keys();
    let (_, paths) = build_custodian_set(&keys);
    let trace = build_trace(keys[1], 1, &paths[1], keys[3], 3, &paths[3]);
    assert_eq!(trace[COL_ACC_A][0], 0);
    assert_eq!(trace[COL_ACC_B][0], 0);
    assert_eq!(trace[COL_ACC_A][ROW_ROOT], 1);
    assert_eq!(trace[COL_ACC_B][ROW_ROOT], 3);
    for level in 0..CUSTODIAN_DEPTH {
        let row = (1 + level) * 8;
        let expect_a = (1u64 >> level) & 1;
        let expect_b = (3u64 >> level) & 1;
        assert_eq!(trace[COL_BIT_A][row], expect_a, "bit A level {level}");
        assert_eq!(trace[COL_BIT_B][row], expect_b, "bit B level {level}");
    }
}

#[test]
fn every_custodian_path_climbs_to_the_root() {
    let keys = custodian_keys();
    let (root, paths) = build_custodian_set(&keys);
    assert_eq!(paths.len(), keys.len());
    for (i, key) in keys.iter().enumerate() {
        assert_eq!(climb(&derive_custodian_id(*key), &paths[i]), root, "custodian {i}");
    }
    // A key outside the set does not reach the root along any path.
    assert_ne!(climb(&derive_custodian_id(0xBAD), &paths[0]), root);
}

#[test]
fn single_custodian_trace_shows_the_root_and_the_index() {
    let keys = custodian_keys();
    let (root, paths) = build_custodian_set(&keys);
    let trace = circuit_threshold_single::build_trace(keys[3], 3, &paths[3]);
    let pi = circuit_threshold_single::public_inputs_of(&trace);
    assert_eq!(pi.custodian_set_root, root);
    assert_eq!(pi.custodian_index, 3);
    assert_eq!(trace[circuit_threshold_single::COL_ACC][circuit_threshold_single::TRACE_LENGTH - 1], 3);
}

#[test]
fn the_same_custodian_always_yields_the_same_nullifier() {
    let keys = custodian_keys();
    let op = operacion(1);
    assert_eq!(derive_nullifier(keys[1], &op), derive_nullifier(keys[1], &op));
    assert_ne!(derive_nullifier(keys[1], &op), derive_nullifier(keys[2], &op));
}

#[test]
fn the_nullifier_changes_across_operations() {
    let keys = custodian_keys();
    assert_ne!(derive_nullifier(keys[1], &operacion(1)), derive_nullifier(keys[1], &operacion(2)));
}

#[test]
fn the_operation_commitment_is_deterministic() {
    let p = params_mint(1_000, 0, 1_000);
    assert_eq!(commit_operation(OP_MINT, &p), commit_operation(OP_MINT, &p));
}

#[test]
fn operation_domains_are_separated() {
    let p = params_mint(1_000, 0, 1_000);
    assert_ne!(commit_operation(OP_MINT, &p), commit_operation(OP_FREEZE, &p));
}

#[test]
fn every_parameter_is_covered_by_the_commitment() {
    let base = commit_operation(OP_MINT, &params_mint(1_000, 0, 1_000));
    assert_ne!(base, commit_operation(OP_MINT, &params_mint(1_001, 0, 1_000)));
    assert_ne!(base, commit_operation(OP_MINT, &params_mint(1_000, 1, 1_000)));
    assert_ne!(base, commit_operation(OP_MINT, &params_mint(1_000, 0, 1_001)));
}

#[test]
fn the_nullifier_domain_is_separated_from_the_identity_domain() {
    let k = 0xC0FFEEu64;
    assert_ne!(derive_nullifier(k, &operacion(1)), derive_custodian_id(k));
}

fn inputs(root: Digest, key: u64, op: Digest) -> NullifierThresholdPublicInputs {
    NullifierThresholdPublicInputs { custodian_set_root: root, nullifier: derive_nullifier(key, &op), operation: op }
}

#[test]
fn pair_decisions_follow_the_checks_in_order() {
    let keys = custodian_keys();
    let (root, _) = build_custodian_set(&keys);
    let op = commit_operation(OP_MINT, &params_mint(1_000, 0, 1_000));
    let other_op = commit_operation(OP_MINT, &params_mint(1_000_000, 0, 1_000_000));
    let a = inputs(root, keys[1], op);
    let b = inputs(root, keys[2], op);
    assert_eq!(decide_threshold_pair(&a, &b, &root, &op, true, true), Ok(()));
    assert_eq!(decide_threshold_pair(&a, &b, &root, &op, true, false), Err(PairRejection::InvalidProof));
    assert_eq!(check_pair_inputs(&a, &a, &root, &op), Err(PairRejection::SameCustodian));
    assert_eq!(check_pair_inputs(&a, &b, &root, &other_op), Err(PairRejection::WrongOperation));
    let forged_root: Digest = [1, 2, 3, 4];
    let c = inputs(forged_root, keys[3], op);
    assert_eq!(check_pair_inputs(&a, &c, &root, &op), Err(PairRejection::WrongCustodianSet));
    // The set is checked before the proofs.
    assert_eq!(decide_threshold_pair(&a, &c, &root, &op, false, false), Err(PairRejection::WrongCustodianSet));
}

// The order check: the accumulator at the end of the `B - A - 1` segment
// (row 23) is that value only when the indices are in strict order.
#[test]
fn the_order_segment_closes_only_for_ordered_indices() {
    let keys = custodian_keys();
    let (_, paths) = build_custodian_set(&keys);
    let ordered = build_trace(keys[1], 1, &paths[1], keys[3], 3, &paths[3]);
    assert_eq!(ordered[COL_SACC][23], 1);
    let same = build_trace(keys[2], 2, &paths[2], keys[2], 2, &paths[2]);
    let wrapped = fsub(fsub(2, 2), 1);
    assert_eq!(wrapped, MODULUS - 1);
    assert_ne!(same[COL_SACC][23], wrapped);
    let reversed = build_trace(keys[3], 3, &paths[3], keys[1], 1, &paths[1]);
    assert_ne!(reversed[COL_SACC][23], fsub(fsub(1, 3), 1));
}

#[test]
fn the_domain_reaches_an_empty_commitment() {
    let mint = commit_operation(OP_MINT, &[]);
    let freeze = commit_operation(OP_FREEZE, &[]);
    assert_ne!(mint, [0u64; 4]);
    assert_ne!(mint, freeze);
}

#[test]
fn zero_padding_within_a_chunk_collides() {
    assert_eq!(commit_operation(OP_MINT, &[5]), commit_operation(OP_MINT, &[5, 0]));
    assert_eq!(commit_operation(OP_MINT, &[5]), commit_operation(OP_MINT, &[5, 0, 0, 0, 0, 0, 0, 0]));
    assert_ne!(commit_operation(OP_MINT, &[5]), commit_operation(OP_MINT, &[5, 0, 0, 0, 0, 0, 0, 0, 0]));
}

fn first_violation(
    trace: &Vec<Vec<u64>>,
    periodic: &Vec<Vec<u64>>,
    evaluate: fn(&Vec<u64>, &Vec<u64>, &Vec<u64>) -> Vec<u64>,
) -> Option<(usize, usize)> {
    let len = trace[0].len();
    for r in 0..len - 1 {
        let cur: Vec<u64> = trace.iter().map(|c| c[r]).collect();
        let next: Vec<u64> = trace.iter().map(|c| c[r + 1]).collect();
        let per: Vec<u64> = periodic.iter().map(|c| c[r % c.len()]).collect();
        if let Some(k) = evaluate(&cur, &next, &per).iter().position(|v| *v != 0) {
            return Some((r, k));
        }
    }
    None
}

#[test]
fn honest_custodian_traces_satisfy_the_constraints() {
    let keys = custodian_keys();
    let (_, paths) = build_custodian_set(&keys);
    let periodic = stark_experiment::circuit_threshold::periodic_columns();
    let eval: fn(&Vec<u64>, &Vec<u64>, &Vec<u64>) -> Vec<u64> = stark_experiment::circuit_threshold::evaluate_transition;
    let ordered = build_trace(keys[1], 1, &paths[1], keys[3], 3, &paths[3]);
    assert_eq!(first_violation(&ordered, &periodic, eval), None);
    // The same custodian twice breaks the order check.
    let same = build_trace(keys[2], 2, &paths[2], keys[2], 2, &paths[2]);
    assert!(first_violation(&same, &periodic, eval).is_some());

    let single = circuit_threshold_single::build_trace(keys[3], 3, &paths[3]);
    let periodic = circuit_threshold_single::periodic_columns();
    assert_eq!(first_violation(&single, &periodic, circuit_threshold_single::evaluate_transition), None);

    let op = commit_operation(OP_MINT, &params_mint(1_000, 0, 1_000));
    let with_nullifier = stark_experiment::circuit_threshold_single_nullifier::build_trace(keys[2], &paths[2], &op);
    let periodic = stark_experiment::circuit_threshold_single_nullifier::periodic_columns();
    let eval: fn(&Vec<u64>, &Vec<u64>, &Vec<u64>) -> Vec<u64> =
        stark_experiment::circuit_threshold_single_nullifier::evaluate_transition;
    assert_eq!(first_violation(&with_nullifier, &periodic, eval), None);
}
