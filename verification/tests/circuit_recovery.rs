use stark_experiment::circuit_recovery_climb_salted as climb;
use stark_experiment::circuit_recovery_salted::{
    build_trace, evaluate_transition, periodic_columns, public_inputs_of, RecoveryPublicInputs, ThresholdAuth, COL_ACC_A, COL_ACC_B, COL_BAL,
    COL_COUNT_NEW, COL_COUNT_OLD, ROW_ACCT_ROOT, ROW_CUST_ROOT, ROW_LEAF_DONE, ROW_SALT_LINK,
};
use stark_experiment::circuit_settlement::{
    derive_leaf_salt_wide, derive_public_id, derive_public_id_wide, native_climb, native_leaf, native_leaf_salted,
};
use stark_experiment::circuit_threshold::build_custodian_set;
use stark_experiment::field::fadd;
use stark_experiment::merkle::{MerklePath, TREE_DEPTH};
use stark_experiment::rescue::{native_merge, Digest};

const BALANCE: u64 = 1_000_000;
const COUNT_OLD: u64 = 7;
const LANE_B: usize = 12;

fn empty_path() -> MerklePath {
    let mut empty = vec![[0u64; 4]];
    for k in 1..=TREE_DEPTH {
        let prev = empty[k - 1];
        empty.push(native_merge(&prev, &prev));
    }
    MerklePath {
        siblings: (0..TREE_DEPTH).map(|l| empty[l]).collect(),
        is_right: (0..TREE_DEPTH).map(|l| l % 3 == 0).collect(),
    }
}

fn custodian_keys() -> Vec<u64> {
    vec![0xC0570D1A, 0xC0570D1B, 0xC0570D1C, 0xC0570D1D, 0xC0570D1E]
}

struct Scenario {
    auth: ThresholdAuth,
    id_old: Digest,
    id_new: Digest,
    nonce: u64,
    leaf_salt: Digest,
    path: MerklePath,
    public_inputs: RecoveryPublicInputs,
}

fn scenario() -> Scenario {
    let key_old: Digest = [0xA11CE_0001, 0xA11CE_0002, 0xA11CE_0003, 0xA11CE_0004];
    let key_new: Digest = [0xBEEF_CAFE_0001, 0xBEEF_CAFE_0002, 0xBEEF_CAFE_0003, 0xBEEF_CAFE_0004];
    let id_old = derive_public_id_wide(&key_old);
    let id_new = derive_public_id_wide(&key_new);
    let nonce = 3u64;
    let path = empty_path();
    let keys = custodian_keys();
    let (set_root, cpaths) = build_custodian_set(&keys);
    let leaf_salt = derive_leaf_salt_wide(&key_old);
    let leaf_old = native_leaf_salted(&id_old, BALANCE, nonce, &leaf_salt);
    let leaf_new = native_leaf_salted(&id_new, BALANCE, nonce + 1, &leaf_salt);
    Scenario {
        public_inputs: RecoveryPublicInputs {
            root_old: native_climb(&leaf_old, &path),
            root_new: native_climb(&leaf_new, &path),
            custodian_set_root: set_root,
            recovery_count_old: COUNT_OLD,
            recovery_count_new: COUNT_OLD + 1,
        },
        auth: ThresholdAuth {
            key_a: keys[1],
            index_a: 1,
            path_a: cpaths[1].clone(),
            key_b: keys[3],
            index_b: 3,
            path_b: cpaths[3].clone(),
        },
        id_old,
        id_new,
        nonce,
        leaf_salt,
        path,
    }
}

fn build(s: &Scenario, bal_new: u64, count_delta: u64) -> Vec<Vec<u64>> {
    build_trace(&s.auth, &s.id_old, &s.id_new, BALANCE, bal_new, s.nonce, &s.leaf_salt, &s.path, COUNT_OLD, count_delta)
}

#[test]
fn circuit_recovery_salted_trace_landmarks_match_native() {
    let s = scenario();
    let trace = build(&s, BALANCE, 1);
    for i in 0..4 {
        assert_eq!(trace[4 + i][ROW_ACCT_ROOT], s.public_inputs.root_old[i]);
        assert_eq!(trace[LANE_B + 4 + i][ROW_ACCT_ROOT], s.public_inputs.root_new[i]);
        assert_eq!(trace[4 + i][ROW_CUST_ROOT], s.public_inputs.custodian_set_root[i]);
        assert_eq!(trace[LANE_B + 4 + i][ROW_CUST_ROOT], s.public_inputs.custodian_set_root[i]);
    }
    assert_eq!(public_inputs_of(&trace).to_elements(), s.public_inputs.to_elements());
    // The index accumulators end on the custodians' indices.
    assert_eq!(trace[COL_ACC_A][ROW_CUST_ROOT], 1);
    assert_eq!(trace[COL_ACC_B][ROW_CUST_ROOT], 3);
    assert_eq!(trace[COL_ACC_A][0], 0);
}

#[test]
fn la_cadena_de_tres_merges_espeja_native_leaf_salted() {
    let s = scenario();
    let trace = build(&s, BALANCE, 1);
    let sin_sal_a = native_leaf(&s.id_old, BALANCE, s.nonce);
    let sin_sal_b = native_leaf(&s.id_new, BALANCE, s.nonce + 1);
    let con_sal_a = native_leaf_salted(&s.id_old, BALANCE, s.nonce, &s.leaf_salt);
    let con_sal_b = native_leaf_salted(&s.id_new, BALANCE, s.nonce + 1, &s.leaf_salt);
    for i in 0..4 {
        assert_eq!(trace[4 + i][ROW_SALT_LINK], sin_sal_a[i]);
        assert_eq!(trace[LANE_B + 4 + i][ROW_SALT_LINK], sin_sal_b[i]);
        assert_eq!(trace[4 + i][ROW_LEAF_DONE], con_sal_a[i]);
        assert_eq!(trace[LANE_B + 4 + i][ROW_LEAF_DONE], con_sal_b[i]);
    }
}

#[test]
fn recovery_is_counted_and_moves_no_money() {
    let s = scenario();
    let trace = build(&s, BALANCE, 1);
    assert_eq!(trace[8][0], trace[COL_BAL][0]);
    assert_eq!(trace[LANE_B + 8][0], trace[COL_BAL][0]);
    for r in [0usize, 300, 511] {
        assert_eq!(trace[COL_COUNT_NEW][r], fadd(trace[COL_COUNT_OLD][r], 1));
    }
    let moved = build(&s, BALANCE - 1, 1);
    assert_ne!(moved[LANE_B + 8][0], moved[COL_BAL][0]);
    let silent = build(&s, BALANCE, 0);
    assert_eq!(silent[COL_COUNT_NEW][0], silent[COL_COUNT_OLD][0]);
}

#[test]
fn circuit_recovery_climb_salted_trace_roots_match_native() {
    let id_old = derive_public_id(0xA11CE);
    let id_new = derive_public_id(0xBEEF_CAFE);
    let nonce = 3u64;
    let path = empty_path();
    let leaf_old = native_leaf(&id_old, BALANCE, nonce);
    let leaf_new = native_leaf(&id_new, BALANCE, nonce + 1);
    let expected = climb::RecoveryClimbPublicInputs {
        root_old: native_climb(&leaf_old, &path),
        root_new: native_climb(&leaf_new, &path),
        recovery_count_old: COUNT_OLD,
        recovery_count_new: COUNT_OLD + 1,
    };
    let trace = climb::build_trace(&id_old, &id_new, BALANCE, BALANCE, nonce, &path, COUNT_OLD, 1);
    for i in 0..4 {
        assert_eq!(trace[4 + i][climb::ROW_ACCT_ROOT], expected.root_old[i]);
        assert_eq!(trace[LANE_B + 4 + i][climb::ROW_ACCT_ROOT], expected.root_new[i]);
    }
    assert_eq!(climb::public_inputs_of(&trace).to_elements(), expected.to_elements());
    assert_eq!(trace[climb::COL_SACC][63], BALANCE);
    assert_eq!(climb::assertions(&expected).len(), 24);
}

fn first_violation(
    trace: &Vec<Vec<u64>>,
    periodic: &Vec<Vec<u64>>,
    evaluate: fn(&Vec<u64>, &Vec<u64>, &Vec<u64>) -> Vec<u64>,
) -> Option<(usize, usize)> {
    let len = trace[0].len();
    for r in 0..len - 1 {
        let cur: Vec<u64> = trace.iter().map(|c| c[r]).collect();
        let next: Vec<u64> = trace.iter().map(|c| c[r + 1]).collect();
        let per: Vec<u64> = periodic.iter().map(|c| c[r % c.len()]).collect();
        if let Some(k) = evaluate(&cur, &next, &per).iter().position(|v| *v != 0) {
            return Some((r, k));
        }
    }
    None
}

#[test]
fn an_honest_recovery_satisfies_the_constraints() {
    let s = scenario();
    let periodic = periodic_columns();
    assert_eq!(first_violation(&build(&s, BALANCE, 1), &periodic, evaluate_transition), None);
    // A counter raised by two breaks the counter constraint (88).
    assert_eq!(first_violation(&build(&s, BALANCE, 2), &periodic, evaluate_transition), Some((0, 88)));
}

#[test]
fn an_honest_recovery_climb_satisfies_the_constraints() {
    let id_old = derive_public_id(0xA11CE);
    let id_new = derive_public_id(0xBEEF_CAFE);
    let path = empty_path();
    let periodic = climb::periodic_columns();
    let trace = climb::build_trace(&id_old, &id_new, BALANCE, BALANCE, 3, &path, COUNT_OLD, 1);
    assert_eq!(first_violation(&trace, &periodic, climb::evaluate_transition), None);
    let trace = climb::build_trace(&id_old, &id_new, BALANCE, BALANCE, 3, &path, COUNT_OLD, 0);
    assert_eq!(first_violation(&trace, &periodic, climb::evaluate_transition), Some((0, 73)));
}
