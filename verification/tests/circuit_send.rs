use stark_experiment::circuit_refund::{native_refund_commitment, native_refund_commitment_v2};
use stark_experiment::circuit_send::{
    build_trace, public_inputs_of, SendPublicInputs, COL_AMT, COL_BAL, COL_BAL_NEW, COL_SACC, COL_SUPPLY_NEW,
    COL_SUPPLY_OLD, ROW_FROZEN_ROOT, ROW_PENDING_ENTRY, ROW_PENDING_ROOT, ROW_PK_DONE, ROW_ROOT,
};
use stark_experiment::circuit_send_v2;
use stark_experiment::circuit_settlement::{
    derive_leaf_salt_wide, derive_public_id, derive_public_id_wide, native_climb, native_leaf, native_leaf_salted,
    FROZEN_DEPTH,
};
use stark_experiment::field::{fadd, felt, fsub};
use stark_experiment::merkle::{climb_levels, MerklePath, TREE_DEPTH};
use stark_experiment::rescue::{as_digest, native_merge, Digest};

const TEST_LIMIT: u64 = 10_000_000;
const LANE_B: usize = 12;

fn empty_subtrees(depth: usize) -> Vec<Digest> {
    let mut empty = vec![[0u64; 4]];
    for k in 1..=depth {
        let prev = empty[k - 1];
        empty.push(native_merge(&prev, &prev));
    }
    empty
}

struct Scenario {
    key: Digest,
    account_id: Digest,
    balance: u64,
    nonce: u64,
    leaf_salt: Digest,
    path: MerklePath,
    frozen_path: MerklePath,
    pending_path: MerklePath,
    receiver_id: Digest,
    salt: Digest,
    envelope: Digest,
    amount: u64,
    supply_old: u64,
    frozen_root: Digest,
}

fn scenario(balance: u64, amount: u64, supply_old: u64) -> Scenario {
    let empty = empty_subtrees(TREE_DEPTH);
    let key: Digest = [0xA11CE, 0x5E4D, 0x0DDBA11, 0x5EA51DE];
    let account_id = derive_public_id_wide(&key);
    let path = MerklePath {
        siblings: (0..TREE_DEPTH).map(|l| empty[l]).collect(),
        is_right: (0..TREE_DEPTH).map(|l| l % 3 == 0).collect(),
    };
    let f_empty = empty_subtrees(FROZEN_DEPTH);
    let frozen_path = MerklePath {
        siblings: (0..FROZEN_DEPTH).map(|l| f_empty[l]).collect(),
        is_right: (0..FROZEN_DEPTH).map(|l| l % 3 == 0).collect(),
    };
    let frozen_root = climb_levels(&[0u64; 4], &frozen_path.siblings, &frozen_path.is_right, FROZEN_DEPTH);
    let pending_path = MerklePath {
        siblings: (0..TREE_DEPTH).map(|l| empty[l]).collect(),
        is_right: (0..TREE_DEPTH).map(|l| l % 4 == 0).collect(),
    };
    Scenario {
        leaf_salt: derive_leaf_salt_wide(&key),
        key,
        account_id,
        balance,
        nonce: 0,
        path,
        frozen_path,
        pending_path,
        receiver_id: derive_public_id(0xB0B),
        salt: [0x5EED_0001, 0x5EED_0002, 0x5EED_0003, 0x5EED_0004],
        envelope: [0xE3C1_0001, 0xE3C1_0002, 0xE3C1_0003, 0xE3C1_0004],
        amount,
        supply_old,
        frozen_root,
    }
}

fn climb_pending(s: &Scenario, leaf: Digest) -> Digest {
    native_climb(&leaf, &s.pending_path)
}

fn expected_v1(s: &Scenario) -> SendPublicInputs {
    let leaf_old = native_leaf(&s.account_id, felt(s.balance), s.nonce);
    let leaf_new = native_leaf(&s.account_id, fsub(felt(s.balance), felt(s.amount)), s.nonce);
    let pending = native_merge(&native_merge(&s.receiver_id, &s.salt), &as_digest(felt(s.amount)));
    SendPublicInputs {
        root_old: native_climb(&leaf_old, &s.path),
        root_new: native_climb(&leaf_new, &s.path),
        frozen_root: s.frozen_root,
        pending_root_old: climb_pending(s, [0u64; 4]),
        pending_root_new: climb_pending(s, pending),
        amount: felt(s.amount),
        regulatory_limit: felt(TEST_LIMIT),
        supply_old: felt(s.supply_old),
        supply_new: felt(s.supply_old),
    }
}

fn trace_v1(s: &Scenario, supply_delta: u64) -> Vec<Vec<u64>> {
    build_trace(
        &s.key,
        &s.account_id,
        s.balance,
        s.nonce,
        &s.path,
        &s.frozen_path,
        s.amount,
        TEST_LIMIT,
        s.supply_old,
        supply_delta,
        &s.receiver_id,
        &s.salt,
        &s.pending_path,
    )
}

fn trace_v2(s: &Scenario) -> Vec<Vec<u64>> {
    circuit_send_v2::build_trace(
        &s.key,
        &s.account_id,
        s.balance,
        s.nonce,
        &s.leaf_salt,
        &s.path,
        &s.frozen_path,
        s.amount,
        TEST_LIMIT,
        s.supply_old,
        0,
        &s.receiver_id,
        &s.salt,
        &s.envelope,
        &s.pending_path,
    )
}

#[test]
fn circuit_send_trace_landmarks_match_native() {
    let s = scenario(1_000_000, 250_000, 10_000_000);
    let trace = trace_v1(&s, 0);
    let expected = expected_v1(&s);
    assert_eq!(public_inputs_of(&trace).to_elements(), expected.to_elements());
    for i in 0..4 {
        assert_eq!(trace[4 + i][ROW_ROOT], expected.root_old[i]);
        assert_eq!(trace[LANE_B + 4 + i][ROW_ROOT], expected.root_new[i]);
        assert_eq!(trace[4 + i][ROW_FROZEN_ROOT], expected.frozen_root[i]);
        assert_eq!(trace[4 + i][ROW_PENDING_ROOT], expected.pending_root_old[i]);
        assert_eq!(trace[LANE_B + 4 + i][ROW_PENDING_ROOT], expected.pending_root_new[i]);
        assert_eq!(trace[4 + i][ROW_PK_DONE], s.account_id[i]);
    }
}

#[test]
fn the_commitment_is_built_from_the_identity_not_the_balance() {
    let s = scenario(1_000_000, 250_000, 10_000_000);
    let nativo = native_merge(&native_merge(&s.receiver_id, &s.salt), &as_digest(s.amount));
    let trace = trace_v1(&s, 0);
    for i in 0..4 {
        assert_eq!(trace[4 + i][ROW_PENDING_ENTRY], nativo[i]);
    }
    assert_eq!(climb_pending(&s, nativo), expected_v1(&s).pending_root_new);
}

#[test]
fn send_commitment_is_what_the_refund_opens() {
    let s = scenario(1_000_000, 250_000, 10_000_000);
    let trace = trace_v1(&s, 0);
    let opened = native_refund_commitment(&s.receiver_id, &s.salt, s.amount);
    for i in 0..4 {
        assert_eq!(trace[LANE_B + 4 + i][ROW_PENDING_ENTRY], opened[i]);
    }
}

#[test]
fn send_moves_only_the_amount_and_keeps_the_supply() {
    let s = scenario(1_000_000, 250_000, 10_000_000);
    let trace = trace_v1(&s, 0);
    for r in [0usize, 700, 1023] {
        assert_eq!(fadd(trace[COL_BAL_NEW][r], trace[COL_AMT][r]), trace[COL_BAL][r]);
        assert_eq!(trace[COL_SUPPLY_NEW][r], trace[COL_SUPPLY_OLD][r]);
    }
    let inflating = trace_v1(&s, 5);
    assert_ne!(inflating[COL_SUPPLY_NEW][0], inflating[COL_SUPPLY_OLD][0]);
    // The range checks end on the balance and the amount.
    assert_eq!(trace[COL_SACC][63], 1_000_000);
    assert_eq!(trace[COL_SACC][127], 250_000);
}

#[test]
fn los_hitos_de_la_traza_espejan_el_nativo() {
    let s = scenario(1_000_000, 250_000, 10_000_000);
    let trace = trace_v2(&s);
    let c1 = native_merge(&native_merge(&s.receiver_id, &s.salt), &as_digest(s.amount));
    let c2 = native_merge(&c1, &s.envelope);
    for i in 0..4 {
        assert_eq!(trace[4 + i][circuit_send_v2::ROW_PEND_ENV], c1[i]);
        assert_eq!(trace[circuit_send_v2::COL_X + i][circuit_send_v2::ROW_PEND_ENV], s.envelope[i]);
        assert_eq!(trace[4 + i][circuit_send_v2::ROW_PENDING_ENTRY], c2[i]);
        assert_eq!(trace[4 + i][circuit_send_v2::ROW_PENDING_ROOT], climb_pending(&s, [0u64; 4])[i]);
        assert_eq!(trace[LANE_B + 4 + i][circuit_send_v2::ROW_PENDING_ROOT], climb_pending(&s, c2)[i]);
    }
}

#[test]
fn send_v2_public_inputs_match_native() {
    let s = scenario(1_000_000, 250_000, 10_000_000);
    let trace = trace_v2(&s);
    let leaf_old = native_leaf_salted(&s.account_id, felt(s.balance), s.nonce, &s.leaf_salt);
    let leaf_new = native_leaf_salted(&s.account_id, fsub(felt(s.balance), felt(s.amount)), s.nonce, &s.leaf_salt);
    let c1 = native_merge(&native_merge(&s.receiver_id, &s.salt), &as_digest(s.amount));
    let c2 = native_merge(&c1, &s.envelope);
    let expected = SendPublicInputs {
        root_old: native_climb(&leaf_old, &s.path),
        root_new: native_climb(&leaf_new, &s.path),
        frozen_root: s.frozen_root,
        pending_root_old: climb_pending(&s, [0u64; 4]),
        pending_root_new: climb_pending(&s, c2),
        amount: s.amount,
        regulatory_limit: TEST_LIMIT,
        supply_old: s.supply_old,
        supply_new: s.supply_old,
    };
    assert_eq!(circuit_send_v2::public_inputs_of(&trace).to_elements(), expected.to_elements());
}

#[test]
fn send_v2_commitment_is_what_the_v2_refund_opens() {
    let mut s = scenario(1_000_000, 250_000, 10_000_000);
    let refund_id: Digest = [9000, 9001, 9002, 9003];
    let delta = 40u64;
    s.envelope = native_merge(&refund_id, &as_digest(delta));
    let trace = trace_v2(&s);
    let opened = native_refund_commitment_v2(&s.receiver_id, &s.salt, s.amount, &refund_id, delta);
    for i in 0..4 {
        assert_eq!(trace[4 + i][circuit_send_v2::ROW_PENDING_ENTRY], opened[i]);
    }
}

fn first_violation(
    trace: &Vec<Vec<u64>>,
    periodic: &Vec<Vec<u64>>,
    evaluate: fn(&Vec<u64>, &Vec<u64>, &Vec<u64>) -> Vec<u64>,
) -> Option<(usize, usize)> {
    let len = trace[0].len();
    for r in 0..len - 1 {
        let cur: Vec<u64> = trace.iter().map(|c| c[r]).collect();
        let next: Vec<u64> = trace.iter().map(|c| c[r + 1]).collect();
        let per: Vec<u64> = periodic.iter().map(|c| c[r % c.len()]).collect();
        if let Some(k) = evaluate(&cur, &next, &per).iter().position(|v| *v != 0) {
            return Some((r, k));
        }
    }
    None
}

#[test]
fn an_honest_send_satisfies_the_constraints() {
    let s = scenario(1_000_000, 250_000, 5_000_000);
    let periodic = stark_experiment::circuit_send::periodic_columns();
    let eval: fn(&Vec<u64>, &Vec<u64>, &Vec<u64>) -> Vec<u64> = stark_experiment::circuit_send::evaluate_transition;
    assert_eq!(first_violation(&trace_v1(&s, 0), &periodic, eval), None);
    // A supply change that no mint declares breaks the supply constraint (86).
    assert_eq!(first_violation(&trace_v1(&s, 1), &periodic, eval), Some((0, 86)));
    let periodic = circuit_send_v2::periodic_columns();
    assert_eq!(first_violation(&trace_v2(&s), &periodic, circuit_send_v2::evaluate_transition), None);
}
