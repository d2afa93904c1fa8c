use stark_experiment::double_entry::{
    build_trace, evaluate_transition, native_climb, native_leaf, native_nullifier, periodic_columns, public_inputs_of, DoubleEntryPublicInputs, PartyWitness,
    COL_R_BAL, COL_R_BAL_NEW, COL_SACC, COL_S_BAL, COL_S_BAL_NEW, LANE_B, ROW_NULLIFIER, ROW_R_ROOT, ROW_S_ROOT,
};
use stark_experiment::field::{fadd, felt, fsub};
use stark_experiment::merkle::{MerklePath, TREE_DEPTH};
use stark_experiment::rescue::{native_merge, Digest};
use stark_experiment::solvency::value_to_bits_be;

fn empty_subtrees() -> Vec<Digest> {
    let mut empty = vec![[0u64; 4]];
    for k in 1..=TREE_DEPTH {
        let prev = empty[k - 1];
        empty.push(native_merge(&prev, &prev));
    }
    empty
}

struct Scenario {
    sender: PartyWitness,
    receiver: PartyWitness,
    amount: u64,
    credited: u64,
    limit: u64,
    public_inputs: DoubleEntryPublicInputs,
}

fn scenario(sender_balance: u64, amount: u64, credited: u64, limit: u64) -> Scenario {
    let empty = empty_subtrees();
    let s_id = 1001u64;
    let s_nonce = 7u64;
    let r_id = 2002u64;
    let r_bal = 50_000u64;
    let r_nonce = 3u64;
    let s_leaf_old = native_leaf(s_id, felt(sender_balance), s_nonce);
    let s_leaf_new = native_leaf(s_id, fsub(felt(sender_balance), felt(amount)), s_nonce + 1);
    let r_leaf_old = native_leaf(r_id, r_bal, r_nonce);
    let r_leaf_new = native_leaf(r_id, fadd(r_bal, felt(credited)), r_nonce);
    let mut s_siblings = vec![r_leaf_old];
    let mut s_is_right = vec![false];
    let mut r_siblings = vec![s_leaf_new];
    let mut r_is_right = vec![true];
    for level in 1..TREE_DEPTH {
        s_siblings.push(empty[level]);
        s_is_right.push(false);
        r_siblings.push(empty[level]);
        r_is_right.push(false);
    }
    let sender_path = MerklePath { siblings: s_siblings, is_right: s_is_right };
    let receiver_path = MerklePath { siblings: r_siblings, is_right: r_is_right };
    Scenario {
        public_inputs: DoubleEntryPublicInputs {
            root_old: native_climb(&s_leaf_old, &sender_path),
            root_new: native_climb(&r_leaf_new, &receiver_path),
            regulatory_limit: felt(limit),
            nullifier: native_nullifier(s_id, s_nonce),
        },
        sender: PartyWitness { account_id: s_id, balance: sender_balance, nonce: s_nonce, path: sender_path },
        receiver: PartyWitness { account_id: r_id, balance: r_bal, nonce: r_nonce, path: receiver_path },
        amount,
        credited,
        limit,
    }
}

#[test]
fn double_entry_trace_landmarks_match_native_computation() {
    let s = scenario(1_000_000, 250_000, 250_000, 500_000);
    let trace = build_trace(&s.sender, &s.receiver, s.amount, s.credited, s.limit);
    for i in 0..4 {
        assert_eq!(trace[4 + i][ROW_S_ROOT], s.public_inputs.root_old[i], "root_old, elem {i}");
        assert_eq!(trace[LANE_B + 4 + i][ROW_R_ROOT], s.public_inputs.root_new[i], "root_new, elem {i}");
        assert_eq!(trace[4 + i][ROW_NULLIFIER], s.public_inputs.nullifier[i], "nullifier, elem {i}");
    }
    assert_eq!(trace[COL_SACC][63], 1_000_000);
    assert_eq!(trace[COL_SACC][191], 250_000);
    let derivadas = public_inputs_of(&trace);
    assert_eq!(derivadas.to_elements(), s.public_inputs.to_elements());
}

#[test]
fn double_entry_keeps_the_money() {
    let s = scenario(1_000_000, 250_000, 250_000, 500_000);
    let trace = build_trace(&s.sender, &s.receiver, s.amount, s.credited, s.limit);
    for r in [0usize, 559, 1023] {
        assert_eq!(fadd(trace[COL_S_BAL_NEW][r], trace[COL_R_BAL_NEW][r]), fadd(trace[COL_S_BAL][r], trace[COL_R_BAL][r]));
    }
    let creation = scenario(1_000_000, 250_000, 300_000, 500_000);
    let trace = build_trace(&creation.sender, &creation.receiver, creation.amount, creation.credited, creation.limit);
    assert_ne!(fadd(trace[COL_S_BAL_NEW][0], trace[COL_R_BAL_NEW][0]), fadd(trace[COL_S_BAL][0], trace[COL_R_BAL][0]));
}

#[test]
fn an_overdraft_shows_in_the_top_bit_of_the_new_balance() {
    let s = scenario(1_000, 2_000, 2_000, 500_000);
    let trace = build_trace(&s.sender, &s.receiver, s.amount, s.credited, s.limit);
    // Segment 4 holds the new balance: its first bit is set, which the
    // first-bit constraint refuses.
    assert_eq!(trace[stark_experiment::double_entry::COL_SBIT][256], 1);
    let bits = value_to_bits_be(fsub(1_000, 2_000), 64);
    assert!(bits[0]);
    let fine = scenario(2_000, 1_000, 1_000, 500_000);
    let trace = build_trace(&fine.sender, &fine.receiver, fine.amount, fine.credited, fine.limit);
    assert_eq!(trace[stark_experiment::double_entry::COL_SBIT][256], 0);
    assert_eq!(trace[COL_SACC][319], 1_000);
}

#[test]
fn double_entry_assertions_bind_the_public_inputs() {
    let s = scenario(1_000_000, 250_000, 250_000, 500_000);
    let a = stark_experiment::double_entry::assertions(&s.public_inputs);
    assert_eq!(a.len(), 44);
    assert_eq!(a[20], (4, ROW_S_ROOT, s.public_inputs.root_old[0]));
    assert_eq!(a[21], (16, ROW_R_ROOT, s.public_inputs.root_new[0]));
    assert_eq!(a[43], (34, 0, 500_000));
    let periodic = stark_experiment::double_entry::periodic_columns();
    assert_eq!(periodic.len(), 43);
    assert_eq!(periodic[0][6], 1);
    assert_eq!(periodic[0][7], 0);
    assert_eq!(periodic[0][560], 0);
}

fn first_violation(
    trace: &Vec<Vec<u64>>,
    periodic: &Vec<Vec<u64>>,
    evaluate: fn(&Vec<u64>, &Vec<u64>, &Vec<u64>) -> Vec<u64>,
) -> Option<(usize, usize)> {
    let len = trace[0].len();
    for r in 0..len - 1 {
        let cur: Vec<u64> = trace.iter().map(|c| c[r]).collect();
        let next: Vec<u64> = trace.iter().map(|c| c[r + 1]).collect();
        let per: Vec<u64> = periodic.iter().map(|c| c[r % c.len()]).collect();
        if let Some(k) = evaluate(&cur, &next, &per).iter().position(|v| *v != 0) {
            return Some((r, k));
        }
    }
    None
}

#[test]
fn an_honest_transfer_satisfies_the_constraints() {
    let periodic = periodic_columns();
    let s = scenario(1_000_000, 250_000, 250_000, 500_000);
    let trace = build_trace(&s.sender, &s.receiver, s.amount, s.credited, s.limit);
    assert_eq!(first_violation(&trace, &periodic, evaluate_transition), None);
    let creation = scenario(1_000_000, 250_000, 300_000, 500_000);
    let trace = build_trace(&creation.sender, &creation.receiver, creation.amount, creation.credited, creation.limit);
    assert_eq!(first_violation(&trace, &periodic, evaluate_transition), Some((0, 84)));
}
