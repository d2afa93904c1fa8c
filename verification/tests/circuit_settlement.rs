use stark_experiment::circuit_settlement::{
    build_trace, build_trace_with_id, derive_leaf_salt, derive_leaf_salt_wide, derive_public_id, derive_public_id_wide,
    derive_view_key, derive_view_key_wide, native_climb, native_leaf, native_leaf_salted, native_nullifier, native_nullifier_wide,
    assertions, evaluate_transition, periodic_columns, public_inputs_of, view_id_from_view_key, view_id_of, view_id_of_wide, ReceiverWitness, SenderWitness, SettlementPublicInputs, COL_ROOT_MID, COL_S_BAL,
    COL_S_BAL_NEW, COL_R_BAL, COL_R_BAL_NEW, COL_SACC, FROZEN_DEPTH, LANE_B, ROW_FROZEN_ROOT, ROW_NULLIFIER,
    ROW_NULL_ROOT, ROW_PK_DONE, ROW_R_ROOT, ROW_S_ROOT,
};
use stark_experiment::domains::{
    CUSTODIAN_DOMAIN, GOVERNANCE_DOMAIN, LEAF_SALT_DOMAIN, NULLIFIER_DOMAIN, SPEND_KEY_DOMAIN, VIEW_KEY_DOMAIN,
};
use stark_experiment::field::{fadd, felt, fsub};
use stark_experiment::merkle::{climb_levels, MerklePath, TREE_DEPTH};
use stark_experiment::rescue::{as_digest, native_merge, Digest};

const SK: u64 = 0xA11CE;
const SK_OTRO: u64 = 0xBADCAFE;

fn empty_subtrees(depth: usize) -> Vec<Digest> {
    let mut empty = vec![[0u64; 4]];
    for k in 1..=depth {
        let prev = empty[k - 1];
        empty.push(native_merge(&prev, &prev));
    }
    empty
}

struct Scenario {
    sender: SenderWitness,
    receiver: ReceiverWitness,
    amount: u64,
    credited: u64,
    limit: u64,
    null_path: MerklePath,
    frozen_path: MerklePath,
    public_inputs: SettlementPublicInputs,
}

/// Sender at index 0 and receiver at index 1 of a sparse tree; the
/// receiver's path holds the sender's new leaf. The nullifier goes into an
/// empty nullifier tree, and the sender is absent from the frozen tree.
fn scenario(sender_balance: u64, amount: u64, credited: u64, limit: u64) -> Scenario {
    let empty = empty_subtrees(TREE_DEPTH);
    let s_key: Digest = [0xDEADBEEF, 0xFEEDFACE, 0x00C0FFEE, 0x05EA51DE];
    let s_nonce = 7u64;
    let s_id = derive_public_id_wide(&s_key);
    let r_id = derive_public_id(0xCAFE);
    let r_bal = 50_000u64;
    let r_nonce = 3u64;

    let s_leaf_old = native_leaf(&s_id, felt(sender_balance), s_nonce);
    let s_leaf_new = native_leaf(&s_id, fsub(felt(sender_balance), felt(amount)), s_nonce + 1);
    let r_leaf_old = native_leaf(&r_id, r_bal, r_nonce);
    let r_leaf_new = native_leaf(&r_id, fadd(r_bal, felt(credited)), r_nonce);

    let mut s_sib = vec![r_leaf_old];
    let mut s_right = vec![false];
    let mut r_sib = vec![s_leaf_new];
    let mut r_right = vec![true];
    for level in 1..TREE_DEPTH {
        s_sib.push(empty[level]);
        s_right.push(false);
        r_sib.push(empty[level]);
        r_right.push(false);
    }
    let sender_path = MerklePath { siblings: s_sib, is_right: s_right };
    let receiver_path = MerklePath { siblings: r_sib, is_right: r_right };

    let nullifier = native_nullifier_wide(&s_key, s_nonce);
    let null_path = MerklePath {
        siblings: (0..TREE_DEPTH).map(|l| empty[l]).collect(),
        is_right: (0..TREE_DEPTH).map(|l| (nullifier[0] >> l) & 1 == 1).collect(),
    };

    let f_empty = empty_subtrees(FROZEN_DEPTH);
    let frozen_path = MerklePath {
        siblings: (0..FROZEN_DEPTH).map(|l| f_empty[l]).collect(),
        is_right: (0..FROZEN_DEPTH).map(|l| l % 3 == 0).collect(),
    };
    let frozen_root = climb_levels(&[0u64; 4], &frozen_path.siblings, &frozen_path.is_right, FROZEN_DEPTH);

    Scenario {
        public_inputs: SettlementPublicInputs {
            root_old: native_climb(&s_leaf_old, &sender_path),
            root_new: native_climb(&r_leaf_new, &receiver_path),
            regulatory_limit: felt(limit),
            nullifier,
            frozen_root,
            nullifier_root_old: empty[TREE_DEPTH],
            nullifier_root_new: native_climb(&nullifier, &null_path),
        },
        null_path,
        frozen_path,
        sender: SenderWitness { spend_key: s_key, balance: sender_balance, nonce: s_nonce, path: sender_path },
        receiver: ReceiverWitness { public_id: r_id, balance: r_bal, nonce: r_nonce, path: receiver_path },
        amount,
        credited,
        limit,
    }
}

fn trace_of(s: &Scenario) -> Vec<Vec<u64>> {
    build_trace(&s.sender, &s.receiver, s.amount, s.credited, s.limit, &s.null_path, &s.frozen_path)
}

#[test]
fn the_wide_derivation_generalises_the_narrow_one() {
    for k in [1u64, 0xDEADBEEF, 0xA11CE, u64::MAX - 7] {
        let sk = felt(k);
        assert_eq!(derive_public_id_wide(&as_digest(sk)), derive_public_id(sk), "k = {k:#x}");
        assert_eq!(native_nullifier_wide(&as_digest(sk), 3), native_nullifier(sk, 3), "k = {k:#x}");
    }
}

#[test]
fn a_wide_key_is_not_its_first_element() {
    let base = 0xA11CEu64;
    let estrecha = as_digest(base);
    let ancha = [base, 1, 0, 0];
    assert_ne!(derive_public_id_wide(&ancha), derive_public_id_wide(&estrecha));
    assert_ne!(native_nullifier_wide(&ancha, 3), native_nullifier_wide(&estrecha, 3));
}

#[test]
fn public_id_is_a_full_digest() {
    let id = derive_public_id(12345);
    assert_eq!(id.len(), 4);
    let nonzero = id.iter().filter(|e| **e != 0).count();
    assert!(nonzero >= 3, "the digest should use its four elements");
}

#[test]
fn distinct_keys_give_distinct_ids() {
    assert_ne!(derive_public_id(1), derive_public_id(2));
}

#[test]
fn nullifier_is_not_derivable_from_public_id() {
    let sk = 31337u64;
    let nonce = 1u64;
    let id = derive_public_id(sk);
    let real = native_nullifier(sk, nonce);
    let guess = {
        let inner = native_merge(&as_digest(NULLIFIER_DOMAIN), &id);
        native_merge(&inner, &as_digest(nonce))
    };
    assert_ne!(real, guess);
}

#[test]
fn circuit_settlement_trace_landmarks_match_native() {
    let s = scenario(1_000_000, 250_000, 250_000, 500_000);
    let trace = trace_of(&s);
    for i in 0..4 {
        assert_eq!(trace[4 + i][ROW_S_ROOT], s.public_inputs.root_old[i], "root_old {i}");
        assert_eq!(trace[LANE_B + 4 + i][ROW_R_ROOT], s.public_inputs.root_new[i], "root_new {i}");
        assert_eq!(trace[4 + i][ROW_NULLIFIER], s.public_inputs.nullifier[i], "nullifier {i}");
        assert_eq!(trace[4 + i][ROW_PK_DONE], derive_public_id_wide(&s.sender.spend_key)[i], "pk {i}");
    }
    let derived = public_inputs_of(&trace);
    assert_eq!(derived.to_elements(), s.public_inputs.to_elements());
}

#[test]
fn nullifier_tree_roots_match_native() {
    let s = scenario(1_000_000, 250_000, 250_000, 500_000);
    let trace = trace_of(&s);
    for i in 0..4 {
        assert_eq!(trace[4 + i][ROW_NULL_ROOT], s.public_inputs.nullifier_root_old[i], "old {i}");
        assert_eq!(trace[LANE_B + 4 + i][ROW_NULL_ROOT], s.public_inputs.nullifier_root_new[i], "new {i}");
    }
}

#[test]
fn settlement_frozen_root_and_intermediate_root_are_in_the_trace() {
    let s = scenario(1_000_000, 250_000, 250_000, 500_000);
    let trace = trace_of(&s);
    for i in 0..4 {
        assert_eq!(trace[4 + i][ROW_FROZEN_ROOT], s.public_inputs.frozen_root[i]);
        // The receiver's old leaf climbs to the root the sender's new leaf reached.
        assert_eq!(trace[4 + i][ROW_R_ROOT], trace[LANE_B + 4 + i][ROW_S_ROOT]);
        for r in [0usize, 500, 1023] {
            assert_eq!(trace[COL_ROOT_MID + i][r], trace[LANE_B + 4 + i][ROW_S_ROOT]);
        }
    }
    assert_eq!(trace[COL_SACC][63], 1_000_000);
}

#[test]
fn settlement_carries_conserved_balances() {
    let s = scenario(1_000_000, 250_000, 250_000, 500_000);
    let trace = trace_of(&s);
    for r in [0usize, 511, 1023] {
        assert_eq!(
            fadd(trace[COL_S_BAL_NEW][r], trace[COL_R_BAL_NEW][r]),
            fadd(trace[COL_S_BAL][r], trace[COL_R_BAL][r])
        );
    }
    let created = scenario(1_000_000, 250_000, 300_000, 500_000);
    let trace = trace_of(&created);
    assert_ne!(
        fadd(trace[COL_S_BAL_NEW][0], trace[COL_R_BAL_NEW][0]),
        fadd(trace[COL_S_BAL][0], trace[COL_R_BAL][0])
    );
}

#[test]
fn settlement_with_a_victims_identity_derives_another_key() {
    let s = scenario(1_000_000, 250_000, 250_000, 500_000);
    let victim = derive_public_id_wide(&s.sender.spend_key);
    let mut attacker = s.sender.clone();
    attacker.spend_key = [0x1, 0x2, 0x3, 0x4];
    let trace = build_trace_with_id(
        &attacker,
        &s.receiver,
        s.amount,
        s.credited,
        s.limit,
        &victim,
        &s.null_path,
        &[0u64; 4],
        &s.frozen_path,
    );
    // The old root is the victim's, and the derived identity is not.
    for i in 0..4 {
        assert_eq!(trace[4 + i][ROW_S_ROOT], s.public_inputs.root_old[i]);
    }
    let derived: Vec<u64> = (0..4).map(|i| trace[4 + i][ROW_PK_DONE]).collect();
    assert_ne!(derived, victim.to_vec());
}

#[test]
fn t7_solo_el_titular_presenta_la_vista_correcta() {
    let sk = SK;
    let guardado = view_id_of(sk);
    let presentada = derive_view_key(sk);
    assert_eq!(native_merge(&as_digest(VIEW_KEY_DOMAIN), &presentada), guardado);
    let intruso = derive_view_key(SK_OTRO);
    assert_ne!(native_merge(&as_digest(VIEW_KEY_DOMAIN), &intruso), guardado);
}

#[allow(non_snake_case)]
#[test]
fn t7_la_vista_no_es_credencial_de_GASTO() {
    let sk = SK;
    let vk = derive_view_key(sk);
    assert_ne!(vk, derive_public_id(sk));
    for n in [0u64, 1, 7] {
        assert_ne!(vk, native_nullifier_wide(&as_digest(sk), n));
    }
    assert_ne!(view_id_of(sk), vk);
    assert_ne!(view_id_of(sk), as_digest(sk));
}

#[test]
fn t7_dominio() {
    assert_ne!(VIEW_KEY_DOMAIN, SPEND_KEY_DOMAIN);
    assert_ne!(VIEW_KEY_DOMAIN, NULLIFIER_DOMAIN);
    assert_ne!(VIEW_KEY_DOMAIN, LEAF_SALT_DOMAIN);
    assert_ne!(VIEW_KEY_DOMAIN, CUSTODIAN_DOMAIN);
    assert_ne!(VIEW_KEY_DOMAIN, GOVERNANCE_DOMAIN);
}

#[test]
fn t2b_solo_la_clave_reconstruye_la_hoja() {
    let sk = SK;
    let (balance, nonce) = (250_000u64, 7u64);
    let id = derive_public_id(sk);
    let salt = derive_leaf_salt(sk);
    let hoja_en_arbol = native_leaf_salted(&id, balance, nonce, &salt);
    let id_r = derive_public_id(sk);
    let salt_r = derive_leaf_salt(sk);
    let hoja_r = native_leaf_salted(&id_r, balance, nonce, &salt_r);
    assert_eq!(hoja_r, hoja_en_arbol);
}

#[test]
fn t2b_diccionario_sin_salt_no_acierta() {
    let sk = SK;
    let (balance_real, nonce) = (3_500u64, 1u64);
    let salt = derive_leaf_salt(sk);
    let id = derive_public_id(sk);
    let objetivo = native_leaf_salted(&id, balance_real, nonce, &salt);
    let salt_falso = [0u64; 4];
    let mut acierta = false;
    for b in 0..10_000u64 {
        if native_leaf_salted(&id, b, nonce, &salt_falso) == objetivo {
            acierta = true;
            break;
        }
    }
    assert!(!acierta, "the dictionary found the leaf without the salt");
    assert_eq!(native_leaf_salted(&id, balance_real, nonce, &salt), objetivo);
}

#[test]
fn t2b_hoja_vieja_sigue_expuesta() {
    let id = as_digest(0xB0B);
    let (balance_real, nonce) = (42u64, 0u64);
    let objetivo = native_leaf(&id, balance_real, nonce);
    let mut encontrado = None;
    for b in 0..1_000u64 {
        if native_leaf(&id, b, nonce) == objetivo {
            encontrado = Some(b);
            break;
        }
    }
    assert_eq!(encontrado, Some(42));
}

fn claves() -> [Digest; 3] {
    [as_digest(1), as_digest(0xDEAD_BEEF), [7, 11, 13, 17]]
}

#[test]
fn t2a_dominio() {
    assert_ne!(LEAF_SALT_DOMAIN, SPEND_KEY_DOMAIN);
    assert_ne!(LEAF_SALT_DOMAIN, NULLIFIER_DOMAIN);
    assert_ne!(LEAF_SALT_DOMAIN, CUSTODIAN_DOMAIN);
    assert_ne!(LEAF_SALT_DOMAIN, GOVERNANCE_DOMAIN);
    for k in claves() {
        let s = derive_leaf_salt_wide(&k);
        assert_ne!(s, derive_public_id_wide(&k));
        assert_ne!(s, k);
        for n in [0u64, 1, 7] {
            assert_ne!(s, native_nullifier_wide(&k, n), "nonce = {n}");
        }
    }
}

#[test]
fn t2a_anchura_coherente() {
    for sk in [1u64, 0xDEAD_BEEF, 0xFFFF_FFFF_0000_0000] {
        let e = felt(sk);
        assert_eq!(derive_leaf_salt(e), derive_leaf_salt_wide(&as_digest(e)));
    }
}

#[test]
fn t2a_determinista_no_trivial() {
    let ks = claves();
    assert_eq!(derive_leaf_salt_wide(&ks[0]), derive_leaf_salt_wide(&ks[0]));
    for i in 0..ks.len() {
        for j in i + 1..ks.len() {
            assert_ne!(derive_leaf_salt_wide(&ks[i]), derive_leaf_salt_wide(&ks[j]));
        }
    }
    let sk = 42u64;
    let inv = [0, 0, 0, sk];
    assert_ne!(derive_leaf_salt(sk), derive_leaf_salt_wide(&inv));
}

#[test]
fn a_presented_view_key_gives_the_stored_view_id() {
    let sk = SK;
    assert_eq!(view_id_from_view_key(&derive_view_key(sk)), view_id_of(sk));
    let wide = [sk, 11, 12, 13];
    assert_eq!(view_id_from_view_key(&derive_view_key_wide(&wide)), view_id_of_wide(&wide));
    assert_eq!(view_id_of_wide(&as_digest(sk)), view_id_of(sk));
    assert_ne!(view_id_of_wide(&wide), view_id_of(sk));
    assert_ne!(view_id_from_view_key(&derive_view_key(SK_OTRO)), view_id_of(sk));
}

#[test]
fn the_plain_builder_uses_the_senders_own_identity() {
    let s = scenario(1_000_000, 250_000, 250_000, 500_000);
    let own = derive_public_id_wide(&s.sender.spend_key);
    let with_id = build_trace_with_id(
        &s.sender,
        &s.receiver,
        s.amount,
        s.credited,
        s.limit,
        &own,
        &s.null_path,
        &[0u64; 4],
        &s.frozen_path,
    );
    assert_eq!(trace_of(&s), with_id);
}

// The rounds run on every hashing phase, the frozen-tree climb included
// (rows 824..1015), and stop after the frozen root.
#[test]
fn the_round_columns_cover_the_frozen_climb() {
    let cols = periodic_columns();
    assert_eq!(cols[0][823], 0);
    assert_eq!(cols[0][824], 1);
    assert_eq!(cols[0][1014], 1);
    assert_eq!(cols[0][ROW_FROZEN_ROOT], 0);
    assert_eq!(cols[0][1016], 0);
    for j in 1..25 {
        assert_eq!(cols[j][824], cols[j][0]);
        assert_eq!(cols[j][1014], cols[j][6]);
        assert_eq!(cols[j][1016], 0);
    }
}

fn first_violation(
    trace: &Vec<Vec<u64>>,
    periodic: &Vec<Vec<u64>>,
    evaluate: fn(&Vec<u64>, &Vec<u64>, &Vec<u64>) -> Vec<u64>,
) -> Option<(usize, usize)> {
    let len = trace[0].len();
    for r in 0..len - 1 {
        let cur: Vec<u64> = trace.iter().map(|c| c[r]).collect();
        let next: Vec<u64> = trace.iter().map(|c| c[r + 1]).collect();
        let per: Vec<u64> = periodic.iter().map(|c| c[r % c.len()]).collect();
        if let Some(k) = evaluate(&cur, &next, &per).iter().position(|v| *v != 0) {
            return Some((r, k));
        }
    }
    None
}

// Every step of an honest settlement satisfies every transition constraint,
// and a trace that credits more than it debits breaks the receiver's
// balance constraint (96) on its first step.
#[test]
fn an_honest_settlement_satisfies_the_constraints() {
    let periodic = periodic_columns();
    let s = scenario(1_000_000, 250_000, 250_000, 500_000);
    assert_eq!(first_violation(&trace_of(&s), &periodic, evaluate_transition), None);
    let creation = scenario(1_000_000, 250_000, 300_000, 500_000);
    assert_eq!(first_violation(&trace_of(&creation), &periodic, evaluate_transition), Some((0, 96)));
}

#[test]
fn derived_public_inputs_meet_every_assertion() {
    let s = scenario(1_000_000, 250_000, 250_000, 500_000);
    let trace = trace_of(&s);
    let derived = public_inputs_of(&trace);
    let all = assertions(&derived);
    assert_eq!(all.len(), 51);
    for (k, &(col, row, value)) in all.iter().enumerate() {
        assert_eq!(trace[col][row], value, "assertion {k}");
    }
}
