use stark_experiment::census::{cuenta, traza_constante, CLAVE, FILAS};
use stark_experiment::compliance_circuit::{native_leaf, native_nullifier, native_root, TREE_DEPTH};
use stark_experiment::field::{fadd, felt, fmul};
use stark_experiment::iso_bridge::{blank, prepare_settlement, validate_message, BridgeError, Pacs008Message};
use stark_experiment::merkle::MerklePath;
use stark_experiment::rescue::Digest;

fn digest_from(n: u64) -> Digest {
    [felt(n), felt(n + 1), felt(n + 2), felt(n + 3)]
}

fn sample_path() -> MerklePath {
    MerklePath {
        siblings: (0..TREE_DEPTH).map(|i| digest_from(i as u64 * 10)).collect(),
        is_right: (0..TREE_DEPTH).map(|i| i % 3 == 0).collect(),
    }
}

fn sample_message(amount: u64) -> Pacs008Message {
    Pacs008Message {
        message_id: "MSG-2026-0001".into(),
        debtor_bic: "BBVAESMMXXX".into(),
        creditor_bic: "CAIXESBBXXX".into(),
        currency: "EUR".into(),
        instructed_amount_minor_units: amount,
    }
}

#[test]
fn malformed_messages_are_rejected_before_proving() {
    let cases = vec![
        (Pacs008Message { message_id: "   ".into(), ..sample_message(1000) }, "blank message_id"),
        (Pacs008Message { debtor_bic: "".into(), ..sample_message(1000) }, "empty debtor_bic"),
        (sample_message(0), "zero amount"),
    ];
    for (message, description) in cases {
        let result = prepare_settlement(&message, 12345, 1_000_000, 1, &sample_path(), 500_000);
        assert!(matches!(result, Err(BridgeError::InvalidMessage(_))), "should be rejected: {description}");
    }
}

#[test]
fn each_check_gives_its_own_message() {
    let blank_id = Pacs008Message { message_id: "\t \n".into(), ..sample_message(10) };
    match validate_message(&blank_id) {
        Err(BridgeError::InvalidMessage(m)) => assert_eq!(m, "message_id no puede estar vacio"),
        other => panic!("unexpected {other:?}"),
    }
    let blank_creditor = Pacs008Message { creditor_bic: "\u{3000}".into(), ..sample_message(10) };
    match validate_message(&blank_creditor) {
        Err(BridgeError::InvalidMessage(m)) => assert_eq!(m, "debtor_bic y creditor_bic son obligatorios"),
        other => panic!("unexpected {other:?}"),
    }
    match validate_message(&sample_message(0)) {
        Err(BridgeError::InvalidMessage(m)) => assert_eq!(m, "el importe instruido no puede ser cero"),
        other => panic!("unexpected {other:?}"),
    }
    assert!(validate_message(&sample_message(1)).is_ok());
    assert!(validate_message(&Pacs008Message { message_id: " x ".into(), ..sample_message(1) }).is_ok());
}

#[test]
fn blank_agrees_with_trim() {
    for s in ["", " ", "\t\r\n", "\u{00A0}", "\u{2003}\u{205F}", "a", " a ", "\u{200B}", "MSG"] {
        assert_eq!(blank(s), s.trim().is_empty(), "{s:?}");
    }
}

#[test]
fn a_valid_message_yields_the_compliance_statement() {
    let message = sample_message(250_000);
    let path = sample_path();
    let statement = prepare_settlement(&message, 12345, 1_000_000, 1, &path, 500_000).expect("a valid message");
    let leaf = native_leaf(12345, 1_000_000, 1);
    assert_eq!(statement.public_inputs.state_root, native_root(&leaf, &path));
    assert_eq!(statement.public_inputs.nullifier, native_nullifier(12345, 1));
    assert_eq!(statement.public_inputs.regulatory_limit, 500_000);
    let derived = stark_experiment::compliance_circuit::public_inputs_of(&statement.trace);
    assert_eq!(derived.to_elements(), statement.public_inputs.to_elements());
}

#[test]
fn cuenta_counts_overlapping_encodings() {
    let v = 0x0102_0304_0506_0708u64;
    let mut bytes = vec![0xAAu8; 3];
    bytes.extend_from_slice(&v.to_le_bytes());
    bytes.extend_from_slice(&[0x55, 0x66]);
    bytes.extend_from_slice(&v.to_le_bytes());
    assert_eq!(cuenta(&bytes, v), 2);
    assert_eq!(cuenta(&bytes, v + 1), 0);
    assert_eq!(cuenta(&bytes[..7], v), 0);
    let zeros = vec![0u8; 10];
    assert_eq!(cuenta(&zeros, 0), 3);
}

#[test]
fn traza_constante_follows_its_recurrence() {
    let (cols, last) = traza_constante();
    assert_eq!(cols.len(), 3);
    assert_eq!(cols[0].len(), FILAS);
    assert!(cols[0].iter().all(|v| *v == felt(CLAVE)));
    assert_eq!(cols[2][0], fadd(felt(CLAVE), 2));
    for i in 1..FILAS {
        assert_eq!(cols[1][i], i as u64);
        let y = cols[2][i - 1];
        let y2 = fmul(y, y);
        let y4 = fmul(y2, y2);
        assert_eq!(cols[2][i], fadd(fmul(fmul(y4, y2), y), cols[1][i - 1]));
    }
    assert_eq!(last, cols[2][FILAS - 1]);
}
