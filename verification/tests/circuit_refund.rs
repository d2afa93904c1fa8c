use stark_experiment::circuit_refund::{
    build_trace, native_refund_commitment, native_refund_commitment_v2, public_inputs_of, RefundPublicInputs,
    ROW_AMOUNT, ROW_P, TRACE_LENGTH, TRACE_WIDTH,
};
use stark_experiment::circuit_refund_v2;
use stark_experiment::field::felt;
use stark_experiment::rescue::{as_digest, native_merge, Digest};

fn digest_from(n: u64) -> Digest {
    [felt(n), felt(n + 1), felt(n + 2), felt(n + 3)]
}

#[test]
fn trace_commitment_matches_native_computation() {
    let receptor = digest_from(1000);
    let salt = digest_from(2000);
    let importe = 250_000u64;
    let trace = build_trace(&receptor, &salt, importe);
    assert_eq!(trace.len(), TRACE_WIDTH);
    assert_eq!(trace[0].len(), TRACE_LENGTH);
    let esperado = native_refund_commitment(&receptor, &salt, importe);
    for i in 0..4 {
        assert_eq!(trace[4 + i][ROW_P], esperado[i], "element {i}");
    }
    assert_eq!(trace[8][ROW_AMOUNT], importe);
    for i in 9..12 {
        assert_eq!(trace[i][ROW_AMOUNT], 0);
    }
    assert_eq!(
        public_inputs_of(&trace),
        RefundPublicInputs { commitment: esperado, amount: importe }
    );
}

#[test]
fn refund_commitment_depends_on_every_input() {
    let base = native_refund_commitment(&digest_from(1000), &digest_from(2000), 250_000);
    assert_ne!(base, native_refund_commitment(&digest_from(1001), &digest_from(2000), 250_000));
    assert_ne!(base, native_refund_commitment(&digest_from(1000), &digest_from(2001), 250_000));
    assert_ne!(base, native_refund_commitment(&digest_from(1000), &digest_from(2000), 250_001));
    let expected = native_merge(&native_merge(&digest_from(1000), &digest_from(2000)), &as_digest(250_000));
    assert_eq!(base, expected);
}

#[test]
fn v2_trace_matches_native_computation() {
    let receptor = digest_from(1000);
    let salt = digest_from(2000);
    let importe = 250_000u64;
    let f = digest_from(9000);
    let delta = 40u64;
    let trace = circuit_refund_v2::build_trace(&receptor, &salt, importe, &f, delta);
    let esperado = native_refund_commitment_v2(&receptor, &salt, importe, &f, delta);
    for i in 0..4 {
        assert_eq!(trace[4 + i][circuit_refund_v2::ROW_P], esperado[i], "C2 element {i}");
    }
    assert_eq!(trace[8][circuit_refund_v2::ROW_AMOUNT], importe);
    let x = native_merge(&f, &as_digest(delta));
    for r in 0..circuit_refund_v2::TRACE_LENGTH {
        for i in 0..4 {
            let carried = trace[circuit_refund_v2::COL_X + i][r];
            if r < 8 {
                assert_eq!(carried, 0);
            } else {
                assert_eq!(carried, x[i]);
            }
        }
    }
    let pi = circuit_refund_v2::public_inputs_of(&trace);
    assert_eq!(pi, RefundPublicInputs { commitment: esperado, amount: importe });
}

#[test]
fn v2_commitment_is_not_the_v1_commitment() {
    let receptor = digest_from(1000);
    let salt = digest_from(2000);
    let v1 = native_refund_commitment(&receptor, &salt, 250_000);
    let v2 = native_refund_commitment_v2(&receptor, &salt, 250_000, &digest_from(9000), 40);
    assert_ne!(v1, v2);
    assert_ne!(v2, native_refund_commitment_v2(&receptor, &salt, 250_000, &digest_from(9000), 41));
}

#[test]
fn refund_assertions_bind_the_public_inputs() {
    let pi = RefundPublicInputs { commitment: digest_from(7), amount: 99 };
    let a = stark_experiment::circuit_refund::assertions(&pi);
    assert_eq!(a.len(), 12);
    assert_eq!(a[4], (8, ROW_AMOUNT, 99));
    assert_eq!(a[8], (4, ROW_P, 7));
    assert_eq!(a[11], (7, ROW_P, 10));
    let a2 = circuit_refund_v2::assertions(&pi);
    assert_eq!(a2.len(), 16);
    assert_eq!(a2[4], (12, 0, 0));
    assert_eq!(a2[15], (7, circuit_refund_v2::ROW_P, 10));
}

#[test]
fn the_link_rows_reset_the_capacity_and_carry_the_digest() {
    let t = build_trace(&digest_from(1000), &digest_from(2000), 750);
    for i in 0..4 {
        assert_eq!(t[i][8], 0);
        assert_eq!(t[4 + i][8], t[4 + i][7]);
    }
}

#[test]
fn the_envelope_is_captured_kept_and_absorbed() {
    let x = circuit_refund_v2::COL_X;
    let t = circuit_refund_v2::build_trace(&digest_from(1000), &digest_from(2000), 750, &digest_from(3000), 5);
    for i in 0..4 {
        assert_eq!(t[x + i][8], t[4 + i][7]);
        for r in 8..31 {
            assert_eq!(t[x + i][r + 1], t[x + i][r]);
        }
        assert_eq!(t[8 + i][24], t[x + i][23]);
        assert_eq!(t[4 + i][16], t[4 + i][15]);
        assert_eq!(t[4 + i][24], t[4 + i][23]);
        assert_eq!(t[i][16], 0);
        assert_eq!(t[i][24], 0);
    }
}

fn first_violation(
    trace: &Vec<Vec<u64>>,
    periodic: &Vec<Vec<u64>>,
    evaluate: fn(&Vec<u64>, &Vec<u64>, &Vec<u64>) -> Vec<u64>,
) -> Option<(usize, usize)> {
    let len = trace[0].len();
    for r in 0..len - 1 {
        let cur: Vec<u64> = trace.iter().map(|c| c[r]).collect();
        let next: Vec<u64> = trace.iter().map(|c| c[r + 1]).collect();
        let per: Vec<u64> = periodic.iter().map(|c| c[r % c.len()]).collect();
        if let Some(k) = evaluate(&cur, &next, &per).iter().position(|v| *v != 0) {
            return Some((r, k));
        }
    }
    None
}

#[test]
fn honest_openings_satisfy_the_constraints() {
    let t = build_trace(&digest_from(1000), &digest_from(2000), 750);
    let periodic = stark_experiment::circuit_refund::periodic_columns();
    assert_eq!(first_violation(&t, &periodic, stark_experiment::circuit_refund::evaluate_transition), None);
    let t = circuit_refund_v2::build_trace(&digest_from(1000), &digest_from(2000), 750, &digest_from(3000), 5);
    let periodic = circuit_refund_v2::periodic_columns();
    assert_eq!(first_violation(&t, &periodic, circuit_refund_v2::evaluate_transition), None);
}
