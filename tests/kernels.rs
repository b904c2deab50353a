use qir_interp::error::QirError;
use qir_interp::statevec::StateVector;

#[test]
fn ground_state_has_one_at_index_zero() {
    let sv = StateVector::new(3, 0i64, 1i64);
    assert_eq!(sv.num_qubits(), 3);
    assert_eq!(sv.get_state(), &vec![1, 0, 0, 0, 0, 0, 0, 0]);
}

#[test]
fn pauli_x_moves_amplitude_to_flipped_index() {
    let mut sv = StateVector::new(2, 0i64, 1i64);
    sv.apply_x(1).unwrap();
    assert_eq!(sv.get_state(), &vec![0, 0, 1, 0]);
}

#[test]
fn pauli_x_twice_is_identity() {
    let mut sv = StateVector::new(2, 0i64, 1i64);
    sv.apply_gate_1q(0, |a, b| (a + 10, b + 20)).unwrap();
    let before = sv.get_state().clone();
    sv.apply_x(0).unwrap();
    assert_ne!(sv.get_state(), &before);
    sv.apply_x(0).unwrap();
    assert_eq!(sv.get_state(), &before);
}

#[test]
fn gate_pairs_indices_by_target_bit() {
    let mut sv = StateVector::new(2, 0i64, 1i64);
    // (a, b) -> (a, a + b) on qubit 1 pairs index 0 with 2 and 1 with 3.
    sv.apply_gate_1q(1, |a, b| (a, a + b)).unwrap();
    assert_eq!(sv.get_state(), &vec![1, 0, 1, 0]);
    sv.apply_gate_1q(0, |a, b| (a * 2, a * 3 + b)).unwrap();
    assert_eq!(sv.get_state(), &vec![2, 3, 2, 3]);
}

#[test]
fn cnot_flips_target_where_control_set() {
    let mut sv = StateVector::new(2, 0i64, 1i64);
    sv.apply_x(0).unwrap();
    sv.apply_cnot(0, 1).unwrap();
    assert_eq!(sv.get_state(), &vec![0, 0, 0, 1]);
    sv.apply_cnot(1, 0).unwrap();
    assert_eq!(sv.get_state(), &vec![0, 0, 1, 0]);
}

#[test]
fn cnot_twice_is_identity() {
    let mut sv = StateVector::new(3, 0i64, 1i64);
    sv.apply_gate_1q(0, |a, b| (a + 1, b + 2)).unwrap();
    sv.apply_gate_1q(2, |a, b| (a * 3, b + 5)).unwrap();
    let before = sv.get_state().clone();
    sv.apply_cnot(0, 2).unwrap();
    assert_ne!(sv.get_state(), &before);
    sv.apply_cnot(0, 2).unwrap();
    assert_eq!(sv.get_state(), &before);
}

#[test]
fn cnot_with_equal_control_and_target_does_nothing() {
    let mut sv = StateVector::new(2, 0i64, 1i64);
    sv.apply_gate_1q(0, |a, b| (a, b + 4)).unwrap();
    let before = sv.get_state().clone();
    sv.apply_cnot(0, 0).unwrap();
    assert_eq!(sv.get_state(), &before);
}

#[test]
fn cz_negates_where_both_bits_set() {
    let mut sv = StateVector::new(2, 0i64, 1i64);
    sv.apply_gate_1q(0, |a, b| (a, a + b)).unwrap();
    sv.apply_gate_1q(1, |a, b| (a, a + b)).unwrap();
    assert_eq!(sv.get_state(), &vec![1, 1, 1, 1]);
    sv.apply_cz(0, 1, |a| -a).unwrap();
    assert_eq!(sv.get_state(), &vec![1, 1, 1, -1]);
}

#[test]
fn out_of_range_qubit_is_a_simulator_error() {
    let mut sv = StateVector::new(2, 0i64, 1i64);
    assert!(matches!(sv.apply_x(2), Err(QirError::SimulatorError(_))));
    assert!(matches!(sv.apply_cnot(0, 5), Err(QirError::SimulatorError(_))));
    assert!(matches!(sv.apply_cz(3, 0, |a| -a), Err(QirError::SimulatorError(_))));
    assert!(matches!(sv.collapse(2, true, |a| a, 0), Err(QirError::SimulatorError(_))));
    assert!(matches!(sv.apply_gate_1q(9, |a, b| (b, a)), Err(QirError::SimulatorError(_))));
    assert_eq!(sv.get_state(), &vec![1, 0, 0, 0]);
}

#[test]
fn branches_select_by_target_bit() {
    let mut sv = StateVector::new(2, 0i64, 1i64);
    sv.apply_gate_1q(0, |a, b| (a + 1, b + 2)).unwrap();
    sv.apply_gate_1q(1, |a, b| (a, a + b + 10)).unwrap();
    assert_eq!(sv.get_state(), &vec![2, 2, 13, 14]);
    sv.apply_gate_1q(0, |a, b| (a, b + 1)).unwrap();
    assert_eq!(sv.amplitudes_where(0, false), vec![2, 13]);
    assert_eq!(sv.amplitudes_where(0, true), vec![3, 15]);
    assert_eq!(sv.amplitudes_where(1, true), vec![13, 15]);
}

#[test]
fn collapse_keeps_drawn_branch_only() {
    let mut sv = StateVector::new(2, 0i64, 1i64);
    sv.apply_gate_1q(0, |a, b| (a + 1, b + 2)).unwrap();
    sv.apply_gate_1q(1, |a, b| (a, a + b + 10)).unwrap();
    sv.collapse(1, true, |a| a * 10, 0).unwrap();
    assert_eq!(sv.get_state(), &vec![0, 0, 130, 140]);
}
