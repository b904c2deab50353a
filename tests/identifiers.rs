use qir_interp::decode::Payload;
use qir_interp::error::QirError;
use qir_interp::memory::QirMemory;
use qir_interp::qis_bridge::{kind_of_name, Axis, Gate, Op, OpKind, QisBridge};

#[test]
fn qubit_indices_are_dense_in_first_seen_order() {
    let mut m = QirMemory::new();
    assert_eq!(m.get_qubit(100), 0);
    assert_eq!(m.get_qubit(7), 1);
    assert_eq!(m.get_qubit(100), 0);
    assert_eq!(m.qubit_len(), 2);
    assert!(m.has_qubit(7));
    assert!(!m.has_qubit(8));
}

#[test]
fn result_indices_are_independent_of_qubit_indices() {
    let mut m = QirMemory::new();
    assert_eq!(m.get_qubit(5), 0);
    assert_eq!(m.get_qubit(6), 1);
    assert_eq!(m.get_result(6), 0);
    assert_eq!(m.get_result(9), 1);
    assert_eq!(m.get_result(6), 0);
}

#[test]
fn unrecorded_outcome_reads_false() {
    let mut m = QirMemory::new();
    assert!(!m.get_result_value(3));
    m.set_result_value(3, true);
    assert!(m.get_result_value(3));
    m.set_result_value(3, false);
    assert!(!m.get_result_value(3));
}

#[test]
fn operator_names_map_to_kinds() {
    assert_eq!(kind_of_name(b"__quantum__qis__h__body"), OpKind::Gate(Gate::H));
    assert_eq!(kind_of_name(b"__quantum__qis__t__body"), OpKind::Gate(Gate::T));
    assert_eq!(kind_of_name(b"__quantum__qis__cnot__body"), OpKind::Cnot);
    assert_eq!(kind_of_name(b"__quantum__qis__rz__body"), OpKind::Rotate(Axis::Z));
    assert_eq!(kind_of_name(b"__quantum__qis__mz__body"), OpKind::Mz);
    assert_eq!(kind_of_name(b"__quantum__qis__read_result__body"), OpKind::ReadResult);
    assert_eq!(kind_of_name(b"__quantum__qis__swap__body"), OpKind::Unsupported);
    assert_eq!(kind_of_name(b"__quantum__rt__result_record_output"), OpKind::Unsupported);
}

#[test]
fn bridge_resolves_handles() {
    let mut br = QisBridge::new(2);
    let r = br.call_qis(b"__quantum__qis__h__body", &vec![Payload::Bits(40)]);
    assert_eq!(r, Ok(Op::Gate(Gate::H, 0)));
    let r = br.call_qis(b"__quantum__qis__cnot__body", &vec![Payload::Bits(40), Payload::Bits(41)]);
    assert_eq!(r, Ok(Op::Cnot(0, 1)));
    let r = br.call_qis(
        b"__quantum__qis__rx__body",
        &vec![Payload::Float(b"0.5".to_vec()), Payload::Bits(41)],
    );
    assert_eq!(r, Ok(Op::Rotate(Axis::X, Payload::Float(b"0.5".to_vec()), 1)));
}

#[test]
fn bridge_rejects_handle_beyond_qubit_count() {
    let mut br = QisBridge::new(1);
    assert_eq!(br.call_qis(b"__quantum__qis__x__body", &vec![Payload::Bits(0)]), Ok(Op::Gate(Gate::X, 0)));
    let r = br.call_qis(b"__quantum__qis__x__body", &vec![Payload::Bits(1)]);
    assert!(matches!(r, Err(QirError::InstructionError(_))));
}

#[test]
fn bridge_rejects_missing_operand() {
    let mut br = QisBridge::new(2);
    let r = br.call_qis(b"__quantum__qis__cz__body", &vec![Payload::Bits(0)]);
    assert!(matches!(r, Err(QirError::InstructionError(_))));
    let r = br.call_qis(b"__quantum__qis__h__body", &vec![Payload::Float(b"1.0".to_vec())]);
    assert!(matches!(r, Err(QirError::InstructionError(_))));
}

#[test]
fn bridge_skips_unknown_operator() {
    let mut br = QisBridge::new(1);
    assert_eq!(br.call_qis(b"__quantum__qis__swap__body", &vec![]), Ok(Op::Unsupported));
}

#[test]
fn measurement_keeps_result_handle() {
    let mut br = QisBridge::new(1);
    assert_eq!(
        br.call_qis(b"__quantum__qis__mz__body", &vec![Payload::Bits(0), Payload::Bits(9)]),
        Ok(Op::Measure(0, Some(9)))
    );
    assert_eq!(br.call_qis(b"__quantum__qis__mz__body", &vec![Payload::Bits(0)]), Ok(Op::Measure(0, None)));
}

#[test]
fn recorded_outcome_reads_back() {
    let mut br = QisBridge::new(1);
    br.record(9, true);
    assert!(br.get_result_value(9));
    assert_eq!(
        br.call_qis(b"__quantum__qis__read_result__body", &vec![Payload::Bits(9)]),
        Ok(Op::ReadResult(true))
    );
    assert_eq!(
        br.call_qis(b"__quantum__qis__read_result__body", &vec![Payload::Bits(8)]),
        Ok(Op::ReadResult(false))
    );
}
