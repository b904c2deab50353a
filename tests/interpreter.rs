use qir_interp::error::QirError;
use qir_interp::parser::{Interpreter, Step};
use qir_interp::qis_bridge::{Gate, Op};

fn program(lines: &[&str]) -> Vec<String> {
    lines.iter().map(|s| s.to_string()).collect()
}

#[test]
fn branch_skips_to_later_label() {
    let text = program(&[
        "br label %skip",
        "call void @__quantum__qis__x__body(%Qubit* null)",
        "skip:",
        "call void @__quantum__qis__h__body(%Qubit* null)",
    ]);
    let mut it = Interpreter::new(&text, 1);
    assert_eq!(it.step(), Ok(Step::Continue));
    assert_eq!(it.program_counter(), 2);
    assert_eq!(it.step(), Ok(Step::Continue));
    assert_eq!(it.step(), Ok(Step::Apply(Op::Gate(Gate::H, 0))));
    assert!(it.is_done());
    assert_eq!(it.step(), Ok(Step::Done));
}

#[test]
fn unset_condition_takes_else_label() {
    let text = program(&[
        "br i1 %v, label %yes, label %no",
        "yes:",
        "call void @__quantum__qis__x__body(%Qubit* null)",
        "no:",
        "call void @__quantum__qis__z__body(%Qubit* null)",
    ]);
    let mut it = Interpreter::new(&text, 1);
    assert!(!it.variable(b"v"));
    assert_eq!(it.step(), Ok(Step::Continue));
    assert_eq!(it.program_counter(), 3);
}

#[test]
fn measured_variable_drives_branch() {
    let text = program(&[
        "%r = call i1 @__quantum__qis__mz__body(%Qubit* null, %Result* inttoptr (i64 3 to %Result*))",
        "br i1 %r, label %one, label %zero",
        "zero:",
        "one:",
    ]);
    let mut it = Interpreter::new(&text, 1);
    assert_eq!(it.step(), Ok(Step::Apply(Op::Measure(0, Some(3)))));
    it.resume(true);
    assert!(it.variable(b"r"));
    assert!(it.get_result_value(3));
    assert_eq!(it.step(), Ok(Step::Continue));
    assert_eq!(it.program_counter(), 3);
}

#[test]
fn undefined_label_is_a_parse_error() {
    let text = program(&["br label %nowhere"]);
    let mut it = Interpreter::new(&text, 1);
    assert!(matches!(it.step(), Err(QirError::ParseError(_))));
}

#[test]
fn unknown_operator_is_skipped() {
    let text = program(&["call void @__quantum__qis__swap__body(%Qubit* null, %Qubit* null)"]);
    let mut it = Interpreter::new(&text, 1);
    assert_eq!(it.step(), Ok(Step::Skipped(b"__quantum__qis__swap__body".to_vec())));
    assert_eq!(it.step(), Ok(Step::Done));
}

#[test]
fn too_many_qubits_is_an_instruction_error() {
    let text = program(&[
        "call void @__quantum__qis__h__body(%Qubit* null)",
        "call void @__quantum__qis__h__body(%Qubit* inttoptr (i64 1 to %Qubit*))",
    ]);
    let mut it = Interpreter::new(&text, 1);
    assert_eq!(it.step(), Ok(Step::Apply(Op::Gate(Gate::H, 0))));
    assert!(matches!(it.step(), Err(QirError::InstructionError(_))));
}

#[test]
fn read_result_binds_recorded_outcome() {
    let text = program(&[
        "call void @__quantum__qis__mz__body(%Qubit* null, %Result* null)",
        "%b = call i1 @__quantum__qis__read_result__body(%Result* null)",
    ]);
    let mut it = Interpreter::new(&text, 1);
    assert_eq!(it.step(), Ok(Step::Apply(Op::Measure(0, Some(0)))));
    it.resume(true);
    assert!(!it.variable(b"b"));
    assert_eq!(it.step(), Ok(Step::Continue));
    assert!(it.variable(b"b"));
}

#[test]
fn error_message_is_kept() {
    let e = QirError::ParseError("x".to_string());
    assert_eq!(e.message(), "x".to_string());
}
