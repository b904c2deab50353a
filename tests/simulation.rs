use num_complex::Complex64;
use qir_interp::decode::Payload;
use qir_interp::error::QirError;
use qir_interp::parser::{Interpreter, Step};
use qir_interp::qis_bridge::{Axis, Gate, Op};
use qir_interp::statevec::StateVector;
use rand::Rng;

const S: f64 = std::f64::consts::FRAC_1_SQRT_2;

fn c(re: f64, im: f64) -> Complex64 {
    Complex64::new(re, im)
}

fn ground(n: usize) -> StateVector<Complex64> {
    StateVector::new(n, c(0.0, 0.0), c(1.0, 0.0))
}

fn apply_matrix(sv: &mut StateVector<Complex64>, q: usize, m: [[Complex64; 2]; 2]) -> Result<(), QirError> {
    sv.apply_gate_1q(q, move |a, b| (m[0][0] * a + m[0][1] * b, m[1][0] * a + m[1][1] * b))
}

fn gate_matrix(g: Gate) -> [[Complex64; 2]; 2] {
    match g {
        Gate::H => [[c(S, 0.0), c(S, 0.0)], [c(S, 0.0), c(-S, 0.0)]],
        Gate::X => [[c(0.0, 0.0), c(1.0, 0.0)], [c(1.0, 0.0), c(0.0, 0.0)]],
        Gate::Y => [[c(0.0, 0.0), c(0.0, -1.0)], [c(0.0, 1.0), c(0.0, 0.0)]],
        Gate::Z => [[c(1.0, 0.0), c(0.0, 0.0)], [c(0.0, 0.0), c(-1.0, 0.0)]],
        Gate::S => [[c(1.0, 0.0), c(0.0, 0.0)], [c(0.0, 0.0), c(0.0, 1.0)]],
        Gate::T => [[c(1.0, 0.0), c(0.0, 0.0)], [c(0.0, 0.0), c(S, S)]],
    }
}

fn rotation_matrix(axis: Axis, theta: f64) -> [[Complex64; 2]; 2] {
    let (sin, cos) = (theta / 2.0).sin_cos();
    match axis {
        Axis::X => [[c(cos, 0.0), c(0.0, -sin)], [c(0.0, -sin), c(cos, 0.0)]],
        Axis::Y => [[c(cos, 0.0), c(-sin, 0.0)], [c(sin, 0.0), c(cos, 0.0)]],
        Axis::Z => [[c(cos, -sin), c(0.0, 0.0)], [c(0.0, 0.0), c(cos, sin)]],
    }
}

fn norm(sv: &StateVector<Complex64>) -> f64 {
    sv.get_state().iter().map(|a| a.norm_sqr()).sum()
}

fn measure(sv: &mut StateVector<Complex64>, q: usize) -> Result<bool, QirError> {
    if q >= sv.num_qubits() {
        return Err(QirError::SimulatorError("qubit index out of range".to_string()));
    }
    let p0: f64 = sv.amplitudes_where(q, false).iter().map(|a| a.norm_sqr()).sum();
    let outcome = rand::thread_rng().gen_bool((1.0 - p0).clamp(0.0, 1.0));
    let p = if outcome { 1.0 - p0 } else { p0 };
    if p < 1e-15 {
        return Ok(outcome);
    }
    let scale = p.sqrt();
    sv.collapse(q, outcome, move |a| a / scale, c(0.0, 0.0))?;
    Ok(outcome)
}

fn run(lines: &[&str], n: usize) -> Result<(Interpreter, StateVector<Complex64>), QirError> {
    let text: Vec<String> = lines.iter().map(|s| s.to_string()).collect();
    let mut it = Interpreter::new(&text, n);
    let mut sv = ground(n);
    loop {
        match it.step()? {
            Step::Done => break,
            Step::Continue | Step::Skipped(_) => {}
            Step::Apply(op) => match op {
                Op::Gate(Gate::X, q) => sv.apply_x(q)?,
                Op::Gate(g, q) => apply_matrix(&mut sv, q, gate_matrix(g))?,
                Op::Rotate(axis, p, q) => {
                    let theta = match p {
                        Payload::Bits(b) => f64::from_bits(b),
                        Payload::Float(t) => std::str::from_utf8(&t).unwrap().parse().unwrap(),
                    };
                    apply_matrix(&mut sv, q, rotation_matrix(axis, theta))?
                }
                Op::Cnot(ctl, t) => sv.apply_cnot(ctl, t)?,
                Op::Cz(ctl, t) => sv.apply_cz(ctl, t, |a| -a)?,
                Op::Measure(q, _) => {
                    let o = measure(&mut sv, q)?;
                    it.resume(o);
                }
                Op::ReadResult(_) | Op::Unsupported => {}
            },
        }
    }
    Ok((it, sv))
}

#[test]
fn single_qubit_gates_preserve_norm() {
    let mut sv = ground(3);
    apply_matrix(&mut sv, 0, gate_matrix(Gate::H)).unwrap();
    apply_matrix(&mut sv, 1, rotation_matrix(Axis::X, 0.7)).unwrap();
    apply_matrix(&mut sv, 2, rotation_matrix(Axis::Y, 1.3)).unwrap();
    apply_matrix(&mut sv, 1, gate_matrix(Gate::T)).unwrap();
    apply_matrix(&mut sv, 0, rotation_matrix(Axis::Z, 2.1)).unwrap();
    apply_matrix(&mut sv, 2, gate_matrix(Gate::Y)).unwrap();
    apply_matrix(&mut sv, 0, gate_matrix(Gate::S)).unwrap();
    assert!((norm(&sv) - 1.0).abs() < 1e-12);
}

#[test]
fn hadamard_twice_returns_ground_state() {
    let mut sv = ground(2);
    apply_matrix(&mut sv, 1, gate_matrix(Gate::H)).unwrap();
    assert!((sv.get_state()[2].re - S).abs() < 1e-12);
    apply_matrix(&mut sv, 1, gate_matrix(Gate::H)).unwrap();
    let st = sv.get_state();
    assert!((st[0] - c(1.0, 0.0)).norm() < 1e-12);
    for a in &st[1..] {
        assert!(a.norm() < 1e-12);
    }
}

#[test]
fn measuring_basis_state_is_deterministic() {
    for _ in 0..50 {
        let mut sv = ground(2);
        sv.apply_x(1).unwrap();
        let before = sv.get_state().clone();
        assert!(measure(&mut sv, 1).unwrap());
        assert!(!measure(&mut sv, 0).unwrap());
        for (a, b) in sv.get_state().iter().zip(before.iter()) {
            assert!((a - b).norm() < 1e-12);
        }
    }
}

#[test]
fn hadamard_then_measure_is_balanced() {
    let mut ones = 0;
    for _ in 0..1000 {
        let mut sv = ground(1);
        apply_matrix(&mut sv, 0, gate_matrix(Gate::H)).unwrap();
        if measure(&mut sv, 0).unwrap() {
            ones += 1;
        }
        assert!((norm(&sv) - 1.0).abs() < 1e-12);
    }
    assert!(ones > 400 && ones < 600, "ones = {}", ones);
}

#[test]
fn measured_outcome_reads_back_through_read_result() {
    let prog = [
        "call void @__quantum__qis__h__body(%Qubit* null)",
        "call void @__quantum__qis__mz__body(%Qubit* null, %Result* inttoptr (i64 4 to %Result*))",
        "%v = call i1 @__quantum__qis__read_result__body(%Result* inttoptr (i64 4 to %Result*))",
    ];
    for _ in 0..20 {
        let (it, _) = run(&prog, 1).unwrap();
        assert_eq!(it.variable(b"v"), it.get_result_value(4));
    }
}

#[test]
fn program_h_mz_is_balanced_over_runs() {
    let prog = [
        "entry:",
        "  call void @__quantum__qis__h__body(%Qubit* null)",
        "  call void @__quantum__qis__mz__body(%Qubit* null, %Result* null)",
        "  ret void",
    ];
    let mut ones = 0;
    for _ in 0..1000 {
        let (it, _) = run(&prog, 1).unwrap();
        if it.get_result_value(0) {
            ones += 1;
        }
    }
    assert!(ones >= 450 && ones <= 550, "ones = {}", ones);
}

#[test]
fn bell_pair_outcomes_agree() {
    let prog = [
        "call void @__quantum__qis__h__body(%Qubit* null)",
        "call void @__quantum__qis__cnot__body(%Qubit* null, %Qubit* inttoptr (i64 1 to %Qubit*))",
        "call void @__quantum__qis__mz__body(%Qubit* null, %Result* null)",
        "call void @__quantum__qis__mz__body(%Qubit* inttoptr (i64 1 to %Qubit*), %Result* inttoptr (i64 1 to %Result*))",
    ];
    for _ in 0..200 {
        let (it, _) = run(&prog, 2).unwrap();
        assert_eq!(it.get_result_value(0), it.get_result_value(1));
    }
}

#[test]
fn rotation_angle_crosses_as_float_literal() {
    let prog = ["call void @__quantum__qis__rx__body(double 3.141592653589793, %Qubit* null)"];
    let (_, sv) = run(&prog, 1).unwrap();
    assert!(sv.get_state()[0].norm() < 1e-12);
    assert!((sv.get_state()[1].norm() - 1.0).abs() < 1e-12);
}
