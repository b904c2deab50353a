use crate::decode::{
    bytes_eq, copy_range, lit_at, lit_at_bytes, payloads_view, qis_prefix, Payload, PayloadSpec,
};
use crate::error::QirError;
use crate::memory::QirMemory;
use vstd::prelude::*;

verus! {

/// A fixed single-qubit gate.
#[derive(Clone, Copy, PartialEq, Eq, Structural, Debug)]
pub enum Gate {
    H,
    X,
    Y,
    Z,
    S,
    T,
}

/// The axis of a rotation.
#[derive(Clone, Copy, PartialEq, Eq, Structural, Debug)]
pub enum Axis {
    X,
    Y,
    Z,
}

/// What an operator name asks for.
#[derive(Clone, Copy, PartialEq, Eq, Structural, Debug)]
pub enum OpKind {
    Gate(Gate),
    Rotate(Axis),
    Cnot,
    Cz,
    Mz,
    ReadResult,
    Unsupported,
}

/// An engine operation, over spec values.
pub enum OpSpec {
    Gate(Gate, usize),
    Rotate(Axis, PayloadSpec, usize),
    Cnot(usize, usize),
    Cz(usize, usize),
    Measure(usize, Option<usize>),
    ReadResult(bool),
    Unsupported,
}

/// One engine operation, with qubit handles already turned into indices.
#[derive(Debug, Clone, PartialEq, Eq)]
pub enum Op {
    /// A fixed gate on a qubit index.
    Gate(Gate, usize),
    /// A rotation by the angle whose bit pattern is the payload.
    Rotate(Axis, Payload, usize),
    /// Control index, target index.
    Cnot(usize, usize),
    /// Control index, target index.
    Cz(usize, usize),
    /// Measure a qubit index, recording the outcome at the result handle if
    /// one is given.
    Measure(usize, Option<usize>),
    /// The outcome read back from a result handle.
    ReadResult(bool),
    /// An operator this engine does not know: nothing to do.
    Unsupported,
}

impl View for Op {
    type V = OpSpec;

    open spec fn view(&self) -> OpSpec {
        match self {
            Op::Gate(g, q) => OpSpec::Gate(*g, *q),
            Op::Rotate(a, p, q) => OpSpec::Rotate(*a, p@, *q),
            Op::Cnot(c, t) => OpSpec::Cnot(*c, *t),
            Op::Cz(c, t) => OpSpec::Cz(*c, *t),
            Op::Measure(q, r) => OpSpec::Measure(*q, *r),
            Op::ReadResult(b) => OpSpec::ReadResult(*b),
            Op::Unsupported => OpSpec::Unsupported,
        }
    }
}

/// `__body`
pub open spec fn body_suffix() -> Seq<u8> { seq![95u8, 95, 98, 111, 100, 121] }

/// The short name of an instruction-set operator `__quantum__qis__<name>__body`.
pub open spec fn op_suffix(name: Seq<u8>) -> Option<Seq<u8>> {
    if name.len() >= 22 && lit_at(name, 0, qis_prefix()) && lit_at(name, name.len() - 6, body_suffix()) {
        Some(name.subrange(16, name.len() - 6))
    } else {
        None
    }
}

pub open spec fn read_result_name() -> Seq<u8> {
    seq![114u8, 101, 97, 100, 95, 114, 101, 115, 117, 108, 116]
}

/// The dispatch table: what each operator name asks for.
pub open spec fn kind_of(name: Seq<u8>) -> OpKind {
    match op_suffix(name) {
        None => OpKind::Unsupported,
        Some(m) => if m == seq![104u8] {
            OpKind::Gate(Gate::H)
        } else if m == seq![120u8] {
            OpKind::Gate(Gate::X)
        } else if m == seq![121u8] {
            OpKind::Gate(Gate::Y)
        } else if m == seq![122u8] {
            OpKind::Gate(Gate::Z)
        } else if m == seq![115u8] {
            OpKind::Gate(Gate::S)
        } else if m == seq![116u8] {
            OpKind::Gate(Gate::T)
        } else if m == seq![99u8, 110, 111, 116] {
            OpKind::Cnot
        } else if m == seq![99u8, 122] {
            OpKind::Cz
        } else if m == seq![114u8, 120] {
            OpKind::Rotate(Axis::X)
        } else if m == seq![114u8, 121] {
            OpKind::Rotate(Axis::Y)
        } else if m == seq![114u8, 122] {
            OpKind::Rotate(Axis::Z)
        } else if m == seq![109u8, 122] {
            OpKind::Mz
        } else if m == read_result_name() {
            OpKind::ReadResult
        } else {
            OpKind::Unsupported
        },
    }
}

/// The handle a payload carries, if it is an integer that fits a `usize`.
pub open spec fn handle_of(p: PayloadSpec) -> Option<usize> {
    match p {
        PayloadSpec::Bits(b) => if b <= usize::MAX {
            Some(b as usize)
        } else {
            None
        },
        PayloadSpec::Float(_) => None,
    }
}

/// Resolving a qubit payload against the handle map `m` with `count` indices
/// handed out, for an engine of `n` qubits: the index and the map after. A
/// fresh handle takes the next index, which must be below `n`.
pub open spec fn qubit_step(m: Map<usize, usize>, count: nat, n: nat, p: PayloadSpec) -> Option<
    (usize, Map<usize, usize>, nat),
> {
    match handle_of(p) {
        None => None,
        Some(h) => if m.contains_key(h) {
            Some((m[h], m, count))
        } else if count < n {
            Some((count as usize, m.insert(h, count as usize), count + 1))
        } else {
            None
        },
    }
}

/// A two-qubit operator's operands resolved in order.
pub open spec fn two_qubits(m: Map<usize, usize>, count: nat, n: nat, a: PayloadSpec, b: PayloadSpec) -> Option<
    (usize, usize, Map<usize, usize>, nat),
> {
    match qubit_step(m, count, n, a) {
        None => None,
        Some((c, m1, k1)) => match qubit_step(m1, k1, n, b) {
            None => None,
            Some((t, m2, k2)) => Some((c, t, m2, k2)),
        },
    }
}

/// The outcome read back for handle `h` from recorded outcomes `o`.
pub open spec fn read_outcome(o: Map<usize, bool>, h: usize) -> bool {
    if o.contains_key(h) {
        o[h]
    } else {
        false
    }
}

/// What a call of operator `name` on `args` does: the operation with its
/// qubit indices and the handle map after, or `None` for an instruction
/// error (a missing operand, a non-integer handle, or no free qubit index).
pub open spec fn dispatch(
    m: Map<usize, usize>,
    count: nat,
    o: Map<usize, bool>,
    n: nat,
    name: Seq<u8>,
    args: Seq<PayloadSpec>,
) -> Option<(OpSpec, Map<usize, usize>, nat)> {
    match kind_of(name) {
        OpKind::Unsupported => Some((OpSpec::Unsupported, m, count)),
        OpKind::Gate(g) => if args.len() < 1 {
            None
        } else {
            match qubit_step(m, count, n, args[0]) {
                None => None,
                Some((q, m1, k1)) => Some((OpSpec::Gate(g, q), m1, k1)),
            }
        },
        OpKind::Rotate(a) => if args.len() < 2 {
            None
        } else {
            match qubit_step(m, count, n, args[1]) {
                None => None,
                Some((q, m1, k1)) => Some((OpSpec::Rotate(a, args[0], q), m1, k1)),
            }
        },
        OpKind::Cnot => if args.len() < 2 {
            None
        } else {
            match two_qubits(m, count, n, args[0], args[1]) {
                None => None,
                Some((c, t, m2, k2)) => Some((OpSpec::Cnot(c, t), m2, k2)),
            }
        },
        OpKind::Cz => if args.len() < 2 {
            None
        } else {
            match two_qubits(m, count, n, args[0], args[1]) {
                None => None,
                Some((c, t, m2, k2)) => Some((OpSpec::Cz(c, t), m2, k2)),
            }
        },
        OpKind::Mz => if args.len() < 1 {
            None
        } else if args.len() >= 2 && handle_of(args[1]) is None {
            None
        } else {
            match qubit_step(m, count, n, args[0]) {
                None => None,
                Some((q, m1, k1)) => Some(
                    (
                        OpSpec::Measure(q, if args.len() >= 2 { handle_of(args[1]) } else { None }),
                        m1,
                        k1,
                    ),
                ),
            }
        },
        OpKind::ReadResult => if args.len() < 1 {
            None
        } else {
            match handle_of(args[0]) {
                None => None,
                Some(h) => Some((OpSpec::ReadResult(read_outcome(o, h)), m, count)),
            }
        },
    }
}

/// The operator kind of `name`.
pub fn kind_of_name(name: &[u8]) -> (r: OpKind)
    ensures
        r == kind_of(name@),
{
    let qis: Vec<u8> = vec![95u8, 95, 113, 117, 97, 110, 116, 117, 109, 95, 95, 113, 105, 115, 95, 95];
    assert(qis@ == qis_prefix());
    let body: Vec<u8> = vec![95u8, 95, 98, 111, 100, 121];
    assert(body@ == body_suffix());
    if !(name.len() >= 22 && lit_at_bytes(name, 0, qis.as_slice()) && lit_at_bytes(
        name,
        name.len() - 6,
        body.as_slice(),
    )) {
        return OpKind::Unsupported;
    }
    let m = copy_range(name, 16, name.len() - 6);
    let m = m.as_slice();
    let h: Vec<u8> = vec![104u8];
    let x: Vec<u8> = vec![120u8];
    let y: Vec<u8> = vec![121u8];
    let z: Vec<u8> = vec![122u8];
    let s: Vec<u8> = vec![115u8];
    let t: Vec<u8> = vec![116u8];
    let cnot: Vec<u8> = vec![99u8, 110, 111, 116];
    let cz: Vec<u8> = vec![99u8, 122];
    let rx: Vec<u8> = vec![114u8, 120];
    let ry: Vec<u8> = vec![114u8, 121];
    let rz: Vec<u8> = vec![114u8, 122];
    let mz: Vec<u8> = vec![109u8, 122];
    let rr: Vec<u8> = vec![114u8, 101, 97, 100, 95, 114, 101, 115, 117, 108, 116];
    assert(rr@ == read_result_name());
    assert(h@ == seq![104u8] && x@ == seq![120u8] && y@ == seq![121u8] && z@ == seq![122u8]);
    assert(s@ == seq![115u8] && t@ == seq![116u8] && cnot@ == seq![99u8, 110, 111, 116]);
    assert(cz@ == seq![99u8, 122] && rx@ == seq![114u8, 120] && ry@ == seq![114u8, 121]);
    assert(rz@ == seq![114u8, 122] && mz@ == seq![109u8, 122]);
    assert(op_suffix(name@) == Some(m@));
    if bytes_eq(m, h.as_slice()) {
        OpKind::Gate(Gate::H)
    } else if bytes_eq(m, x.as_slice()) {
        OpKind::Gate(Gate::X)
    } else if bytes_eq(m, y.as_slice()) {
        OpKind::Gate(Gate::Y)
    } else if bytes_eq(m, z.as_slice()) {
        OpKind::Gate(Gate::Z)
    } else if bytes_eq(m, s.as_slice()) {
        OpKind::Gate(Gate::S)
    } else if bytes_eq(m, t.as_slice()) {
        OpKind::Gate(Gate::T)
    } else if bytes_eq(m, cnot.as_slice()) {
        OpKind::Cnot
    } else if bytes_eq(m, cz.as_slice()) {
        OpKind::Cz
    } else if bytes_eq(m, rx.as_slice()) {
        OpKind::Rotate(Axis::X)
    } else if bytes_eq(m, ry.as_slice()) {
        OpKind::Rotate(Axis::Y)
    } else if bytes_eq(m, rz.as_slice()) {
        OpKind::Rotate(Axis::Z)
    } else if bytes_eq(m, mz.as_slice()) {
        OpKind::Mz
    } else if bytes_eq(m, rr.as_slice()) {
        OpKind::ReadResult
    } else {
        OpKind::Unsupported
    }
}

fn handle_exec(p: &Payload) -> (r: Option<usize>)
    ensures
        r == handle_of(p@),
{
    match p {
        Payload::Bits(b) => if *b <= usize::MAX as u64 {
            Some(*b as usize)
        } else {
            None
        },
        Payload::Float(_) => None,
    }
}

/// Routes decoded instructions to engine operations, turning qubit handles
/// into dense indices below the engine's qubit count and keeping the
/// recorded measurement outcomes.
pub struct QisBridge {
    memory: QirMemory,
    num_qubits: usize,
}

impl QisBridge {
    pub closed spec fn mem(&self) -> QirMemory {
        self.memory
    }

    pub closed spec fn qubits(&self) -> nat {
        self.num_qubits as nat
    }

    pub open spec fn wf(&self) -> bool {
        &&& self.mem().wf()
        &&& self.mem().qubit_count() <= self.qubits()
    }

    /// A bridge for an engine of `num_qubits` qubits, with no handle seen.
    pub fn new(num_qubits: usize) -> (r: Self)
        ensures
            r.wf(),
            r.qubits() == num_qubits,
            r.mem().qubit_map() == Map::<usize, usize>::empty(),
            r.mem().qubit_count() == 0,
            r.mem().outcomes() == Map::<usize, bool>::empty(),
    {
        QisBridge { memory: QirMemory::new(), num_qubits }
    }

    /// The outcome recorded at result handle `addr`, or `false`.
    pub fn get_result_value(&self, addr: usize) -> (r: bool)
        ensures
            r == self.mem().outcome_of(addr),
    {
        self.memory.get_result_value(addr)
    }

    /// Records a measurement outcome at result handle `addr`.
    pub fn record(&mut self, addr: usize, value: bool)
        requires
            old(self).wf(),
        ensures
            final(self).wf(),
            final(self).qubits() == old(self).qubits(),
            final(self).mem().qubit_map() == old(self).mem().qubit_map(),
            final(self).mem().qubit_count() == old(self).mem().qubit_count(),
            final(self).mem().outcomes() == old(self).mem().outcomes().insert(addr, value),
    {
        self.memory.set_result_value(addr, value);
    }

    fn qubit(&mut self, p: &Payload) -> (r: Result<usize, QirError>)
        requires
            old(self).wf(),
        ensures
            final(self).wf(),
            final(self).qubits() == old(self).qubits(),
            final(self).mem().outcomes() == old(self).mem().outcomes(),
            match qubit_step(old(self).mem().qubit_map(), old(self).mem().qubit_count(), old(self).qubits(), p@) {
                None => r is Err && r->Err_0 is InstructionError,
                Some((q, m1, k1)) => r == Ok::<usize, QirError>(q) && final(self).mem().qubit_map() == m1
                    && final(self).mem().qubit_count() == k1,
            },
    {
        let h = match handle_exec(p) {
            None => {
                return Err(QirError::InstructionError(String::from_str("qubit operand is not a handle")));
            },
            Some(h) => h,
        };
        if !self.memory.has_qubit(h) && self.memory.qubit_len() >= self.num_qubits {
            return Err(QirError::InstructionError(String::from_str("qubit handle out of range")));
        }
        Ok(self.memory.get_qubit(h))
    }

    fn two_qubits(&mut self, a: &Payload, b: &Payload) -> (r: Result<(usize, usize), QirError>)
        requires
            old(self).wf(),
        ensures
            final(self).wf(),
            final(self).qubits() == old(self).qubits(),
            final(self).mem().outcomes() == old(self).mem().outcomes(),
            match two_qubits(old(self).mem().qubit_map(), old(self).mem().qubit_count(), old(self).qubits(), a@, b@) {
                None => r is Err && r->Err_0 is InstructionError,
                Some((c, t, m2, k2)) => r == Ok::<(usize, usize), QirError>((c, t))
                    && final(self).mem().qubit_map() == m2 && final(self).mem().qubit_count() == k2,
            },
    {
        let c = self.qubit(a)?;
        let t = self.qubit(b)?;
        Ok((c, t))
    }

    /// Maps one call of operator `func_name` on `args` to the engine operation
    /// it asks for. Unknown operators are no error: they yield
    /// `Op::Unsupported`. `read_result` is answered here from the recorded
    /// outcomes.
    pub fn call_qis(&mut self, func_name: &[u8], args: &Vec<Payload>) -> (r: Result<Op, QirError>)
        requires
            old(self).wf(),
        ensures
            final(self).wf(),
            final(self).qubits() == old(self).qubits(),
            final(self).mem().outcomes() == old(self).mem().outcomes(),
            match dispatch(
                old(self).mem().qubit_map(),
                old(self).mem().qubit_count(),
                old(self).mem().outcomes(),
                old(self).qubits(),
                func_name@,
                payloads_view(args@),
            ) {
                None => r is Err && r->Err_0 is InstructionError,
                Some((op, m, k)) => r is Ok && r->Ok_0@ == op && final(self).mem().qubit_map() == m
                    && final(self).mem().qubit_count() == k,
            },
    {
        let ghost pv = payloads_view(args@);
        assert(forall|i: int| 0 <= i < args@.len() ==> pv[i] == (#[trigger] args@[i])@);
        let missing = QirError::InstructionError(String::from_str("missing operand"));
        match kind_of_name(func_name) {
            OpKind::Unsupported => Ok(Op::Unsupported),
            OpKind::Gate(g) => {
                if args.len() < 1 {
                    return Err(missing);
                }
                let q = self.qubit(&args[0])?;
                Ok(Op::Gate(g, q))
            },
            OpKind::Rotate(a) => {
                if args.len() < 2 {
                    return Err(missing);
                }
                let q = self.qubit(&args[1])?;
                Ok(Op::Rotate(a, args[0].copy(), q))
            },
            OpKind::Cnot => {
                if args.len() < 2 {
                    return Err(missing);
                }
                let (c, t) = self.two_qubits(&args[0], &args[1])?;
                Ok(Op::Cnot(c, t))
            },
            OpKind::Cz => {
                if args.len() < 2 {
                    return Err(missing);
                }
                let (c, t) = self.two_qubits(&args[0], &args[1])?;
                Ok(Op::Cz(c, t))
            },
            OpKind::Mz => {
                if args.len() < 1 {
                    return Err(missing);
                }
                let res = if args.len() >= 2 {
                    match handle_exec(&args[1]) {
                        None => {
                            return Err(QirError::InstructionError(String::from_str("result operand is not a handle")));
                        },
                        Some(h) => Some(h),
                    }
                } else {
                    None
                };
                let q = self.qubit(&args[0])?;
                Ok(Op::Measure(q, res))
            },
            OpKind::ReadResult => {
                if args.len() < 1 {
                    return Err(missing);
                }
                match handle_exec(&args[0]) {
                    None => Err(QirError::InstructionError(String::from_str("result operand is not a handle"))),
                    Some(h) => Ok(Op::ReadResult(self.memory.get_result_value(h))),
                }
            },
        }
    }
}

/// The full name of instruction-set operator `short`:
/// `__quantum__qis__<short>__body`.
pub open spec fn qis_name(short: Seq<u8>) -> Seq<u8> {
    qis_prefix() + short + body_suffix()
}

/// An outcome recorded at a result handle is what `read_result` on that
/// handle reads back, whatever was recorded there before.
pub proof fn lemma_record_then_read(
    m: Map<usize, usize>,
    count: nat,
    o: Map<usize, bool>,
    n: nat,
    h: usize,
    b: bool,
)
    ensures
        dispatch(m, count, o.insert(h, b), n, qis_name(read_result_name()), seq![PayloadSpec::Bits(h as u64)])
            == Some((OpSpec::ReadResult(b), m, count)),
{
    let name = qis_name(read_result_name());
    assert(name.subrange(0, 16) =~= qis_prefix());
    assert(name.subrange(name.len() - 6, name.len() as int) =~= body_suffix());
    assert(name.subrange(16, name.len() - 6) =~= read_result_name());
    let m1 = name.subrange(16, name.len() - 6);
    assert(m1 != seq![104u8] && m1 != seq![120u8] && m1 != seq![121u8] && m1 != seq![122u8]);
    assert(m1 != seq![115u8] && m1 != seq![116u8] && m1 != seq![99u8, 110, 111, 116]);
    assert(m1 != seq![99u8, 122] && m1 != seq![114u8, 120] && m1 != seq![114u8, 121]);
    assert(m1 != seq![114u8, 122] && m1 != seq![109u8, 122]);
    assert(kind_of(name) == OpKind::ReadResult);
}

} // verus!
