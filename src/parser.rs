use crate::decode::{
    args_spec, bytes_eq, copy_range, decode_line, decode_spec, extract_id_bytes, extract_spec,
    parse_args_bytes, payloads_view, trim, trim_bytes, Line, LineSpec, Payload,
};
use crate::error::QirError;
use crate::qis_bridge::{dispatch, Op, OpSpec, QisBridge};
use vstd::prelude::*;
use vstd::string::StringSliceAdditionalSpecFns;
use vstd::utf8::encode_utf8;

verus! {

pub open spec fn opt_seq(o: Option<Vec<u8>>) -> Option<Seq<u8>> {
    match o {
        Some(v) => Some(v@),
        None => None,
    }
}

/// The first line at or after `i` that defines label `name`.
pub open spec fn label_from(prog: Seq<LineSpec>, name: Seq<u8>, i: int) -> Option<int>
    decreases prog.len() - i,
{
    if i < 0 || i >= prog.len() {
        None
    } else if prog[i] == LineSpec::Label(name) {
        Some(i)
    } else {
        label_from(prog, name, i + 1)
    }
}

/// The line that label `name` resolves to: the first that defines it.
pub open spec fn label_line(prog: Seq<LineSpec>, name: Seq<u8>) -> Option<int> {
    label_from(prog, name, 0)
}

/// A decoded program: one entry per line of text, in order.
pub struct QirParser {
    lines: Vec<Line>,
}

impl QirParser {
    pub closed spec fn program(&self) -> Seq<LineSpec> {
        self.lines@.map_values(|l: Line| l@)
    }

    /// Decodes every line of `text`.
    pub fn new(text: &Vec<String>) -> (r: Self)
        ensures
            r.program().len() == text@.len(),
            forall|i: int|
                0 <= i < text@.len() ==> #[trigger] r.program()[i] == decode_spec(
                    encode_utf8(text@[i]@),
                ),
    {
        let mut lines: Vec<Line> = Vec::new();
        let mut i: usize = 0;
        while i < text.len()
            invariant
                i <= text@.len(),
                lines@.len() == i,
                forall|k: int|
                    0 <= k < i ==> #[trigger] lines@[k]@ == decode_spec(encode_utf8(text@[k]@)),
            decreases text@.len() - i,
        {
            let l = decode_line(text[i].as_str());
            lines.push(l);
            i = i + 1;
        }
        let r = QirParser { lines };
        assert forall|k: int| 0 <= k < text@.len() implies #[trigger] r.program()[k] == decode_spec(
            encode_utf8(text@[k]@),
        ) by {
            assert(r.program()[k] == lines@[k]@);
        }
        r
    }

    /// The number of lines.
    pub fn len(&self) -> (r: usize)
        ensures
            r == self.program().len(),
    {
        self.lines.len()
    }

    /// Decodes an argument list: split at commas outside parentheses, blank
    /// fragments dropped, each fragment decoded to its payload.
    pub fn parse_args(&self, args_str: &str) -> (r: Vec<Payload>)
        ensures
            payloads_view(r@) == args_spec(args_str.spec_bytes()),
    {
        parse_args_bytes(args_str.as_bytes())
    }

    /// The payload of one argument fragment (surrounding whitespace ignored).
    pub fn extract_id(&self, s: &str) -> (r: Payload)
        ensures
            r@ == extract_spec(trim(s.spec_bytes())),
    {
        let t = trim_bytes(s.as_bytes());
        extract_id_bytes(t.as_slice())
    }

    /// The line that label `name` resolves to.
    pub fn find_label(&self, name: &[u8]) -> (r: Option<usize>)
        ensures
            r matches Some(i) ==> label_line(self.program(), name@) == Some(i as int) && i
                < self.program().len(),
            r is None ==> label_line(self.program(), name@) is None,
    {
        let mut i: usize = 0;
        while i < self.lines.len()
            invariant
                i <= self.lines@.len(),
                label_line(self.program(), name@) == label_from(self.program(), name@, i as int),
            decreases self.lines@.len() - i,
        {
            let hit = match &self.lines[i] {
                Line::Label(n) => bytes_eq(n.as_slice(), name),
                _ => false,
            };
            assert(self.program()[i as int] == self.lines@[i as int]@);
            if hit {
                return Some(i);
            }
            i = i + 1;
        }
        None
    }
}

/// The program's boolean variables, by name.
pub struct VarTable {
    names: Vec<Vec<u8>>,
    values: Vec<bool>,
    map: Ghost<Map<Seq<u8>, bool>>,
}

impl VarTable {
    pub closed spec fn view_map(&self) -> Map<Seq<u8>, bool> {
        self.map@
    }

    pub closed spec fn wf(&self) -> bool {
        &&& self.names@.len() == self.values@.len()
        &&& forall|i: int, j: int|
            0 <= i < j < self.names@.len() ==> #[trigger] self.names@[i]@ != #[trigger] self.names@[j]@
        &&& forall|i: int|
            0 <= i < self.names@.len() ==> self.map@.contains_key(#[trigger] self.names@[i]@)
                && self.map@[self.names@[i]@] == self.values@[i]
        &&& forall|k: Seq<u8>|
            #[trigger] self.map@.contains_key(k) ==> exists|i: int|
                0 <= i < self.names@.len() && #[trigger] self.names@[i]@ == k
    }

    pub fn new() -> (r: Self)
        ensures
            r.wf(),
            r.view_map() == Map::<Seq<u8>, bool>::empty(),
    {
        VarTable { names: Vec::new(), values: Vec::new(), map: Ghost(Map::empty()) }
    }

    /// The value of variable `name`, if it was ever set.
    pub fn get(&self, name: &[u8]) -> (r: Option<bool>)
        requires
            self.wf(),
        ensures
            r == (if self.view_map().contains_key(name@) {
                Some(self.view_map()[name@])
            } else {
                None
            }),
    {
        let mut i: usize = 0;
        while i < self.names.len()
            invariant
                self.wf(),
                i <= self.names@.len(),
                forall|k: int| 0 <= k < i ==> self.names@[k]@ != name@,
            decreases self.names@.len() - i,
        {
            if bytes_eq(self.names[i].as_slice(), name) {
                return Some(self.values[i]);
            }
            i = i + 1;
        }
        None
    }

    fn position(&self, name: &[u8]) -> (r: Option<usize>)
        requires
            self.wf(),
        ensures
            r matches Some(i) ==> i < self.names@.len() && self.names@[i as int]@ == name@,
            r is None ==> forall|k: int| 0 <= k < self.names@.len() ==> self.names@[k]@ != name@,
    {
        let mut i: usize = 0;
        while i < self.names.len()
            invariant
                i <= self.names@.len(),
                forall|k: int| 0 <= k < i ==> self.names@[k]@ != name@,
            decreases self.names@.len() - i,
        {
            if bytes_eq(self.names[i].as_slice(), name) {
                return Some(i);
            }
            i = i + 1;
        }
        None
    }

    /// Sets variable `name` to `value`.
    pub fn set(&mut self, name: &[u8], value: bool)
        requires
            old(self).wf(),
        ensures
            final(self).wf(),
            final(self).view_map() == old(self).view_map().insert(name@, value),
    {
        let ghost m = self.map@.insert(name@, value);
        match self.position(name) {
            Some(i) => {
                self.values.set(i, value);
                self.map = Ghost(m);
                assert forall|k: int|
                    0 <= k < self.names@.len() implies m.contains_key(#[trigger] self.names@[k]@)
                        && m[self.names@[k]@] == self.values@[k] by {
                    if k != i {
                        assert(old(self).map@.contains_key(old(self).names@[k]@));
                        assert(self.names@[k]@ != self.names@[i as int]@);
                    }
                }
                assert forall|k: Seq<u8>| #[trigger] m.contains_key(k) implies exists|j: int|
                    0 <= j < self.names@.len() && #[trigger] self.names@[j]@ == k by {
                    if k != name@ {
                        assert(old(self).map@.contains_key(k));
                    } else {
                        assert(self.names@[i as int]@ == k);
                    }
                }
            },
            None => {
                self.names.push(copy_range(name, 0, name.len()));
                self.values.push(value);
                let n = self.names.len() - 1;
                assert(self.names@[n as int]@ =~= name@);
                self.map = Ghost(m);
                assert forall|a: int, b: int|
                    0 <= a < b < self.names@.len() implies #[trigger] self.names@[a]@
                        != #[trigger] self.names@[b]@ by {
                    assert(self.names@[a] == old(self).names@[a]);
                    if b < n {
                        assert(self.names@[b] == old(self).names@[b]);
                    }
                }
                assert forall|k: int|
                    0 <= k < self.names@.len() implies m.contains_key(#[trigger] self.names@[k]@)
                        && m[self.names@[k]@] == self.values@[k] by {
                    if k < n {
                        assert(old(self).names@[k] == self.names@[k]);
                        assert(old(self).map@.contains_key(old(self).names@[k]@));
                    }
                }
                assert forall|k: Seq<u8>| #[trigger] m.contains_key(k) implies exists|j: int|
                    0 <= j < self.names@.len() && #[trigger] self.names@[j]@ == k by {
                    if k != name@ {
                        assert(old(self).map@.contains_key(k));
                        let j = choose|j: int|
                            0 <= j < old(self).names@.len() && #[trigger] old(self).names@[j]@ == k;
                        assert(self.names@[j] == old(self).names@[j]);
                    } else {
                        assert(self.names@[n as int]@ == k);
                    }
                }
            },
        }
    }
}

/// What one step of the interpreter did, over spec values.
pub enum StepSpec {
    Done,
    Continue,
    Skipped(Seq<u8>),
    Apply(OpSpec),
}

/// What one step of the interpreter did.
#[derive(Debug, Clone, PartialEq, Eq)]
pub enum Step {
    /// The program counter has reached the end of the program.
    Done,
    /// A line was handled without engine work.
    Continue,
    /// A call to an operator the engine does not know was skipped; its name
    /// is given for a diagnostic.
    Skipped(Vec<u8>),
    /// An engine operation to perform. After `Op::Measure` the outcome must
    /// be handed back through `Interpreter::resume`.
    Apply(Op),
}

impl View for Step {
    type V = StepSpec;

    open spec fn view(&self) -> StepSpec {
        match self {
            Step::Done => StepSpec::Done,
            Step::Continue => StepSpec::Continue,
            Step::Skipped(n) => StepSpec::Skipped(n@),
            Step::Apply(o) => StepSpec::Apply(o@),
        }
    }
}

/// The value a branch reads for variable `name`: `false` when unset.
pub open spec fn var_value(vars: Map<Seq<u8>, bool>, name: Seq<u8>) -> bool {
    vars.contains_key(name) && vars[name]
}

/// `vars` with the bound variable, if any, set to `v`.
pub open spec fn bind_value(vars: Map<Seq<u8>, bool>, bind: Option<Seq<u8>>, v: bool) -> Map<
    Seq<u8>,
    bool,
> {
    match bind {
        Some(b) => vars.insert(b, v),
        None => vars,
    }
}

/// The control state of one run: the program, its counter and variables,
/// and the bridge that holds the handle maps and recorded outcomes.
pub struct Interpreter {
    parser: QirParser,
    pc: usize,
    vars: VarTable,
    bridge: QisBridge,
    pending: Option<(Option<usize>, Option<Vec<u8>>)>,
}

impl Interpreter {
    pub closed spec fn program(&self) -> Seq<LineSpec> {
        self.parser.program()
    }

    pub closed spec fn pc(&self) -> nat {
        self.pc as nat
    }

    pub closed spec fn vars(&self) -> Map<Seq<u8>, bool> {
        self.vars.view_map()
    }

    pub closed spec fn bridge(&self) -> QisBridge {
        self.bridge
    }

    /// A measurement awaiting its outcome: the result handle to record it at
    /// and the variable to bind it to.
    pub closed spec fn pending(&self) -> Option<(Option<usize>, Option<Seq<u8>>)> {
        match self.pending {
            Some((r, b)) => Some((r, opt_seq(b))),
            None => None,
        }
    }

    /// The result handle of the pending measurement, if any.
    pub open spec fn pending_result(&self) -> Option<usize> {
        match self.pending() {
            Some((r, _)) => r,
            None => None,
        }
    }

    /// The variable the pending measurement binds, if any.
    pub open spec fn pending_bind(&self) -> Option<Seq<u8>> {
        match self.pending() {
            Some((_, b)) => b,
            None => None,
        }
    }

    pub closed spec fn wf(&self) -> bool {
        &&& self.vars.wf()
        &&& self.bridge.wf()
        &&& self.pc <= self.parser.lines@.len()
    }

    /// A run of the program `text` over an engine of `num_qubits` qubits,
    /// at its first line with no variable set and no handle seen.
    pub fn new(text: &Vec<String>, num_qubits: usize) -> (r: Self)
        ensures
            r.wf(),
            r.program().len() == text@.len(),
            forall|i: int|
                0 <= i < text@.len() ==> #[trigger] r.program()[i] == decode_spec(
                    encode_utf8(text@[i]@),
                ),
            r.pc() == 0,
            r.vars() == Map::<Seq<u8>, bool>::empty(),
            r.bridge().qubits() == num_qubits,
            r.bridge().mem().qubit_map() == Map::<usize, usize>::empty(),
            r.bridge().mem().qubit_count() == 0,
            r.bridge().mem().outcomes() == Map::<usize, bool>::empty(),
            r.pending() is None,
    {
        Interpreter {
            parser: QirParser::new(text),
            pc: 0,
            vars: VarTable::new(),
            bridge: QisBridge::new(num_qubits),
            pending: None,
        }
    }

    /// Whether the program counter has reached the end.
    pub fn is_done(&self) -> (r: bool)
        requires
            self.wf(),
        ensures
            r == (self.pc() >= self.program().len()),
    {
        self.pc >= self.parser.len()
    }

    /// The program counter.
    pub fn program_counter(&self) -> (r: usize)
        ensures
            r == self.pc(),
    {
        self.pc
    }

    /// The value of variable `name`, `false` when unset.
    pub fn variable(&self, name: &[u8]) -> (r: bool)
        requires
            self.wf(),
        ensures
            r == var_value(self.vars(), name@),
    {
        match self.vars.get(name) {
            Some(v) => v,
            None => false,
        }
    }

    /// The outcome recorded at result handle `addr`, `false` when none was.
    pub fn get_result_value(&self, addr: usize) -> (r: bool)
        ensures
            r == self.bridge().mem().outcome_of(addr),
    {
        self.bridge.get_result_value(addr)
    }

    fn jump(&mut self, label: &[u8]) -> (r: Result<Step, QirError>)
        requires
            old(self).wf(),
        ensures
            final(self).wf(),
            final(self).program() == old(self).program(),
            final(self).vars() == old(self).vars(),
            final(self).bridge() == old(self).bridge(),
            final(self).pending() == old(self).pending(),
            match label_line(old(self).program(), label@) {
                Some(t) => r matches Ok(s) && s@ == StepSpec::Continue && final(self).pc() == t,
                None => r matches Err(e) && e is ParseError,
            },
    {
        match self.parser.find_label(label) {
            Some(t) => {
                self.pc = t;
                Ok(Step::Continue)
            },
            None => Err(QirError::ParseError(String::from_str("branch to an undefined label"))),
        }
    }

    /// Executes the line at the program counter: inert lines and labels
    /// advance it; branches jump to the first line defining the chosen label
    /// (a conditional branch takes its first label when its variable is set
    /// to true, else its second); calls are decoded and dispatched, and
    /// advance it.
    pub fn step(&mut self) -> (r: Result<Step, QirError>)
        requires
            old(self).wf(),
            old(self).pending() is None,
        ensures
            final(self).wf(),
            final(self).program() == old(self).program(),
            final(self).bridge().qubits() == old(self).bridge().qubits(),
            old(self).pc() >= old(self).program().len() ==> {
                &&& r matches Ok(s) && s@ == StepSpec::Done
                &&& final(self).pc() == old(self).pc()
                &&& final(self).vars() == old(self).vars()
                &&& final(self).bridge() == old(self).bridge()
                &&& final(self).pending() is None
            },
            old(self).pc() < old(self).program().len() ==> match old(self).program()[old(self).pc() as int] {
                LineSpec::Inert => {
                    &&& r matches Ok(s) && s@ == StepSpec::Continue
                    &&& final(self).pc() == old(self).pc() + 1
                    &&& final(self).vars() == old(self).vars()
                    &&& final(self).bridge() == old(self).bridge()
                    &&& final(self).pending() is None
                },
                LineSpec::Label(_) => {
                    &&& r matches Ok(s) && s@ == StepSpec::Continue
                    &&& final(self).pc() == old(self).pc() + 1
                    &&& final(self).vars() == old(self).vars()
                    &&& final(self).bridge() == old(self).bridge()
                    &&& final(self).pending() is None
                },
                LineSpec::Branch(l) => {
                    &&& final(self).vars() == old(self).vars()
                    &&& final(self).bridge() == old(self).bridge()
                    &&& final(self).pending() is None
                    &&& match label_line(old(self).program(), l) {
                        Some(t) => r matches Ok(s) && s@ == StepSpec::Continue && final(self).pc() == t,
                        None => r matches Err(e) && e is ParseError,
                    }
                },
                LineSpec::CondBranch(c, a, b) => {
                    let l = if var_value(old(self).vars(), c) { a } else { b };
                    &&& final(self).vars() == old(self).vars()
                    &&& final(self).bridge() == old(self).bridge()
                    &&& final(self).pending() is None
                    &&& match label_line(old(self).program(), l) {
                        Some(t) => r matches Ok(s) && s@ == StepSpec::Continue && final(self).pc() == t,
                        None => r matches Err(e) && e is ParseError,
                    }
                },
                LineSpec::Call(bind, op, args) => match dispatch(
                    old(self).bridge().mem().qubit_map(),
                    old(self).bridge().mem().qubit_count(),
                    old(self).bridge().mem().outcomes(),
                    old(self).bridge().qubits(),
                    op,
                    args_spec(args),
                ) {
                    None => r matches Err(e) && e is InstructionError,
                    Some((o, m, k)) => {
                        &&& r is Ok
                        &&& final(self).pc() == old(self).pc() + 1
                        &&& final(self).bridge().mem().qubit_map() == m
                        &&& final(self).bridge().mem().qubit_count() == k
                        &&& final(self).bridge().mem().outcomes() == old(self).bridge().mem().outcomes()
                        &&& match o {
                            OpSpec::ReadResult(v) => {
                                &&& r->Ok_0@ == StepSpec::Continue
                                &&& final(self).vars() == bind_value(old(self).vars(), bind, v)
                                &&& final(self).pending() is None
                            },
                            OpSpec::Unsupported => {
                                &&& r->Ok_0@ == StepSpec::Skipped(op)
                                &&& final(self).vars() == old(self).vars()
                                &&& final(self).pending() is None
                            },
                            OpSpec::Measure(q, res) => {
                                &&& r->Ok_0@ == StepSpec::Apply(o)
                                &&& final(self).vars() == old(self).vars()
                                &&& final(self).pending() == Some((res, bind))
                            },
                            _ => {
                                &&& r->Ok_0@ == StepSpec::Apply(o)
                                &&& final(self).vars() == old(self).vars()
                                &&& final(self).pending() is None
                            },
                        }
                    },
                },
            },
    {
        let n = self.parser.lines.len();
        if self.pc >= n {
            return Ok(Step::Done);
        }
        let pc = self.pc;
        assert(self.program()[pc as int] == self.parser.lines@[pc as int]@);
        match &self.parser.lines[pc] {
            Line::Inert => {
                self.pc = pc + 1;
                Ok(Step::Continue)
            },
            Line::Label(_) => {
                self.pc = pc + 1;
                Ok(Step::Continue)
            },
            Line::Branch(l) => {
                let l2 = copy_range(l.as_slice(), 0, l.len());
                assert(l2@ =~= l@);
                self.jump(l2.as_slice())
            },
            Line::CondBranch(c, a, b) => {
                let v = match self.vars.get(c.as_slice()) {
                    Some(v) => v,
                    None => false,
                };
                let l = if v {
                    let x = copy_range(a.as_slice(), 0, a.len());
                    assert(x@ =~= a@);
                    x
                } else {
                    let x = copy_range(b.as_slice(), 0, b.len());
                    assert(x@ =~= b@);
                    x
                };
                self.jump(l.as_slice())
            },
            Line::Call(bind, op, args) => {
                let ps = parse_args_bytes(args.as_slice());
                let o = self.bridge.call_qis(op.as_slice(), &ps)?;
                self.pc = pc + 1;
                match o {
                    Op::ReadResult(v) => {
                        match bind {
                            Some(b) => self.vars.set(b.as_slice(), v),
                            None => {},
                        }
                        Ok(Step::Continue)
                    },
                    Op::Unsupported => {
                        let name = copy_range(op.as_slice(), 0, op.len());
                        assert(name@ =~= op@);
                        Ok(Step::Skipped(name))
                    },
                    Op::Measure(q, res) => {
                        let b = match bind {
                            Some(b) => {
                                let x = copy_range(b.as_slice(), 0, b.len());
                                assert(x@ =~= b@);
                                Some(x)
                            },
                            None => None,
                        };
                        self.pending = Some((res, b));
                        Ok(Step::Apply(Op::Measure(q, res)))
                    },
                    other => Ok(Step::Apply(other)),
                }
            },
        }
    }

    /// Hands back the outcome of the pending measurement: it is recorded at
    /// the measurement's result handle, if it named one, and bound to the
    /// call's variable, if it bound one.
    pub fn resume(&mut self, outcome: bool)
        requires
            old(self).wf(),
            old(self).pending() is Some,
        ensures
            final(self).wf(),
            final(self).program() == old(self).program(),
            final(self).pc() == old(self).pc(),
            final(self).pending() is None,
            final(self).bridge().qubits() == old(self).bridge().qubits(),
            final(self).bridge().mem().qubit_map() == old(self).bridge().mem().qubit_map(),
            final(self).bridge().mem().qubit_count() == old(self).bridge().mem().qubit_count(),
            final(self).bridge().mem().outcomes() == match old(self).pending_result() {
                Some(h) => old(self).bridge().mem().outcomes().insert(h, outcome),
                None => old(self).bridge().mem().outcomes(),
            },
            final(self).vars() == bind_value(old(self).vars(), old(self).pending_bind(), outcome),
    {
        let p = self.pending.take();
        match p {
            Some((res, bind)) => {
                match res {
                    Some(h) => self.bridge.record(h, outcome),
                    None => {},
                }
                match bind {
                    Some(b) => self.vars.set(b.as_slice(), outcome),
                    None => {},
                }
            },
            None => {},
        }
    }
}

/// A label resolves to the line that defines it when no earlier line does,
/// so a branch to a label defined further down continues at that line and
/// skips the lines between.
pub proof fn lemma_label_resolves(prog: Seq<LineSpec>, name: Seq<u8>, t: int)
    requires
        0 <= t < prog.len(),
        prog[t] == LineSpec::Label(name),
        forall|i: int| 0 <= i < t ==> prog[i] != LineSpec::Label(name),
    ensures
        label_line(prog, name) == Some(t),
{
    lemma_label_from(prog, name, 0, t);
}

proof fn lemma_label_from(prog: Seq<LineSpec>, name: Seq<u8>, i: int, t: int)
    requires
        0 <= i <= t < prog.len(),
        prog[t] == LineSpec::Label(name),
        forall|k: int| i <= k < t ==> prog[k] != LineSpec::Label(name),
    ensures
        label_from(prog, name, i) == Some(t),
    decreases t - i,
{
    if i < t {
        lemma_label_from(prog, name, i + 1, t);
    }
}

/// A conditional branch on a variable that was never set takes its second
/// label.
pub proof fn lemma_unset_takes_else(vars: Map<Seq<u8>, bool>, cond: Seq<u8>, then_label: Seq<u8>, else_label: Seq<u8>)
    requires
        !vars.contains_key(cond),
    ensures
        (if var_value(vars, cond) { then_label } else { else_label }) == else_label,
{
}

} // verus!
