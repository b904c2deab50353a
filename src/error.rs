use vstd::prelude::*;

verus! {

/// The ways a run can fail.
#[derive(Debug, Clone, PartialEq, Eq)]
pub enum QirError {
    /// A branch names a label that the program does not define.
    ParseError(String),
    /// An instruction names a qubit or result outside the configured range,
    /// or lacks an operand that its operator needs.
    InstructionError(String),
    /// The state-vector engine was asked to act on a qubit it does not hold.
    SimulatorError(String),
    /// The program text could not be read.
    IoError(String),
}

impl QirError {
    /// A message naming the kind of failure and its detail.
    pub fn message(&self) -> (r: String) {
        match self {
            QirError::ParseError(m) => m.clone(),
            QirError::InstructionError(m) => m.clone(),
            QirError::SimulatorError(m) => m.clone(),
            QirError::IoError(m) => m.clone(),
        }
    }
}

} // verus!
