//! An interpreter for textual quantum IR programs, with the control flow,
//! instruction decoding, handle allocation and state-vector index arithmetic
//! proved correct.
pub mod error;
pub mod memory;
pub mod decode;
pub mod statevec;
pub mod qis_bridge;
pub mod parser;
