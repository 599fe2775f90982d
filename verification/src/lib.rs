//! Communication backbone for a HOTAS controller-configuration tool: the
//! binary configuration codec and the decision logic of the serial
//! transport multiplexer, with their contracts.

pub mod config;
pub mod device;
pub mod hid;
pub mod raw_state;
pub mod seqs;
pub mod serial;
pub mod text;
pub mod update;
