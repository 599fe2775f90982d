//! Firmware-compatible binary configuration format.

pub mod binary;
pub mod laws;
pub mod ui;
pub mod wire;
