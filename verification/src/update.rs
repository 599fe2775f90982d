//! Firmware updates: what a release says, whether it is newer than what
//! the device runs, and whether a downloaded image is the one it claims
//! to be.

pub mod models;
pub mod service;
