//! Raw hardware state as the firmware reports it on request.

use vstd::prelude::*;

verus! {

/// The state of the GPIO pins: bit `n` is pin `n`, set when the pin is high.
#[derive(Debug, Clone, Copy, PartialEq, Eq)]
pub struct RawGpioStates {
    pub gpio_mask: u32,
    /// Microseconds since the device booted.
    pub timestamp: u64,
}

/// One intersection of the button matrix.
#[derive(Debug, Clone, Copy, PartialEq, Eq)]
pub struct MatrixConnection {
    pub row: u8,
    pub col: u8,
    /// Whether the intersection conducts, that is, the button is pressed.
    pub is_connected: bool,
}

/// The state of the whole matrix.
#[derive(Debug, Clone, PartialEq, Eq)]
pub struct MatrixState {
    pub connections: Vec<MatrixConnection>,
    pub timestamp: u64,
}

/// The state of one shift register of the chain.
#[derive(Debug, Clone, Copy, PartialEq, Eq)]
pub struct ShiftRegisterState {
    pub register_id: u8,
    pub value: u8,
    pub timestamp: u64,
}

/// Everything that could be read of the hardware in one go.
#[derive(Debug, Clone, PartialEq, Eq)]
pub struct RawHardwareState {
    pub gpio: Option<RawGpioStates>,
    pub matrix: Option<MatrixState>,
    pub shift_registers: Vec<ShiftRegisterState>,
}

/// A hardware state together with the device it belongs to.
#[derive(Debug, Clone, PartialEq, Eq)]
pub struct RawStateEvent {
    pub device_id: String,
    pub state: RawHardwareState,
}

/// Whether the firmware has the hardware in question configured.
#[derive(Debug, Clone, Copy, PartialEq, Eq)]
pub enum ConfigurationStatus {
    Configured,
    NotConfigured,
    PinsNotConfigured,
}

} // verus!
