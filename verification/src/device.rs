//! The devices the tool knows: what is remembered of them, the firmware
//! version they state, and the events of the ports they sit on.

pub mod manager;
pub mod models;
pub mod port_monitor;

use vstd::prelude::*;
use vstd::string::StringExecFns;

verus! {

/// Why an operation on a device failed.
#[derive(Debug, Clone, PartialEq, Eq)]
pub enum DeviceError {
    NotFound,
    AlreadyConnected,
    NotConnected,
    InvalidConfiguration(String),
    SerialError(crate::serial::SerialError),
    IoError(String),
    UpdateError(String),
}

impl DeviceError {
    /// What the error says.
    pub open spec fn text(self) -> Seq<char> {
        match self {
            DeviceError::NotFound => "Device not found"@,
            DeviceError::AlreadyConnected => "Device already connected"@,
            DeviceError::NotConnected => "Device not connected"@,
            DeviceError::InvalidConfiguration(what) => "Invalid device configuration: "@ + what@,
            DeviceError::SerialError(cause) => "Serial communication error: "@ + cause.text(),
            DeviceError::IoError(cause) => "IO error: "@ + cause@,
            DeviceError::UpdateError(cause) => "Update error: "@ + cause@,
        }
    }

    /// The error in words.
    pub fn message(&self) -> (r: String)
        ensures
            r@ == self.text(),
    {
        match self {
            DeviceError::NotFound => "Device not found".to_owned(),
            DeviceError::AlreadyConnected => "Device already connected".to_owned(),
            DeviceError::NotConnected => "Device not connected".to_owned(),
            DeviceError::InvalidConfiguration(what) => {
                let mut s = "Invalid device configuration: ".to_owned();
                s.append(what.as_str());
                s
            },
            DeviceError::SerialError(cause) => {
                let mut s = "Serial communication error: ".to_owned();
                let inner = cause.message();
                s.append(inner.as_str());
                s
            },
            DeviceError::IoError(cause) => {
                let mut s = "IO error: ".to_owned();
                s.append(cause.as_str());
                s
            },
            DeviceError::UpdateError(cause) => {
                let mut s = "Update error: ".to_owned();
                s.append(cause.as_str());
                s
            },
        }
    }
}

} // verus!
