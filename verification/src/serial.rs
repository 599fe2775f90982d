//! The serial side of the tool: the line protocol and its multiplexer.

pub mod interface;
pub mod protocol;
pub mod unified;

use vstd::prelude::*;
use vstd::string::StringExecFns;

verus! {

/// A serial port that may hold a controller.
#[derive(Debug, Clone, PartialEq, Eq)]
pub struct SerialDeviceInfo {
    pub port_name: String,
    pub vid: u16,
    pub pid: u16,
    pub serial_number: Option<String>,
    pub manufacturer: Option<String>,
    pub product: Option<String>,
    pub firmware_version: Option<String>,
    pub device_signature: Option<String>,
}

/// What can go wrong on the serial side. The texts are those of the
/// transport or of the protocol.
#[derive(Debug, Clone, PartialEq, Eq)]
pub enum SerialError {
    PortNotFound(String),
    ConnectionFailed(String),
    Timeout,
    ProtocolError(String),
    IoError(String),
    SerialportError(String),
}

impl SerialError {
    /// What the error says.
    pub open spec fn text(self) -> Seq<char> {
        match self {
            SerialError::PortNotFound(port) => "Port not found: "@ + port@,
            SerialError::ConnectionFailed(reason) => "Connection failed: "@ + reason@,
            SerialError::Timeout => "Communication timeout"@,
            SerialError::ProtocolError(fault) => "Protocol error: "@ + fault@,
            SerialError::IoError(cause) => "IO error: "@ + cause@,
            SerialError::SerialportError(cause) => "Serialport error: "@ + cause@,
        }
    }

    /// The error in words.
    pub fn message(&self) -> (r: String)
        ensures
            r@ == self.text(),
    {
        match self {
            SerialError::PortNotFound(port) => {
                let mut s = "Port not found: ".to_owned();
                s.append(port.as_str());
                s
            },
            SerialError::ConnectionFailed(reason) => {
                let mut s = "Connection failed: ".to_owned();
                s.append(reason.as_str());
                s
            },
            SerialError::Timeout => "Communication timeout".to_owned(),
            SerialError::ProtocolError(fault) => {
                let mut s = "Protocol error: ".to_owned();
                s.append(fault.as_str());
                s
            },
            SerialError::IoError(cause) => {
                let mut s = "IO error: ".to_owned();
                s.append(cause.as_str());
                s
            },
            SerialError::SerialportError(cause) => {
                let mut s = "Serialport error: ".to_owned();
                s.append(cause.as_str());
                s
            },
        }
    }
}

} // verus!
