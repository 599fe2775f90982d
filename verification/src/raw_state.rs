//! Raw hardware state: the display mode, the replies to state requests and
//! what they say.

pub mod monitor;
pub mod parser;
pub mod reader;
pub mod types;

use crate::text::{chars_of, lowercase, lowercase_text, range_equals};
use vstd::prelude::*;

verus! {

/// How often the firmware sends updates in continuous mode, in milliseconds.
pub const RAW_STATE_POLLING_MS: u64 = 50;

pub const ENABLE_DEBUG_LOGGING: bool = false;

pub const ENABLE_PERFORMANCE_METRICS: bool = false;

/// What the tool shows: the HID side, the raw side, or both at once.
#[derive(Debug, Clone, Copy, PartialEq, Eq)]
pub enum DisplayMode {
    HID,
    Raw,
    Both,
}

/// The mode that a name in lower case stands for.
pub open spec fn mode_named(name: Seq<char>) -> Option<DisplayMode> {
    if name == "hid"@ {
        Some(DisplayMode::HID)
    } else if name == "raw"@ {
        Some(DisplayMode::Raw)
    } else if name == "both"@ {
        Some(DisplayMode::Both)
    } else {
        None
    }
}

/// The mode that a stored number stands for; a number that stands for none
/// is read as the raw mode.
pub open spec fn mode_of_raw(raw: u8) -> DisplayMode {
    if raw == 0 {
        DisplayMode::HID
    } else if raw == 2 {
        DisplayMode::Both
    } else {
        DisplayMode::Raw
    }
}

impl DisplayMode {
    /// The name of the mode.
    pub open spec fn name(self) -> Seq<char> {
        match self {
            DisplayMode::HID => "hid"@,
            DisplayMode::Raw => "raw"@,
            DisplayMode::Both => "both"@,
        }
    }

    /// The number that is stored for the mode.
    pub open spec fn raw(self) -> u8 {
        match self {
            DisplayMode::HID => 0,
            DisplayMode::Raw => 1,
            DisplayMode::Both => 2,
        }
    }

    /// The mode that `name` names, letter for letter.
    pub fn from_lowercase(name: &str) -> (r: Option<DisplayMode>)
        ensures
            r == mode_named(name@),
    {
        let cs = chars_of(name);
        let hid = chars_of("hid");
        let raw = chars_of("raw");
        let both = chars_of("both");
        assert(cs@.subrange(0, cs@.len() as int) =~= cs@);
        if range_equals(cs.as_slice(), 0, cs.len(), hid.as_slice()) {
            Some(DisplayMode::HID)
        } else if range_equals(cs.as_slice(), 0, cs.len(), raw.as_slice()) {
            Some(DisplayMode::Raw)
        } else if range_equals(cs.as_slice(), 0, cs.len(), both.as_slice()) {
            Some(DisplayMode::Both)
        } else {
            None
        }
    }

    /// The mode that `s` names, whatever the case of its letters.
    pub fn from_str(s: &str) -> (r: Option<DisplayMode>)
        ensures
            r == mode_named(lowercase_text(s@)),
    {
        let lower = lowercase(s);
        DisplayMode::from_lowercase(lower.as_str())
    }

    /// The name of the mode: `hid`, `raw` or `both`.
    pub fn as_str(&self) -> (r: &'static str)
        ensures
            r@ == self.name(),
    {
        match self {
            DisplayMode::HID => "hid",
            DisplayMode::Raw => "raw",
            DisplayMode::Both => "both",
        }
    }
}

/// The display mode currently in force, held by whoever configures the
/// tool and handed to the parts that depend on it.
#[derive(Debug, Clone, Copy, PartialEq, Eq)]
pub struct DisplayModeSetting {
    pub raw: u8,
}

impl DisplayModeSetting {
    /// The setting at startup: the raw mode.
    pub fn new() -> (r: DisplayModeSetting)
        ensures
            r.raw == 1,
    {
        DisplayModeSetting { raw: 1 }
    }
}

/// The mode in force.
pub fn get_display_mode(setting: &DisplayModeSetting) -> (r: DisplayMode)
    ensures
        r == mode_of_raw(setting.raw),
{
    if setting.raw == 0 {
        DisplayMode::HID
    } else if setting.raw == 2 {
        DisplayMode::Both
    } else {
        DisplayMode::Raw
    }
}

/// Puts `mode` in force.
pub fn set_display_mode(setting: &mut DisplayModeSetting, mode: DisplayMode)
    ensures
        final(setting).raw == mode.raw(),
        mode_of_raw(final(setting).raw) == mode,
{
    setting.raw = match mode {
        DisplayMode::HID => 0,
        DisplayMode::Raw => 1,
        DisplayMode::Both => 2,
    };
}

/// The name of the mode in force.
pub fn get_display_mode_string(setting: &DisplayModeSetting) -> (r: String)
    ensures
        r@ == mode_of_raw(setting.raw).name(),
{
    get_display_mode(setting).as_str().to_owned()
}

} // verus!
