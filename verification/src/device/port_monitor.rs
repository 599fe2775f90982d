//! Events of the serial ports, and the rule that keeps a storm of them
//! from starting a storm of discoveries.

use crate::text::{
    chars_of, contains, range_starts_with, slice_contains, split, starts_with, text_of,
    split_ranges, range_texts,
};
use vstd::prelude::*;

verus! {

/// A serial port came or went.
#[derive(Debug, Clone, PartialEq, Eq)]
pub enum PortEvent {
    PortAdded(String),
    PortRemoved(String),
}

/// Lets an event through only if enough time has passed since the last
/// one that was let through.
#[derive(Debug, Clone, Copy, PartialEq, Eq)]
pub struct PortEventDebouncer {
    /// When the last event was let through, on the caller's millisecond
    /// clock.
    pub last_event_ms: u64,
    pub debounce_ms: u64,
}

impl PortEventDebouncer {
    /// A debouncer that behaves as if the last event had been let through
    /// a second ago, or now if the clock has not run for a second yet.
    pub fn new(now_ms: u64, debounce_ms: u64) -> (r: PortEventDebouncer)
        ensures
            r.debounce_ms == debounce_ms,
            r.last_event_ms == (if now_ms >= 1000 {
                (now_ms - 1000) as u64
            } else {
                now_ms
            }),
    {
        PortEventDebouncer {
            last_event_ms: if now_ms >= 1000 {
                now_ms - 1000
            } else {
                now_ms
            },
            debounce_ms,
        }
    }

    /// Whether an event at `now_ms` is let through.
    pub open spec fn lets_through(self, now_ms: u64) -> bool {
        now_ms >= self.last_event_ms && now_ms - self.last_event_ms >= self.debounce_ms
    }

    /// Judges an event: it is handed back if it is to be sent on, and the
    /// time of the last event moves only then.
    pub fn send_event(&mut self, event: PortEvent, now_ms: u64) -> (r: Option<PortEvent>)
        ensures
            final(self).debounce_ms == old(self).debounce_ms,
            old(self).lets_through(now_ms) ==> r == Some(event) && final(self).last_event_ms
                == now_ms,
            !old(self).lets_through(now_ms) ==> r is None && final(self).last_event_ms == old(
                self,
            ).last_event_ms,
    {
        if now_ms >= self.last_event_ms && now_ms - self.last_event_ms >= self.debounce_ms {
            self.last_event_ms = now_ms;
            Some(event)
        } else {
            None
        }
    }
}

/// A device node of a USB serial port.
pub open spec fn is_serial_node(path: Seq<char>) -> bool {
    contains(path, "/dev/ttyUSB"@) || contains(path, "/dev/ttyACM"@)
}

/// A system name of a USB serial port.
pub open spec fn is_serial_sysname(name: Seq<char>) -> bool {
    starts_with(name, "ttyUSB"@) || starts_with(name, "ttyACM"@)
}

/// The name of the serial port behind a device event: the last component
/// of the device node if that is a USB serial node; else the system name
/// if that is the name of a USB serial port.
pub open spec fn spec_port_name(devnode: Option<Seq<char>>, sysname: Option<Seq<char>>) -> Option<
    Seq<char>,
> {
    if devnode is Some && is_serial_node(devnode->0) {
        Some(split(devnode->0, '/').last())
    } else if sysname is Some && is_serial_sysname(sysname->0) {
        sysname
    } else {
        None
    }
}

/// Names the serial port behind a device event, if it is one.
pub fn port_name(devnode: Option<&str>, sysname: Option<&str>) -> (r: Option<String>)
    ensures
        match r {
            Some(name) => spec_port_name(
                match devnode {
                    Some(d) => Some(d@),
                    None => None,
                },
                match sysname {
                    Some(s) => Some(s@),
                    None => None,
                },
            ) == Some(name@),
            None => spec_port_name(
                match devnode {
                    Some(d) => Some(d@),
                    None => None,
                },
                match sysname {
                    Some(s) => Some(s@),
                    None => None,
                },
            ) is None,
        },
{
    match devnode {
        Some(path) => {
            let cs = chars_of(path);
            let usb = chars_of("/dev/ttyUSB");
            let acm = chars_of("/dev/ttyACM");
            if slice_contains(cs.as_slice(), usb.as_slice()) || slice_contains(
                cs.as_slice(),
                acm.as_slice(),
            ) {
                assert(cs@.subrange(0, cs@.len() as int) =~= cs@);
                let ranges = split_ranges(cs.as_slice(), 0, cs.len(), '/');
                let (from, to) = ranges[ranges.len() - 1];
                assert(range_texts(cs@, ranges@).last() == cs@.subrange(from as int, to as int));
                return Some(text_of(cs.as_slice(), from, to));
            }
        },
        None => {},
    }
    match sysname {
        Some(name) => {
            let cs = chars_of(name);
            let usb = chars_of("ttyUSB");
            let acm = chars_of("ttyACM");
            assert(cs@.subrange(0, cs@.len() as int) =~= cs@);
            if range_starts_with(cs.as_slice(), 0, cs.len(), usb.as_slice()) || range_starts_with(
                cs.as_slice(),
                0,
                cs.len(),
                acm.as_slice(),
            ) {
                return Some(name.to_owned());
            }
        },
        None => {},
    }
    None
}

} // verus!
