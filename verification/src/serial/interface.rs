//! Identification of a controller on a serial port.

use crate::serial::unified::multiplexer::{decoded_text, read_text};
use crate::seqs::{first_where, lemma_first_where_is};
use crate::serial::SerialDeviceInfo;
use crate::text::{
    chars_of, join, parse_unsigned, parse_unsigned_range, range_equals, range_starts_with,
    range_texts, split, split_ranges, starts_with, text_of, trim, trim_range,
};
use vstd::string::StringExecFns;
use vstd::prelude::*;

verus! {

/// What the firmware calls itself.
pub const DEVICE_SIGNATURE: &'static str = "JOYCORE-FW";

/// "JOYC", which the firmware states when it identifies itself.
pub const MAGIC_NUMBER: u32 = 0x4A4F5943;

pub const IDENTIFY_COMMAND: &'static str = "IDENTIFY";

pub const IDENTIFY_RESPONSE_PREFIX: &'static str = "JOYCORE_ID";

pub const BAUD_RATE: u32 = 115200;

pub const IDENTIFY_TIMEOUT_MS: u64 = 500;

pub const PORT_OPEN_DELAY_MS: u64 = 100;

/// The firmware version that an identification states: the fourth of at
/// least four colon-separated fields, after `JOYCORE_ID`, the firmware's
/// signature and its magic number in hexadecimal.
pub open spec fn spec_identified_version(response: Seq<char>) -> Option<Seq<char>> {
    let parts = split(response, ':');
    if parts.len() >= 4 && parts[0] == IDENTIFY_RESPONSE_PREFIX@ && parts[1] == DEVICE_SIGNATURE@
        && parse_unsigned(parts[2], true, u32::MAX as nat) == Some(MAGIC_NUMBER as nat) {
        Some(parts[3])
    } else {
        None
    }
}

/// Reads the reply to `IDENTIFY`. A controller is recognised by the
/// reply alone; the description of the device names the port and the
/// firmware version and is otherwise the same for every controller.
pub fn parse_identify_response(port_name: &str, response: &str) -> (r: Option<SerialDeviceInfo>)
    ensures
        match r {
            Some(info) => spec_identified_version(response@) is Some && info.firmware_version
                is Some && info.firmware_version->0@ == spec_identified_version(response@)->0
                && info.port_name@ == port_name@ && info.vid == 0 && info.pid == 0
                && info.serial_number is None && info.manufacturer is Some
                && info.manufacturer->0@ == "JoyCore"@ && info.product is Some
                && info.product->0@ == "HOTAS Controller"@ && info.device_signature is Some
                && info.device_signature->0@ == DEVICE_SIGNATURE@,
            None => spec_identified_version(response@) is None,
        },
{
    let chars = chars_of(response);
    let cs = chars.as_slice();
    assert(cs@.subrange(0, cs@.len() as int) =~= cs@);
    let ranges = split_ranges(cs, 0, cs.len(), ':');
    let ghost parts = range_texts(cs@, ranges@);
    if ranges.len() < 4 {
        return None;
    }
    assert(parts[0] == cs@.subrange(ranges[0].0 as int, ranges[0].1 as int));
    assert(parts[1] == cs@.subrange(ranges[1].0 as int, ranges[1].1 as int));
    assert(parts[2] == cs@.subrange(ranges[2].0 as int, ranges[2].1 as int));
    assert(parts[3] == cs@.subrange(ranges[3].0 as int, ranges[3].1 as int));
    let prefix = chars_of(IDENTIFY_RESPONSE_PREFIX);
    let signature = chars_of(DEVICE_SIGNATURE);
    if !range_equals(cs, ranges[0].0, ranges[0].1, prefix.as_slice()) {
        return None;
    }
    if !range_equals(cs, ranges[1].0, ranges[1].1, signature.as_slice()) {
        return None;
    }
    match parse_unsigned_range(cs, ranges[2].0, ranges[2].1, true, u32::MAX as u64) {
        Some(magic) => {
            if magic != MAGIC_NUMBER as u64 {
                return None;
            }
        },
        None => {
            return None;
        },
    }
    Some(
        SerialDeviceInfo {
            port_name: port_name.to_owned(),
            vid: 0,
            pid: 0,
            serial_number: None,
            manufacturer: Some("JoyCore".to_owned()),
            product: Some("HOTAS Controller".to_owned()),
            firmware_version: Some(text_of(cs, ranges[3].0, ranges[3].1)),
            device_signature: Some(DEVICE_SIGNATURE.to_owned()),
        },
    )
}

impl SerialDeviceInfo {
    /// The description with what the USB side knows of the port: the
    /// serial number and the ids are taken from there, the names of the
    /// manufacturer and the product only where the description has none.
    pub fn with_usb_details(
        self,
        serial_number: Option<String>,
        manufacturer: Option<String>,
        product: Option<String>,
        vid: u16,
        pid: u16,
    ) -> (r: SerialDeviceInfo)
        ensures
            r == (SerialDeviceInfo {
                serial_number,
                manufacturer: if self.manufacturer is None {
                    manufacturer
                } else {
                    self.manufacturer
                },
                product: if self.product is None {
                    product
                } else {
                    self.product
                },
                vid,
                pid,
                ..self
            }),
    {
        SerialDeviceInfo {
            port_name: self.port_name,
            vid,
            pid,
            serial_number,
            manufacturer: match self.manufacturer {
                Some(m) => Some(m),
                None => manufacturer,
            },
            product: match self.product {
                Some(p) => Some(p),
                None => product,
            },
            firmware_version: self.firmware_version,
            device_signature: self.device_signature,
        }
    }
}

/// A line ends at a line feed or a carriage return.
pub open spec fn is_break_byte(b: u8) -> bool {
    b == 10 || b == 13
}

/// The bytes that end a line.
pub open spec fn break_byte() -> spec_fn(u8) -> bool {
    |b: u8| is_break_byte(b)
}

/// A line after which no further line is cut out of what has arrived
/// until more arrives: the end of a file listing, an error, or the data of
/// a file.
pub open spec fn ends_reply(line: Seq<char>) -> bool {
    line == "END_FILES"@ || starts_with(line, "ERROR:"@) || starts_with(line, "FILE_DATA:"@)
}

/// The lines of a reply and the bytes that belong to no line yet.
pub struct Collected {
    pub lines: Seq<Seq<char>>,
    pub accumulated: Seq<u8>,
}

/// Cutting lines out of the bytes that have arrived. Each line is read
/// leniently as UTF-8, the white space around it is dropped, and empty
/// lines are passed over; cutting stops after a line that ends a reply.
pub open spec fn cut_lines(lines: Seq<Seq<char>>, bytes: Seq<u8>) -> Collected
    decreases bytes.len(),
{
    let at = first_where(bytes, break_byte());
    if 0 <= at < bytes.len() {
        let line = trim(decoded_text(bytes.take(at + 1)));
        let rest = bytes.skip(at + 1);
        if line.len() == 0 {
            cut_lines(lines, rest)
        } else if ends_reply(line) {
            Collected { lines: lines.push(line), accumulated: rest }
        } else {
            cut_lines(lines.push(line), rest)
        }
    } else {
        Collected { lines, accumulated: bytes }
    }
}

/// The reply as a whole: the lines, and as a last line what is left of the
/// bytes if that is not blank, joined by line feeds.
pub open spec fn whole_reply(lines: Seq<Seq<char>>, accumulated: Seq<u8>) -> Seq<char> {
    let last = trim(decoded_text(accumulated));
    if accumulated.len() > 0 && last.len() > 0 {
        join(lines.push(last), seq!['\n'])
    } else {
        join(lines, seq!['\n'])
    }
}

/// Collects the reply to a command sent without the multiplexer.
#[derive(Debug, Clone, PartialEq, Eq)]
pub struct ResponseCollector {
    pub lines: Vec<String>,
    pub accumulated: Vec<u8>,
}

fn line_ends_reply(line: &str) -> (r: bool)
    ensures
        r == ends_reply(line@),
{
    let cs = chars_of(line);
    let end = chars_of("END_FILES");
    let error = chars_of("ERROR:");
    let data = chars_of("FILE_DATA:");
    assert(cs@.subrange(0, cs@.len() as int) =~= cs@);
    range_equals(cs.as_slice(), 0, cs.len(), end.as_slice()) || range_starts_with(
        cs.as_slice(),
        0,
        cs.len(),
        error.as_slice(),
    ) || range_starts_with(cs.as_slice(), 0, cs.len(), data.as_slice())
}

/// The texts joined by line feeds.
pub fn join_lines(lines: &Vec<String>) -> (r: String)
    ensures
        r@ == join(lines.deep_view(), seq!['\n']),
{
    let ghost texts = lines.deep_view();
    let mut out = String::new();
    let mut i: usize = 0;
    assert(texts.take(0) =~= Seq::<Seq<char>>::empty());
    while i < lines.len()
        invariant
            i <= lines.len(),
            texts == lines.deep_view(),
            out@ == join(texts.take(i as int), seq!['\n']),
        decreases lines.len() - i,
    {
        assert(texts.take(i + 1).drop_last() =~= texts.take(i as int));
        assert(texts.take(i + 1).last() == lines[i as int]@);
        if i > 0 {
            out.push('\n');
        }
        out.append(lines[i].as_str());
        assert(out@ =~= join(texts.take(i + 1), seq!['\n'])) by {
            if i > 0 {
                assert(texts.take(i + 1).len() > 1);
            } else {
                assert(texts.take(1)[0] == lines[0]@);
            }
        }
        i = i + 1;
    }
    assert(texts.take(lines.len() as int) =~= texts);
    out
}

impl ResponseCollector {
    pub fn new() -> (r: ResponseCollector)
        ensures
            r.lines@.len() == 0,
            r.accumulated@.len() == 0,
    {
        ResponseCollector { lines: Vec::new(), accumulated: Vec::new() }
    }

    /// Takes in the text of one line: the white space around it is dropped,
    /// and an empty line is passed over. Says whether the line ends the
    /// reply.
    pub fn keep_line(&mut self, text: &str) -> (stop: bool)
        ensures
            final(self).accumulated == old(self).accumulated,
            final(self).lines.deep_view() == (if trim(text@).len() == 0 {
                old(self).lines.deep_view()
            } else {
                old(self).lines.deep_view().push(trim(text@))
            }),
            stop == (trim(text@).len() > 0 && ends_reply(trim(text@))),
    {
        let cs = chars_of(text);
        assert(cs@.subrange(0, cs@.len() as int) =~= cs@);
        let (a, b) = trim_range(cs.as_slice(), 0, cs.len());
        if a == b {
            return false;
        }
        let line = text_of(cs.as_slice(), a, b);
        let stop = line_ends_reply(line.as_str());
        let ghost before = self.lines.deep_view();
        let ghost kept = line@;
        self.lines.push(line);
        assert(self.lines.deep_view() =~= before.push(kept));
        stop
    }

    /// Takes in bytes that were read and cuts the complete lines out.
    pub fn on_data(&mut self, bytes: &[u8])
        ensures
            ({
                let cut = cut_lines(old(self).lines.deep_view(), old(self).accumulated@ + bytes@);
                &&& final(self).lines.deep_view() == cut.lines
                &&& final(self).accumulated@ == cut.accumulated
            }),
    {
        let mut all: Vec<u8> = vstd::slice::slice_to_vec(self.accumulated.as_slice());
        let mut fresh = vstd::slice::slice_to_vec(bytes);
        all.append(&mut fresh);
        let ghost goal = cut_lines(old(self).lines.deep_view(), old(self).accumulated@ + bytes@);
        assert(all@ =~= old(self).accumulated@ + bytes@);
        let len: usize = all.len();
        let mut pos: usize = 0;
        assert(all@.skip(0) =~= all@);
        loop
            invariant_except_break
                cut_lines(self.lines.deep_view(), all@.skip(pos as int)) == goal,
            invariant
                pos <= len,
                len == all@.len(),
            ensures
                goal.lines == self.lines.deep_view(),
                goal.accumulated == all@.skip(pos as int),
                pos <= len,
            decreases len - pos,
        {
            let ghost here = all@.skip(pos as int);
            let mut at: usize = pos;
            while at < len && all[at] != 10 && all[at] != 13
                invariant
                    pos <= at <= len,
                    len == all@.len(),
                    forall|k: int| pos <= k < at ==> !is_break_byte(all@[k]),
                decreases len - at,
            {
                at = at + 1;
            }
            proof {
                lemma_first_where_is(here, break_byte(), at - pos);
            }
            if at >= len {
                break ;
            }
            let piece = vstd::slice::slice_subrange(all.as_slice(), pos, at + 1);
            assert(piece@ =~= here.take(at - pos + 1));
            assert(here.skip(at - pos + 1) =~= all@.skip(at + 1));
            let (text, _) = read_text(piece);
            pos = at + 1;
            if self.keep_line(text.as_str()) {
                break ;
            }
        }
        let rest = vstd::slice::slice_to_vec(vstd::slice::slice_subrange(all.as_slice(), pos, len));
        assert(rest@ =~= all@.skip(pos as int));
        self.accumulated = rest;
    }

    /// The reply, once no more is waited for.
    pub fn finish(self) -> (r: String)
        ensures
            r@ == whole_reply(self.lines.deep_view(), self.accumulated@),
    {
        let mut collected = self;
        if collected.accumulated.len() > 0 {
            let (text, _) = read_text(collected.accumulated.as_slice());
            let _ = collected.keep_line(text.as_str());
        }
        join_lines(&collected.lines)
    }
}

} // verus!
