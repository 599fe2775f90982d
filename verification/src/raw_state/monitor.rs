//! The stream of raw states in continuous mode: the lines are cut out of
//! what arrives, and each line that reports a state becomes an update.

use crate::raw_state::parser::{parse_gpio_response, spec_parse_gpio_response, strip_hex_mark};
use crate::raw_state::types::{MatrixConnection, MatrixState, RawGpioStates, ShiftRegisterState};
use crate::text::{
    chars_of, contains, find_char, first_index, is_blank, parse_unsigned, parse_unsigned_range,
    range_equals, range_is_blank, range_starts_with, range_texts, slice_contains, split,
    split_ranges, starts_with, text_of, trim, trim_range,
};
use vstd::prelude::*;

verus! {

/// `MATRIX_STATE:<row>:<col>:<state>:<timestamp>` with at least these five
/// fields: the row, the column, whether the state is `1`, the timestamp.
pub open spec fn spec_parse_single_matrix_line(line: Seq<char>) -> Option<(u8, u8, bool, u64)> {
    let parts = split(line, ':');
    if parts.len() >= 5 && parts[0] == "MATRIX_STATE"@ {
        match (
            parse_unsigned(parts[1], false, u8::MAX as nat),
            parse_unsigned(parts[2], false, u8::MAX as nat),
            parse_unsigned(parts[4], false, u64::MAX as nat),
        ) {
            (Some(row), Some(col), Some(timestamp)) => Some(
                (row as u8, col as u8, parts[3] == "1"@, timestamp as u64),
            ),
            _ => None,
        }
    } else {
        None
    }
}

/// `SHIFT_REG:<id>:0x<hex>:<timestamp>` with at least these four fields.
pub open spec fn spec_parse_single_shift_line(line: Seq<char>) -> Option<(u8, u8, u64)> {
    let parts = split(line, ':');
    if parts.len() >= 4 && parts[0] == "SHIFT_REG"@ {
        match strip_hex_mark(parts[2]) {
            Some(hex) => match (
                parse_unsigned(parts[1], false, u8::MAX as nat),
                parse_unsigned(hex, true, u8::MAX as nat),
                parse_unsigned(parts[3], false, u64::MAX as nat),
            ) {
                (Some(id), Some(value), Some(timestamp)) => Some(
                    (id as u8, value as u8, timestamp as u64),
                ),
                _ => None,
            },
            None => None,
        }
    } else {
        None
    }
}

fn word_is(cs: &[char], range: (usize, usize), word: &str) -> (r: bool)
    requires
        range.0 <= range.1 <= cs.len(),
    ensures
        r == (cs@.subrange(range.0 as int, range.1 as int) == word@),
{
    let w = chars_of(word);
    range_equals(cs, range.0, range.1, w.as_slice())
}

fn single_matrix_chars(cs: &[char]) -> (r: Option<(u8, u8, bool, u64)>)
    ensures
        r == spec_parse_single_matrix_line(cs@),
{
    assert(cs@.subrange(0, cs@.len() as int) =~= cs@);
    let ranges = split_ranges(cs, 0, cs.len(), ':');
    let ghost parts = range_texts(cs@, ranges@);
    if ranges.len() < 5 {
        return None;
    }
    assert(parts[0] == cs@.subrange(ranges[0].0 as int, ranges[0].1 as int));
    assert(parts[1] == cs@.subrange(ranges[1].0 as int, ranges[1].1 as int));
    assert(parts[2] == cs@.subrange(ranges[2].0 as int, ranges[2].1 as int));
    assert(parts[3] == cs@.subrange(ranges[3].0 as int, ranges[3].1 as int));
    assert(parts[4] == cs@.subrange(ranges[4].0 as int, ranges[4].1 as int));
    if !word_is(cs, ranges[0], "MATRIX_STATE") {
        return None;
    }
    let row = parse_unsigned_range(cs, ranges[1].0, ranges[1].1, false, u8::MAX as u64);
    let col = parse_unsigned_range(cs, ranges[2].0, ranges[2].1, false, u8::MAX as u64);
    let state = word_is(cs, ranges[3], "1");
    let timestamp = parse_unsigned_range(cs, ranges[4].0, ranges[4].1, false, u64::MAX);
    match (row, col, timestamp) {
        (Some(row), Some(col), Some(timestamp)) => Some((row as u8, col as u8, state, timestamp)),
        _ => None,
    }
}

fn single_shift_chars(cs: &[char]) -> (r: Option<(u8, u8, u64)>)
    ensures
        r == spec_parse_single_shift_line(cs@),
{
    assert(cs@.subrange(0, cs@.len() as int) =~= cs@);
    let ranges = split_ranges(cs, 0, cs.len(), ':');
    let ghost parts = range_texts(cs@, ranges@);
    if ranges.len() < 4 {
        return None;
    }
    assert(parts[0] == cs@.subrange(ranges[0].0 as int, ranges[0].1 as int));
    assert(parts[1] == cs@.subrange(ranges[1].0 as int, ranges[1].1 as int));
    assert(parts[2] == cs@.subrange(ranges[2].0 as int, ranges[2].1 as int));
    assert(parts[3] == cs@.subrange(ranges[3].0 as int, ranges[3].1 as int));
    if !word_is(cs, ranges[0], "SHIFT_REG") {
        return None;
    }
    let (from, to) = ranges[2];
    if !(to - from >= 2 && cs[from] == '0' && cs[from + 1] == 'x') {
        return None;
    }
    assert(cs@.subrange(from as int, to as int).skip(2) =~= cs@.subrange(from + 2, to as int));
    let id = parse_unsigned_range(cs, ranges[1].0, ranges[1].1, false, u8::MAX as u64);
    let value = parse_unsigned_range(cs, from + 2, to, true, u8::MAX as u64);
    let timestamp = parse_unsigned_range(cs, ranges[3].0, ranges[3].1, false, u64::MAX);
    match (id, value, timestamp) {
        (Some(id), Some(value), Some(timestamp)) => Some((id as u8, value as u8, timestamp)),
        _ => None,
    }
}

/// Reads a matrix line of the stream.
pub fn parse_single_matrix_line(line: &str) -> (r: Option<(u8, u8, bool, u64)>)
    ensures
        r == spec_parse_single_matrix_line(line@),
{
    let cs = chars_of(line);
    single_matrix_chars(cs.as_slice())
}

/// Reads a shift-register line of the stream.
pub fn parse_single_shift_line(line: &str) -> (r: Option<(u8, u8, u64)>)
    ensures
        r == spec_parse_single_shift_line(line@),
{
    let cs = chars_of(line);
    single_shift_chars(cs.as_slice())
}

/// What a line of the stream makes known.
#[derive(Debug, Clone, PartialEq, Eq)]
pub enum MonitorUpdate {
    /// The GPIO pins changed.
    Gpio(RawGpioStates),
    /// One intersection of the matrix changed.
    Matrix(MatrixState),
    /// One shift register changed.
    Shift(Vec<ShiftRegisterState>),
}

pub enum MonitorUpdateView {
    Gpio(RawGpioStates),
    Matrix(MatrixConnection, u64),
    Shift(ShiftRegisterState),
    /// An update of another shape; lines give rise to none.
    Other,
}

impl View for MonitorUpdate {
    type V = MonitorUpdateView;

    open spec fn view(&self) -> MonitorUpdateView {
        match self {
            MonitorUpdate::Gpio(states) => MonitorUpdateView::Gpio(*states),
            MonitorUpdate::Matrix(state) => if state.connections@.len() == 1 {
                MonitorUpdateView::Matrix(state.connections@[0], state.timestamp)
            } else {
                MonitorUpdateView::Other
            },
            MonitorUpdate::Shift(states) => if states@.len() == 1 {
                MonitorUpdateView::Shift(states@[0])
            } else {
                MonitorUpdateView::Other
            },
        }
    }
}

/// What a line of the stream makes known, the white space around it
/// aside: a GPIO, matrix or shift-register line that can be read is the
/// update it reports; anything else is none.
pub open spec fn spec_monitor_update(line: Seq<char>) -> Option<MonitorUpdateView> {
    let text = trim(line);
    if starts_with(text, "GPIO_STATES:"@) {
        match spec_parse_gpio_response(text) {
            Some(states) => Some(MonitorUpdateView::Gpio(states)),
            None => None,
        }
    } else if starts_with(text, "MATRIX_STATE:"@) {
        match spec_parse_single_matrix_line(text) {
            Some((row, col, is_connected, timestamp)) => Some(
                MonitorUpdateView::Matrix(MatrixConnection { row, col, is_connected }, timestamp),
            ),
            None => None,
        }
    } else if starts_with(text, "SHIFT_REG:"@) {
        match spec_parse_single_shift_line(text) {
            Some((register_id, value, timestamp)) => Some(
                MonitorUpdateView::Shift(ShiftRegisterState { register_id, value, timestamp }),
            ),
            None => None,
        }
    } else {
        None
    }
}

/// Reads a line of the stream.
pub fn monitor_update(line: &str) -> (r: Option<MonitorUpdate>)
    ensures
        match r {
            Some(update) => spec_monitor_update(line@) == Some(update@),
            None => spec_monitor_update(line@) is None,
        },
{
    let chars = chars_of(line);
    assert(chars@.subrange(0, chars@.len() as int) =~= chars@);
    let (a, b) = trim_range(chars.as_slice(), 0, chars.len());
    let text = vstd::slice::slice_subrange(chars.as_slice(), a, b);
    assert(text@.subrange(0, text@.len() as int) =~= text@);
    let gpio = chars_of("GPIO_STATES:");
    let matrix = chars_of("MATRIX_STATE:");
    let shift = chars_of("SHIFT_REG:");
    if range_starts_with(text, 0, text.len(), gpio.as_slice()) {
        let owned = text_of(text, 0, text.len());
        match parse_gpio_response(owned.as_str()) {
            Some(states) => Some(MonitorUpdate::Gpio(states)),
            None => None,
        }
    } else if range_starts_with(text, 0, text.len(), matrix.as_slice()) {
        match single_matrix_chars(text) {
            Some((row, col, is_connected, timestamp)) => {
                let mut connections: Vec<MatrixConnection> = Vec::new();
                connections.push(MatrixConnection { row, col, is_connected });
                Some(MonitorUpdate::Matrix(MatrixState { connections, timestamp }))
            },
            None => None,
        }
    } else if range_starts_with(text, 0, text.len(), shift.as_slice()) {
        match single_shift_chars(text) {
            Some((register_id, value, timestamp)) => {
                let mut states: Vec<ShiftRegisterState> = Vec::new();
                states.push(ShiftRegisterState { register_id, value, timestamp });
                Some(MonitorUpdate::Shift(states))
            },
            None => None,
        }
    } else {
        None
    }
}

/// The firmware has taken up streaming iff its reply mentions the monitor.
pub fn stream_started(response: &str) -> (r: bool)
    ensures
        r == (contains(response@, "OK:RAW_MONITOR_STARTED"@) || contains(
            response@,
            "RAW_MONITOR"@,
        )),
{
    let cs = chars_of(response);
    let confirmation = chars_of("OK:RAW_MONITOR_STARTED");
    let mention = chars_of("RAW_MONITOR");
    slice_contains(cs.as_slice(), confirmation.as_slice()) || slice_contains(
        cs.as_slice(),
        mention.as_slice(),
    )
}

/// What has arrived of the stream and has not been handed out as a line.
#[derive(Debug, Clone, PartialEq, Eq)]
pub struct MonitorLineBuffer {
    pub buffer: Vec<char>,
}

/// The first line of `text` from which reading goes on after new text has
/// arrived: blank lines are passed over. Nothing if no line is complete.
pub open spec fn first_full_line(text: Seq<char>) -> Option<(Seq<char>, Seq<char>)>
    decreases text.len(),
{
    let at = first_index(text, '\n');
    if 0 <= at < text.len() {
        if is_blank(text.take(at)) {
            first_full_line(text.skip(at + 1))
        } else {
            Some((text.take(at), text.skip(at + 1)))
        }
    } else {
        None
    }
}

/// What is left of `text` when no line of it is handed out: blank lines at
/// its beginning are dropped.
pub open spec fn after_blank_lines(text: Seq<char>) -> Seq<char>
    decreases text.len(),
{
    let at = first_index(text, '\n');
    if 0 <= at < text.len() && is_blank(text.take(at)) {
        after_blank_lines(text.skip(at + 1))
    } else {
        text
    }
}

impl MonitorLineBuffer {
    pub fn new() -> (r: MonitorLineBuffer)
        ensures
            r.buffer@.len() == 0,
    {
        MonitorLineBuffer { buffer: Vec::new() }
    }

    /// Hands out the line that is already complete in the buffer, blank or
    /// not, up to its line feed. This is asked before the transport is
    /// read again.
    pub fn take_ready_line(&mut self) -> (r: Option<String>)
        ensures
            match r {
                Some(line) => first_index(old(self).buffer@, '\n') < old(self).buffer@.len()
                    && line@ == old(self).buffer@.take(first_index(old(self).buffer@, '\n'))
                    && final(self).buffer@ == old(self).buffer@.skip(
                    first_index(old(self).buffer@, '\n') + 1,
                ),
                None => first_index(old(self).buffer@, '\n') >= old(self).buffer@.len()
                    && final(self).buffer@ == old(self).buffer@,
            },
    {
        let len: usize = self.buffer.len();
        assert(self.buffer@.subrange(0, len as int) =~= self.buffer@);
        let at = find_char(self.buffer.as_slice(), 0, len, '\n');
        if at >= len {
            return None;
        }
        let line = text_of(self.buffer.as_slice(), 0, at);
        assert(self.buffer@.subrange(0, at as int) =~= self.buffer@.take(at as int));
        let rest = vstd::slice::slice_to_vec(
            vstd::slice::slice_subrange(self.buffer.as_slice(), at + 1, len),
        );
        assert(rest@ =~= self.buffer@.skip(at + 1));
        self.buffer = rest;
        Some(line)
    }

    /// Takes in what was read from the transport and hands out the first
    /// line that is not blank, if one is complete.
    pub fn push_and_take(&mut self, data: &str) -> (r: Option<String>)
        ensures
            data@.len() == 0 ==> r is None && final(self).buffer@ == old(self).buffer@,
            data@.len() > 0 ==> (match r {
                Some(line) => first_full_line(old(self).buffer@ + data@) == Some(
                    (line@, final(self).buffer@),
                ),
                None => first_full_line(old(self).buffer@ + data@) is None && final(self).buffer@
                    == after_blank_lines(old(self).buffer@ + data@),
            }),
    {
        let mut fresh = chars_of(data);
        if fresh.len() == 0 {
            return None;
        }
        let mut all: Vec<char> = vstd::slice::slice_to_vec(self.buffer.as_slice());
        all.append(&mut fresh);
        let ghost text = old(self).buffer@ + data@;
        assert(all@ =~= text);
        let len: usize = all.len();
        let mut pos: usize = 0;
        assert(all@.skip(0) =~= all@);
        loop
            invariant_except_break
                first_full_line(all@.skip(pos as int)) == first_full_line(text),
                after_blank_lines(all@.skip(pos as int)) == after_blank_lines(text),
            invariant
                pos <= len,
                len == all@.len(),
                text == old(self).buffer@ + data@,
                data@.len() > 0,
            ensures
                first_full_line(text) is None,
                all@.skip(pos as int) == after_blank_lines(text),
                pos <= len,
            decreases len - pos,
        {
            let ghost here = all@.skip(pos as int);
            assert(here =~= all@.subrange(pos as int, len as int));
            let at = find_char(all.as_slice(), pos, len, '\n');
            if at >= len {
                break ;
            }
            assert(here.take(at - pos) =~= all@.subrange(pos as int, at as int));
            assert(here.skip(at - pos + 1) =~= all@.skip(at + 1));
            if !range_is_blank(all.as_slice(), pos, at) {
                let line = text_of(all.as_slice(), pos, at);
                let rest = vstd::slice::slice_to_vec(
                    vstd::slice::slice_subrange(all.as_slice(), at + 1, len),
                );
                assert(rest@ =~= all@.skip(at + 1));
                self.buffer = rest;
                return Some(line);
            }
            pos = at + 1;
        }
        let rest = vstd::slice::slice_to_vec(vstd::slice::slice_subrange(all.as_slice(), pos, len));
        assert(rest@ =~= all@.skip(pos as int));
        self.buffer = rest;
        None
    }
}

} // verus!
