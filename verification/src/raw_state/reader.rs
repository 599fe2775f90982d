//! What the replies to the raw-state requests amount to.

use crate::raw_state::parser::{
    parse_gpio_response, parse_matrix_responses, parse_shift_reg_responses, sort_by_register,
    spec_matrix_connections, spec_parse_gpio_response, spec_shift_reg_states,
};
use crate::raw_state::types::{
    ConfigurationStatus, MatrixConnection, MatrixState, RawGpioStates, RawHardwareState,
    ShiftRegisterState,
};
use crate::text::{
    chars_of, contains, range_texts, ranges_within, slice_contains, split, split_ranges, text_of,
};
use vstd::prelude::*;
use vstd::string::StringExecFns;

verus! {

/// `s` without one carriage return at its end.
pub open spec fn without_cr(s: Seq<char>) -> Seq<char> {
    if s.len() > 0 && s.last() == '\r' {
        s.drop_last()
    } else {
        s
    }
}

/// The lines of a text: what stands between its line feeds, each line
/// that a line feed ends without the carriage return before it; what
/// follows the last line feed is a line only if it is not empty.
pub open spec fn text_lines(s: Seq<char>) -> Seq<Seq<char>> {
    let pieces = split(s, '\n');
    let ended = pieces.drop_last().map_values(|p: Seq<char>| without_cr(p));
    if pieces.last().len() == 0 {
        ended
    } else {
        ended.push(pieces.last())
    }
}

/// The lines of a text.
pub fn lines_of(text: &str) -> (r: Vec<String>)
    ensures
        r.deep_view() == text_lines(text@),
{
    let chars = chars_of(text);
    let cs = chars.as_slice();
    assert(cs@.subrange(0, cs@.len() as int) =~= cs@);
    let ranges = split_ranges(cs, 0, cs.len(), '\n');
    let ghost pieces = range_texts(cs@, ranges@);
    let ghost ended = pieces.drop_last().map_values(|p: Seq<char>| without_cr(p));
    let mut lines: Vec<String> = Vec::new();
    let last: usize = ranges.len() - 1;
    let mut i: usize = 0;
    assert(lines.deep_view() =~= ended.take(0));
    while i < last
        invariant
            i <= last,
            last == ranges@.len() - 1,
            pieces == range_texts(cs@, ranges@),
            ended == pieces.drop_last().map_values(|p: Seq<char>| without_cr(p)),
            ranges_within(ranges@, 0, cs@.len() as int),
            lines.deep_view() == ended.take(i as int),
        decreases last - i,
    {
        let (from, to) = ranges[i];
        let ghost before = lines.deep_view();
        assert(pieces[i as int] == cs@.subrange(from as int, to as int));
        let end: usize = if to > from && cs[to - 1] == '\r' {
            to - 1
        } else {
            to
        };
        assert(cs@.subrange(from as int, end as int) =~= without_cr(pieces[i as int]));
        let line = text_of(cs, from, end);
        lines.push(line);
        assert(lines.deep_view() =~= before.push(without_cr(pieces[i as int])));
        assert(ended.take(i + 1) =~= ended.take(i as int).push(ended[i as int]));
        i = i + 1;
    }
    assert(ended.take(last as int) =~= ended);
    let (from, to) = ranges[last];
    assert(pieces.last() == cs@.subrange(from as int, to as int));
    if to > from {
        let ghost before = lines.deep_view();
        let line = text_of(cs, from, to);
        lines.push(line);
        assert(lines.deep_view() =~= before.push(pieces.last()));
    }
    lines
}

/// The requests for the raw hardware state and what their replies say.
pub struct RawStateReader;

/// A text with another after it.
fn followed_by(head: &str, tail: &str) -> (r: String)
    ensures
        r@ == head@ + tail@,
{
    let mut s = head.to_owned();
    s.append(tail);
    s
}

/// The complaint about a matrix that the firmware refuses to report.
pub open spec fn matrix_refusal(status: ConfigurationStatus) -> Seq<char> {
    match status {
        ConfigurationStatus::NotConfigured => "Matrix not configured in firmware"@,
        ConfigurationStatus::PinsNotConfigured => "Matrix configured but pins not set"@,
        ConfigurationStatus::Configured => "Unknown matrix configuration error"@,
    }
}

/// The complaint about shift registers that the firmware refuses to report.
pub open spec fn shift_reg_refusal(status: ConfigurationStatus) -> Seq<char> {
    match status {
        ConfigurationStatus::NotConfigured => "Shift registers not configured in firmware"@,
        _ => "Unknown shift register configuration error"@,
    }
}

impl RawStateReader {
    /// The command that asks for the GPIO states.
    pub const READ_GPIO: &'static str = "READ_GPIO_STATES";

    /// The command that asks for the matrix state.
    pub const READ_MATRIX: &'static str = "READ_MATRIX_STATE";

    /// The command that asks for the shift registers.
    pub const READ_SHIFT_REG: &'static str = "READ_SHIFT_REG";

    /// The command that starts the stream of raw states.
    pub const START_MONITOR: &'static str = "START_RAW_MONITOR";

    /// The command that stops the stream of raw states.
    pub const STOP_MONITOR: &'static str = "STOP_RAW_MONITOR";

    /// What the reply to the GPIO request says, or a complaint that holds
    /// the reply.
    pub fn gpio_states(response: &str) -> (r: Result<RawGpioStates, String>)
        ensures
            match r {
                Ok(states) => spec_parse_gpio_response(response@) == Some(states),
                Err(message) => spec_parse_gpio_response(response@) is None && message@
                    == "Failed to parse GPIO response: "@ + response@,
            },
    {
        match parse_gpio_response(response) {
            Some(states) => Ok(states),
            None => Err(followed_by("Failed to parse GPIO response: ", response)),
        }
    }

    /// What the reply to the matrix request says, stamped with `now_us`;
    /// or a complaint, if the reply is empty or the firmware refuses.
    pub fn matrix_state(response: &str, now_us: u64) -> (r: Result<MatrixState, String>)
        ensures
            match r {
                Ok(state) => text_lines(response@).len() > 0 && spec_matrix_connections(
                    text_lines(response@),
                ) == Ok::<Seq<MatrixConnection>, ConfigurationStatus>(state.connections@)
                    && state.timestamp == now_us,
                Err(message) => if text_lines(response@).len() == 0 {
                    message@ == "No matrix response received"@
                } else {
                    spec_matrix_connections(text_lines(response@)) is Err && message@
                        == matrix_refusal(spec_matrix_connections(text_lines(response@))->Err_0)
                },
            },
    {
        let lines = lines_of(response);
        if lines.len() == 0 {
            return Err("No matrix response received".to_owned());
        }
        match parse_matrix_responses(lines, now_us) {
            Ok(state) => Ok(state),
            Err(ConfigurationStatus::NotConfigured) => Err(
                "Matrix not configured in firmware".to_owned(),
            ),
            Err(ConfigurationStatus::PinsNotConfigured) => Err(
                "Matrix configured but pins not set".to_owned(),
            ),
            Err(_) => Err("Unknown matrix configuration error".to_owned()),
        }
    }

    /// What the reply to the shift-register request says, ordered by
    /// register; or a complaint, if the reply is empty or the firmware
    /// refuses.
    pub fn shift_reg_state(response: &str) -> (r: Result<Vec<ShiftRegisterState>, String>)
        ensures
            match r {
                Ok(states) => text_lines(response@).len() > 0 && spec_shift_reg_states(
                    text_lines(response@),
                ) is Ok && states@ == sort_by_register(
                    spec_shift_reg_states(text_lines(response@))->Ok_0,
                ),
                Err(message) => if text_lines(response@).len() == 0 {
                    message@ == "No shift register response received"@
                } else {
                    spec_shift_reg_states(text_lines(response@)) is Err && message@
                        == shift_reg_refusal(spec_shift_reg_states(text_lines(response@))->Err_0)
                },
            },
    {
        let lines = lines_of(response);
        if lines.len() == 0 {
            return Err("No shift register response received".to_owned());
        }
        match parse_shift_reg_responses(lines) {
            Ok(states) => Ok(states),
            Err(ConfigurationStatus::NotConfigured) => Err(
                "Shift registers not configured in firmware".to_owned(),
            ),
            Err(_) => Err("Unknown shift register configuration error".to_owned()),
        }
    }

    /// Puts together what could be read: each part is there if its request
    /// succeeded.
    pub fn all_states(
        gpio: Result<RawGpioStates, String>,
        matrix: Result<MatrixState, String>,
        shift_registers: Result<Vec<ShiftRegisterState>, String>,
    ) -> (r: RawHardwareState)
        ensures
            r.gpio == (match gpio {
                Ok(g) => Some(g),
                Err(_) => None,
            }),
            r.matrix == (match matrix {
                Ok(m) => Some(m),
                Err(_) => None,
            }),
            r.shift_registers@ == (match shift_registers {
                Ok(s) => s@,
                Err(_) => Seq::empty(),
            }),
    {
        RawHardwareState {
            gpio: match gpio {
                Ok(g) => Some(g),
                Err(_) => None,
            },
            matrix: match matrix {
                Ok(m) => Some(m),
                Err(_) => None,
            },
            shift_registers: match shift_registers {
                Ok(s) => s,
                Err(_) => Vec::new(),
            },
        }
    }

    /// Monitoring has started iff the reply holds the firmware's
    /// confirmation.
    pub fn check_start_reply(response: &str) -> (r: Result<(), String>)
        ensures
            match r {
                Ok(_) => contains(response@, "OK:RAW_MONITOR_STARTED"@),
                Err(message) => !contains(response@, "OK:RAW_MONITOR_STARTED"@) && message@
                    == "Unexpected start response: "@ + response@,
            },
    {
        let cs = chars_of(response);
        let confirmation = chars_of("OK:RAW_MONITOR_STARTED");
        if slice_contains(cs.as_slice(), confirmation.as_slice()) {
            Ok(())
        } else {
            Err(followed_by("Unexpected start response: ", response))
        }
    }

    /// Monitoring has stopped iff the reply holds the firmware's
    /// confirmation.
    pub fn check_stop_reply(response: &str) -> (r: Result<(), String>)
        ensures
            match r {
                Ok(_) => contains(response@, "OK:RAW_MONITOR_STOPPED"@),
                Err(message) => !contains(response@, "OK:RAW_MONITOR_STOPPED"@) && message@
                    == "Unexpected stop response: "@ + response@,
            },
    {
        let cs = chars_of(response);
        let confirmation = chars_of("OK:RAW_MONITOR_STOPPED");
        if slice_contains(cs.as_slice(), confirmation.as_slice()) {
            Ok(())
        } else {
            Err(followed_by("Unexpected stop response: ", response))
        }
    }
}

} // verus!
