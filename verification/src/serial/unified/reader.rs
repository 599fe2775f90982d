//! Telemetry lines: how they are told from command replies and what they
//! say; and the multiplexer driven over a list of lines on a simulated
//! clock, for trying out matchers without a transport.

use crate::serial::unified::multiplexer::{Multiplexer, MultiplexerView, PendingView, ReaderOutput};
use crate::serial::unified::types::{CommandSpec, ParsedEvent, ParsedEventView, ResponseMatcher};
use crate::text::{
    chars_of, parse_unsigned, parse_unsigned_range, range_starts_with, range_texts, split,
    split_ranges, starts_with,
};
use vstd::prelude::*;

verus! {

/// What a GPIO telemetry line starts with.
pub open spec fn gpio_prefix() -> Seq<char> {
    "GPIO_STATES:"@
}

/// What a matrix telemetry line starts with.
pub open spec fn matrix_prefix() -> Seq<char> {
    "MATRIX_STATE:"@
}

/// What a shift-register telemetry line starts with.
pub open spec fn shift_prefix() -> Seq<char> {
    "SHIFT_REG:"@
}

/// A line is telemetry iff it starts with one of the three prefixes.
pub open spec fn is_monitor_line(line: Seq<char>) -> bool {
    starts_with(line, gpio_prefix()) || starts_with(line, matrix_prefix()) || starts_with(
        line,
        shift_prefix(),
    )
}

/// `s` without any leading run of `0x` marks.
pub open spec fn strip_hex_marks(s: Seq<char>) -> Seq<char>
    decreases s.len(),
{
    if s.len() >= 2 && s[0] == '0' && s[1] == 'x' {
        strip_hex_marks(s.skip(2))
    } else {
        s
    }
}

/// `<hex mask>:<timestamp>`.
pub open spec fn spec_parse_gpio(rest: Seq<char>) -> Option<ParsedEventView> {
    let parts = split(rest, ':');
    if parts.len() != 2 {
        None
    } else {
        match (
            parse_unsigned(strip_hex_marks(parts[0]), true, u32::MAX as nat),
            parse_unsigned(parts[1], false, u64::MAX as nat),
        ) {
            (Some(mask), Some(timestamp)) => Some(
                ParsedEventView::Gpio { mask: mask as u32, timestamp: timestamp as u64 },
            ),
            _ => None,
        }
    }
}

/// `<row>:<col>:<state>:<timestamp>`; connected iff the state is 1.
pub open spec fn spec_parse_matrix(rest: Seq<char>) -> Option<ParsedEventView> {
    let parts = split(rest, ':');
    if parts.len() != 4 {
        None
    } else {
        match (
            parse_unsigned(parts[0], false, u8::MAX as nat),
            parse_unsigned(parts[1], false, u8::MAX as nat),
            parse_unsigned(parts[2], false, u8::MAX as nat),
            parse_unsigned(parts[3], false, u64::MAX as nat),
        ) {
            (Some(row), Some(col), Some(state), Some(timestamp)) => Some(
                ParsedEventView::MatrixDelta {
                    row: row as u8,
                    col: col as u8,
                    is_connected: state == 1,
                    timestamp: timestamp as u64,
                },
            ),
            _ => None,
        }
    }
}

/// `<register>:<hex value>:<timestamp>`.
pub open spec fn spec_parse_shift(rest: Seq<char>) -> Option<ParsedEventView> {
    let parts = split(rest, ':');
    if parts.len() != 3 {
        None
    } else {
        match (
            parse_unsigned(parts[0], false, u8::MAX as nat),
            parse_unsigned(strip_hex_marks(parts[1]), true, u8::MAX as nat),
            parse_unsigned(parts[2], false, u64::MAX as nat),
        ) {
            (Some(register_id), Some(value), Some(timestamp)) => Some(
                ParsedEventView::Shift {
                    register_id: register_id as u8,
                    value: value as u8,
                    timestamp: timestamp as u64,
                },
            ),
            _ => None,
        }
    }
}

/// What a line says as telemetry: the event, if the line starts with a
/// telemetry prefix and the rest has the fields of that kind of line.
pub open spec fn spec_parse_monitor_line(line: Seq<char>) -> Option<ParsedEventView> {
    if starts_with(line, gpio_prefix()) {
        spec_parse_gpio(line.skip(gpio_prefix().len() as int))
    } else if starts_with(line, matrix_prefix()) {
        spec_parse_matrix(line.skip(matrix_prefix().len() as int))
    } else if starts_with(line, shift_prefix()) {
        spec_parse_shift(line.skip(shift_prefix().len() as int))
    } else {
        None
    }
}

/// Whether `cs` is a telemetry line.
pub fn chars_are_monitor_line(cs: &[char]) -> (r: bool)
    ensures
        r == is_monitor_line(cs@),
{
    let gpio = chars_of("GPIO_STATES:");
    let matrix = chars_of("MATRIX_STATE:");
    let shift = chars_of("SHIFT_REG:");
    assert(cs@.subrange(0, cs@.len() as int) =~= cs@);
    range_starts_with(cs, 0, cs.len(), gpio.as_slice()) || range_starts_with(
        cs,
        0,
        cs.len(),
        matrix.as_slice(),
    ) || range_starts_with(cs, 0, cs.len(), shift.as_slice())
}

/// Where `cs[from..to]` begins once its leading `0x` marks are skipped.
pub(crate) fn skip_hex_marks(cs: &[char], from: usize, to: usize) -> (r: usize)
    requires
        from <= to <= cs.len(),
    ensures
        from <= r <= to,
        cs@.subrange(r as int, to as int) == strip_hex_marks(cs@.subrange(from as int, to as int)),
{
    let mut a: usize = from;
    while to - a >= 2 && cs[a] == '0' && cs[a + 1] == 'x'
        invariant
            from <= a <= to,
            to <= cs.len(),
            strip_hex_marks(cs@.subrange(a as int, to as int)) == strip_hex_marks(
                cs@.subrange(from as int, to as int),
            ),
        decreases to - a,
    {
        assert(cs@.subrange(a as int, to as int).skip(2) =~= cs@.subrange(a + 2, to as int));
        a = a + 2;
    }
    a
}

fn parse_gpio(cs: &[char], from: usize, to: usize) -> (r: Option<ParsedEvent>)
    requires
        from <= to <= cs.len(),
    ensures
        match r {
            Some(e) => spec_parse_gpio(cs@.subrange(from as int, to as int)) == Some(e@),
            None => spec_parse_gpio(cs@.subrange(from as int, to as int)) is None,
        },
{
    let ranges = split_ranges(cs, from, to, ':');
    if ranges.len() != 2 {
        return None;
    }
    let ghost parts = range_texts(cs@, ranges@);
    let (a0, b0) = ranges[0];
    let (a1, b1) = ranges[1];
    assert(parts[0] == cs@.subrange(a0 as int, b0 as int));
    assert(parts[1] == cs@.subrange(a1 as int, b1 as int));
    let h0 = skip_hex_marks(cs, a0, b0);
    let mask = parse_unsigned_range(cs, h0, b0, true, u32::MAX as u64);
    let timestamp = parse_unsigned_range(cs, a1, b1, false, u64::MAX);
    match (mask, timestamp) {
        (Some(mask), Some(timestamp)) => Some(ParsedEvent::Gpio { mask: mask as u32, timestamp }),
        _ => None,
    }
}

fn parse_matrix(cs: &[char], from: usize, to: usize) -> (r: Option<ParsedEvent>)
    requires
        from <= to <= cs.len(),
    ensures
        match r {
            Some(e) => spec_parse_matrix(cs@.subrange(from as int, to as int)) == Some(e@),
            None => spec_parse_matrix(cs@.subrange(from as int, to as int)) is None,
        },
{
    let ranges = split_ranges(cs, from, to, ':');
    if ranges.len() != 4 {
        return None;
    }
    let ghost parts = range_texts(cs@, ranges@);
    let (a0, b0) = ranges[0];
    let (a1, b1) = ranges[1];
    let (a2, b2) = ranges[2];
    let (a3, b3) = ranges[3];
    assert(parts[0] == cs@.subrange(a0 as int, b0 as int));
    assert(parts[1] == cs@.subrange(a1 as int, b1 as int));
    assert(parts[2] == cs@.subrange(a2 as int, b2 as int));
    assert(parts[3] == cs@.subrange(a3 as int, b3 as int));
    let row = parse_unsigned_range(cs, a0, b0, false, u8::MAX as u64);
    let col = parse_unsigned_range(cs, a1, b1, false, u8::MAX as u64);
    let state = parse_unsigned_range(cs, a2, b2, false, u8::MAX as u64);
    let timestamp = parse_unsigned_range(cs, a3, b3, false, u64::MAX);
    match (row, col, state, timestamp) {
        (Some(row), Some(col), Some(state), Some(timestamp)) => Some(
            ParsedEvent::MatrixDelta {
                row: row as u8,
                col: col as u8,
                is_connected: state == 1,
                timestamp,
            },
        ),
        _ => None,
    }
}

fn parse_shift(cs: &[char], from: usize, to: usize) -> (r: Option<ParsedEvent>)
    requires
        from <= to <= cs.len(),
    ensures
        match r {
            Some(e) => spec_parse_shift(cs@.subrange(from as int, to as int)) == Some(e@),
            None => spec_parse_shift(cs@.subrange(from as int, to as int)) is None,
        },
{
    let ranges = split_ranges(cs, from, to, ':');
    if ranges.len() != 3 {
        return None;
    }
    let ghost parts = range_texts(cs@, ranges@);
    let (a0, b0) = ranges[0];
    let (a1, b1) = ranges[1];
    let (a2, b2) = ranges[2];
    assert(parts[0] == cs@.subrange(a0 as int, b0 as int));
    assert(parts[1] == cs@.subrange(a1 as int, b1 as int));
    assert(parts[2] == cs@.subrange(a2 as int, b2 as int));
    let register_id = parse_unsigned_range(cs, a0, b0, false, u8::MAX as u64);
    let h1 = skip_hex_marks(cs, a1, b1);
    let value = parse_unsigned_range(cs, h1, b1, true, u8::MAX as u64);
    let timestamp = parse_unsigned_range(cs, a2, b2, false, u64::MAX);
    match (register_id, value, timestamp) {
        (Some(register_id), Some(value), Some(timestamp)) => Some(
            ParsedEvent::Shift { register_id: register_id as u8, value: value as u8, timestamp },
        ),
        _ => None,
    }
}

/// Reads the characters of a line as telemetry.
pub fn parse_monitor_chars(cs: &[char]) -> (r: Option<ParsedEvent>)
    ensures
        match r {
            Some(e) => spec_parse_monitor_line(cs@) == Some(e@),
            None => spec_parse_monitor_line(cs@) is None,
        },
{
    let gpio = chars_of("GPIO_STATES:");
    let matrix = chars_of("MATRIX_STATE:");
    let shift = chars_of("SHIFT_REG:");
    assert(cs@.subrange(0, cs@.len() as int) =~= cs@);
    if range_starts_with(cs, 0, cs.len(), gpio.as_slice()) {
        assert(cs@.skip(gpio@.len() as int) =~= cs@.subrange(gpio@.len() as int, cs@.len() as int));
        parse_gpio(cs, gpio.len(), cs.len())
    } else if range_starts_with(cs, 0, cs.len(), matrix.as_slice()) {
        assert(cs@.skip(matrix@.len() as int) =~= cs@.subrange(
            matrix@.len() as int,
            cs@.len() as int,
        ));
        parse_matrix(cs, matrix.len(), cs.len())
    } else if range_starts_with(cs, 0, cs.len(), shift.as_slice()) {
        assert(cs@.skip(shift@.len() as int) =~= cs@.subrange(shift@.len() as int, cs@.len() as int));
        parse_shift(cs, shift.len(), cs.len())
    } else {
        None
    }
}

/// Reads one line as telemetry: `GPIO_STATES:0x<hex>:<timestamp>`,
/// `MATRIX_STATE:<row>:<col>:<0|1>:<timestamp>` or
/// `SHIFT_REG:<id>:0x<hex>:<timestamp>`. Anything else is no event.
pub fn parse_monitor_line(line: &str) -> (r: Option<ParsedEvent>)
    ensures
        match r {
            Some(e) => spec_parse_monitor_line(line@) == Some(e@),
            None => spec_parse_monitor_line(line@) is None,
        },
{
    let cs = chars_of(line);
    parse_monitor_chars(cs.as_slice())
}

/// The texts of a list of lines.
pub open spec fn line_texts(lines: Seq<&str>) -> Seq<Seq<char>> {
    Seq::new(lines.len(), |i: int| lines[i]@)
}

/// The multiplexer with a command named `TEST` in flight since time zero.
pub open spec fn drive_start(matcher: ResponseMatcher, timeout_ms: u64, floor: Option<u64>)
    -> MultiplexerView {
    MultiplexerView {
        pending: Some(
            PendingView {
                spec: CommandSpec {
                    name: "TEST",
                    timeout_ms,
                    matcher,
                    test_min_duration_ms: floor,
                },
                started_ms: 0,
                buffer: Seq::empty(),
            },
        ),
        ..MultiplexerView::initial()
    }
}

/// The state after the lines have been handled one by one at time zero,
/// up to the line that completes the command.
pub open spec fn driven(state: MultiplexerView, lines: Seq<Seq<char>>) -> MultiplexerView
    decreases lines.len(),
{
    if lines.len() == 0 || state.pending is None {
        state
    } else {
        driven(state.handle_line(lines[0], 0).state, lines.skip(1))
    }
}

/// Handling a line completes at most the one command in flight, and only
/// once its latency floor is reached.
proof fn lemma_handle_line_completions(state: MultiplexerView, line: Seq<char>, now: u64)
    requires
        state.pending is Some,
        state.metrics.command_completed == 0,
        state.metrics.command_last_latency_ms is None,
    ensures
        ({
            let before = state.pending->0;
            let after = state.handle_line(line, now).state;
            &&& after.pending is Some ==> after.metrics.command_completed == 0
                && after.metrics.command_last_latency_ms is None && after.pending->0.spec
                == before.spec && after.pending->0.started_ms == before.started_ms
            &&& after.pending is None ==> after.metrics.command_completed == 1
                && after.metrics.command_last_latency_ms == Some(
                crate::serial::unified::multiplexer::elapsed_ms(before.started_ms, now),
            ) && before.floor_reached(now)
        }),
{
}

fn drive(mux: &mut Multiplexer, lines: &[&str])
    requires
        old(mux)@.pending is Some,
        old(mux)@.pending->0.started_ms == 0,
        old(mux)@.metrics.command_completed == 0,
        old(mux)@.metrics.command_last_latency_ms is None,
    ensures
        final(mux)@ == driven(old(mux)@, line_texts(lines@)),
        final(mux)@.pending is Some ==> final(mux)@.metrics.command_completed == 0,
        final(mux)@.pending is Some ==> final(mux)@.metrics.command_last_latency_ms is None,
        final(mux)@.pending is Some ==> final(mux)@.pending->0.spec == old(mux)@.pending->0.spec,
        final(mux)@.pending is Some ==> final(mux)@.pending->0.started_ms == 0,
        final(mux)@.pending is None ==> final(mux)@.metrics.command_completed == 1,
        final(mux)@.pending is None ==> final(mux)@.metrics.command_last_latency_ms == Some(0u64),
        final(mux)@.pending is None ==> old(mux)@.pending->0.floor_reached(0),
{
    let ghost texts = line_texts(lines@);
    let ghost first = old(mux)@.pending->0;
    let mut outputs: Vec<ReaderOutput> = Vec::new();
    let mut i: usize = 0;
    assert(texts.skip(0) =~= texts);
    while i < lines.len() && mux.is_busy()
        invariant
            i <= lines.len(),
            texts == line_texts(lines@),
            first == old(mux)@.pending->0,
            first.started_ms == 0,
            driven(mux@, texts.skip(i as int)) == driven(old(mux)@, texts),
            mux@.pending is Some ==> mux@.metrics.command_completed == 0
                && mux@.metrics.command_last_latency_ms is None && mux@.pending->0.spec
                == first.spec && mux@.pending->0.started_ms == 0,
            mux@.pending is None ==> mux@.metrics.command_completed == 1
                && mux@.metrics.command_last_latency_ms == Some(0u64) && first.floor_reached(0),
        decreases lines.len() - i,
    {
        let cs = chars_of(lines[i]);
        proof {
            lemma_handle_line_completions(mux@, cs@, 0);
            assert(texts.skip(i as int)[0] == cs@);
            assert(texts.skip(i as int).skip(1) =~= texts.skip(i + 1));
        }
        mux.handle_line(cs.as_slice(), 0, &mut outputs);
        i = i + 1;
    }
}

/// Drives a command with the given matcher over `lines`, all of them
/// arriving at once, and says how many commands completed and whether a
/// reply was delivered.
pub fn test_drive_lines(lines: &[&str], matcher: ResponseMatcher) -> (r: (usize, bool))
    ensures
        r.0 == driven(drive_start(matcher, 100, None), line_texts(lines@)).metrics.command_completed,
        r.1 == (r.0 > 0),
        r.0 <= 1,
{
    let mut mux = Multiplexer::new();
    let spec = CommandSpec { name: "TEST", timeout_ms: 100, matcher, test_min_duration_ms: None };
    let _ = mux.submit("TEST", spec, 0);
    assert(mux@ == drive_start(matcher, 100, None));
    drive(&mut mux, lines);
    let completed: u64 = mux.metrics.command_completed;
    (completed as usize, completed > 0)
}

/// What [`test_drive_lines_with_min`] finds: the lines are handled at time
/// zero, and the command, if it is still in flight, is looked at again when
/// its latency floor is reached.
pub open spec fn driven_with_min(lines: Seq<Seq<char>>, matcher: ResponseMatcher, min_ms: u64)
    -> MultiplexerView {
    let timeout_ms = if min_ms <= u64::MAX - 100 {
        (min_ms + 100) as u64
    } else {
        u64::MAX
    };
    let fed = driven(drive_start(matcher, timeout_ms, Some(min_ms)), lines);
    if fed.pending is Some {
        fed.tick(min_ms).state
    } else {
        fed
    }
}

/// Drives a command with the given matcher and a latency floor of `min_ms`
/// over `lines` on a simulated clock: the lines arrive at time zero, and
/// time then moves to the floor. Says how many commands completed, whether
/// a reply was delivered, and the latency of the command in milliseconds.
pub fn test_drive_lines_with_min(lines: &[&str], matcher: ResponseMatcher, min_ms: u64) -> (r: (
    usize,
    bool,
    u64,
))
    ensures
        r.0 == driven_with_min(line_texts(lines@), matcher, min_ms).metrics.command_completed,
        r.1 == (r.0 > 0),
        r.0 <= 1,
        r.0 == 1 ==> Some(r.2) == driven_with_min(
            line_texts(lines@),
            matcher,
            min_ms,
        ).metrics.command_last_latency_ms,
        r.0 == 1 ==> r.2 >= min_ms,
        r.0 == 0 ==> r.2 == 0,
{
    let timeout_ms: u64 = min_ms.saturating_add(100);
    let mut mux = Multiplexer::new();
    let spec = CommandSpec {
        name: "TEST",
        timeout_ms,
        matcher,
        test_min_duration_ms: Some(min_ms),
    };
    let _ = mux.submit("TEST", spec, 0);
    assert(mux@ == drive_start(matcher, timeout_ms, Some(min_ms)));
    drive(&mut mux, lines);
    if mux.is_busy() {
        let _ = mux.on_tick(min_ms);
    }
    let completed: u64 = mux.metrics.command_completed;
    let latency: u64 = match mux.metrics.command_last_latency_ms {
        Some(ms) => ms,
        None => 0,
    };
    (completed as usize, completed > 0, latency)
}

} // verus!
