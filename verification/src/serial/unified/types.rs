//! The values that pass through the multiplexer: commands and how their
//! replies are recognised, telemetry events, the merged hardware snapshot
//! and the operational counters.

use crate::text::{chars_of, contains, range_starts_with, slice_contains, starts_with};
use vstd::prelude::*;

verus! {

/// One intersection of the button matrix.
#[derive(Debug, Clone, Copy, PartialEq, Eq)]
pub struct MatrixCell {
    pub row: u8,
    pub col: u8,
    pub is_connected: bool,
}

/// The latest value of one shift register.
#[derive(Debug, Clone, Copy, PartialEq, Eq)]
pub struct ShiftRegEntry {
    pub register_id: u8,
    pub value: u8,
    pub timestamp: u64,
}

/// The latest merged view of the hardware state.
#[derive(Debug, Clone, PartialEq, Eq)]
pub struct RawStateSnapshot {
    pub gpio_mask: u32,
    pub matrix: Vec<MatrixCell>,
    pub shift_regs: Vec<ShiftRegEntry>,
    pub last_update_us: u64,
    pub seq: u64,
}

/// A snapshot as a mathematical value.
pub struct SnapshotView {
    pub gpio_mask: u32,
    pub matrix: Seq<MatrixCell>,
    pub shift_regs: Seq<ShiftRegEntry>,
    pub last_update_us: u64,
    pub seq: u64,
}

impl View for RawStateSnapshot {
    type V = SnapshotView;

    open spec fn view(&self) -> SnapshotView {
        SnapshotView {
            gpio_mask: self.gpio_mask,
            matrix: self.matrix@,
            shift_regs: self.shift_regs@,
            last_update_us: self.last_update_us,
            seq: self.seq,
        }
    }
}

impl SnapshotView {
    /// The snapshot before any telemetry.
    pub open spec fn empty() -> SnapshotView {
        SnapshotView {
            gpio_mask: 0,
            matrix: Seq::empty(),
            shift_regs: Seq::empty(),
            last_update_us: 0,
            seq: 0,
        }
    }
}

impl Default for RawStateSnapshot {
    fn default() -> (r: RawStateSnapshot)
        ensures
            r@ == SnapshotView::empty(),
    {
        RawStateSnapshot {
            gpio_mask: 0,
            matrix: Vec::new(),
            shift_regs: Vec::new(),
            last_update_us: 0,
            seq: 0,
        }
    }
}

/// What one telemetry line says, or that it says nothing known.
#[derive(Debug, Clone, PartialEq, Eq)]
pub enum ParsedEvent {
    Gpio { mask: u32, timestamp: u64 },
    MatrixDelta { row: u8, col: u8, is_connected: bool, timestamp: u64 },
    Shift { register_id: u8, value: u8, timestamp: u64 },
    ProtocolNotice { message: String },
    Unclassified { line: String },
}

/// An event as a mathematical value.
pub enum ParsedEventView {
    Gpio { mask: u32, timestamp: u64 },
    MatrixDelta { row: u8, col: u8, is_connected: bool, timestamp: u64 },
    Shift { register_id: u8, value: u8, timestamp: u64 },
    ProtocolNotice { message: Seq<char> },
    Unclassified { line: Seq<char> },
}

impl View for ParsedEvent {
    type V = ParsedEventView;

    open spec fn view(&self) -> ParsedEventView {
        match self {
            ParsedEvent::Gpio { mask, timestamp } => ParsedEventView::Gpio {
                mask: *mask,
                timestamp: *timestamp,
            },
            ParsedEvent::MatrixDelta {
                row,
                col,
                is_connected,
                timestamp,
            } => ParsedEventView::MatrixDelta {
                row: *row,
                col: *col,
                is_connected: *is_connected,
                timestamp: *timestamp,
            },
            ParsedEvent::Shift { register_id, value, timestamp } => ParsedEventView::Shift {
                register_id: *register_id,
                value: *value,
                timestamp: *timestamp,
            },
            ParsedEvent::ProtocolNotice { message } => ParsedEventView::ProtocolNotice {
                message: message@,
            },
            ParsedEvent::Unclassified { line } => ParsedEventView::Unclassified { line: line@ },
        }
    }
}

/// Why a command's exchange ended.
#[derive(Debug, Clone, PartialEq, Eq)]
pub enum FinishReason {
    MatcherSatisfied,
    Timeout,
    Error(String),
}

/// The reply to a command: every non-telemetry line that arrived while it
/// was in flight, in arrival order.
#[derive(Debug, Clone, PartialEq, Eq)]
pub struct CommandResponse {
    pub lines: Vec<String>,
    pub finished_reason: FinishReason,
}

/// A completion rule that the caller supplies: a decision over the whole
/// list of lines received so far.
pub trait LinePredicate: Send + Sync {
    /// What the rule decides.
    spec fn holds(&self, lines: Seq<Seq<char>>) -> bool;

    /// Decides as `holds` says.
    fn test(&self, lines: &[String]) -> (r: bool)
        ensures
            r == self.holds(lines.deep_view()),
    ;
}

/// The rule that a reply is complete when it has exactly `count` lines and
/// the last of them starts with `prefix`.
pub struct EndsWithPrefix {
    pub count: usize,
    pub prefix: &'static str,
}

impl LinePredicate for EndsWithPrefix {
    open spec fn holds(&self, lines: Seq<Seq<char>>) -> bool {
        lines.len() == self.count && lines.len() > 0 && starts_with(lines.last(), self.prefix@)
    }

    fn test(&self, lines: &[String]) -> (r: bool) {
        if lines.len() != self.count || lines.len() == 0 {
            return false;
        }
        let cs = chars_of(lines[lines.len() - 1].as_str());
        let p = chars_of(self.prefix);
        assert(cs@ == lines.deep_view().last());
        assert(cs@.subrange(0, cs@.len() as int) =~= cs@);
        range_starts_with(cs.as_slice(), 0, cs.len(), p.as_slice())
    }
}

/// When the reply to a command is complete.
pub enum ResponseMatcher {
    /// Some line starts with the text.
    UntilPrefix(&'static str),
    /// At least so many lines have arrived.
    FixedLines(usize),
    /// Some line contains the text.
    Contains(&'static str),
    /// The caller's own rule says so.
    Custom(Box<dyn LinePredicate>),
}

/// Some line of `lines` starts with `prefix`.
pub open spec fn any_starts_with(lines: Seq<Seq<char>>, prefix: Seq<char>) -> bool {
    exists|i: int| 0 <= i < lines.len() && starts_with(#[trigger] lines[i], prefix)
}

/// Some line of `lines` contains `needle`.
pub open spec fn any_contains(lines: Seq<Seq<char>>, needle: Seq<char>) -> bool {
    exists|i: int| 0 <= i < lines.len() && contains(#[trigger] lines[i], needle)
}

/// Whether some line starts with `prefix`.
pub fn lines_any_starts_with(lines: &[String], prefix: &str) -> (r: bool)
    ensures
        r == any_starts_with(lines.deep_view(), prefix@),
{
    let ghost texts = lines.deep_view();
    let p = chars_of(prefix);
    let mut i: usize = 0;
    while i < lines.len()
        invariant
            i <= lines.len(),
            p@ == prefix@,
            texts == lines.deep_view(),
            forall|j: int| 0 <= j < i ==> !starts_with(#[trigger] texts[j], p@),
        decreases lines.len() - i,
    {
        let cs = chars_of(lines[i].as_str());
        assert(cs@ == texts[i as int]);
        assert(cs@.subrange(0, cs@.len() as int) =~= cs@);
        if range_starts_with(cs.as_slice(), 0, cs.len(), p.as_slice()) {
            return true;
        }
        i = i + 1;
    }
    false
}

/// Whether some line contains `needle`.
pub fn lines_any_contains(lines: &[String], needle: &str) -> (r: bool)
    ensures
        r == any_contains(lines.deep_view(), needle@),
{
    let ghost texts = lines.deep_view();
    let p = chars_of(needle);
    let mut i: usize = 0;
    while i < lines.len()
        invariant
            i <= lines.len(),
            p@ == needle@,
            texts == lines.deep_view(),
            forall|j: int| 0 <= j < i ==> !contains(#[trigger] texts[j], p@),
        decreases lines.len() - i,
    {
        let cs = chars_of(lines[i].as_str());
        assert(cs@ == texts[i as int]);
        if slice_contains(cs.as_slice(), p.as_slice()) {
            return true;
        }
        i = i + 1;
    }
    false
}

impl ResponseMatcher {
    /// Whether `lines` is a complete reply.
    pub open spec fn complete(&self, lines: Seq<Seq<char>>) -> bool {
        match self {
            ResponseMatcher::UntilPrefix(prefix) => any_starts_with(lines, prefix@),
            ResponseMatcher::FixedLines(n) => lines.len() >= *n,
            ResponseMatcher::Contains(needle) => any_contains(lines, needle@),
            ResponseMatcher::Custom(rule) => rule.holds(lines),
        }
    }

    /// Decides, by a fresh scan of `lines`, whether the reply is complete.
    pub fn is_complete(&self, lines: &[String]) -> (r: bool)
        ensures
            r == self.complete(lines.deep_view()),
    {
        match self {
            ResponseMatcher::UntilPrefix(prefix) => lines_any_starts_with(lines, prefix),
            ResponseMatcher::FixedLines(n) => lines.len() >= *n,
            ResponseMatcher::Contains(needle) => lines_any_contains(lines, needle),
            ResponseMatcher::Custom(rule) => rule.test(lines),
        }
    }
}

/// How to recognise the reply to one command, and how long to wait for it.
pub struct CommandSpec {
    pub name: &'static str,
    /// How long the command may stay in flight, in milliseconds.
    pub timeout_ms: u64,
    pub matcher: ResponseMatcher,
    /// A floor under the command's latency, for deterministic timing in
    /// tests: a complete reply is held back until so many milliseconds
    /// have passed since submission.
    pub test_min_duration_ms: Option<u64>,
}

/// The command in flight.
pub struct PendingCommand {
    pub spec: CommandSpec,
    /// When the command was submitted, on the caller's millisecond clock.
    pub started_ms: u64,
    /// The non-telemetry lines received since.
    pub buffer: Vec<String>,
}

/// Counters and latency figures of the multiplexer.
#[derive(Debug, Clone, PartialEq, Eq)]
pub struct MetricsSnapshot {
    pub lines_read: u64,
    pub monitor_events: u64,
    pub command_completed: u64,
    pub command_timeouts: u64,
    pub last_error: Option<String>,
    pub command_last_latency_ms: Option<u64>,
    pub command_min_latency_ms: Option<u64>,
    pub command_max_latency_ms: Option<u64>,
    pub command_latency_samples: u64,
    pub partial_buffer_trims: u64,
    pub unclassified_lines: u64,
    pub utf8_decode_errors: u64,
}

/// The counters as a mathematical value.
pub struct MetricsView {
    pub lines_read: u64,
    pub monitor_events: u64,
    pub command_completed: u64,
    pub command_timeouts: u64,
    pub last_error: Option<Seq<char>>,
    pub command_last_latency_ms: Option<u64>,
    pub command_min_latency_ms: Option<u64>,
    pub command_max_latency_ms: Option<u64>,
    pub command_latency_samples: u64,
    pub partial_buffer_trims: u64,
    pub unclassified_lines: u64,
    pub utf8_decode_errors: u64,
}

impl View for MetricsSnapshot {
    type V = MetricsView;

    open spec fn view(&self) -> MetricsView {
        MetricsView {
            lines_read: self.lines_read,
            monitor_events: self.monitor_events,
            command_completed: self.command_completed,
            command_timeouts: self.command_timeouts,
            last_error: match self.last_error {
                Some(e) => Some(e@),
                None => None,
            },
            command_last_latency_ms: self.command_last_latency_ms,
            command_min_latency_ms: self.command_min_latency_ms,
            command_max_latency_ms: self.command_max_latency_ms,
            command_latency_samples: self.command_latency_samples,
            partial_buffer_trims: self.partial_buffer_trims,
            unclassified_lines: self.unclassified_lines,
            utf8_decode_errors: self.utf8_decode_errors,
        }
    }
}

impl MetricsView {
    /// All counters at zero, no latency seen, no error.
    pub open spec fn zero() -> MetricsView {
        MetricsView {
            lines_read: 0,
            monitor_events: 0,
            command_completed: 0,
            command_timeouts: 0,
            last_error: None,
            command_last_latency_ms: None,
            command_min_latency_ms: None,
            command_max_latency_ms: None,
            command_latency_samples: 0,
            partial_buffer_trims: 0,
            unclassified_lines: 0,
            utf8_decode_errors: 0,
        }
    }
}

impl Default for MetricsSnapshot {
    fn default() -> (r: MetricsSnapshot)
        ensures
            r@ == MetricsView::zero(),
    {
        MetricsSnapshot {
            lines_read: 0,
            monitor_events: 0,
            command_completed: 0,
            command_timeouts: 0,
            last_error: None,
            command_last_latency_ms: None,
            command_min_latency_ms: None,
            command_max_latency_ms: None,
            command_latency_samples: 0,
            partial_buffer_trims: 0,
            unclassified_lines: 0,
            utf8_decode_errors: 0,
        }
    }
}

} // verus!
