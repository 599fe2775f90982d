//! The multiplexer as a state machine. The caller owns the transport and
//! the clock; it hands in what happened (a command was submitted, bytes
//! arrived, time passed, the transport failed) and performs what comes
//! back: events to broadcast, snapshots and metrics to publish, replies
//! and failures to deliver.

use crate::serial::unified::reader::{
    chars_are_monitor_line, is_monitor_line, parse_monitor_chars, spec_parse_monitor_line,
};
use crate::seqs::{first_where, lemma_first_where_is};
use crate::serial::SerialError;
use crate::serial::unified::types::{
    CommandResponse, CommandSpec, FinishReason, MetricsSnapshot, MetricsView, ParsedEvent,
    ParsedEventView, PendingCommand, RawStateSnapshot, SnapshotView,
};
use crate::text::{
    char_utf8_width, chars_of, is_blank, push_chars, range_is_blank, takes_more_than, text_of,
    utf8_len, utf8_width,
};
use vstd::prelude::*;
use vstd::slice::slice_subrange;
use vstd::utf8::{decode_utf8, valid_utf8};

verus! {

/// The partial-line buffer is cut back when its text takes more than so
/// many bytes in UTF-8.
pub const PARTIAL_LIMIT: usize = 8192;

/// What is kept of the partial-line buffer when it is cut back: no more
/// than so many bytes of its end.
pub const PARTIAL_KEEP: usize = 4096;

/// Why a command ended without a reply.
#[derive(Debug, Clone, PartialEq, Eq)]
pub enum CommandFailure {
    /// Another command was in flight when this one was submitted.
    InFlight,
    /// The reply was not complete when the command's time was up.
    Timeout { name: &'static str, partial: Vec<String> },
    /// The transport failed while the command was in flight.
    Transport { message: String },
    /// The multiplexer was shut down while the command was in flight.
    Terminated,
}

pub enum CommandFailureView {
    InFlight,
    Timeout { name: Seq<char>, partial: Seq<Seq<char>> },
    Transport { message: Seq<char> },
    Terminated,
}

impl View for CommandFailure {
    type V = CommandFailureView;

    open spec fn view(&self) -> CommandFailureView {
        match self {
            CommandFailure::InFlight => CommandFailureView::InFlight,
            CommandFailure::Timeout { name, partial } => CommandFailureView::Timeout {
                name: name@,
                partial: partial.deep_view(),
            },
            CommandFailure::Transport { message } => CommandFailureView::Transport {
                message: message@,
            },
            CommandFailure::Terminated => CommandFailureView::Terminated,
        }
    }
}

impl CommandFailure {
    /// Turns the failure into the error for the submitter.
    pub fn into_error(self) -> (r: SerialError)
        ensures
            match self {
                CommandFailure::InFlight => r matches SerialError::ProtocolError(m) && m@
                    == "Another command in flight"@,
                CommandFailure::Timeout { name, partial } => r == SerialError::Timeout,
                CommandFailure::Transport { message } => r == SerialError::IoError(message),
                CommandFailure::Terminated => r matches SerialError::ProtocolError(m) && m@
                    == "Reader terminated"@,
            },
    {
        match self {
            CommandFailure::InFlight => SerialError::ProtocolError(
                "Another command in flight".to_owned(),
            ),
            CommandFailure::Timeout { name, partial } => SerialError::Timeout,
            CommandFailure::Transport { message } => SerialError::IoError(message),
            CommandFailure::Terminated => SerialError::ProtocolError(
                "Reader terminated".to_owned(),
            ),
        }
    }
}

/// What the caller is to do, in this order.
#[derive(Debug, Clone, PartialEq, Eq)]
pub enum ReaderOutput {
    /// Broadcast the event to the subscribers.
    Event(ParsedEvent),
    /// Publish the snapshot.
    Snapshot(RawStateSnapshot),
    /// Publish the metrics.
    Metrics(MetricsSnapshot),
    /// Deliver the reply to the submitter of the command in flight.
    Completed(CommandResponse),
    /// Deliver the failure to the submitter of the command in flight.
    Failed(CommandFailure),
}

pub enum OutputView {
    Event(ParsedEventView),
    Snapshot(SnapshotView),
    Metrics(MetricsView),
    /// A reply with these lines, finished because the matcher was satisfied.
    Completed(Seq<Seq<char>>),
    Failed(CommandFailureView),
    /// A reply that finished for another reason; the multiplexer makes none.
    Other,
}

impl View for ReaderOutput {
    type V = OutputView;

    open spec fn view(&self) -> OutputView {
        match self {
            ReaderOutput::Event(e) => OutputView::Event(e@),
            ReaderOutput::Snapshot(s) => OutputView::Snapshot(s@),
            ReaderOutput::Metrics(m) => OutputView::Metrics(m@),
            ReaderOutput::Completed(r) => if r.finished_reason is MatcherSatisfied {
                OutputView::Completed(r.lines.deep_view())
            } else {
                OutputView::Other
            },
            ReaderOutput::Failed(f) => OutputView::Failed(f@),
        }
    }
}

/// The outputs as mathematical values.
pub open spec fn output_views(outputs: Seq<ReaderOutput>) -> Seq<OutputView> {
    Seq::new(outputs.len(), |i: int| outputs[i]@)
}

/// The command in flight as a mathematical value.
pub struct PendingView {
    pub spec: CommandSpec,
    pub started_ms: u64,
    pub buffer: Seq<Seq<char>>,
}

impl View for PendingCommand {
    type V = PendingView;

    open spec fn view(&self) -> PendingView {
        PendingView {
            spec: self.spec,
            started_ms: self.started_ms,
            buffer: self.buffer.deep_view(),
        }
    }
}

/// Everything the multiplexer remembers between events.
pub struct Multiplexer {
    /// Text received after the last line break.
    pub partial: Vec<char>,
    /// The command in flight, if there is one.
    pub pending: Option<PendingCommand>,
    pub snapshot: RawStateSnapshot,
    pub metrics: MetricsSnapshot,
}

pub struct MultiplexerView {
    pub partial: Seq<char>,
    pub pending: Option<PendingView>,
    pub snapshot: SnapshotView,
    pub metrics: MetricsView,
}

impl View for Multiplexer {
    type V = MultiplexerView;

    open spec fn view(&self) -> MultiplexerView {
        MultiplexerView {
            partial: self.partial@,
            pending: match self.pending {
                Some(p) => Some(p@),
                None => None,
            },
            snapshot: self.snapshot@,
            metrics: self.metrics@,
        }
    }
}

/// A state and what is to be done on the way to it.
pub struct Step {
    pub state: MultiplexerView,
    pub outputs: Seq<OutputView>,
}

/// A counter after one more occurrence. Counters stay at the largest value
/// once they have reached it.
pub open spec fn bump(x: u64) -> u64 {
    if x < u64::MAX {
        (x + 1) as u64
    } else {
        x
    }
}

/// The milliseconds from `started` to `now`, none if the clock went back.
pub open spec fn elapsed_ms(started: u64, now: u64) -> u64 {
    if now >= started {
        (now - started) as u64
    } else {
        0
    }
}

/// A line ends at a line feed or a carriage return.
pub open spec fn is_line_break(c: char) -> bool {
    c == '\n' || c == '\r'
}

/// The characters that end a line.
pub open spec fn line_break() -> spec_fn(char) -> bool {
    |c: char| is_line_break(c)
}

/// `s` without its leading line breaks.
pub open spec fn skip_breaks(s: Seq<char>) -> Seq<char>
    decreases s.len(),
{
    if s.len() > 0 && is_line_break(s[0]) {
        skip_breaks(s.skip(1))
    } else {
        s
    }
}

/// Skipping line breaks makes a text no longer.
pub proof fn lemma_skip_breaks_len(s: Seq<char>)
    ensures
        skip_breaks(s).len() <= s.len(),
    decreases s.len(),
{
    if s.len() > 0 && is_line_break(s[0]) {
        lemma_skip_breaks_len(s.skip(1));
    }
}

/// The longest end of `s` that takes no more than `room` bytes in UTF-8.
/// It begins with a whole character.
pub open spec fn kept_tail(s: Seq<char>, room: nat) -> Seq<char>
    decreases s.len(),
{
    if s.len() == 0 || utf8_width(s.last()) > room {
        Seq::empty()
    } else {
        kept_tail(s.drop_last(), (room - utf8_width(s.last())) as nat).push(s.last())
    }
}

/// What is kept is an end of the text, takes no more than `room` bytes,
/// and is the longest such end: the character before it would not fit.
pub proof fn lemma_kept_tail(s: Seq<char>, room: nat)
    ensures
        kept_tail(s, room).len() <= s.len(),
        kept_tail(s, room) == s.skip(s.len() - kept_tail(s, room).len()),
        utf8_len(kept_tail(s, room)) <= room,
        kept_tail(s, room).len() < s.len() ==> utf8_len(kept_tail(s, room)) + utf8_width(
            s[s.len() - kept_tail(s, room).len() - 1],
        ) > room,
    decreases s.len(),
{
    let t = kept_tail(s, room);
    if s.len() == 0 || utf8_width(s.last()) > room {
        assert(t =~= s.skip(s.len() as int));
    } else {
        let rest = (room - utf8_width(s.last())) as nat;
        let before = kept_tail(s.drop_last(), rest);
        lemma_kept_tail(s.drop_last(), rest);
        assert(t.drop_last() =~= before);
        assert(t =~= s.skip(s.len() - t.len()));
    }
}

/// The smaller of a latency seen before, if any, and a new one.
pub open spec fn min_latency(seen: Option<u64>, latency: u64) -> u64 {
    match seen {
        Some(m) => if m < latency {
            m
        } else {
            latency
        },
        None => latency,
    }
}

/// The larger of a latency seen before, if any, and a new one.
pub open spec fn max_latency(seen: Option<u64>, latency: u64) -> u64 {
    match seen {
        Some(m) => if m > latency {
            m
        } else {
            latency
        },
        None => latency,
    }
}

impl MetricsView {
    /// The metrics after a command has completed with this latency.
    pub open spec fn with_completion(self, latency: u64) -> MetricsView {
        MetricsView {
            command_completed: bump(self.command_completed),
            command_last_latency_ms: Some(latency),
            command_min_latency_ms: Some(min_latency(self.command_min_latency_ms, latency)),
            command_max_latency_ms: Some(max_latency(self.command_max_latency_ms, latency)),
            command_latency_samples: bump(self.command_latency_samples),
            ..self
        }
    }
}

impl PendingView {
    /// Whether the command may complete at `now`: always, unless it carries
    /// a latency floor that has not been reached.
    pub open spec fn floor_reached(self, now: u64) -> bool {
        match self.spec.test_min_duration_ms {
            Some(min) => elapsed_ms(self.started_ms, now) >= min,
            None => true,
        }
    }

    /// Whether the reply has been complete at some time since the command
    /// was submitted: the matcher holds of the first lines received, up to
    /// some line.
    pub open spec fn was_complete(self) -> bool {
        exists|k: int|
            1 <= k <= self.buffer.len() && self.spec.matcher.complete(
                #[trigger] self.buffer.take(k),
            )
    }

    /// Whether the command's time is up at `now`.
    pub open spec fn timed_out(self, now: u64) -> bool {
        elapsed_ms(self.started_ms, now) > self.spec.timeout_ms
    }
}

impl MultiplexerView {
    /// Nothing received, nothing in flight.
    pub open spec fn initial() -> MultiplexerView {
        MultiplexerView {
            partial: Seq::empty(),
            pending: None,
            snapshot: SnapshotView::empty(),
            metrics: MetricsView::zero(),
        }
    }

    /// The telemetry side of a line. A telemetry line that parses is folded
    /// into the snapshot and broadcast, the snapshot published if the event
    /// carried state; one that does not parse is broadcast as unclassified.
    /// A line that is no telemetry is only counted.
    pub open spec fn classify(self, line: Seq<char>) -> Step {
        if is_monitor_line(line) {
            match spec_parse_monitor_line(line) {
                Some(event) => {
                    let snapshot = self.snapshot.apply(event);
                    let state = MultiplexerView {
                        snapshot,
                        metrics: MetricsView {
                            monitor_events: bump(self.metrics.monitor_events),
                            ..self.metrics
                        },
                        ..self
                    };
                    Step {
                        state,
                        outputs: if event.changes_state() {
                            seq![OutputView::Event(event), OutputView::Snapshot(snapshot)]
                        } else {
                            seq![OutputView::Event(event)]
                        },
                    }
                },
                None => Step {
                    state: MultiplexerView {
                        metrics: MetricsView {
                            unclassified_lines: bump(self.metrics.unclassified_lines),
                            ..self.metrics
                        },
                        ..self
                    },
                    outputs: seq![
                        OutputView::Event(ParsedEventView::Unclassified { line }),
                    ],
                },
            }
        } else {
            Step {
                state: MultiplexerView {
                    metrics: MetricsView {
                        unclassified_lines: bump(self.metrics.unclassified_lines),
                        ..self.metrics
                    },
                    ..self
                },
                outputs: Seq::empty(),
            }
        }
    }

    /// The command in flight completes at `now` with the lines `lines`.
    pub open spec fn complete(self, started_ms: u64, lines: Seq<Seq<char>>, now: u64) -> Step {
        let metrics = self.metrics.with_completion(elapsed_ms(started_ms, now));
        Step {
            state: MultiplexerView { pending: None, metrics, ..self },
            outputs: seq![OutputView::Metrics(metrics), OutputView::Completed(lines)],
        }
    }

    /// The command side of a line. A line that is no telemetry is added to
    /// the reply of the command in flight; if the reply is then complete
    /// and the command's latency floor is reached, the command completes.
    pub open spec fn collect(self, line: Seq<char>, now: u64) -> Step {
        match self.pending {
            Some(p) => if is_monitor_line(line) {
                Step { state: self, outputs: Seq::empty() }
            } else {
                let buffer = p.buffer.push(line);
                let grown = PendingView { buffer, ..p };
                if p.spec.matcher.complete(buffer) && grown.floor_reached(now) {
                    self.complete(p.started_ms, buffer, now)
                } else {
                    Step {
                        state: MultiplexerView { pending: Some(grown), ..self },
                        outputs: Seq::empty(),
                    }
                }
            },
            None => Step { state: self, outputs: Seq::empty() },
        }
    }

    /// One line that is not blank: it is counted and classified, the
    /// metrics are published if a counter moved, and the line is offered
    /// to the command in flight.
    pub open spec fn handle_line(self, line: Seq<char>, now: u64) -> Step {
        let counted = MultiplexerView {
            metrics: MetricsView { lines_read: bump(self.metrics.lines_read), ..self.metrics },
            ..self
        };
        let classified = counted.classify(line);
        let moved = classified.state.metrics.monitor_events != self.metrics.monitor_events
            || classified.state.metrics.unclassified_lines != self.metrics.unclassified_lines;
        let published = if moved {
            classified.outputs.push(OutputView::Metrics(classified.state.metrics))
        } else {
            classified.outputs
        };
        let collected = classified.state.collect(line, now);
        Step { state: collected.state, outputs: published + collected.outputs }
    }

    /// The first line of `text`, which a line break at `i` ends: a blank
    /// line is passed over, any other is handled.
    pub open spec fn first_line(self, text: Seq<char>, i: int, now: u64) -> Step {
        if is_blank(text.take(i)) {
            Step { state: self, outputs: Seq::empty() }
        } else {
            self.handle_line(text.take(i), now)
        }
    }

    /// Every complete line of `text`, in order; what follows the last line
    /// break becomes the partial line. A run of line breaks ends one line,
    /// and blank lines are passed over.
    pub open spec fn drain(self, text: Seq<char>, now: u64) -> Step
        decreases text.len(),
    {
        let i = first_where(text, line_break());
        if 0 <= i < text.len() {
            let rest = skip_breaks(text.skip(i + 1));
            let first = self.first_line(text, i, now);
            proof {
                lemma_skip_breaks_len(text.skip(i + 1));
            }
            let others = first.state.drain(rest, now);
            Step { state: others.state, outputs: first.outputs + others.outputs }
        } else {
            Step { state: MultiplexerView { partial: text, ..self }, outputs: Seq::empty() }
        }
    }

    /// Draining text whose first line break stands at `i`.
    pub proof fn lemma_drain_line(self, text: Seq<char>, i: int, now: u64)
        requires
            0 <= i < text.len(),
            is_line_break(text[i]),
            forall|j: int| 0 <= j < i ==> !is_line_break(text[j]),
        ensures
            ({
                let first = self.first_line(text, i, now);
                let others = first.state.drain(skip_breaks(text.skip(i + 1)), now);
                &&& self.drain(text, now).state == others.state
                &&& self.drain(text, now).outputs == first.outputs + others.outputs
            }),
    {
        lemma_first_where_is(text, line_break(), i);
        lemma_skip_breaks_len(text.skip(i + 1));
    }

    /// Draining text without a line break.
    pub proof fn lemma_drain_partial(self, text: Seq<char>, now: u64)
        requires
            forall|j: int| 0 <= j < text.len() ==> !is_line_break(text[j]),
        ensures
            self.drain(text, now).state == (MultiplexerView { partial: text, ..self }),
            self.drain(text, now).outputs == Seq::<OutputView>::empty(),
    {
        lemma_first_where_is(text, line_break(), text.len() as int);
    }

    /// A partial line that takes more than [`PARTIAL_LIMIT`] bytes is cut
    /// back to the longest end of it that takes no more than
    /// [`PARTIAL_KEEP`] bytes, which is counted and published.
    pub open spec fn trim_partial(self) -> Step {
        if utf8_len(self.partial) > PARTIAL_LIMIT {
            let metrics = MetricsView {
                partial_buffer_trims: bump(self.metrics.partial_buffer_trims),
                ..self.metrics
            };
            Step {
                state: MultiplexerView {
                    partial: kept_tail(self.partial, PARTIAL_KEEP as nat),
                    metrics,
                    ..self
                },
                outputs: seq![OutputView::Metrics(metrics)],
            }
        } else {
            Step { state: self, outputs: Seq::empty() }
        }
    }

    /// Text has arrived. `decode_failed` says that the bytes were not valid
    /// UTF-8 and the text is what could be made of them.
    pub open spec fn feed(self, text: Seq<char>, decode_failed: bool, now: u64) -> Step {
        let counted = if decode_failed {
            MultiplexerView {
                metrics: MetricsView {
                    utf8_decode_errors: bump(self.metrics.utf8_decode_errors),
                    ..self.metrics
                },
                ..self
            }
        } else {
            self
        };
        let drained = counted.drain(self.partial + text, now);
        let trimmed = drained.state.trim_partial();
        Step { state: trimmed.state, outputs: drained.outputs + trimmed.outputs }
    }

    /// Time has passed. A command whose time is up fails with what it has
    /// received; a command whose reply was complete and was held back by
    /// its latency floor completes once the floor is reached, with all the
    /// lines it has received by then.
    pub open spec fn tick(self, now: u64) -> Step {
        match self.pending {
            Some(p) => if p.timed_out(now) {
                let metrics = MetricsView {
                    command_timeouts: bump(self.metrics.command_timeouts),
                    ..self.metrics
                };
                Step {
                    state: MultiplexerView { pending: None, metrics, ..self },
                    outputs: seq![
                        OutputView::Metrics(metrics),
                        OutputView::Failed(
                            CommandFailureView::Timeout { name: p.spec.name@, partial: p.buffer },
                        ),
                    ],
                }
            } else if p.spec.test_min_duration_ms is Some && p.was_complete() && p.floor_reached(
                now,
            ) {
                self.complete(p.started_ms, p.buffer, now)
            } else {
                Step { state: self, outputs: Seq::empty() }
            },
            None => Step { state: self, outputs: Seq::empty() },
        }
    }

    /// The transport has failed for good: the subscribers are told, the
    /// error is recorded and published, and the command in flight fails.
    pub open spec fn transport_error(self, message: Seq<char>) -> Step {
        let notice = "IO error: "@ + message;
        let metrics = MetricsView { last_error: Some(notice), ..self.metrics };
        let told = seq![
            OutputView::Event(ParsedEventView::ProtocolNotice { message: notice }),
            OutputView::Metrics(metrics),
        ];
        Step {
            state: MultiplexerView { pending: None, metrics, ..self },
            outputs: if self.pending is Some {
                told.push(OutputView::Failed(CommandFailureView::Transport { message }))
            } else {
                told
            },
        }
    }

    /// The multiplexer stops: the command in flight fails.
    pub open spec fn shutdown(self) -> Step {
        Step {
            state: MultiplexerView { pending: None, ..self },
            outputs: if self.pending is Some {
                seq![OutputView::Failed(CommandFailureView::Terminated)]
            } else {
                Seq::empty()
            },
        }
    }
}

/// What `String::from_utf8_lossy` makes of bytes.
pub uninterp spec fn lossy_utf8_text(bytes: Seq<u8>) -> Seq<char>;

/// `std::str::from_utf8`: the text that the bytes encode, if they are valid
/// UTF-8, and nothing otherwise.
#[verifier::external_body]
fn utf8_text(bytes: &[u8]) -> (r: Option<String>)
    ensures
        r is Some <==> valid_utf8(bytes@),
        r is Some ==> r->0@ == decode_utf8(bytes@),
{
    std::str::from_utf8(bytes).ok().map(String::from)
}

/// `String::from_utf8_lossy`: the text of the bytes with every invalid
/// sequence replaced.
#[verifier::external_body]
fn lossy_text(bytes: &[u8]) -> (r: String)
    ensures
        r@ == lossy_utf8_text(bytes@),
{
    String::from_utf8_lossy(bytes).into_owned()
}

/// The text that a chunk of bytes is taken for: what it encodes, if it is
/// valid UTF-8, and else what can be made of it.
pub open spec fn decoded_text(bytes: Seq<u8>) -> Seq<char> {
    if valid_utf8(bytes) {
        decode_utf8(bytes)
    } else {
        lossy_utf8_text(bytes)
    }
}

/// Reads bytes as text, and says whether they were not valid UTF-8.
pub fn read_text(bytes: &[u8]) -> (r: (String, bool))
    ensures
        r.0@ == decoded_text(bytes@),
        r.1 == !valid_utf8(bytes@),
{
    match utf8_text(bytes) {
        Some(text) => (text, false),
        None => (lossy_text(bytes), true),
    }
}

fn bumped(x: u64) -> (r: u64)
    ensures
        r == bump(x),
{
    if x < u64::MAX {
        x + 1
    } else {
        x
    }
}

fn elapsed(started: u64, now: u64) -> (r: u64)
    ensures
        r == elapsed_ms(started, now),
{
    if now >= started {
        now - started
    } else {
        0
    }
}

fn emit(out: &mut Vec<ReaderOutput>, output: ReaderOutput)
    ensures
        output_views(final(out)@) == output_views(old(out)@).push(output@),
{
    out.push(output);
    assert(output_views(out@) =~= output_views(old(out)@).push(output@));
}

impl MetricsSnapshot {
    /// A copy of the metrics.
    pub fn duplicate(&self) -> (r: MetricsSnapshot)
        ensures
            r@ == self@,
    {
        MetricsSnapshot {
            lines_read: self.lines_read,
            monitor_events: self.monitor_events,
            command_completed: self.command_completed,
            command_timeouts: self.command_timeouts,
            last_error: match &self.last_error {
                Some(e) => Some(e.clone()),
                None => None,
            },
            command_last_latency_ms: self.command_last_latency_ms,
            command_min_latency_ms: self.command_min_latency_ms,
            command_max_latency_ms: self.command_max_latency_ms,
            command_latency_samples: self.command_latency_samples,
            partial_buffer_trims: self.partial_buffer_trims,
            unclassified_lines: self.unclassified_lines,
            utf8_decode_errors: self.utf8_decode_errors,
        }
    }

    fn record_completion(&mut self, latency: u64)
        ensures
            final(self)@ == old(self)@.with_completion(latency),
    {
        self.command_completed = bumped(self.command_completed);
        self.command_last_latency_ms = Some(latency);
        self.command_min_latency_ms = Some(
            match self.command_min_latency_ms {
                Some(m) => if m < latency {
                    m
                } else {
                    latency
                },
                None => latency,
            },
        );
        self.command_max_latency_ms = Some(
            match self.command_max_latency_ms {
                Some(m) => if m > latency {
                    m
                } else {
                    latency
                },
                None => latency,
            },
        );
        self.command_latency_samples = bumped(self.command_latency_samples);
    }
}

impl PendingCommand {
    fn reply_complete(&self) -> (r: bool)
        ensures
            r == self.spec.matcher.complete(self@.buffer),
    {
        let lines = self.buffer.as_slice();
        assert(lines.deep_view() =~= self.buffer.deep_view());
        self.spec.matcher.is_complete(lines)
    }

    fn was_complete(&self) -> (r: bool)
        ensures
            r == self@.was_complete(),
    {
        let lines = self.buffer.as_slice();
        let ghost texts = self@.buffer;
        assert(lines.deep_view() =~= texts);
        let mut k: usize = 0;
        while k < lines.len()
            invariant
                k <= lines.len(),
                texts == self@.buffer,
                lines.deep_view() == texts,
                forall|j: int| 1 <= j <= k ==> !self.spec.matcher.complete(#[trigger] texts.take(j)),
            decreases lines.len() - k,
        {
            let head = slice_subrange(lines, 0, k + 1);
            assert(head.deep_view() =~= texts.take(k + 1));
            if self.spec.matcher.is_complete(head) {
                return true;
            }
            k = k + 1;
        }
        false
    }

    fn floor_reached(&self, now_ms: u64) -> (r: bool)
        ensures
            r == self@.floor_reached(now_ms),
    {
        match self.spec.test_min_duration_ms {
            Some(min) => elapsed(self.started_ms, now_ms) >= min,
            None => true,
        }
    }
}

impl Multiplexer {
    /// A multiplexer that has seen nothing yet.
    pub fn new() -> (r: Multiplexer)
        ensures
            r@ == MultiplexerView::initial(),
    {
        Multiplexer {
            partial: Vec::new(),
            pending: None,
            snapshot: RawStateSnapshot::default(),
            metrics: MetricsSnapshot::default(),
        }
    }

    /// Whether a command is in flight.
    pub fn is_busy(&self) -> (r: bool)
        ensures
            r == (self@.pending is Some),
    {
        self.pending.is_some()
    }

    /// Takes a command if none is in flight, and gives the line to write to
    /// the transport. A command submitted while another is in flight is
    /// refused at once and changes nothing.
    pub fn submit(&mut self, cmd: &str, spec: CommandSpec, now_ms: u64) -> (r: Result<
        String,
        CommandFailure,
    >)
        ensures
            old(self)@.pending is Some ==> (r matches Err(CommandFailure::InFlight)),
            old(self)@.pending is Some ==> final(self)@ == old(self)@,
            old(self)@.pending is None ==> r is Ok && r->Ok_0@ == cmd@.push('\n') && final(self)@
                == (MultiplexerView {
                pending: Some(PendingView { spec, started_ms: now_ms, buffer: Seq::empty() }),
                ..old(self)@
            }),
    {
        if self.pending.is_some() {
            return Err(CommandFailure::InFlight);
        }
        let mut line = cmd.to_owned();
        line.push('\n');
        let pending = PendingCommand { spec, started_ms: now_ms, buffer: Vec::new() };
        assert(pending@.buffer =~= Seq::empty());
        self.pending = Some(pending);
        Ok(line)
    }

    /// Forgets the command in flight, for the caller that could not write
    /// its line to the transport.
    pub fn abort_submit(&mut self)
        ensures
            final(self)@ == (MultiplexerView { pending: None, ..old(self)@ }),
    {
        self.pending = None;
    }

    fn classify(&mut self, line: &[char], out: &mut Vec<ReaderOutput>)
        ensures
            ({
                let step = old(self)@.classify(line@);
                &&& final(self)@ == step.state
                &&& output_views(final(out)@) == output_views(old(out)@) + step.outputs
            }),
    {
        let ghost before = output_views(out@);
        if chars_are_monitor_line(line) {
            match parse_monitor_chars(line) {
                Some(event) => {
                    let changed = self.snapshot.apply_event(&event);
                    self.metrics.monitor_events = bumped(self.metrics.monitor_events);
                    let ghost view = event@;
                    emit(out, ReaderOutput::Event(event));
                    if changed {
                        emit(out, ReaderOutput::Snapshot(self.snapshot.duplicate()));
                        assert(output_views(out@) =~= before + seq![
                            OutputView::Event(view),
                            OutputView::Snapshot(self.snapshot@),
                        ]);
                    } else {
                        assert(output_views(out@) =~= before + seq![OutputView::Event(view)]);
                    }
                },
                None => {
                    self.metrics.unclassified_lines = bumped(self.metrics.unclassified_lines);
                    let text = text_of(line, 0, line.len());
                    assert(line@.subrange(0, line@.len() as int) =~= line@);
                    emit(out, ReaderOutput::Event(ParsedEvent::Unclassified { line: text }));
                    assert(output_views(out@) =~= before + seq![
                        OutputView::Event(ParsedEventView::Unclassified { line: line@ }),
                    ]);
                },
            }
        } else {
            self.metrics.unclassified_lines = bumped(self.metrics.unclassified_lines);
            assert(output_views(out@) =~= before + Seq::<OutputView>::empty());
        }
    }

    /// Completes the command `p`, which has been taken out of the slot.
    fn complete_with(&mut self, p: PendingCommand, now_ms: u64, out: &mut Vec<ReaderOutput>)
        requires
            old(self).pending is None,
        ensures
            ({
                let step = old(self)@.complete(p.started_ms, p.buffer.deep_view(), now_ms);
                &&& final(self)@ == step.state
                &&& output_views(final(out)@) == output_views(old(out)@) + step.outputs
            }),
    {
        let ghost before = output_views(out@);
        let ghost lines = p.buffer.deep_view();
        self.metrics.record_completion(elapsed(p.started_ms, now_ms));
        emit(out, ReaderOutput::Metrics(self.metrics.duplicate()));
        emit(
            out,
            ReaderOutput::Completed(
                CommandResponse {
                    lines: p.buffer,
                    finished_reason: FinishReason::MatcherSatisfied,
                },
            ),
        );
        assert(output_views(out@) =~= before + seq![
            OutputView::Metrics(self.metrics@),
            OutputView::Completed(lines),
        ]);
    }

    fn collect(&mut self, line: &[char], now_ms: u64, out: &mut Vec<ReaderOutput>)
        ensures
            ({
                let step = old(self)@.collect(line@, now_ms);
                &&& final(self)@ == step.state
                &&& output_views(final(out)@) == output_views(old(out)@) + step.outputs
            }),
    {
        let ghost before = output_views(out@);
        assert(before =~= before + Seq::<OutputView>::empty());
        if self.pending.is_none() {
            return ;
        }
        if chars_are_monitor_line(line) {
            return ;
        }
        let mut p = self.pending.take().unwrap();
        let ghost was = p@;
        let text = text_of(line, 0, line.len());
        assert(line@.subrange(0, line@.len() as int) =~= line@);
        p.buffer.push(text);
        assert(p.buffer.deep_view() =~= was.buffer.push(line@));
        assert(p@ == PendingView { buffer: was.buffer.push(line@), ..was });
        if p.reply_complete() && p.floor_reached(now_ms) {
            self.complete_with(p, now_ms, out);
        } else {
            self.pending = Some(p);
        }
    }

    /// One line that is not blank.
    pub fn handle_line(&mut self, line: &[char], now_ms: u64, out: &mut Vec<ReaderOutput>)
        ensures
            ({
                let step = old(self)@.handle_line(line@, now_ms);
                &&& final(self)@ == step.state
                &&& output_views(final(out)@) == output_views(old(out)@) + step.outputs
            }),
    {
        let ghost before = output_views(out@);
        let events_before: u64 = self.metrics.monitor_events;
        let unclassified_before: u64 = self.metrics.unclassified_lines;
        self.metrics.lines_read = bumped(self.metrics.lines_read);
        self.classify(line, out);
        if self.metrics.monitor_events != events_before || self.metrics.unclassified_lines
            != unclassified_before {
            emit(out, ReaderOutput::Metrics(self.metrics.duplicate()));
        }
        self.collect(line, now_ms, out);
        assert(output_views(out@) =~= before + old(self)@.handle_line(line@, now_ms).outputs);
    }

    /// Where the first line break of `buf[from..]` stands, or the length of
    /// `buf` if there is none.
    fn find_break(buf: &[char], from: usize) -> (j: usize)
        requires
            from <= buf.len(),
        ensures
            from <= j <= buf.len(),
            forall|k: int| from <= k < j ==> !is_line_break(buf@[k]),
            j < buf.len() ==> is_line_break(buf@[j as int]),
    {
        let mut j: usize = from;
        while j < buf.len() && buf[j] != '\n' && buf[j] != '\r'
            invariant
                from <= j <= buf.len(),
                forall|k: int| from <= k < j ==> !is_line_break(buf@[k]),
            decreases buf.len() - j,
        {
            j = j + 1;
        }
        j
    }

    /// Where `buf[from..]` begins once its leading line breaks are skipped.
    fn pass_breaks(buf: &[char], from: usize) -> (k: usize)
        requires
            from <= buf.len(),
        ensures
            from <= k <= buf.len(),
            buf@.skip(k as int) == skip_breaks(buf@.skip(from as int)),
    {
        let mut k: usize = from;
        while k < buf.len() && (buf[k] == '\n' || buf[k] == '\r')
            invariant
                from <= k <= buf.len(),
                skip_breaks(buf@.skip(k as int)) == skip_breaks(buf@.skip(from as int)),
            decreases buf.len() - k,
        {
            assert(buf@.skip(k as int).skip(1) =~= buf@.skip(k + 1));
            k = k + 1;
        }
        k
    }

    /// The first line of `buf[pos..]`, which ends at `j`.
    fn take_line(&mut self, buf: &[char], pos: usize, j: usize, now_ms: u64, out: &mut Vec<
        ReaderOutput,
    >)
        requires
            pos <= j < buf.len(),
        ensures
            ({
                let step = old(self)@.first_line(buf@.skip(pos as int), j - pos, now_ms);
                &&& final(self)@ == step.state
                &&& output_views(final(out)@) == output_views(old(out)@) + step.outputs
            }),
    {
        let line = slice_subrange(buf, pos, j);
        assert(line@ =~= buf@.skip(pos as int).take(j - pos));
        if !range_is_blank(buf, pos, j) {
            self.handle_line(line, now_ms, out);
        } else {
            assert(output_views(out@) + Seq::<OutputView>::empty() =~= output_views(out@));
        }
    }

    fn drain(&mut self, buf: &[char], now_ms: u64, out: &mut Vec<ReaderOutput>)
        ensures
            ({
                let step = old(self)@.drain(buf@, now_ms);
                &&& final(self)@ == step.state
                &&& output_views(final(out)@) == output_views(old(out)@) + step.outputs
            }),
    {
        let ghost goal = old(self)@.drain(buf@, now_ms);
        let ghost out0 = output_views(out@);
        let mut pos: usize = 0;
        assert(buf@.skip(0) =~= buf@);
        loop
            invariant_except_break
                self@.drain(buf@.skip(pos as int), now_ms).state == goal.state,
                output_views(out@) + self@.drain(buf@.skip(pos as int), now_ms).outputs == out0
                    + goal.outputs,
            invariant
                pos <= buf.len(),
            ensures
                self@ == goal.state,
                output_views(out@) == out0 + goal.outputs,
            decreases buf.len() - pos,
        {
            let ghost text = buf@.skip(pos as int);
            let ghost here = self@;
            let ghost emitted = output_views(out@);
            let j = Self::find_break(buf, pos);
            if j == buf.len() {
                proof {
                    here.lemma_drain_partial(text, now_ms);
                }
                let rest = slice_subrange(buf, pos, buf.len());
                self.partial = vstd::slice::slice_to_vec(rest);
                assert(self.partial@ =~= text);
                assert(emitted + Seq::<OutputView>::empty() =~= emitted);
                break ;
            }
            proof {
                here.lemma_drain_line(text, j - pos, now_ms);
                assert(text.skip(j - pos + 1) =~= buf@.skip(j + 1));
            }
            self.take_line(buf, pos, j, now_ms, out);
            let k = Self::pass_breaks(buf, j + 1);
            let ghost first = here.first_line(text, j - pos, now_ms);
            let ghost others = self@.drain(buf@.skip(k as int), now_ms);
            assert(output_views(out@) + others.outputs =~= emitted + (first.outputs
                + others.outputs));
            pos = k;
        }
    }

    /// Where the longest end of `cs` that takes no more than `room` bytes
    /// begins.
    fn tail_start(cs: &[char], room: usize) -> (k: usize)
        ensures
            k <= cs.len(),
            cs@.skip(k as int) == kept_tail(cs@, room as nat),
    {
        let mut k: usize = cs.len();
        let mut left: usize = room;
        assert(cs@.take(k as int) =~= cs@);
        assert(cs@.skip(k as int) =~= Seq::<char>::empty());
        assert(kept_tail(cs@, room as nat) + Seq::<char>::empty() =~= kept_tail(cs@, room as nat));
        while k > 0 && char_utf8_width(cs[k - 1]) <= left
            invariant
                k <= cs.len(),
                kept_tail(cs@, room as nat) == kept_tail(cs@.take(k as int), left as nat)
                    + cs@.skip(k as int),
            decreases k,
        {
            let width = char_utf8_width(cs[k - 1]);
            proof {
                let head = cs@.take(k as int);
                assert(head.drop_last() =~= cs@.take(k - 1));
                assert(head.last() == cs@[k - 1]);
                let inner = kept_tail(cs@.take(k - 1), (left - width) as nat);
                assert(kept_tail(head, left as nat) == inner.push(cs@[k - 1]));
                assert(inner.push(cs@[k - 1]) + cs@.skip(k as int) =~= inner + cs@.skip(k - 1));
            }
            left = left - width;
            k = k - 1;
        }
        proof {
            let head = cs@.take(k as int);
            if k > 0 {
                assert(head.last() == cs@[k - 1]);
            }
            assert(kept_tail(head, left as nat) =~= Seq::<char>::empty());
            assert(Seq::<char>::empty() + cs@.skip(k as int) =~= cs@.skip(k as int));
        }
        k
    }

    /// Text has arrived from the transport.
    pub fn on_text(&mut self, text: &str, decode_failed: bool, now_ms: u64) -> (outputs: Vec<
        ReaderOutput,
    >)
        ensures
            ({
                let step = old(self)@.feed(text@, decode_failed, now_ms);
                &&& final(self)@ == step.state
                &&& output_views(outputs@) == step.outputs
            }),
    {
        let mut outputs: Vec<ReaderOutput> = Vec::new();
        assert(output_views(outputs@) =~= Seq::<OutputView>::empty());
        let mut buf: Vec<char> = vstd::slice::slice_to_vec(self.partial.as_slice());
        let mut fresh = chars_of(text);
        buf.append(&mut fresh);
        assert(buf@ =~= old(self)@.partial + text@);
        if decode_failed {
            self.metrics.utf8_decode_errors = bumped(self.metrics.utf8_decode_errors);
        }
        let ghost counted = self@;
        self.drain(buf.as_slice(), now_ms, &mut outputs);
        let ghost drained = counted.drain(buf@, now_ms);
        assert(output_views(outputs@) =~= drained.outputs);
        if takes_more_than(self.partial.as_slice(), PARTIAL_LIMIT) {
            let len: usize = self.partial.len();
            let from = Self::tail_start(self.partial.as_slice(), PARTIAL_KEEP);
            let kept = slice_subrange(self.partial.as_slice(), from, len);
            let kept = vstd::slice::slice_to_vec(kept);
            assert(kept@ =~= self.partial@.skip(from as int));
            self.partial = kept;
            self.metrics.partial_buffer_trims = bumped(self.metrics.partial_buffer_trims);
            emit(&mut outputs, ReaderOutput::Metrics(self.metrics.duplicate()));
            assert(output_views(outputs@) =~= drained.outputs + seq![
                OutputView::Metrics(self.metrics@),
            ]);
        } else {
            assert(output_views(outputs@) =~= drained.outputs + Seq::<OutputView>::empty());
        }
        outputs
    }

    /// Bytes have arrived from the transport. They are read as UTF-8; bytes
    /// that are not valid UTF-8 are counted as a decode error and read as
    /// well as they can be.
    pub fn on_bytes(&mut self, bytes: &[u8], now_ms: u64) -> (outputs: Vec<ReaderOutput>)
        ensures
            ({
                let step = old(self)@.feed(decoded_text(bytes@), !valid_utf8(bytes@), now_ms);
                &&& final(self)@ == step.state
                &&& output_views(outputs@) == step.outputs
            }),
    {
        let (text, decode_failed) = read_text(bytes);
        self.on_text(text.as_str(), decode_failed, now_ms)
    }

    /// Time has passed.
    pub fn on_tick(&mut self, now_ms: u64) -> (outputs: Vec<ReaderOutput>)
        ensures
            ({
                let step = old(self)@.tick(now_ms);
                &&& final(self)@ == step.state
                &&& output_views(outputs@) == step.outputs
            }),
    {
        let mut outputs: Vec<ReaderOutput> = Vec::new();
        assert(output_views(outputs@) =~= Seq::<OutputView>::empty());
        if self.pending.is_none() {
            return outputs;
        }
        let p = self.pending.take().unwrap();
        let waited: u64 = elapsed(p.started_ms, now_ms);
        if waited > p.spec.timeout_ms {
            self.metrics.command_timeouts = bumped(self.metrics.command_timeouts);
            emit(&mut outputs, ReaderOutput::Metrics(self.metrics.duplicate()));
            let ghost name = p.spec.name@;
            let ghost partial = p.buffer.deep_view();
            emit(
                &mut outputs,
                ReaderOutput::Failed(
                    CommandFailure::Timeout { name: p.spec.name, partial: p.buffer },
                ),
            );
            assert(output_views(outputs@) =~= seq![
                OutputView::Metrics(self.metrics@),
                OutputView::Failed(CommandFailureView::Timeout { name, partial }),
            ]);
            return outputs;
        }
        if p.spec.test_min_duration_ms.is_some() && p.was_complete() && p.floor_reached(now_ms) {
            self.complete_with(p, now_ms, &mut outputs);
            assert(output_views(outputs@) =~= old(self)@.tick(now_ms).outputs);
        } else {
            self.pending = Some(p);
        }
        outputs
    }

    /// The transport has failed for good. The caller stops reading after
    /// it has performed the outputs.
    pub fn on_transport_error(&mut self, message: &str) -> (outputs: Vec<ReaderOutput>)
        ensures
            ({
                let step = old(self)@.transport_error(message@);
                &&& final(self)@ == step.state
                &&& output_views(outputs@) == step.outputs
            }),
    {
        let mut outputs: Vec<ReaderOutput> = Vec::new();
        assert(output_views(outputs@) =~= Seq::<OutputView>::empty());
        let mut notice = "IO error: ".to_owned();
        let cs = chars_of(message);
        push_chars(&mut notice, cs.as_slice());
        let ghost text = notice@;
        self.metrics.last_error = Some(notice.clone());
        emit(&mut outputs, ReaderOutput::Event(ParsedEvent::ProtocolNotice { message: notice }));
        emit(&mut outputs, ReaderOutput::Metrics(self.metrics.duplicate()));
        let ghost told = seq![
            OutputView::Event(ParsedEventView::ProtocolNotice { message: text }),
            OutputView::Metrics(self.metrics@),
        ];
        assert(output_views(outputs@) =~= told);
        if self.pending.is_some() {
            self.pending = None;
            emit(
                &mut outputs,
                ReaderOutput::Failed(CommandFailure::Transport { message: message.to_owned() }),
            );
        }
        outputs
    }

    /// The multiplexer stops.
    pub fn shutdown(&mut self) -> (outputs: Vec<ReaderOutput>)
        ensures
            ({
                let step = old(self)@.shutdown();
                &&& final(self)@ == step.state
                &&& output_views(outputs@) == step.outputs
            }),
    {
        let mut outputs: Vec<ReaderOutput> = Vec::new();
        assert(output_views(outputs@) =~= Seq::<OutputView>::empty());
        if self.pending.is_some() {
            self.pending = None;
            emit(&mut outputs, ReaderOutput::Failed(CommandFailure::Terminated));
            assert(output_views(outputs@) =~= seq![
                OutputView::Failed(CommandFailureView::Terminated),
            ]);
        }
        outputs
    }
}

} // verus!
