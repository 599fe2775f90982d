//! What holds of the multiplexer whatever arrives: telemetry and command
//! replies do not mix, a latency floor holds a completion back, counters
//! never fall, and the snapshot stays well formed.

use crate::serial::unified::multiplexer::{
    bump, elapsed_ms, is_line_break, kept_tail, lemma_kept_tail, lemma_skip_breaks_len, line_break,
    skip_breaks, CommandFailureView, MultiplexerView, OutputView, PendingView, PARTIAL_KEEP,
    PARTIAL_LIMIT,
};
use crate::text::{utf8_len, utf8_width};
use crate::serial::unified::reader::{is_monitor_line, spec_parse_monitor_line};
use crate::seqs::{first_where, lemma_first_where};
use crate::serial::unified::snapshot::{lemma_apply_well_formed, next_seq};
use crate::serial::unified::types::{MetricsView, ParsedEventView};
use vstd::prelude::*;

verus! {

/// A telemetry line leaves the command in flight as it is: nothing is
/// added to its reply, and it neither completes nor fails.
pub proof fn lemma_telemetry_bypasses_command(state: MultiplexerView, line: Seq<char>, now: u64)
    requires
        is_monitor_line(line),
    ensures
        state.handle_line(line, now).state.pending == state.pending,
        forall|i: int|
            0 <= i < state.handle_line(line, now).outputs.len() ==> !(#[trigger] state.handle_line(
                line,
                now,
            ).outputs[i] is Completed) && !(state.handle_line(line, now).outputs[i] is Failed),
{
}

/// What a telemetry line that can be read does, whatever the state: its
/// event is broadcast once and folded into the snapshot, which is
/// published; the line and the event are counted; the command in flight
/// and the partial line are as before. The metrics are published with it
/// unless the event counter stands at its largest value. A GPIO event
/// overwrites the mask and leaves the matrix and the registers alone.
pub proof fn lemma_telemetry_line_outcome(state: MultiplexerView, line: Seq<char>, now: u64)
    requires
        spec_parse_monitor_line(line) is Some,
    ensures
        ({
            let event = spec_parse_monitor_line(line)->0;
            let step = state.handle_line(line, now);
            let snapshot = state.snapshot.apply(event);
            let metrics = MetricsView {
                lines_read: bump(state.metrics.lines_read),
                monitor_events: bump(state.metrics.monitor_events),
                ..state.metrics
            };
            &&& event.changes_state()
            &&& step.state == (MultiplexerView { snapshot, metrics, ..state })
            &&& step.outputs == (if state.metrics.monitor_events < u64::MAX {
                seq![
                    OutputView::Event(event),
                    OutputView::Snapshot(snapshot),
                    OutputView::Metrics(metrics),
                ]
            } else {
                seq![OutputView::Event(event), OutputView::Snapshot(snapshot)]
            })
            &&& snapshot.seq == next_seq(state.snapshot.seq)
            &&& event matches ParsedEventView::Gpio { mask, timestamp } ==> snapshot.gpio_mask
                == mask && snapshot.last_update_us == timestamp && snapshot.matrix
                == state.snapshot.matrix && snapshot.shift_regs == state.snapshot.shift_regs
        }),
{
    let event = spec_parse_monitor_line(line)->0;
    let step = state.handle_line(line, now);
    if state.metrics.monitor_events < u64::MAX {
        assert(step.outputs =~= seq![
            OutputView::Event(event),
            OutputView::Snapshot(state.snapshot.apply(event)),
            OutputView::Metrics(step.state.metrics),
        ]);
    } else {
        assert(step.outputs =~= seq![
            OutputView::Event(event),
            OutputView::Snapshot(state.snapshot.apply(event)),
        ]);
    }
}

/// A line that is no telemetry leaves the snapshot as it is and is not
/// broadcast; it is added to the reply of the command in flight, at its
/// end, and if the command completes, the reply is delivered with it.
pub proof fn lemma_reply_bypasses_snapshot(state: MultiplexerView, line: Seq<char>, now: u64)
    requires
        !is_monitor_line(line),
    ensures
        state.handle_line(line, now).state.snapshot == state.snapshot,
        forall|i: int|
            0 <= i < state.handle_line(line, now).outputs.len() ==> !(#[trigger] state.handle_line(
                line,
                now,
            ).outputs[i] is Event) && !(state.handle_line(line, now).outputs[i] is Snapshot),
        state.pending is Some ==> ({
            let step = state.handle_line(line, now);
            let reply = state.pending->0.buffer.push(line);
            ||| step.state.pending is Some && step.state.pending->0.buffer == reply
            ||| step.state.pending is None && step.outputs.last() == OutputView::Completed(reply)
        }),
{
}

/// The lines of `lines` that are no telemetry, in order.
pub open spec fn replies(lines: Seq<Seq<char>>) -> Seq<Seq<char>> {
    lines.filter(|line: Seq<char>| !is_monitor_line(line))
}

/// The state after every line of `lines` has been handled at `now`.
pub open spec fn handled(state: MultiplexerView, lines: Seq<Seq<char>>, now: u64)
    -> MultiplexerView
    decreases lines.len(),
{
    if lines.len() == 0 {
        state
    } else {
        handled(state, lines.drop_last(), now).handle_line(lines.last(), now).state
    }
}

/// While a command stays in flight, its reply grows by exactly the lines
/// that are no telemetry, in the order of their arrival.
pub proof fn lemma_reply_collects_in_order(state: MultiplexerView, lines: Seq<Seq<char>>, now: u64)
    requires
        state.pending is Some,
        handled(state, lines, now).pending is Some,
    ensures
        handled(state, lines, now).pending->0.buffer == state.pending->0.buffer + replies(lines),
    decreases lines.len(),
{
    reveal(Seq::filter);
    if lines.len() == 0 {
        assert(replies(lines) =~= Seq::<Seq<char>>::empty());
        assert(state.pending->0.buffer + replies(lines) =~= state.pending->0.buffer);
    } else {
        let before = handled(state, lines.drop_last(), now);
        assert(before.pending is Some);
        lemma_reply_collects_in_order(state, lines.drop_last(), now);
        if is_monitor_line(lines.last()) {
            assert(replies(lines) == replies(lines.drop_last()));
        } else {
            assert(replies(lines) == replies(lines.drop_last()).push(lines.last()));
            assert(state.pending->0.buffer + replies(lines) =~= (state.pending->0.buffer
                + replies(lines.drop_last())).push(lines.last()));
        }
    }
}

/// So the reply of a command that was submitted with nothing received
/// holds no telemetry line, however the lines were interleaved.
pub proof fn lemma_reply_holds_no_telemetry(
    state: MultiplexerView,
    lines: Seq<Seq<char>>,
    now: u64,
)
    requires
        state.pending is Some,
        state.pending->0.buffer.len() == 0,
        handled(state, lines, now).pending is Some,
    ensures
        forall|i: int|
            0 <= i < handled(state, lines, now).pending->0.buffer.len() ==> !is_monitor_line(
                #[trigger] handled(state, lines, now).pending->0.buffer[i],
            ),
{
    lemma_reply_collects_in_order(state, lines, now);
    let reply = handled(state, lines, now).pending->0.buffer;
    assert(reply =~= replies(lines));
    let no_telemetry = |line: Seq<char>| !is_monitor_line(line);
    assert forall|i: int| 0 <= i < reply.len() implies !is_monitor_line(#[trigger] reply[i]) by {
        lines.lemma_filter_pred(no_telemetry, i);
    }
}

/// A command with a latency floor does not complete on a line that
/// arrives before the floor is reached, whatever the line is.
pub proof fn lemma_floor_holds_line_back(state: MultiplexerView, line: Seq<char>, now: u64)
    requires
        state.pending is Some,
        state.pending->0.spec.test_min_duration_ms is Some,
        elapsed_ms(state.pending->0.started_ms, now) < state.pending->0.spec.test_min_duration_ms->0,
    ensures
        state.handle_line(line, now).state.pending is Some,
        state.handle_line(line, now).state.metrics.command_completed
            == state.metrics.command_completed,
        forall|i: int|
            0 <= i < state.handle_line(line, now).outputs.len() ==> !(#[trigger] state.handle_line(
                line,
                now,
            ).outputs[i] is Completed),
{
}

/// Nor does it complete when time passes but not enough of it.
pub proof fn lemma_floor_holds_tick_back(state: MultiplexerView, now: u64)
    requires
        state.pending is Some,
        state.pending->0.spec.test_min_duration_ms is Some,
        elapsed_ms(state.pending->0.started_ms, now) < state.pending->0.spec.test_min_duration_ms->0,
    ensures
        state.tick(now).state.metrics.command_completed == state.metrics.command_completed,
        forall|i: int|
            0 <= i < state.tick(now).outputs.len() ==> !(#[trigger] state.tick(now).outputs[i]
                is Completed),
{
}

/// A command that completes has waited at least its latency floor, and the
/// latency that is recorded for it is the time it has waited: it is the
/// last latency, the smallest is no greater and the largest no smaller.
pub proof fn lemma_completion_latency(state: MultiplexerView, line: Seq<char>, now: u64)
    requires
        state.pending is Some,
        state.handle_line(line, now).state.pending is None,
    ensures
        ({
            let p = state.pending->0;
            let waited = elapsed_ms(p.started_ms, now);
            let after = state.handle_line(line, now).state.metrics;
            &&& p.spec.test_min_duration_ms is Some ==> waited >= p.spec.test_min_duration_ms->0
            &&& after.command_last_latency_ms == Some(waited)
            &&& after.command_min_latency_ms is Some && after.command_min_latency_ms->0 <= waited
            &&& after.command_max_latency_ms is Some && after.command_max_latency_ms->0 >= waited
            &&& state.metrics.command_min_latency_ms is Some ==> after.command_min_latency_ms->0
                <= state.metrics.command_min_latency_ms->0
            &&& state.metrics.command_max_latency_ms is Some ==> after.command_max_latency_ms->0
                >= state.metrics.command_max_latency_ms->0
        }),
{
}

/// The same of a command that completes when time passes.
pub proof fn lemma_tick_completion_latency(state: MultiplexerView, now: u64)
    requires
        state.pending is Some,
        !state.pending->0.timed_out(now),
        state.tick(now).state.pending is None,
    ensures
        ({
            let p = state.pending->0;
            let waited = elapsed_ms(p.started_ms, now);
            let after = state.tick(now).state.metrics;
            &&& p.spec.test_min_duration_ms is Some && waited >= p.spec.test_min_duration_ms->0
            &&& state.tick(now).outputs.last() == OutputView::Completed(p.buffer)
            &&& after.command_last_latency_ms == Some(waited)
            &&& after.command_min_latency_ms->0 <= waited <= after.command_max_latency_ms->0
        }),
{
}

/// A reply that has been complete stays so, whatever lines follow.
pub proof fn lemma_was_complete_persists(p: PendingView, line: Seq<char>)
    requires
        p.was_complete(),
    ensures
        (PendingView { buffer: p.buffer.push(line), ..p }).was_complete(),
{
    let k = choose|k: int|
        1 <= k <= p.buffer.len() && p.spec.matcher.complete(#[trigger] p.buffer.take(k));
    let grown = PendingView { buffer: p.buffer.push(line), ..p };
    assert(grown.buffer.take(k) =~= p.buffer.take(k));
    assert(1 <= k <= grown.buffer.len() && grown.spec.matcher.complete(grown.buffer.take(k)));
}

/// A reply that was complete while the latency floor held it back is
/// delivered once the floor is reached, with every line received by then,
/// even if the matcher no longer holds of all of them.
pub proof fn lemma_held_back_reply_completes(state: MultiplexerView, now: u64)
    requires
        state.pending is Some,
        state.pending->0.spec.test_min_duration_ms is Some,
        state.pending->0.was_complete(),
        state.pending->0.floor_reached(now),
        !state.pending->0.timed_out(now),
    ensures
        state.tick(now).state.pending is None,
        state.tick(now).outputs.last() == OutputView::Completed(state.pending->0.buffer),
        state.tick(now).state.metrics.command_last_latency_ms == Some(
            elapsed_ms(state.pending->0.started_ms, now),
        ),
{
}

/// A command with a latency floor whose reply becomes complete before the
/// floor is reached stays in flight, and completes when time is looked at
/// after the floor: with the whole reply, and with the time it has waited
/// by then as its latency, which is no less than the floor.
pub proof fn lemma_floor_run(state: MultiplexerView, line: Seq<char>, at: u64, later: u64)
    requires
        state.pending is Some,
        state.pending->0.spec.test_min_duration_ms is Some,
        !is_monitor_line(line),
        state.pending->0.spec.matcher.complete(state.pending->0.buffer.push(line)),
        elapsed_ms(state.pending->0.started_ms, at) < state.pending->0.spec.test_min_duration_ms->0,
        elapsed_ms(state.pending->0.started_ms, later)
            >= state.pending->0.spec.test_min_duration_ms->0,
        elapsed_ms(state.pending->0.started_ms, later) <= state.pending->0.spec.timeout_ms,
    ensures
        ({
            let p = state.pending->0;
            let held = state.handle_line(line, at);
            let done = held.state.tick(later);
            let waited = elapsed_ms(p.started_ms, later);
            &&& held.state.pending is Some
            &&& held.state.metrics.command_completed == state.metrics.command_completed
            &&& done.state.pending is None
            &&& done.outputs.last() == OutputView::Completed(p.buffer.push(line))
            &&& done.state.metrics.command_last_latency_ms == Some(waited)
            &&& waited >= p.spec.test_min_duration_ms->0
            &&& done.state.metrics.command_completed == bump(state.metrics.command_completed)
            &&& done.state.metrics == held.state.metrics.with_completion(waited)
        }),
{
    let p = state.pending->0;
    let held = state.handle_line(line, at).state.pending->0;
    let k = held.buffer.len() as int;
    assert(held.buffer.take(k) =~= p.buffer.push(line));
    assert(1 <= k <= held.buffer.len() && held.spec.matcher.complete(held.buffer.take(k)));
}

/// The metrics after commands have completed with these latencies, one
/// after the other.
pub open spec fn after_completions(metrics: MetricsView, latencies: Seq<u64>) -> MetricsView
    decreases latencies.len(),
{
    if latencies.len() == 0 {
        metrics
    } else {
        after_completions(metrics, latencies.drop_last()).with_completion(latencies.last())
    }
}

/// After a run of completions from a fresh start, the last latency is that
/// of the last command, the smallest and the largest are the smallest and
/// the largest of the run, and every command is counted.
pub proof fn lemma_latency_aggregates(latencies: Seq<u64>)
    requires
        latencies.len() > 0,
    ensures
        ({
            let m = after_completions(MetricsView::zero(), latencies);
            &&& m.command_last_latency_ms == Some(latencies.last())
            &&& m.command_min_latency_ms is Some
            &&& m.command_max_latency_ms is Some
            &&& forall|i: int|
                0 <= i < latencies.len() ==> m.command_min_latency_ms->0 <= #[trigger] latencies[i]
                    <= m.command_max_latency_ms->0
            &&& exists|i: int|
                0 <= i < latencies.len() && #[trigger] latencies[i] == m.command_min_latency_ms->0
            &&& exists|i: int|
                0 <= i < latencies.len() && #[trigger] latencies[i] == m.command_max_latency_ms->0
            &&& latencies.len() <= u64::MAX ==> m.command_completed == latencies.len()
                && m.command_latency_samples == latencies.len()
        }),
    decreases latencies.len(),
{
    let m = after_completions(MetricsView::zero(), latencies);
    let before = after_completions(MetricsView::zero(), latencies.drop_last());
    let last = latencies.len() - 1;
    if latencies.len() == 1 {
        assert(before == MetricsView::zero());
        assert(latencies[0] == m.command_min_latency_ms->0);
        assert(latencies[0] == m.command_max_latency_ms->0);
    } else {
        lemma_latency_aggregates(latencies.drop_last());
        let lo = choose|i: int|
            0 <= i < latencies.drop_last().len() && #[trigger] latencies.drop_last()[i]
                == before.command_min_latency_ms->0;
        let hi = choose|i: int|
            0 <= i < latencies.drop_last().len() && #[trigger] latencies.drop_last()[i]
                == before.command_max_latency_ms->0;
        assert(latencies[lo] == latencies.drop_last()[lo]);
        assert(latencies[hi] == latencies.drop_last()[hi]);
        if m.command_min_latency_ms->0 == latencies[last] {
            assert(latencies[last] == m.command_min_latency_ms->0);
        } else {
            assert(latencies[lo] == m.command_min_latency_ms->0);
        }
        if m.command_max_latency_ms->0 == latencies[last] {
            assert(latencies[last] == m.command_max_latency_ms->0);
        } else {
            assert(latencies[hi] == m.command_max_latency_ms->0);
        }
        assert forall|i: int| 0 <= i < latencies.len() implies m.command_min_latency_ms->0
            <= #[trigger] latencies[i] <= m.command_max_latency_ms->0 by {
            if i < last {
                assert(latencies[i] == latencies.drop_last()[i]);
            }
        }
    }
}

/// A command whose time is up fails when time is looked at, with the lines
/// it has received, and the slot is free again.
pub proof fn lemma_timeout_frees_slot(state: MultiplexerView, now: u64)
    requires
        state.pending is Some,
        state.pending->0.timed_out(now),
    ensures
        state.tick(now).state.pending is None,
        state.tick(now).outputs.last() == OutputView::Failed(
            CommandFailureView::Timeout {
                name: state.pending->0.spec.name@,
                partial: state.pending->0.buffer,
            },
        ),
        state.tick(now).state.metrics.command_timeouts == bump(state.metrics.command_timeouts),
{
}

/// No counter of `after` is below the one of `before`.
pub open spec fn counters_kept(before: MetricsView, after: MetricsView) -> bool {
    &&& before.lines_read <= after.lines_read
    &&& before.monitor_events <= after.monitor_events
    &&& before.command_completed <= after.command_completed
    &&& before.command_timeouts <= after.command_timeouts
    &&& before.command_latency_samples <= after.command_latency_samples
    &&& before.partial_buffer_trims <= after.partial_buffer_trims
    &&& before.unclassified_lines <= after.unclassified_lines
    &&& before.utf8_decode_errors <= after.utf8_decode_errors
}

/// What a transition keeps: the counters do not fall, a well-formed
/// snapshot stays well formed and its sequence number does not fall.
pub open spec fn kept(before: MultiplexerView, after: MultiplexerView) -> bool {
    &&& counters_kept(before.metrics, after.metrics)
    &&& before.snapshot.well_formed() ==> after.snapshot.well_formed()
    &&& before.snapshot.seq <= after.snapshot.seq
}

/// Handling a line keeps all of that.
pub proof fn lemma_handle_line_keeps(state: MultiplexerView, line: Seq<char>, now: u64)
    ensures
        kept(state, state.handle_line(line, now).state),
{
    if is_monitor_line(line) {
        match spec_parse_monitor_line(line) {
            Some(event) => {
                if state.snapshot.well_formed() {
                    lemma_apply_well_formed(state.snapshot, event);
                }
            },
            None => {},
        }
    }
}

/// So does handling every complete line of a text.
pub proof fn lemma_drain_keeps(state: MultiplexerView, text: Seq<char>, now: u64)
    ensures
        kept(state, state.drain(text, now).state),
    decreases text.len(),
{
    let i = first_where(text, line_break());
    if 0 <= i < text.len() {
        let rest = skip_breaks(text.skip(i + 1));
        lemma_skip_breaks_len(text.skip(i + 1));
        let first = state.first_line(text, i, now);
        lemma_handle_line_keeps(state, text.take(i), now);
        lemma_drain_keeps(first.state, rest, now);
    }
}

/// Whatever text arrives, no counter falls, the snapshot stays well formed
/// and its sequence number does not fall.
pub proof fn lemma_feed_keeps(state: MultiplexerView, text: Seq<char>, failed: bool, now: u64)
    ensures
        kept(state, state.feed(text, failed, now).state),
{
    let counted = if failed {
        MultiplexerView {
            metrics: MetricsView {
                utf8_decode_errors: bump(state.metrics.utf8_decode_errors),
                ..state.metrics
            },
            ..state
        }
    } else {
        state
    };
    lemma_drain_keeps(counted, state.partial + text, now);
}

/// Nor do they when time passes.
pub proof fn lemma_tick_keeps(state: MultiplexerView, now: u64)
    ensures
        kept(state, state.tick(now).state),
{
}

/// Nor when the transport fails or the multiplexer stops; either way the
/// slot is free afterwards.
pub proof fn lemma_end_keeps(state: MultiplexerView, message: Seq<char>)
    ensures
        kept(state, state.transport_error(message).state),
        kept(state, state.shutdown().state),
        state.transport_error(message).state.pending is None,
        state.shutdown().state.pending is None,
{
}

/// A command in flight is always answered when the transport fails or the
/// multiplexer stops: the last output is its failure.
pub proof fn lemma_end_answers(state: MultiplexerView, message: Seq<char>)
    requires
        state.pending is Some,
    ensures
        state.transport_error(message).outputs.last() == OutputView::Failed(
            CommandFailureView::Transport { message },
        ),
        state.shutdown().outputs.last() == OutputView::Failed(CommandFailureView::Terminated),
{
}

/// After text has been taken in, the partial line holds no line break and
/// takes no more bytes than the limit allows.
pub proof fn lemma_partial_bounded(state: MultiplexerView, text: Seq<char>, failed: bool, now: u64)
    ensures
        utf8_len(state.feed(text, failed, now).state.partial) <= PARTIAL_LIMIT,
        forall|i: int|
            0 <= i < state.feed(text, failed, now).state.partial.len() ==> !is_line_break(
                #[trigger] state.feed(text, failed, now).state.partial[i],
            ),
{
    let counted = if failed {
        MultiplexerView {
            metrics: MetricsView {
                utf8_decode_errors: bump(state.metrics.utf8_decode_errors),
                ..state.metrics
            },
            ..state
        }
    } else {
        state
    };
    lemma_drain_leaves_no_break(counted, state.partial + text, now);
    lemma_kept_tail(counted.drain(state.partial + text, now).state.partial, PARTIAL_KEEP as nat);
}

/// A partial line that takes more bytes than the limit allows is cut back
/// to the longest end of it that takes no more than is kept, and the cut
/// is counted once; a shorter one is left as it is.
pub proof fn lemma_trim_partial(state: MultiplexerView)
    ensures
        utf8_len(state.partial) <= PARTIAL_LIMIT ==> state.trim_partial().state == state,
        utf8_len(state.partial) > PARTIAL_LIMIT ==> ({
            let kept = state.trim_partial().state.partial;
            &&& kept == state.partial.skip(state.partial.len() - kept.len())
            &&& utf8_len(kept) <= PARTIAL_KEEP
            &&& kept.len() < state.partial.len()
            &&& utf8_len(kept) + utf8_width(state.partial[state.partial.len() - kept.len() - 1])
                > PARTIAL_KEEP
            &&& state.trim_partial().state.metrics.partial_buffer_trims == bump(
                state.metrics.partial_buffer_trims,
            )
        }),
{
    lemma_kept_tail(state.partial, PARTIAL_KEEP as nat);
    let kept = kept_tail(state.partial, PARTIAL_KEEP as nat);
    if kept.len() == state.partial.len() {
        assert(kept =~= state.partial);
    }
}

/// What draining leaves as the partial line holds no line break.
pub proof fn lemma_drain_leaves_no_break(state: MultiplexerView, text: Seq<char>, now: u64)
    ensures
        forall|i: int|
            0 <= i < state.drain(text, now).state.partial.len() ==> !is_line_break(
                #[trigger] state.drain(text, now).state.partial[i],
            ),
    decreases text.len(),
{
    let i = first_where(text, line_break());
    lemma_first_where(text, line_break());
    if 0 <= i < text.len() {
        let rest = skip_breaks(text.skip(i + 1));
        lemma_skip_breaks_len(text.skip(i + 1));
        let first = state.first_line(text, i, now);
        lemma_drain_leaves_no_break(first.state, rest, now);
    }
}

} // verus!
