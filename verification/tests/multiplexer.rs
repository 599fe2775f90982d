use joycore_x_lib::serial::unified::multiplexer::{
    read_text, CommandFailure, Multiplexer, ReaderOutput, PARTIAL_KEEP, PARTIAL_LIMIT,
};
use joycore_x_lib::serial::SerialError;
use joycore_x_lib::serial::unified::types::{
    CommandResponse, CommandSpec, FinishReason, MatrixCell, MetricsSnapshot, ParsedEvent,
    RawStateSnapshot, ResponseMatcher, ShiftRegEntry,
};

fn spec(matcher: ResponseMatcher, timeout_ms: u64, floor: Option<u64>) -> CommandSpec {
    CommandSpec { name: "CMD", timeout_ms, matcher, test_min_duration_ms: floor }
}

fn completed(outputs: &[ReaderOutput]) -> Vec<Vec<String>> {
    outputs
        .iter()
        .filter_map(|o| match o {
            ReaderOutput::Completed(r) => Some(r.lines.clone()),
            _ => None,
        })
        .collect()
}

fn events(outputs: &[ReaderOutput]) -> Vec<ParsedEvent> {
    outputs
        .iter()
        .filter_map(|o| match o {
            ReaderOutput::Event(e) => Some(e.clone()),
            _ => None,
        })
        .collect()
}

#[test]
fn submit_writes_the_line_and_refuses_a_second_command() {
    let mut mux = Multiplexer::new();
    assert!(!mux.is_busy());
    let line = mux.submit("STATUS", spec(ResponseMatcher::FixedLines(1), 100, None), 5);
    assert_eq!(line, Ok("STATUS\n".to_string()));
    assert!(mux.is_busy());
    let second = mux.submit("OTHER", spec(ResponseMatcher::FixedLines(1), 100, None), 6);
    assert_eq!(second, Err(CommandFailure::InFlight));
    let pending = mux.pending.as_ref().unwrap();
    assert_eq!(pending.started_ms, 5);
    assert!(pending.buffer.is_empty());
    mux.abort_submit();
    assert!(!mux.is_busy());
}

#[test]
fn telemetry_and_reply_are_kept_apart() {
    let mut mux = Multiplexer::new();
    mux.submit("BUTTON_GET:1", spec(ResponseMatcher::UntilPrefix("BUTTON:"), 100, None), 10).unwrap();
    let outputs = mux.on_bytes(b"GPIO_STATES:0xFFFF:1234\nBUTTON:1,Fire,TRIGGER,true\n", 17);
    let snapshot = RawStateSnapshot {
        gpio_mask: 0xFFFF,
        matrix: vec![],
        shift_regs: vec![],
        last_update_us: 1234,
        seq: 1,
    };
    let mut metrics = MetricsSnapshot::default();
    metrics.lines_read = 1;
    metrics.monitor_events = 1;
    let after_gpio = metrics.clone();
    metrics.lines_read = 2;
    metrics.unclassified_lines = 1;
    let after_reply = metrics.clone();
    metrics.command_completed = 1;
    metrics.command_last_latency_ms = Some(7);
    metrics.command_min_latency_ms = Some(7);
    metrics.command_max_latency_ms = Some(7);
    metrics.command_latency_samples = 1;
    assert_eq!(
        outputs,
        vec![
            ReaderOutput::Event(ParsedEvent::Gpio { mask: 0xFFFF, timestamp: 1234 }),
            ReaderOutput::Snapshot(snapshot.clone()),
            ReaderOutput::Metrics(after_gpio),
            ReaderOutput::Metrics(after_reply),
            ReaderOutput::Metrics(metrics.clone()),
            ReaderOutput::Completed(CommandResponse {
                lines: vec!["BUTTON:1,Fire,TRIGGER,true".to_string()],
                finished_reason: FinishReason::MatcherSatisfied,
            }),
        ]
    );
    assert!(!mux.is_busy());
    assert_eq!(mux.snapshot, snapshot);
    assert_eq!(mux.metrics, metrics);
    assert!(mux.partial.is_empty());
}

#[test]
fn telemetry_is_folded_without_a_command() {
    let mut mux = Multiplexer::new();
    let outputs = mux.on_bytes(b"MATRIX_STATE:2:5:1:100\nSHIFT_REG:3:0xAA:200\nhello\n", 0);
    assert_eq!(
        events(&outputs),
        vec![
            ParsedEvent::MatrixDelta { row: 2, col: 5, is_connected: true, timestamp: 100 },
            ParsedEvent::Shift { register_id: 3, value: 0xAA, timestamp: 200 },
        ]
    );
    assert!(completed(&outputs).is_empty());
    assert_eq!(mux.snapshot.matrix, vec![MatrixCell { row: 2, col: 5, is_connected: true }]);
    assert_eq!(
        mux.snapshot.shift_regs,
        vec![ShiftRegEntry { register_id: 3, value: 0xAA, timestamp: 200 }]
    );
    assert_eq!(mux.snapshot.seq, 2);
    assert_eq!(mux.snapshot.last_update_us, 200);
    assert_eq!(mux.metrics.lines_read, 3);
    assert_eq!(mux.metrics.monitor_events, 2);
    assert_eq!(mux.metrics.unclassified_lines, 1);
}

#[test]
fn replaying_a_matrix_event_keeps_one_cell() {
    let mut mux = Multiplexer::new();
    mux.on_bytes(b"MATRIX_STATE:1:1:0:5\nMATRIX_STATE:2:5:1:10\n", 0);
    let once = mux.snapshot.clone();
    mux.on_bytes(b"MATRIX_STATE:2:5:1:10\n", 0);
    assert_eq!(mux.snapshot.matrix, once.matrix);
    assert_eq!(
        mux.snapshot.matrix,
        vec![
            MatrixCell { row: 1, col: 1, is_connected: false },
            MatrixCell { row: 2, col: 5, is_connected: true },
        ]
    );
    assert_eq!(once.seq, 2);
    assert_eq!(mux.snapshot.seq, 3);
    mux.on_bytes(b"MATRIX_STATE:2:5:0:11\nSHIFT_REG:1:0x01:12\nSHIFT_REG:1:0x02:13\n", 0);
    assert_eq!(mux.snapshot.matrix[1], MatrixCell { row: 2, col: 5, is_connected: false });
    assert_eq!(
        mux.snapshot.shift_regs,
        vec![ShiftRegEntry { register_id: 1, value: 2, timestamp: 13 }]
    );
    assert_eq!(mux.snapshot.seq, 6);
    mux.snapshot.seq = u64::MAX;
    mux.on_bytes(b"GPIO_STATES:0x1:14\n", 0);
    assert_eq!(mux.snapshot.seq, u64::MAX);
    assert_eq!(mux.snapshot.gpio_mask, 1);
}

#[test]
fn unparseable_telemetry_is_broadcast_as_unclassified() {
    let mut mux = Multiplexer::new();
    mux.submit("X", spec(ResponseMatcher::FixedLines(1), 100, None), 0).unwrap();
    let outputs = mux.on_bytes(b"GPIO_STATES:zz:1\n", 0);
    assert_eq!(
        events(&outputs),
        vec![ParsedEvent::Unclassified { line: "GPIO_STATES:zz:1".to_string() }]
    );
    assert!(mux.is_busy());
    assert!(mux.pending.as_ref().unwrap().buffer.is_empty());
    assert_eq!(mux.metrics.unclassified_lines, 1);
    assert_eq!(mux.metrics.monitor_events, 0);
    assert_eq!(mux.snapshot.seq, 0);
}

#[test]
fn lines_are_split_at_any_run_of_breaks_and_partial_text_waits() {
    let mut mux = Multiplexer::new();
    mux.submit("X", spec(ResponseMatcher::FixedLines(3), 100, None), 0).unwrap();
    assert!(mux.on_bytes(b"one\r\n\r\n  \ntw", 1).iter().all(|o| matches!(o, ReaderOutput::Metrics(_))));
    assert_eq!(mux.partial, vec!['t', 'w']);
    assert_eq!(mux.pending.as_ref().unwrap().buffer, vec!["one".to_string()]);
    assert_eq!(mux.metrics.lines_read, 1);
    let outputs = mux.on_bytes(b"o\rthree\nrest", 2);
    assert_eq!(
        completed(&outputs),
        vec![vec!["one".to_string(), "two".to_string(), "three".to_string()]]
    );
    assert_eq!(mux.partial, vec!['r', 'e', 's', 't']);
    assert_eq!(mux.metrics.lines_read, 3);
    let more = mux.on_bytes(b"\n", 3);
    assert!(completed(&more).is_empty());
    assert_eq!(mux.metrics.lines_read, 4);
    assert_eq!(mux.metrics.unclassified_lines, 4);
}

#[test]
fn bytes_that_are_not_utf8_are_counted_and_read_lossily() {
    let mut mux = Multiplexer::new();
    mux.submit("X", spec(ResponseMatcher::Contains("OK"), 100, None), 0).unwrap();
    let outputs = mux.on_bytes(&[0xFF, b'O', b'K', b'\n'], 0);
    assert_eq!(completed(&outputs), vec![vec!["\u{FFFD}OK".to_string()]]);
    assert_eq!(mux.metrics.utf8_decode_errors, 1);
    mux.on_bytes("gr\u{fc}n\n".as_bytes(), 0);
    assert_eq!(mux.metrics.utf8_decode_errors, 1);
    let text = mux.on_text("x\n", true, 0);
    assert!(completed(&text).is_empty());
    assert_eq!(mux.metrics.utf8_decode_errors, 2);
}

#[test]
fn an_overlong_partial_line_is_cut_back() {
    let mut mux = Multiplexer::new();
    let chunk = vec![b'a'; PARTIAL_LIMIT];
    assert!(mux.on_bytes(&chunk, 0).is_empty());
    assert_eq!(mux.partial.len(), PARTIAL_LIMIT);
    assert_eq!(mux.metrics.partial_buffer_trims, 0);
    let outputs = mux.on_bytes(b"bc", 0);
    assert_eq!(mux.partial.len(), PARTIAL_KEEP);
    assert_eq!(&mux.partial[PARTIAL_KEEP - 3..], &['a', 'b', 'c']);
    assert_eq!(mux.metrics.partial_buffer_trims, 1);
    assert_eq!(outputs, vec![ReaderOutput::Metrics(mux.metrics.clone())]);
}

#[test]
fn a_command_times_out_with_what_it_has_received() {
    let mut mux = Multiplexer::new();
    mux.submit("SLOW", spec(ResponseMatcher::UntilPrefix("OK:"), 100, None), 1000).unwrap();
    mux.on_bytes(b"partial answer\n", 1010);
    assert!(mux.on_tick(1100).is_empty());
    assert!(mux.is_busy());
    let outputs = mux.on_tick(1101);
    let mut metrics = MetricsSnapshot::default();
    metrics.lines_read = 1;
    metrics.unclassified_lines = 1;
    metrics.command_timeouts = 1;
    assert_eq!(
        outputs,
        vec![
            ReaderOutput::Metrics(metrics),
            ReaderOutput::Failed(CommandFailure::Timeout {
                name: "CMD",
                partial: vec!["partial answer".to_string()],
            }),
        ]
    );
    assert!(!mux.is_busy());
    assert!(mux.on_tick(5000).is_empty());
    assert!(mux.submit("NEXT", spec(ResponseMatcher::FixedLines(1), 100, None), 5000).is_ok());
    assert!(mux.on_tick(10).is_empty());
}

#[test]
fn latency_floors_hold_completions_back() {
    let mut mux = Multiplexer::new();
    let mut now = 0u64;
    for floor in [50u64, 120, 30] {
        mux.submit("CMD", spec(ResponseMatcher::Contains("OK"), floor + 200, Some(floor)), now)
            .unwrap();
        let outputs = mux.on_bytes(b"OK\n", now);
        assert!(completed(&outputs).is_empty());
        assert!(completed(&mux.on_tick(now + floor - 1)).is_empty());
        assert!(mux.is_busy());
        let done = mux.on_tick(now + floor);
        assert_eq!(completed(&done), vec![vec!["OK".to_string()]]);
        assert_eq!(mux.metrics.command_last_latency_ms, Some(floor));
        now += 1000;
    }
    assert_eq!(mux.metrics.command_completed, 3);
    assert_eq!(mux.metrics.command_latency_samples, 3);
    assert_eq!(mux.metrics.command_min_latency_ms, Some(30));
    assert_eq!(mux.metrics.command_max_latency_ms, Some(120));
    assert_eq!(mux.metrics.command_last_latency_ms, Some(30));
}

#[test]
fn a_later_line_completes_a_command_once_the_floor_is_reached() {
    let mut mux = Multiplexer::new();
    mux.submit("CMD", spec(ResponseMatcher::Contains("OK"), 500, Some(40)), 0).unwrap();
    assert!(completed(&mux.on_bytes(b"OK\n", 10)).is_empty());
    let outputs = mux.on_bytes(b"more\n", 40);
    assert_eq!(completed(&outputs), vec![vec!["OK".to_string(), "more".to_string()]]);
    assert_eq!(mux.metrics.command_last_latency_ms, Some(40));
    mux.submit("CMD", spec(ResponseMatcher::Contains("OK"), 20, Some(40)), 100).unwrap();
    mux.on_bytes(b"OK\n", 100);
    let late = mux.on_tick(140);
    assert!(matches!(late.last(), Some(ReaderOutput::Failed(CommandFailure::Timeout { .. }))));
}

#[test]
fn a_transport_error_is_told_and_fails_the_command() {
    let mut mux = Multiplexer::new();
    mux.submit("X", spec(ResponseMatcher::FixedLines(1), 100, None), 0).unwrap();
    let outputs = mux.on_transport_error("device unplugged");
    let mut metrics = MetricsSnapshot::default();
    metrics.last_error = Some("IO error: device unplugged".to_string());
    assert_eq!(
        outputs,
        vec![
            ReaderOutput::Event(ParsedEvent::ProtocolNotice {
                message: "IO error: device unplugged".to_string()
            }),
            ReaderOutput::Metrics(metrics),
            ReaderOutput::Failed(CommandFailure::Transport {
                message: "device unplugged".to_string()
            }),
        ]
    );
    assert!(!mux.is_busy());
    assert_eq!(mux.on_transport_error("again").len(), 2);
}

#[test]
fn shutdown_fails_the_command_in_flight() {
    let mut mux = Multiplexer::new();
    assert!(mux.shutdown().is_empty());
    mux.submit("X", spec(ResponseMatcher::FixedLines(1), 100, None), 0).unwrap();
    assert_eq!(mux.shutdown(), vec![ReaderOutput::Failed(CommandFailure::Terminated)]);
    assert!(!mux.is_busy());
}

#[test]
fn counters_stay_at_their_largest_value() {
    let mut mux = Multiplexer::new();
    mux.metrics.lines_read = u64::MAX;
    mux.metrics.monitor_events = u64::MAX;
    let outputs = mux.on_bytes(b"GPIO_STATES:0x1:1\n", 0);
    assert_eq!(mux.metrics.lines_read, u64::MAX);
    assert_eq!(mux.metrics.monitor_events, u64::MAX);
    assert_eq!(outputs.len(), 2);
}

#[test]
fn each_failure_is_an_error_for_the_submitter() {
    assert_eq!(
        CommandFailure::InFlight.into_error(),
        SerialError::ProtocolError("Another command in flight".to_string())
    );
    assert_eq!(
        CommandFailure::Timeout { name: "STATUS", partial: vec!["half".to_string()] }.into_error(),
        SerialError::Timeout
    );
    assert_eq!(
        CommandFailure::Transport { message: "port gone".to_string() }.into_error(),
        SerialError::IoError("port gone".to_string())
    );
    assert_eq!(
        CommandFailure::Terminated.into_error(),
        SerialError::ProtocolError("Reader terminated".to_string())
    );
}

#[test]
fn bytes_are_read_as_text() {
    assert_eq!(read_text(b"OK:done"), ("OK:done".to_string(), false));
    assert_eq!(read_text("Gr\u{fc}n".as_bytes()), ("Gr\u{fc}n".to_string(), false));
    assert_eq!(read_text(b""), (String::new(), false));
    assert_eq!(read_text(&[b'a', 0xFF, b'b']), ("a\u{fffd}b".to_string(), true));
    assert_eq!(read_text(&[0xE2, 0x82]), ("\u{fffd}".to_string(), true));
}

#[test]
fn the_partial_line_is_measured_in_bytes() {
    let mut mux = Multiplexer::new();
    let at_the_limit: String = std::iter::repeat('\u{e9}').take(4096).collect();
    assert_eq!(at_the_limit.len(), PARTIAL_LIMIT);
    assert!(mux.on_text(&at_the_limit, false, 0).is_empty());
    assert_eq!(mux.partial.len(), 4096);
    assert_eq!(mux.metrics.partial_buffer_trims, 0);

    let outputs = mux.on_text("\u{e9}", false, 0);
    assert_eq!(mux.metrics.partial_buffer_trims, 1);
    assert_eq!(mux.partial.len(), 2048);
    assert_eq!(mux.partial.iter().collect::<String>().len(), PARTIAL_KEEP);
    assert_eq!(outputs, vec![ReaderOutput::Metrics(mux.metrics.clone())]);
}

#[test]
fn a_flood_of_invalid_bytes_is_cut_back_by_its_bytes() {
    let mut mux = Multiplexer::new();
    assert!(mux.on_bytes(&[0xFF; 2730], 0).iter().all(|o| !matches!(o, ReaderOutput::Metrics(_))));
    assert_eq!(mux.partial.len(), 2730);
    assert_eq!(mux.metrics.partial_buffer_trims, 0);
    let outputs = mux.on_bytes(&[0xFF], 0);
    assert_eq!(mux.metrics.utf8_decode_errors, 2);
    assert_eq!(mux.metrics.partial_buffer_trims, 1);
    assert_eq!(mux.partial.len(), 1365);
    assert!(mux.partial.iter().all(|c| *c == '\u{fffd}'));
    assert_eq!(outputs, vec![ReaderOutput::Metrics(mux.metrics.clone())]);
}

#[test]
fn what_is_kept_begins_with_a_whole_character() {
    let mut mux = Multiplexer::new();
    let text = format!("{}\u{e9}{}", "a".repeat(4097), "b".repeat(4095));
    assert_eq!(text.len(), 8194);
    let outputs = mux.on_text(&text, false, 0);
    assert_eq!(outputs.len(), 1);
    assert_eq!(mux.metrics.partial_buffer_trims, 1);
    assert_eq!(mux.partial.len(), 4095);
    assert!(mux.partial.iter().all(|c| *c == 'b'));

    let mut other = Multiplexer::new();
    let text = format!("{}\u{e9}{}", "a".repeat(4097), "b".repeat(4094));
    other.on_text(&text, false, 0);
    assert_eq!(other.partial.len(), 4095);
    assert_eq!(other.partial[0], '\u{e9}');
}
