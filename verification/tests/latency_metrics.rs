use joycore_x_lib::serial::unified::multiplexer::{Multiplexer, ReaderOutput};
use joycore_x_lib::serial::unified::reader::test_drive_lines_with_min;
use joycore_x_lib::serial::unified::types::{CommandSpec, EndsWithPrefix, ResponseMatcher};

#[test]
fn latency_metrics_latency_metrics_with_min_durations() {
    let cases = vec![
        (50u64, ResponseMatcher::Contains("OK")),
        (120u64, ResponseMatcher::Contains("OK")),
        (30u64, ResponseMatcher::Contains("OK")),
    ];
    let mut observed: Vec<u64> = Vec::new();
    for (min_ms, matcher) in cases.into_iter() {
        let (count, success, elapsed) = test_drive_lines_with_min(&["OK"], matcher, min_ms);
        assert_eq!(count, 1, "command did not complete");
        assert!(success, "response channel not fulfilled");
        assert!(elapsed >= min_ms, "elapsed {} < enforced {}", elapsed, min_ms);
        observed.push(elapsed);
    }
    let min = *observed.iter().min().unwrap();
    let max = *observed.iter().max().unwrap();
    assert!(min >= 30 && min <= 80);
    assert!(max >= 120);
    let avg: f64 = observed.iter().copied().map(|v| v as f64).sum::<f64>() / observed.len() as f64;
    assert!(avg >= 30.0);
}

#[test]
fn latency_metrics_with_min_durations() {
    let mut mux = Multiplexer::new();
    let mut clock: u64 = 1_000;
    for (name, wait) in [("CMD1", 50u64), ("CMD2", 120u64), ("CMD3", 30u64)] {
        let spec = CommandSpec {
            name,
            timeout_ms: wait + 200,
            matcher: ResponseMatcher::Contains("OK"),
            test_min_duration_ms: Some(wait),
        };
        let start = clock;
        assert_eq!(mux.submit(name, spec, clock), Ok(format!("{}\n", name)));
        let early = mux.on_bytes(b"OK\n", clock);
        assert!(!early.iter().any(|o| matches!(o, ReaderOutput::Completed(_))));
        clock += wait - 1;
        assert!(mux.on_tick(clock).is_empty());
        clock += 1;
        let done = mux.on_tick(clock);
        assert!(matches!(done.last(), Some(ReaderOutput::Completed(r)) if r.lines == ["OK"]));
        let elapsed = clock - start;
        assert!(elapsed >= wait, "Elapsed {elapsed} < enforced {wait}");
        assert_eq!(mux.metrics.command_last_latency_ms, Some(wait));
    }
    let metrics = mux.metrics.clone();
    assert_eq!(metrics.command_completed, 3);
    let min = metrics.command_min_latency_ms.unwrap();
    let max = metrics.command_max_latency_ms.unwrap();
    assert!(min >= 30 && min <= 60, "min latency unexpected: {min}");
    assert!(max >= 120, "max latency unexpected: {max}");
    assert_eq!(min, 30);
    assert_eq!(max, 120);
    assert_eq!(metrics.command_latency_samples, 3);
}

#[test]
fn a_reply_held_back_by_the_floor_is_delivered_though_more_lines_follow() {
    let one_ok_line =
        || ResponseMatcher::Custom(Box::new(EndsWithPrefix { count: 1, prefix: "OK:" }));
    let (count, success, elapsed) = test_drive_lines_with_min(&["OK:1", "X"], one_ok_line(), 50);
    assert_eq!((count, success), (1, true));
    assert!(elapsed >= 50);
    assert_eq!(test_drive_lines_with_min(&["X", "OK:1"], one_ok_line(), 50), (0, false, 0));

    let mut mux = Multiplexer::new();
    let spec = CommandSpec {
        name: "CMD",
        timeout_ms: 500,
        matcher: one_ok_line(),
        test_min_duration_ms: Some(50),
    };
    mux.submit("CMD", spec, 0).unwrap();
    assert!(mux.on_bytes(b"OK:1\n", 10).iter().all(|o| !matches!(o, ReaderOutput::Completed(_))));
    assert!(mux.on_bytes(b"X\n", 60).iter().all(|o| !matches!(o, ReaderOutput::Completed(_))));
    let done = mux.on_tick(61);
    assert!(matches!(
        done.last(),
        Some(ReaderOutput::Completed(r)) if r.lines == ["OK:1", "X"]
    ));
    assert_eq!(mux.metrics.command_last_latency_ms, Some(61));
    assert!(!mux.is_busy());
}
