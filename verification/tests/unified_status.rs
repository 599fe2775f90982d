use joycore_x_lib::serial::unified::reader::test_drive_lines;
use joycore_x_lib::serial::unified::types::ResponseMatcher;

#[test]
fn test_status_command_completion() {
    let lines = ["STATUS:DEVICE:JoyCore HOTAS", "STATUS:FIRMWARE:1.0.0", "OK:STATUS_DONE"];
    let (completed, success) = test_drive_lines(&lines, ResponseMatcher::UntilPrefix("OK:"));
    assert_eq!(completed, 1, "expected one command completion");
    assert!(success, "expected oneshot responder success");
}

#[test]
fn a_reply_that_never_completes_is_not_delivered() {
    let lines = ["STATUS:DEVICE:JoyCore HOTAS", "GPIO_STATES:0x01:5"];
    assert_eq!(test_drive_lines(&lines, ResponseMatcher::UntilPrefix("OK:")), (0, false));
    assert_eq!(test_drive_lines(&[], ResponseMatcher::FixedLines(0)), (0, false));
    let telemetry = ["GPIO_STATES:0x01:5", "MATRIX_STATE:1:1:1:6"];
    assert_eq!(test_drive_lines(&telemetry, ResponseMatcher::FixedLines(1)), (0, false));
    assert_eq!(test_drive_lines(&telemetry, ResponseMatcher::Contains("STATE")), (0, false));
}
