use joycore_x_lib::raw_state::monitor::{
    monitor_update, parse_single_matrix_line, parse_single_shift_line, stream_started,
    MonitorLineBuffer, MonitorUpdate,
};
use joycore_x_lib::raw_state::reader::{lines_of, RawStateReader};
use joycore_x_lib::raw_state::types::{
    MatrixConnection, MatrixState, RawGpioStates, RawHardwareState, ShiftRegisterState,
};

#[test]
fn texts_are_cut_into_lines_as_usual() {
    assert_eq!(lines_of(""), Vec::<String>::new());
    assert_eq!(lines_of("a"), vec!["a"]);
    assert_eq!(lines_of("a\n"), vec!["a"]);
    assert_eq!(lines_of("a\r\nb\r"), vec!["a", "b\r"]);
    assert_eq!(lines_of("\n\na\r\r\n"), vec!["", "", "a\r"]);
    for text in ["x\r\ny", "\r\n", "a\n\rb\n", "\r", "a\nb\n\n"] {
        let expected: Vec<String> = text.lines().map(|l| l.to_string()).collect();
        assert_eq!(lines_of(text), expected);
    }
}

#[test]
fn replies_to_state_requests_are_interpreted() {
    assert_eq!(
        RawStateReader::gpio_states("GPIO_STATES:0x10:7"),
        Ok(RawGpioStates { gpio_mask: 0x10, timestamp: 7 })
    );
    assert_eq!(
        RawStateReader::gpio_states("nonsense"),
        Err("Failed to parse GPIO response: nonsense".to_string())
    );
    assert_eq!(
        RawStateReader::matrix_state("MATRIX_STATE:0:1:1:5\r\nMATRIX_STATE:0:2:0:6\r\n", 99),
        Ok(MatrixState {
            connections: vec![
                MatrixConnection { row: 0, col: 1, is_connected: true },
                MatrixConnection { row: 0, col: 2, is_connected: false },
            ],
            timestamp: 99,
        })
    );
    assert_eq!(
        RawStateReader::matrix_state("", 1),
        Err("No matrix response received".to_string())
    );
    assert_eq!(RawStateReader::matrix_state("\n", 1).unwrap().connections, vec![]);
    assert_eq!(
        RawStateReader::matrix_state("MATRIX_STATE:NO_MATRIX_CONFIGURED", 1),
        Err("Matrix not configured in firmware".to_string())
    );
    assert_eq!(
        RawStateReader::matrix_state("MATRIX_STATE:NO_MATRIX_PINS_CONFIGURED\n", 1),
        Err("Matrix configured but pins not set".to_string())
    );
    assert_eq!(
        RawStateReader::shift_reg_state("SHIFT_REG:1:0x02:5\nSHIFT_REG:0:0x01:6"),
        Ok(vec![
            ShiftRegisterState { register_id: 0, value: 1, timestamp: 6 },
            ShiftRegisterState { register_id: 1, value: 2, timestamp: 5 },
        ])
    );
    assert_eq!(
        RawStateReader::shift_reg_state(""),
        Err("No shift register response received".to_string())
    );
    assert_eq!(
        RawStateReader::shift_reg_state("SHIFT_REG:NO_SHIFT_REG_CONFIGURED"),
        Err("Shift registers not configured in firmware".to_string())
    );
    assert_eq!(RawStateReader::check_start_reply("x OK:RAW_MONITOR_STARTED y"), Ok(()));
    assert_eq!(
        RawStateReader::check_start_reply("OK:RAW_MONITOR_STOPPED"),
        Err("Unexpected start response: OK:RAW_MONITOR_STOPPED".to_string())
    );
    assert_eq!(RawStateReader::check_stop_reply("OK:RAW_MONITOR_STOPPED"), Ok(()));
    assert_eq!(
        RawStateReader::check_stop_reply(""),
        Err("Unexpected stop response: ".to_string())
    );
    assert_eq!(RawStateReader::READ_GPIO, "READ_GPIO_STATES");
    assert_eq!(RawStateReader::START_MONITOR, "START_RAW_MONITOR");
}

#[test]
fn what_could_be_read_is_put_together() {
    let gpio = RawGpioStates { gpio_mask: 1, timestamp: 2 };
    let shift = vec![ShiftRegisterState { register_id: 0, value: 1, timestamp: 6 }];
    assert_eq!(
        RawStateReader::all_states(Ok(gpio), Err("no matrix".to_string()), Ok(shift.clone())),
        RawHardwareState { gpio: Some(gpio), matrix: None, shift_registers: shift }
    );
    assert_eq!(
        RawStateReader::all_states(
            Err("a".to_string()),
            Ok(MatrixState { connections: vec![], timestamp: 3 }),
            Err("b".to_string())
        ),
        RawHardwareState {
            gpio: None,
            matrix: Some(MatrixState { connections: vec![], timestamp: 3 }),
            shift_registers: vec![],
        }
    );
}

#[test]
fn stream_lines_are_read_singly() {
    assert_eq!(parse_single_matrix_line("MATRIX_STATE:2:5:1:987"), Some((2, 5, true, 987)));
    assert_eq!(parse_single_matrix_line("MATRIX_STATE:2:5:01:987:x"), Some((2, 5, false, 987)));
    assert_eq!(parse_single_matrix_line("MATRIX_STATE:2:5:1"), None);
    assert_eq!(parse_single_matrix_line("MATRIX_STATE:2:5:1:"), None);
    assert_eq!(parse_single_matrix_line("MATRIX:2:5:1:987"), None);
    assert_eq!(parse_single_matrix_line("MATRIX_STATE:a:5:1:987"), None);
    assert_eq!(parse_single_shift_line("SHIFT_REG:3:0xAA:555"), Some((3, 0xAA, 555)));
    assert_eq!(parse_single_shift_line("SHIFT_REG:3:0xAA:555:more"), Some((3, 0xAA, 555)));
    assert_eq!(parse_single_shift_line("SHIFT_REG:3:AA:555"), None);
    assert_eq!(parse_single_shift_line("SHIFT_REG:3:0x1AA:555"), None);
    assert_eq!(parse_single_shift_line("SHIFT_REG:3:0xAA"), None);
}

#[test]
fn stream_lines_become_updates() {
    assert_eq!(
        monitor_update("  GPIO_STATES:0x0F:12 \r"),
        Some(MonitorUpdate::Gpio(RawGpioStates { gpio_mask: 0x0F, timestamp: 12 }))
    );
    assert_eq!(
        monitor_update("MATRIX_STATE:1:2:1:30"),
        Some(MonitorUpdate::Matrix(MatrixState {
            connections: vec![MatrixConnection { row: 1, col: 2, is_connected: true }],
            timestamp: 30,
        }))
    );
    assert_eq!(
        monitor_update("SHIFT_REG:1:0x80:31"),
        Some(MonitorUpdate::Shift(vec![ShiftRegisterState {
            register_id: 1,
            value: 0x80,
            timestamp: 31
        }]))
    );
    assert_eq!(monitor_update("GPIO_STATES:0F:12"), None);
    assert_eq!(monitor_update("MATRIX_STATE:NO_MATRIX_CONFIGURED"), None);
    assert_eq!(monitor_update("OK:RAW_MONITOR_STARTED"), None);
    assert_eq!(monitor_update(""), None);
    assert!(stream_started("OK:RAW_MONITOR_STARTED"));
    assert!(stream_started("ERR RAW_MONITOR busy"));
    assert!(!stream_started("OK"));
}

#[test]
fn the_line_buffer_hands_out_one_line_at_a_time() {
    let mut buffer = MonitorLineBuffer::new();
    assert_eq!(buffer.take_ready_line(), None);
    assert_eq!(buffer.push_and_take(""), None);
    assert_eq!(buffer.push_and_take("GPIO"), None);
    assert_eq!(buffer.buffer, vec!['G', 'P', 'I', 'O']);
    assert_eq!(buffer.push_and_take("_STATES:0x1:2\n\n \nMATRIX\nrest"), Some("GPIO_STATES:0x1:2".to_string()));
    assert_eq!(buffer.take_ready_line(), Some("".to_string()));
    assert_eq!(buffer.take_ready_line(), Some(" ".to_string()));
    assert_eq!(buffer.take_ready_line(), Some("MATRIX".to_string()));
    assert_eq!(buffer.take_ready_line(), None);
    assert_eq!(buffer.buffer, vec!['r', 'e', 's', 't']);
    assert_eq!(buffer.push_and_take("\n\n\r\ntail"), Some("rest".to_string()));
    assert_eq!(buffer.push_and_take("x"), None);
    assert_eq!(buffer.buffer, vec!['t', 'a', 'i', 'l', 'x']);
    let mut blank = MonitorLineBuffer::new();
    assert_eq!(blank.push_and_take(" \n\t\nab"), None);
    assert_eq!(blank.buffer, vec!['a', 'b']);
}
