use joycore_x_lib::raw_state::parser::{
    parse_gpio_response, parse_matrix_response, parse_matrix_responses,
    parse_shift_reg_response, parse_shift_reg_responses,
};
use joycore_x_lib::raw_state::types::{
    ConfigurationStatus, MatrixConnection, RawGpioStates, ShiftRegisterState,
};
use joycore_x_lib::raw_state::{
    get_display_mode, get_display_mode_string, set_display_mode, DisplayMode, DisplayModeSetting,
};

#[test]
fn test_parse_gpio_response() {
    let line = "GPIO_STATES:0x00001090:1234567890";
    let result = parse_gpio_response(line).unwrap();
    assert_eq!(result.gpio_mask, 0x00001090);
    assert_eq!(result.timestamp, 1234567890);
}

#[test]
fn test_parse_matrix_response() {
    let line = "MATRIX_STATE:2:1:1:1234567890";
    let result = parse_matrix_response(line).unwrap().unwrap();
    assert_eq!(result.row, 2);
    assert_eq!(result.col, 1);
    assert_eq!(result.is_connected, true);
}

#[test]
fn test_parse_shift_reg_response() {
    let line = "SHIFT_REG:0:0xFF:1234567890";
    let result = parse_shift_reg_response(line).unwrap().unwrap();
    assert_eq!(result.register_id, 0);
    assert_eq!(result.value, 0xFF);
    assert_eq!(result.timestamp, 1234567890);
}

#[test]
fn test_parse_matrix_not_configured() {
    let line = "MATRIX_STATE:NO_MATRIX_CONFIGURED";
    let result = parse_matrix_response(line);
    assert!(matches!(result, Err(ConfigurationStatus::NotConfigured)));
}

#[test]
fn gpio_reply_needs_its_name_and_one_hex_mark() {
    assert_eq!(parse_gpio_response("GPIO_STATES:00001090:7"), None);
    assert_eq!(
        parse_gpio_response("GPIO_STATES:0x0x10:7"),
        None,
    );
    assert_eq!(parse_gpio_response("GPIO_STATE:0x10:7"), None);
    assert_eq!(parse_gpio_response("GPIO_STATES:0x10:7:8"), None);
    assert_eq!(parse_gpio_response("GPIO_STATES:0x10"), None);
    assert_eq!(
        parse_gpio_response("GPIO_STATES:0xffffffff:0"),
        Some(RawGpioStates { gpio_mask: u32::MAX, timestamp: 0 })
    );
    assert_eq!(parse_gpio_response("GPIO_STATES:0x1ffffffff:0"), None);
}

#[test]
fn matrix_and_shift_replies_tell_refusals_from_noise() {
    assert_eq!(
        parse_matrix_response("ANYTHING:NO_MATRIX_PINS_CONFIGURED:x"),
        Err(ConfigurationStatus::PinsNotConfigured)
    );
    assert_eq!(parse_matrix_response("MATRIX_STATE:1:2:1"), Ok(None));
    assert_eq!(parse_matrix_response("MATRIX:1:2:1:5"), Ok(None));
    assert_eq!(parse_matrix_response("MATRIX_STATE:1:2:x:5"), Ok(None));
    assert_eq!(
        parse_matrix_response("MATRIX_STATE:1:2:0:not-a-number"),
        Ok(Some(MatrixConnection { row: 1, col: 2, is_connected: false }))
    );
    assert_eq!(
        parse_shift_reg_response("SHIFT_REG:NO_SHIFT_REG_CONFIGURED"),
        Err(ConfigurationStatus::NotConfigured)
    );
    assert_eq!(
        parse_shift_reg_response("SHIFT_REG:2:a5:9"),
        Ok(Some(ShiftRegisterState { register_id: 2, value: 0xA5, timestamp: 9 }))
    );
    assert_eq!(parse_shift_reg_response("SHIFT_REG:2:0x0xa5:9"), Ok(None));
    assert_eq!(parse_shift_reg_response("SHIFT_REG:2:0xa5"), Ok(None));
    assert_eq!(parse_shift_reg_response("SHIFT_REG:2:0xa5:"), Ok(None));
}

fn lines(of: &[&str]) -> Vec<String> {
    of.iter().map(|s| s.to_string()).collect()
}

#[test]
fn whole_replies_are_folded_in_order() {
    let state = parse_matrix_responses(
        lines(&["MATRIX_STATE:0:0:1:5", "noise", "MATRIX_STATE:0:1:0:6"]),
        77,
    )
    .unwrap();
    assert_eq!(state.timestamp, 77);
    assert_eq!(
        state.connections,
        vec![
            MatrixConnection { row: 0, col: 0, is_connected: true },
            MatrixConnection { row: 0, col: 1, is_connected: false },
        ]
    );
    assert_eq!(
        parse_matrix_responses(
            lines(&["MATRIX_STATE:0:0:1:5", "MATRIX_STATE:NO_MATRIX_CONFIGURED", "x:NO_MATRIX_PINS_CONFIGURED"]),
            1
        ),
        Err(ConfigurationStatus::NotConfigured)
    );
    assert_eq!(parse_matrix_responses(Vec::new(), 3).unwrap().connections, vec![]);
}

#[test]
fn shift_registers_come_out_ordered_and_stable() {
    let states = parse_shift_reg_responses(lines(&[
        "SHIFT_REG:2:0x01:10",
        "SHIFT_REG:0:0x02:11",
        "junk",
        "SHIFT_REG:2:0x03:12",
        "SHIFT_REG:1:0x04:13",
        "SHIFT_REG:0:0x05:14",
    ]))
    .unwrap();
    assert_eq!(
        states,
        vec![
            ShiftRegisterState { register_id: 0, value: 2, timestamp: 11 },
            ShiftRegisterState { register_id: 0, value: 5, timestamp: 14 },
            ShiftRegisterState { register_id: 1, value: 4, timestamp: 13 },
            ShiftRegisterState { register_id: 2, value: 1, timestamp: 10 },
            ShiftRegisterState { register_id: 2, value: 3, timestamp: 12 },
        ]
    );
    assert_eq!(
        parse_shift_reg_responses(lines(&["SHIFT_REG:1:0x04:13", "SHIFT_REG:NO_SHIFT_REG_CONFIGURED"])),
        Err(ConfigurationStatus::NotConfigured)
    );
}

#[test]
fn display_mode_names_and_setting() {
    assert_eq!(DisplayMode::from_str("hid"), Some(DisplayMode::HID));
    assert_eq!(DisplayMode::from_str("RAW"), Some(DisplayMode::Raw));
    assert_eq!(DisplayMode::from_str("Both"), Some(DisplayMode::Both));
    assert_eq!(DisplayMode::from_str("both "), None);
    assert_eq!(DisplayMode::from_str(""), None);
    assert_eq!(DisplayMode::from_lowercase("RAW"), None);
    assert_eq!(DisplayMode::HID.as_str(), "hid");
    assert_eq!(DisplayMode::Raw.as_str(), "raw");
    assert_eq!(DisplayMode::Both.as_str(), "both");
    let mut setting = DisplayModeSetting::new();
    assert_eq!(get_display_mode(&setting), DisplayMode::Raw);
    set_display_mode(&mut setting, DisplayMode::Both);
    assert_eq!(get_display_mode(&setting), DisplayMode::Both);
    assert_eq!(get_display_mode_string(&setting), "both");
    set_display_mode(&mut setting, DisplayMode::HID);
    assert_eq!(setting.raw, 0);
    assert_eq!(get_display_mode(&DisplayModeSetting { raw: 9 }), DisplayMode::Raw);
}
