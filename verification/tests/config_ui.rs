use joycore_x_lib::config::binary::{BinaryConfig, ConfigError, StoredLogicalInput};
use joycore_x_lib::config::ui::{UIAxisConfig, UIButtonConfig};

fn input(input_type: u8, behavior: u8, joy_button_id: u8, reverse: u8, data: [u8; 2]) -> StoredLogicalInput {
    StoredLogicalInput {
        input_type,
        behavior,
        joy_button_id,
        reverse,
        encoder_latch_mode: 0,
        reserved: [0; 3],
        data,
    }
}

#[test]
fn enabled_axes_are_shown_with_their_names() {
    let mut config = BinaryConfig::new();
    assert!(config.to_axis_configs().is_empty());
    config.stored_config.axes[1].enabled = 1;
    config.stored_config.axes[1].pin = 27;
    config.stored_config.axes[1].min_value = 100;
    config.stored_config.axes[1].max_value = 65535;
    config.stored_config.axes[1].deadband = 12;
    config.stored_config.axes[1].curve = 2;
    config.stored_config.axes[7].enabled = 255;
    config.stored_config.axes[7].curve = 9;
    assert_eq!(
        config.to_axis_configs(),
        vec![
            UIAxisConfig {
                id: 1,
                name: "Axis 2 (Pin 27)".to_string(),
                min_value: 100,
                max_value: 65535,
                center_value: 32817,
                deadzone: 12,
                curve: "curve2".to_string(),
                inverted: false,
            },
            UIAxisConfig {
                id: 7,
                name: "Axis 8 (Pin 0)".to_string(),
                min_value: 0,
                max_value: 1023,
                center_value: 511,
                deadzone: 0,
                curve: "linear".to_string(),
                inverted: false,
            },
        ]
    );
}

#[test]
fn logical_inputs_are_shown_as_buttons() {
    let mut config = BinaryConfig::new();
    config.logical_inputs = vec![
        input(1, 0, 0, 0, [0x2C, 0x01]),
        input(2, 1, 4, 1, [9, 9]),
        input(3, 2, 255, 0, [0, 0]),
        input(0, 7, 9, 2, [0, 0]),
    ];
    assert_eq!(
        config.to_button_configs(),
        vec![
            UIButtonConfig {
                id: 0,
                name: "Button 1 (Pin Pin 300)".to_string(),
                function: "normal".to_string(),
                enabled: true,
            },
            UIButtonConfig {
                id: 1,
                name: "Button 5 (Matrix)".to_string(),
                function: "toggle".to_string(),
                enabled: false,
            },
            UIButtonConfig {
                id: 2,
                name: "Button 256 (Shift Register)".to_string(),
                function: "macro".to_string(),
                enabled: true,
            },
            UIButtonConfig {
                id: 3,
                name: "Button 10 (Unknown)".to_string(),
                function: "normal".to_string(),
                enabled: false,
            },
        ]
    );
    config.logical_inputs = vec![input(2, 0, 0, 0, [0, 0]); 258];
    let shown = config.to_button_configs();
    assert_eq!(shown[255].id, 255);
    assert_eq!(shown[256].id, 0);
    assert_eq!(shown[257].id, 1);
}

#[test]
fn codec_errors_say_what_was_found() {
    assert_eq!(ConfigError::TooSmall { len: 3 }.message(), "Data too small for StoredConfig");
    assert_eq!(
        ConfigError::InvalidMagic { magic: 0xDEADBEEF }.message(),
        "Invalid magic number: 0xDEADBEEF"
    );
    assert_eq!(ConfigError::InvalidMagic { magic: 0x1A }.message(), "Invalid magic number: 0x0000001A");
    assert_eq!(
        ConfigError::InvalidVersion { version: 999 }.message(),
        "Invalid version: 999 (expected 7)"
    );
    assert_eq!(
        ConfigError::PinMapCountTooLarge { count: 33 }.message(),
        "Pin map count 33 exceeds maximum 32"
    );
    assert_eq!(
        ConfigError::LogicalInputCountTooLarge { count: 200 }.message(),
        "Logical input count 200 exceeds maximum 64"
    );
    assert_eq!(
        ConfigError::SizeMismatch { actual: 215, declared: 216 }.message(),
        "Size mismatch: got 215 bytes, header says 216"
    );
    assert_eq!(
        ConfigError::ChecksumMismatch { calculated: 0, stored: 0xABCDEF01 }.message(),
        "Checksum mismatch: calculated 0x00000000, got 0xABCDEF01"
    );
    assert_eq!(ConfigError::TruncatedPinMap.message(), "Insufficient data for pin map entries");
    assert_eq!(
        ConfigError::TruncatedLogicalInputs.message(),
        "Insufficient data for logical inputs"
    );
    assert_eq!(ConfigError::SizeOverflow.message(), "Configuration too large for the size field");
}

#[test]
fn a_file_is_shown_as_axes_and_buttons() {
    let mut config = BinaryConfig::new();
    config.stored_config.axes[0].enabled = 1;
    config.stored_config.axes[0].pin = 26;
    config.logical_inputs.push(input(0, 0, 4, 0, [0, 0]));
    config.stored_config.logical_input_count = 1;
    let bytes = config.to_bytes().unwrap();
    let (axes, buttons) = joycore_x_lib::config::ui::read_parsed_config(&bytes).unwrap();
    assert_eq!(axes, config.to_axis_configs());
    assert_eq!(buttons, config.to_button_configs());
    assert_eq!(axes.len(), 1);
    assert_eq!(axes[0].name, "Axis 1 (Pin 26)");
    assert_eq!(buttons.len(), 1);

    let mut damaged = bytes.clone();
    let last = damaged.len() - 1;
    damaged[last] ^= 0x80;
    assert!(matches!(
        joycore_x_lib::config::ui::read_parsed_config(&damaged),
        Err(ConfigError::ChecksumMismatch { .. })
    ));
    assert_eq!(
        joycore_x_lib::config::ui::read_parsed_config(&[]),
        Err(ConfigError::TooSmall { len: 0 })
    );
}
