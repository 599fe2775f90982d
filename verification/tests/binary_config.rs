use joycore_x_lib::config::binary::{
    calculate_crc32, calculate_firmware_crc32, crc32_update_byte, BinaryConfig, ConfigError,
    ConfigHeader, StoredAxisConfig, StoredLogicalInput, StoredPinMapEntry, StoredUSBDescriptor,
    CONFIG_MAGIC, STORED_AXIS_CONFIG_SIZE, STORED_CONFIG_SIZE,
};

fn packed_len_axis() -> usize {
    let mut buf = Vec::new();
    StoredAxisConfig::default().write_to(&mut buf);
    buf.len()
}

#[test]
fn test_stored_axis_config_size() {
    assert_eq!(packed_len_axis(), STORED_AXIS_CONFIG_SIZE);
}

#[test]
fn test_structure_sizes_match_firmware() {
    let mut usb = Vec::new();
    StoredUSBDescriptor::default().write_to(&mut usb);
    assert_eq!(usb.len(), 76, "StoredUSBDescriptor should be 76 bytes");
    let mut input = Vec::new();
    StoredLogicalInput {
        input_type: 0,
        behavior: 0,
        joy_button_id: 0,
        reverse: 0,
        encoder_latch_mode: 0,
        reserved: [0; 3],
        data: [0; 2],
    }
    .write_to(&mut input);
    assert_eq!(input.len(), 10, "StoredLogicalInput should be 10 bytes");
    let mut entry = Vec::new();
    StoredPinMapEntry { name: [0; 8], pin_type: 0, reserved: 0 }.write_to(&mut entry);
    assert_eq!(entry.len(), 10, "StoredPinMapEntry should be 10 bytes");
    assert_eq!(packed_len_axis(), 15, "StoredAxisConfig should be 15 bytes");
}

#[test]
fn test_firmware_crc32_algorithm() {
    let test_data = vec![0x43, 0x59, 0x4F, 0x4A];
    let checksum = calculate_crc32(&test_data);
    assert_eq!(checksum, calculate_crc32(&test_data), "CRC32 should be deterministic");
}

#[test]
fn test_config_header_validation() {
    let mut header = ConfigHeader::new(100);
    assert!(header.validate().is_ok());

    header.magic = 0xDEADBEEF;
    assert!(header.validate().is_err());

    header.magic = CONFIG_MAGIC;
    header.version = 999;
    assert!(header.validate().is_err());
}

fn sample_config() -> BinaryConfig {
    let mut config = BinaryConfig::new();
    config.stored_config.pin_map_count = 2;
    config.stored_config.logical_input_count = 3;
    config.pin_map_entries.push(StoredPinMapEntry {
        name: [b'A', b'X', b'I', b'S', b'1', 0, 0, 0],
        pin_type: 1,
        reserved: 0,
    });
    config.pin_map_entries.push(StoredPinMapEntry {
        name: [b'B', b'T', b'N', b'1', 0, 0, 0, 0],
        pin_type: 2,
        reserved: 0,
    });
    for i in 0..3 {
        config.logical_inputs.push(StoredLogicalInput {
            input_type: 1,
            behavior: 0,
            joy_button_id: i,
            reverse: 0,
            encoder_latch_mode: 0,
            reserved: [0; 3],
            data: [0; 2],
        });
    }
    config
}

#[test]
fn test_binary_config_roundtrip() {
    let config = sample_config();
    let bytes = config.to_bytes().expect("Serialization failed");
    let parsed = BinaryConfig::from_bytes(&bytes).expect("Deserialization failed");

    assert_eq!(config.stored_config.pin_map_count, parsed.stored_config.pin_map_count);
    assert_eq!(config.stored_config.logical_input_count, parsed.stored_config.logical_input_count);
    assert_eq!(config.pin_map_entries.len(), parsed.pin_map_entries.len());
    assert_eq!(config.logical_inputs.len(), parsed.logical_inputs.len());
}

#[test]
fn roundtrip_is_field_for_field() {
    let config = sample_config();
    let bytes = config.to_bytes().unwrap();
    assert_eq!(bytes.len(), STORED_CONFIG_SIZE + 20 + 30);
    let parsed = BinaryConfig::from_bytes(&bytes).unwrap();
    let mut expected = config.clone();
    expected.stored_config.header.size = 266;
    expected.stored_config.header.checksum = calculate_firmware_crc32(&bytes);
    assert_eq!(parsed, expected);
    assert_eq!(parsed.to_bytes().unwrap(), bytes);
}

#[test]
fn crc32_matches_reference_values() {
    assert_eq!(calculate_crc32(b"123456789"), 0xCBF4_3926);
    assert_eq!(calculate_crc32(b""), 0);
    assert_eq!(crc32_update_byte(0xFFFF_FFFF, b'a') ^ 0xFFFF_FFFF, 0xE8B7_BE43);
}

#[test]
fn firmware_crc_skips_the_checksum_field() {
    let bytes = sample_config().to_bytes().unwrap();
    let mut covered = bytes[..8].to_vec();
    covered.extend_from_slice(&bytes[12..]);
    assert_eq!(calculate_firmware_crc32(&bytes), calculate_crc32(&covered));
    let mut zeroed = bytes.clone();
    zeroed[8..12].copy_from_slice(&[0; 4]);
    assert_ne!(calculate_firmware_crc32(&bytes), calculate_crc32(&zeroed));
    let stored = u32::from_le_bytes([bytes[8], bytes[9], bytes[10], bytes[11]]);
    assert_eq!(stored, calculate_firmware_crc32(&bytes));
}

#[test]
fn header_layout_is_little_endian() {
    let bytes = BinaryConfig::new().to_bytes().unwrap();
    assert_eq!(bytes.len(), 216);
    assert_eq!(&bytes[0..4], &[0x43, 0x59, 0x4F, 0x4A]);
    assert_eq!(&bytes[4..6], &[7, 0]);
    assert_eq!(&bytes[6..8], &[216, 0]);
    assert_eq!(&bytes[12..16], &[0, 0, 0, 0]);
    assert_eq!(&bytes[16..20], &[0x8A, 0x2E, 0x2F, 0xA0]);
    assert_eq!(&bytes[96..111], &[0, 0, 0, 0, 0xFF, 0x03, 2, 0x9A, 0x19, 0, 0, 0, 0, 0, 0]);
}

#[test]
fn every_flipped_bit_is_rejected() {
    let bytes = sample_config().to_bytes().unwrap();
    let stored = calculate_firmware_crc32(&bytes);
    for at in 0..bytes.len() {
        if (8..12).contains(&at) {
            continue;
        }
        for bit in 0..8 {
            let mut damaged = bytes.clone();
            damaged[at] ^= 1 << bit;
            let result = BinaryConfig::from_bytes(&damaged);
            assert!(result.is_err(), "byte {at} bit {bit} accepted");
            if at >= 12 && at != 92 && at != 93 {
                assert_eq!(
                    result,
                    Err(ConfigError::ChecksumMismatch {
                        calculated: calculate_firmware_crc32(&damaged),
                        stored,
                    })
                );
            }
        }
    }
}

#[test]
fn magic_and_version_are_judged_first() {
    let bytes = sample_config().to_bytes().unwrap();
    let mut wrong_magic = bytes.clone();
    wrong_magic[0] = 0x44;
    wrong_magic[100] ^= 0xFF;
    assert_eq!(
        BinaryConfig::from_bytes(&wrong_magic),
        Err(ConfigError::InvalidMagic { magic: 0x4A4F5944 })
    );
    let mut wrong_version = bytes.clone();
    wrong_version[4] = 6;
    wrong_version[100] ^= 0xFF;
    assert_eq!(
        BinaryConfig::from_bytes(&wrong_version),
        Err(ConfigError::InvalidVersion { version: 6 })
    );
}

#[test]
fn trimmed_buffer_is_a_size_mismatch() {
    let bytes = sample_config().to_bytes().unwrap();
    assert_eq!(
        BinaryConfig::from_bytes(&bytes[..bytes.len() - 1]),
        Err(ConfigError::SizeMismatch { actual: 265, declared: 266 })
    );
    let mut longer = bytes.clone();
    longer.push(0);
    assert_eq!(
        BinaryConfig::from_bytes(&longer),
        Err(ConfigError::SizeMismatch { actual: 267, declared: 266 })
    );
    let fixed = BinaryConfig::new().to_bytes().unwrap();
    assert_eq!(fixed.len(), 216);
    assert_eq!(
        BinaryConfig::from_bytes(&fixed[..215]),
        Err(ConfigError::SizeMismatch { actual: 215, declared: 216 })
    );
    assert_eq!(
        BinaryConfig::from_bytes(&bytes[..16]),
        Err(ConfigError::SizeMismatch { actual: 16, declared: 266 })
    );
}

#[test]
fn a_short_buffer_is_judged_by_its_header() {
    let fixed = BinaryConfig::new().to_bytes().unwrap();
    assert_eq!(BinaryConfig::from_bytes(&fixed[..15]), Err(ConfigError::TooSmall { len: 15 }));
    assert_eq!(BinaryConfig::from_bytes(&[]), Err(ConfigError::TooSmall { len: 0 }));

    let mut wrong_magic = fixed[..100].to_vec();
    wrong_magic[0] ^= 0xFF;
    assert!(matches!(
        BinaryConfig::from_bytes(&wrong_magic),
        Err(ConfigError::InvalidMagic { .. })
    ));
    let mut wrong_version = fixed[..100].to_vec();
    wrong_version[4] = 6;
    assert_eq!(
        BinaryConfig::from_bytes(&wrong_version),
        Err(ConfigError::InvalidVersion { version: 6 })
    );
    let mut declares_its_length = fixed[..100].to_vec();
    declares_its_length[6..8].copy_from_slice(&100u16.to_le_bytes());
    assert_eq!(
        BinaryConfig::from_bytes(&declares_its_length),
        Err(ConfigError::TooSmall { len: 100 })
    );
}

fn reseal(bytes: &mut Vec<u8>) {
    let size = bytes.len() as u16;
    bytes[6..8].copy_from_slice(&size.to_le_bytes());
    let crc = calculate_firmware_crc32(bytes);
    bytes[8..12].copy_from_slice(&crc.to_le_bytes());
}

#[test]
fn counts_and_sections_are_checked() {
    let mut bytes = BinaryConfig::new().to_bytes().unwrap();
    bytes[92] = 33;
    reseal(&mut bytes);
    assert_eq!(
        BinaryConfig::from_bytes(&bytes),
        Err(ConfigError::PinMapCountTooLarge { count: 33 })
    );
    bytes[92] = 0;
    bytes[93] = 65;
    reseal(&mut bytes);
    assert_eq!(
        BinaryConfig::from_bytes(&bytes),
        Err(ConfigError::LogicalInputCountTooLarge { count: 65 })
    );
    bytes[93] = 0;
    bytes[92] = 1;
    reseal(&mut bytes);
    assert_eq!(BinaryConfig::from_bytes(&bytes), Err(ConfigError::TruncatedPinMap));
    bytes.extend_from_slice(&[7; 10]);
    bytes[93] = 1;
    reseal(&mut bytes);
    assert_eq!(BinaryConfig::from_bytes(&bytes), Err(ConfigError::TruncatedLogicalInputs));
    bytes.extend_from_slice(&[9; 10]);
    reseal(&mut bytes);
    let parsed = BinaryConfig::from_bytes(&bytes).unwrap();
    assert_eq!(parsed.pin_map_entries[0].pin_type, 7);
    assert_eq!(parsed.logical_inputs[0].data, [9, 9]);
}

#[test]
fn encoding_refuses_what_the_size_field_cannot_say() {
    let mut config = BinaryConfig::new();
    let entry = StoredPinMapEntry { name: [0; 8], pin_type: 0, reserved: 0 };
    config.pin_map_entries = vec![entry; 6532];
    assert_eq!(config.to_bytes(), Err(ConfigError::SizeOverflow));
    config.pin_map_entries.truncate(6531);
    assert_eq!(config.to_bytes().unwrap().len(), 65526);
}

#[test]
fn a_file_is_validated_by_decoding_and_encoding_it() {
    let mut config = BinaryConfig::new();
    config.stored_config.axes[0].enabled = 1;
    config.logical_inputs.push(StoredLogicalInput {
        input_type: 1,
        behavior: 2,
        joy_button_id: 3,
        reverse: 0,
        encoder_latch_mode: 0,
        reserved: [0; 3],
        data: [4, 5],
    });
    config.stored_config.logical_input_count = 1;
    let bytes = config.to_bytes().unwrap();
    assert_eq!(bytes.len(), STORED_CONFIG_SIZE + 10);
    assert_eq!(joycore_x_lib::config::binary::validated_bytes(&bytes), Ok(bytes.clone()));

    let mut damaged = bytes.clone();
    damaged[0] ^= 1;
    assert!(matches!(
        joycore_x_lib::config::binary::validated_bytes(&damaged),
        Err(ConfigError::InvalidMagic { .. })
    ));
    assert_eq!(
        joycore_x_lib::config::binary::validated_bytes(&bytes[..10]),
        Err(ConfigError::TooSmall { len: 10 })
    );
}

#[test]
fn a_fresh_record_holds_the_defaults() {
    let config = BinaryConfig::new();
    let fixed = config.stored_config;
    assert_eq!(fixed.header, ConfigHeader::new(0));
    assert_eq!(fixed.header.magic, CONFIG_MAGIC);
    assert_eq!(fixed.header.version, 7);
    assert_eq!((fixed.header.size, fixed.header.checksum), (0, 0));
    assert_eq!(fixed.header.reserved, [0; 4]);
    assert_eq!(fixed.usb_descriptor, StoredUSBDescriptor::default());
    assert_eq!((fixed.usb_descriptor.vid, fixed.usb_descriptor.pid), (0x2E8A, 0xA02F));
    assert_eq!(fixed.usb_descriptor.manufacturer, [0; 32]);
    assert_eq!(fixed.usb_descriptor.product, [0; 32]);
    assert_eq!(fixed.usb_descriptor.reserved, [0; 8]);
    assert_eq!(
        (fixed.pin_map_count, fixed.logical_input_count, fixed.shift_reg_count, fixed.padding),
        (0, 0, 0, 0)
    );
    assert_eq!(fixed.axes, [StoredAxisConfig::default(); 8]);
    assert_eq!(fixed.axes[3].max_value, 1023);
    assert_eq!(fixed.axes[3].filter_level, 2);
    assert_eq!(fixed.axes[3].ewma_alpha, 6554);
    assert!(config.pin_map_entries.is_empty());
    assert!(config.logical_inputs.is_empty());
}
