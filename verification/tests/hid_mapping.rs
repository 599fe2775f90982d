use joycore_x_lib::hid::{
    full_report_hex, resolve_mapping, sequential_mapping, ButtonEvent, ButtonStates,
    ButtonTracker, ExternalMappingInfo, HIDMappingInfoRaw, HidError, LegacyDecoder, MappingData,
    MappingSlot,
};

fn build_feature_report_3(
    protocol_version: u8,
    input_report_id: u8,
    button_count: u8,
    axis_count: u8,
    button_byte_offset: u8,
    button_bit_order: u8,
    mapping_crc: u16,
    frame_counter_offset: u8,
) -> Vec<u8> {
    let raw = HIDMappingInfoRaw {
        protocol_version,
        input_report_id,
        button_count,
        axis_count,
        button_byte_offset,
        button_bit_order,
        mapping_crc,
        frame_counter_offset,
        reserved: [0; 7],
    };
    let buf = raw.to_report();
    assert_eq!(buf.len(), 17);
    assert_eq!(buf[0], 3);
    buf
}

#[test]
fn parse_sequential_mapping_info() {
    let buf = build_feature_report_3(1, 0x01, 12, 4, 10, 0, 0x0000, 0xFF);
    let raw = HIDMappingInfoRaw::from_report(&buf, buf.len()).unwrap();
    let protocol_version = raw.protocol_version;
    let input_report_id = raw.input_report_id;
    let button_count = raw.button_count;
    let axis_count = raw.axis_count;
    let button_byte_offset = raw.button_byte_offset;
    let button_bit_order = raw.button_bit_order;
    let mapping_crc = raw.mapping_crc;
    let frame_counter_offset = raw.frame_counter_offset;
    assert_eq!(protocol_version, 1);
    assert_eq!(input_report_id, 0x01);
    assert_eq!(button_count, 12);
    assert_eq!(axis_count, 4);
    assert_eq!(button_byte_offset, 10);
    assert_eq!(button_bit_order, 0);
    assert_eq!(mapping_crc, 0x0000);
    assert_eq!(frame_counter_offset, 0xFF);
    let mapping: Vec<u8> = sequential_mapping(button_count);
    assert_eq!(mapping.len(), 12);
    for (i, v) in mapping.iter().enumerate() {
        assert_eq!(*v as usize, i);
    }
}

#[test]
fn parse_custom_mapping_info() {
    let buf = build_feature_report_3(1, 0x02, 8, 2, 5, 0, 0x1234, 0x0A);
    let raw = HIDMappingInfoRaw::from_report(&buf, buf.len()).unwrap();
    let button_count = raw.button_count;
    let mapping_crc = raw.mapping_crc;
    assert_eq!(mapping_crc, 0x1234);
    let feature4: Vec<u8> = vec![0, 2, 4, 6, 1, 3, 5, 7];
    assert_eq!(feature4.len(), button_count as usize);
    for (bit_index, logical_id) in feature4.iter().enumerate() {
        assert!((*logical_id as usize) < button_count as usize);
        for (j, other) in feature4.iter().enumerate() {
            if j != bit_index {
                assert_ne!(logical_id, other);
            }
        }
    }
}

#[test]
fn mapping_info_is_laid_out_as_the_firmware_does() {
    let buf = build_feature_report_3(1, 2, 8, 3, 5, 1, 0x1234, 0x0A);
    assert_eq!(&buf[..], &[3, 1, 2, 8, 3, 5, 1, 0x34, 0x12, 0x0A, 0, 0, 0, 0, 0, 0, 0]);
    assert!(!HIDMappingInfoRaw::from_report(&buf, 17).unwrap().is_sequential());
    assert_eq!(HIDMappingInfoRaw::from_report(&buf, 16), Err(HidError::InvalidData));
    assert_eq!(HIDMappingInfoRaw::from_report(&buf[..16], 17), Err(HidError::InvalidData));
    let zero_version = build_feature_report_3(0, 2, 8, 3, 5, 1, 0, 0);
    assert_eq!(HIDMappingInfoRaw::from_report(&zero_version, 17), Err(HidError::InvalidData));
    let no_buttons = build_feature_report_3(1, 2, 0, 3, 5, 1, 0, 0);
    assert_eq!(HIDMappingInfoRaw::from_report(&no_buttons, 17), Err(HidError::InvalidData));
    let too_many = build_feature_report_3(1, 2, 129, 3, 5, 1, 0, 0);
    assert_eq!(HIDMappingInfoRaw::from_report(&too_many, 17), Err(HidError::InvalidData));
    let most = build_feature_report_3(1, 2, 128, 3, 5, 1, 0, 0);
    assert!(HIDMappingInfoRaw::from_report(&most, 17).is_ok());
    assert_eq!(HidError::InvalidData.message(), "Invalid button data");
    assert_eq!(HidError::DeviceNotFound.message(), "Device not found");
    assert_eq!(HidError::ReadError.message(), "Failed to read HID report");
}

#[test]
fn button_states_read_bits() {
    let states = ButtonStates { buttons: 0x8000_0000_0000_0005, timestamp_ms: 0 };
    assert!(states.is_button_pressed(0));
    assert!(!states.is_button_pressed(1));
    assert!(states.is_button_pressed(2));
    assert!(states.is_button_pressed(63));
    assert!(!states.is_button_pressed(64));
    assert!(!states.is_button_pressed(255));
    assert_eq!(states.get_pressed_buttons(), vec![0, 2, 63]);
    assert_eq!(ButtonStates { buttons: 0, timestamp_ms: 0 }.get_pressed_buttons(), vec![]);
}

#[test]
fn the_mapping_table_is_taken_only_if_it_came_in_full() {
    let report = [4u8, 3, 2, 1, 0];
    assert_eq!(resolve_mapping(4, Some((&report, 5))), vec![3, 2, 1, 0]);
    assert_eq!(resolve_mapping(4, Some((&report, 4))), vec![0, 1, 2, 3]);
    assert_eq!(resolve_mapping(4, Some((&report[..4], 5))), vec![0, 1, 2, 3]);
    assert_eq!(resolve_mapping(3, Some((&report, 5))), vec![3, 2, 1]);
    assert_eq!(resolve_mapping(4, None), vec![0, 1, 2, 3]);
}

fn external(button_count: u16, axis_count: u16, frame: Option<u8>) -> ExternalMappingInfo {
    ExternalMappingInfo {
        protocol_version: 1,
        input_report_id: 2,
        button_count,
        axis_count,
        button_byte_offset: 3,
        button_bit_order: 0,
        mapping_crc: 7,
        frame_counter_offset: frame,
    }
}

#[test]
fn an_external_mapping_does_not_replace_one_in_force() {
    let mut slot = MappingSlot::new();
    assert!(slot.apply_external_mapping(external(300, 40, None), vec![1, 0], false));
    let data = slot.data.clone().unwrap();
    assert_eq!(data.info.button_count, 128);
    assert_eq!(data.info.axis_count, 32);
    assert_eq!(data.info.frame_counter_offset, 0xFF);
    assert_eq!(data.info.reserved, [0; 7]);
    assert_eq!(data.mapping, vec![1, 0]);
    assert!(!slot.apply_external_mapping(external(5, 2, Some(9)), vec![0], false));
    assert_eq!(slot.data, Some(data));
    assert!(slot.apply_external_mapping(external(5, 2, Some(9)), vec![0], true));
    let replaced = slot.data.unwrap();
    assert_eq!(replaced.info.button_count, 5);
    assert_eq!(replaced.info.axis_count, 2);
    assert_eq!(replaced.info.frame_counter_offset, 9);
}

fn mapping(count: u8, report_id: u8, offset: u8, bit_order: u8, table: Vec<u8>) -> MappingData {
    MappingData {
        info: HIDMappingInfoRaw {
            protocol_version: 1,
            input_report_id: report_id,
            button_count: count,
            axis_count: 0,
            button_byte_offset: offset,
            button_bit_order: bit_order,
            mapping_crc: 0,
            frame_counter_offset: 0xFF,
            reserved: [0; 7],
        },
        mapping: table,
    }
}

fn pressed(of: &[bool; 256]) -> Vec<usize> {
    (0..256).filter(|i| of[*i]).collect()
}

#[test]
fn mapped_reports_are_read_through_the_mapping() {
    let m = mapping(12, 1, 2, 0, vec![0, 2, 4, 6, 1, 3, 5, 7, 70, 9, 10, 11]);
    let report = [1u8, 0xAA, 0xBB, 0b0001_0011, 0b0000_1001, 0xFF];
    let decoded = m.decode_report(&report, 6).unwrap();
    assert_eq!(decoded.offset, 3);
    assert_eq!(pressed(&decoded.pressed), vec![0, 1, 2, 11, 70]);
    assert_eq!(decoded.mask, 0b1000_0000_0111);
    let without_id = [9u8, 0xAA, 0b0000_0001, 0];
    let d = m.decode_report(&without_id, 4).unwrap();
    assert_eq!(d.offset, 2);
    assert_eq!(pressed(&d.pressed), vec![0]);
    assert_eq!(m.decode_report(&report, 4), None);
    assert_eq!(m.decode_report(&report, 5).map(|d| d.offset), Some(3));
    assert_eq!(m.decode_report(&report, 0), None);
    assert_eq!(m.decode_report(&report, 7), None);
    let msb = mapping(8, 0, 0, 1, vec![]);
    let d = msb.decode_report(&[0b1000_0001], 1).unwrap();
    assert_eq!(pressed(&d.pressed), vec![0, 7]);
    assert_eq!(d.mask, 0x81);
    let d = msb.decode_report(&[0b0100_0000], 1).unwrap();
    assert_eq!(pressed(&d.pressed), vec![1]);
}

#[test]
fn the_tracker_reports_changes_in_ascending_order() {
    let m = mapping(16, 0, 0, 0, vec![]);
    let mut tracker = ButtonTracker::new(5);
    let first = m.decode_report(&[0b0000_0110, 0b1000_0000], 2).unwrap();
    let events = tracker.on_report(&first, 10);
    assert_eq!(
        events,
        vec![
            ButtonEvent { button_id: 1, pressed: true, timestamp_ms: 10 },
            ButtonEvent { button_id: 2, pressed: true, timestamp_ms: 10 },
            ButtonEvent { button_id: 15, pressed: true, timestamp_ms: 10 },
        ]
    );
    assert_eq!(tracker.state, ButtonStates { buttons: 0x8006, timestamp_ms: 10 });
    assert_eq!(tracker.selected_offset, Some(0));
    assert_eq!(tracker.last_raw_value, 0x8006);
    assert_eq!(tracker.report_count, 1);
    assert!(tracker.on_report(&first, 20).is_empty());
    assert_eq!(tracker.state.timestamp_ms, 10);
    let second = m.decode_report(&[0b0000_0101, 0], 2).unwrap();
    let events = tracker.on_report(&second, 30);
    assert_eq!(
        events,
        vec![
            ButtonEvent { button_id: 0, pressed: true, timestamp_ms: 30 },
            ButtonEvent { button_id: 1, pressed: false, timestamp_ms: 30 },
            ButtonEvent { button_id: 15, pressed: false, timestamp_ms: 30 },
        ]
    );
    assert_eq!(tracker.state, ButtonStates { buttons: 5, timestamp_ms: 30 });
    tracker.report_count = 199;
    assert!(tracker.on_report(&second, 40).is_empty());
    assert_eq!(tracker.report_count, 200);
    assert_eq!(tracker.state, ButtonStates { buttons: 5, timestamp_ms: 40 });
    assert!(tracker.on_report(&second, 50).is_empty());
    assert_eq!(tracker.state.timestamp_ms, 40);
}

#[test]
fn the_last_report_is_shown_in_hexadecimal() {
    let report = [0x00u8, 0x0F, 0xA5, 0xFF, 0x10];
    assert_eq!(full_report_hex(&report, 0), None);
    assert_eq!(full_report_hex(&report, 4), Some((4, "000fa5ff".to_string())));
    assert_eq!(full_report_hex(&report, 5), Some((5, "000fa5ff10".to_string())));
}

#[test]
fn the_legacy_decoder_takes_the_first_place_that_moves() {
    let mut decoder = LegacyDecoder::new();
    let rest = [1u8, 0, 0, 0, 0, 0, 0, 0, 0, 0];
    assert_eq!(decoder.on_report(&rest), (0, 0));
    assert_eq!(decoder.preferred_offset, None);
    assert_eq!(decoder.baseline_0, Some(1));
    assert_eq!(decoder.baseline_1, Some(0));
    assert_eq!(decoder.baseline_extra, [None; 4]);
    assert_eq!(decoder.first_byte, Some(1));
    let press = [1u8, 0b100, 0, 0, 0, 0, 0, 0, 0, 0];
    assert_eq!(decoder.on_report(&press), (1, 0b100));
    assert_eq!(decoder.preferred_offset, Some(1));
    assert!(!decoder.first_byte_varies);
    assert_eq!(decoder.on_report(&rest), (1, 0));
    let high = [1u8, 0, 0, 0, 0, 0, 0, 0, 0x80, 0];
    assert_eq!(decoder.on_report(&high), (1, 0x8000_0000_0000_0000));

    let mut other = LegacyDecoder::new();
    other.on_report(&[0u8, 0]);
    assert_eq!(other.on_report(&[2u8, 0]), (0, 2));
    assert!(other.first_byte_varies);

    let mut far = LegacyDecoder::new();
    let mut long = [0u8; 40];
    far.on_report(&long);
    assert_eq!(far.baseline_extra, [Some(0); 4]);
    long[24] = 3;
    assert_eq!(far.on_report(&long), (17, 3 << 56));
    assert_eq!(far.on_report(&long[..10]), (17, 0));

    let mut single = LegacyDecoder::new();
    assert_eq!(single.on_report(&[7u8]), (0, 0));
    assert_eq!(single.baseline_1, Some(0));
}

#[test]
fn legacy_readings_give_at_most_eight_events_of_a_kind() {
    let mut tracker = ButtonTracker::new(0);
    let events = tracker.on_legacy_reading(1, 0x3FF, 5);
    assert_eq!(events.len(), 8);
    assert_eq!(events[0], ButtonEvent { button_id: 0, pressed: true, timestamp_ms: 5 });
    assert_eq!(events[7], ButtonEvent { button_id: 7, pressed: true, timestamp_ms: 5 });
    assert_eq!(tracker.state, ButtonStates { buttons: 0x3FF, timestamp_ms: 5 });
    assert_eq!(tracker.selected_offset, Some(1));
    let events = tracker.on_legacy_reading(1, 0x401, 6);
    assert_eq!(events.len(), 9);
    assert_eq!(events[0], ButtonEvent { button_id: 10, pressed: true, timestamp_ms: 6 });
    assert_eq!(events[1], ButtonEvent { button_id: 1, pressed: false, timestamp_ms: 6 });
    assert_eq!(events[8], ButtonEvent { button_id: 8, pressed: false, timestamp_ms: 6 });
    assert!(tracker.on_legacy_reading(1, 0x401, 7).is_empty());
    assert_eq!(tracker.state.timestamp_ms, 6);
    tracker.report_count = 399;
    assert!(tracker.on_legacy_reading(1, 0x401, 8).is_empty());
    assert_eq!(tracker.state.timestamp_ms, 8);
}

#[test]
fn the_interface_with_a_mapping_and_reports_is_preferred() {
    let probe = |publishes_mapping: bool, sends_reports: bool| joycore_x_lib::hid::InterfaceProbe {
        publishes_mapping,
        sends_reports,
    };
    let choose = joycore_x_lib::hid::choose_interface;
    assert_eq!(choose(&[]), None);
    assert_eq!(choose(&[probe(false, false)]), Some(0));
    assert_eq!(choose(&[probe(true, false), probe(false, false)]), Some(0));
    assert_eq!(choose(&[probe(true, false), probe(false, true), probe(true, true)]), Some(2));
    assert_eq!(choose(&[probe(true, false), probe(false, true), probe(false, true)]), Some(1));
    assert_eq!(choose(&[probe(true, true), probe(true, true)]), Some(0));
    assert_eq!(choose(&[probe(false, false), probe(true, false)]), Some(0));
}
