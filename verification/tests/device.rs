use joycore_x_lib::device::manager::{
    parse_button_map, parse_mapping_info, sanitize_firmware_version,
};
use joycore_x_lib::device::models::{
    same_text, AppSettings, ConnectionState, Device, ProfileManager,
};
use joycore_x_lib::device::port_monitor::{port_name, PortEvent, PortEventDebouncer};
use joycore_x_lib::device::DeviceError;
use joycore_x_lib::hid::ExternalMappingInfo;
use joycore_x_lib::serial::protocol::{device_status, ProfileConfig};
use joycore_x_lib::serial::{SerialDeviceInfo, SerialError};

#[test]
fn firmware_versions_are_found_behind_noise() {
    assert_eq!(sanitize_firmware_version(""), "");
    assert_eq!(sanitize_firmware_version("1.2.3"), "1.2.3");
    assert_eq!(sanitize_firmware_version("\r\n  1.2.3 GPIO_STATES:0x1:5\r\nmore"), "1.2.3");
    assert_eq!(sanitize_firmware_version("1.2\0.3\r"), "1.2.3");
    assert_eq!(sanitize_firmware_version("1.2.3;"), "1.2.3");
    assert_eq!(sanitize_firmware_version("1.2.3-rc.1!!"), "1.2.3-rc.1");
    assert_eq!(sanitize_firmware_version("1.2;"), "1.2;");
    assert_eq!(sanitize_firmware_version("JoyCore-FW"), "JoyCore-FW");
    assert_eq!(sanitize_firmware_version("\t1.0\u{7}.0\t"), "1.0.0");
    assert_eq!(sanitize_firmware_version(" \r\n \n"), "");
    assert_eq!(sanitize_firmware_version("\u{0}\u{0}"), "\u{0}\u{0}");
    assert_eq!(sanitize_firmware_version("v1.2.3 build"), "v1.2.3");
}

#[test]
fn mapping_information_is_read_from_key_value_fields() {
    assert_eq!(
        parse_mapping_info(
            "HID_MAPPING_INFO:ver=1,rid=2,btn=24,axis=6,btn_offset=3,bit_order=1,crc=0x1A2b,fc_offset=9"
        ),
        Some(ExternalMappingInfo {
            protocol_version: 1,
            input_report_id: 2,
            button_count: 24,
            axis_count: 6,
            button_byte_offset: 3,
            button_bit_order: 1,
            mapping_crc: 0x1A2B,
            frame_counter_offset: Some(9),
        })
    );
    assert_eq!(
        parse_mapping_info("HID_MAPPING_INFO:btn=300,ver=x,junk,crc=zz,btn=400,other=1,fc_offset=300"),
        Some(ExternalMappingInfo {
            protocol_version: 0,
            input_report_id: 0,
            button_count: 400,
            axis_count: 0,
            button_byte_offset: 0,
            button_bit_order: 0,
            mapping_crc: 0,
            frame_counter_offset: Some(0),
        })
    );
    assert_eq!(parse_mapping_info("HID_MAPPING_INFO:ver=1,btn=0"), None);
    assert_eq!(parse_mapping_info("HID_MAPPING_INFO:btn=70000"), None);
    assert_eq!(parse_mapping_info("HID_MAPPING_INFO:"), None);
    assert_eq!(parse_mapping_info("HID_MAPPING:btn=4"), None);
    assert_eq!(parse_mapping_info(" HID_MAPPING_INFO:btn=4"), None);
    assert_eq!(
        parse_mapping_info("HID_MAPPING_INFO:btn=4=5,crc=ff").map(|i| (i.button_count, i.mapping_crc)),
        None
    );
}

#[test]
fn button_maps_are_read_or_taken_as_sequential() {
    assert_eq!(parse_button_map("HID_BUTTON_MAP:SEQUENTIAL", 4), vec![0, 1, 2, 3]);
    assert_eq!(parse_button_map(" HID_BUTTON_MAP:SEQUENTIAL\n", 2), vec![0, 1]);
    assert_eq!(parse_button_map("HID_BUTTON_MAP:3,2,1,0", 4), vec![3, 2, 1, 0]);
    assert_eq!(parse_button_map("HID_BUTTON_MAP:3,x,2,256,1", 5), vec![3, 2, 1, 3, 4]);
    assert_eq!(parse_button_map("HID_BUTTON_MAP:3,2,1,0", 2), vec![3, 2]);
    assert_eq!(parse_button_map("HID_BUTTON_MAP:", 3), vec![0, 1, 2]);
    assert_eq!(parse_button_map("HID_BUTTON_MAP:a,b", 3), vec![0, 1, 2]);
    assert_eq!(parse_button_map("ERROR", 3), vec![0, 1, 2]);
    assert_eq!(parse_button_map("HID_BUTTON_MAP:9", 0), Vec::<u8>::new());
    let wide = parse_button_map("HID_BUTTON_MAP:7", 1000);
    assert_eq!(wide.len(), 128);
    assert_eq!(wide[0], 7);
    assert_eq!(wide[127], 127);
}

#[test]
fn port_events_are_debounced() {
    let mut debouncer = PortEventDebouncer::new(5000, 300);
    assert_eq!(debouncer.last_event_ms, 4000);
    let added = PortEvent::PortAdded("ttyACM0".to_string());
    assert_eq!(debouncer.send_event(added.clone(), 5000), Some(added.clone()));
    assert_eq!(debouncer.last_event_ms, 5000);
    assert_eq!(debouncer.send_event(added.clone(), 5299), None);
    assert_eq!(debouncer.last_event_ms, 5000);
    assert_eq!(debouncer.send_event(added.clone(), 5300), Some(added.clone()));
    assert_eq!(debouncer.send_event(added.clone(), 5200), None);
    let mut early = PortEventDebouncer::new(500, 300);
    assert_eq!(early.last_event_ms, 500);
    assert_eq!(early.send_event(added.clone(), 700), None);
    let mut slow = PortEventDebouncer::new(5000, 2000);
    assert_eq!(slow.send_event(added.clone(), 5000), None);
    assert_eq!(slow.send_event(added.clone(), 6000), Some(added));
}

#[test]
fn ports_are_named_by_node_or_system_name() {
    assert_eq!(port_name(Some("/dev/ttyUSB0"), None), Some("ttyUSB0".to_string()));
    assert_eq!(port_name(Some("/dev/ttyACM12"), Some("x")), Some("ttyACM12".to_string()));
    assert_eq!(port_name(Some("/dev/ttyACM1/"), None), Some("".to_string()));
    assert_eq!(port_name(Some("/dev/ttyS0"), Some("ttyUSB3")), Some("ttyUSB3".to_string()));
    assert_eq!(port_name(Some("/dev/sda"), Some("sda")), None);
    assert_eq!(port_name(None, Some("ttyACM0")), Some("ttyACM0".to_string()));
    assert_eq!(port_name(None, Some("xttyACM0")), None);
    assert_eq!(port_name(None, None), None);
}

fn profile(id: &str) -> ProfileConfig {
    ProfileManager::create_default_profile(&device_status(None, Some("Stick")), id.to_string(), 42)
}

#[test]
fn the_default_profile_covers_every_axis_and_button() {
    let p = profile("id-1");
    assert_eq!(p.id, "id-1");
    assert_eq!(p.name, "Default Profile");
    assert_eq!(p.description, "Default configuration for Stick");
    assert_eq!((p.created_at_us, p.modified_at_us), (42, 42));
    assert_eq!(p.axes.len(), 8);
    assert_eq!(p.buttons.len(), 64);
    assert_eq!(p.axes[7].id, 7);
    assert_eq!(p.axes[7].name, "Axis 8");
    assert_eq!((p.axes[0].min_value, p.axes[0].max_value, p.axes[0].center_value), (-32768, 32767, 0));
    assert_eq!(p.axes[0].deadzone, 100);
    assert_eq!(p.axes[0].curve, "linear");
    assert!(!p.axes[0].inverted);
    assert_eq!(p.buttons[63].name, "Button 64");
    assert_eq!(p.buttons[0].function, "normal");
    assert!(p.buttons[0].enabled);
}

#[test]
fn profiles_are_found_removed_and_activated_by_id() {
    let mut manager = ProfileManager::new();
    assert!(manager.get_active_profile().is_none());
    manager.add_profile(profile("a"));
    manager.add_profile(profile("b"));
    manager.add_profile(profile("a"));
    assert!(!manager.set_active_profile("c"));
    assert_eq!(manager.active_profile_id, None);
    assert!(manager.set_active_profile("b"));
    assert_eq!(manager.get_active_profile().map(|p| p.id.clone()), Some("b".to_string()));
    assert!(manager.get_profile("c").is_none());
    assert!(!manager.remove_profile("c"));
    assert!(manager.remove_profile("a"));
    assert_eq!(manager.profiles.iter().map(|p| p.id.as_str()).collect::<Vec<_>>(), vec!["b", "a"]);
    assert_eq!(manager.active_profile_id, Some("b".to_string()));
    assert!(manager.remove_profile("b"));
    assert_eq!(manager.active_profile_id, None);
    assert!(manager.get_active_profile().is_none());
    manager.active_profile_id = Some("gone".to_string());
    assert!(manager.get_active_profile().is_none());
    assert!(same_text("a", "a"));
    assert!(!same_text("a", "ab"));
}

#[test]
fn devices_remember_when_they_were_last_seen() {
    let mut device = Device::new(7, "COM3".to_string(), 100);
    assert!(!device.is_connected());
    assert_eq!(device.connection_state, ConnectionState::Disconnected);
    device.update_connection_state(ConnectionState::Connected, 200);
    assert!(device.is_connected());
    assert_eq!(device.last_seen_us, 200);
    device.update_device_status(device_status(Some("1.0.0"), None), 300);
    assert_eq!(device.device_status.as_ref().unwrap().firmware_version, "1.0.0");
    assert_eq!(device.last_seen_us, 300);
    device.update_connection_state(ConnectionState::Error("lost".to_string()), 400);
    assert!(!device.is_connected());
    let info = SerialDeviceInfo {
        port_name: "ttyACM0".to_string(),
        vid: 1,
        pid: 2,
        serial_number: Some("SN".to_string()),
        manufacturer: None,
        product: Some("P".to_string()),
        firmware_version: Some("1".to_string()),
        device_signature: None,
    };
    let found = Device::from_serial_info(9, &info, 5);
    assert_eq!(found.id, 9);
    assert_eq!(found.port_name, "ttyACM0");
    assert_eq!(found.serial_number, Some("SN".to_string()));
    assert_eq!(found.manufacturer, None);
    assert_eq!(found.product, Some("P".to_string()));
    assert_eq!(found.device_status, None);
    assert_eq!(found.last_seen_us, 5);
}

#[test]
fn settings_and_errors_have_their_defaults_and_texts() {
    let settings = AppSettings::default();
    assert!(settings.auto_connect && settings.auto_save);
    assert_eq!(settings.log_level, "info");
    assert_eq!(settings.theme, "system");
    assert_eq!(settings.language, "en");
    assert_eq!(settings.update_rate_ms, 100);
    assert_eq!(DeviceError::NotFound.message(), "Device not found");
    assert_eq!(DeviceError::AlreadyConnected.message(), "Device already connected");
    assert_eq!(DeviceError::NotConnected.message(), "Device not connected");
    assert_eq!(
        DeviceError::InvalidConfiguration("x".to_string()).message(),
        "Invalid device configuration: x"
    );
    assert_eq!(
        DeviceError::SerialError(SerialError::Timeout).message(),
        "Serial communication error: Communication timeout"
    );
    assert_eq!(DeviceError::IoError("e".to_string()).message(), "IO error: e");
    assert_eq!(DeviceError::UpdateError("e".to_string()).message(), "Update error: e");
}

#[test]
fn a_profile_is_changed_in_place() {
    let mut manager = ProfileManager::new();
    let status = joycore_x_lib::serial::protocol::DeviceStatus {
        firmware_version: "1.0.0".to_string(),
        device_name: "Stick".to_string(),
        axes_count: 1,
        buttons_count: 1,
        connected: true,
    };
    manager.add_profile(ProfileManager::create_default_profile(&status, "a".to_string(), 1));
    manager.add_profile(ProfileManager::create_default_profile(&status, "b".to_string(), 2));
    assert!(manager.get_profile_mut("c").is_none());
    match manager.get_profile_mut("b") {
        Some(profile) => profile.name = "Renamed".to_string(),
        None => panic!("profile b is there"),
    }
    assert_eq!(manager.profiles.len(), 2);
    assert_eq!(manager.profiles[0].name, "Default Profile");
    assert_eq!(manager.profiles[1].name, "Renamed");
    assert_eq!(manager.profiles[1].id, "b");
}

#[test]
fn the_version_line_is_cut_out_of_a_reply() {
    let lines = joycore_x_lib::device::manager::version_lines;
    assert_eq!(lines("1.2.3"), ("1.2.3".to_string(), "1.2.3".to_string()));
    assert_eq!(
        lines("\r\n  1.2.3; build 7\r\nmore"),
        ("1.2.3;".to_string(), "1.2.3".to_string())
    );
    assert_eq!(lines("v2!!"), ("v2!!".to_string(), "v2".to_string()));
    assert_eq!(lines("  \n \n"), (String::new(), String::new()));
    assert_eq!(lines("???"), ("???".to_string(), String::new()));
}

#[test]
fn the_version_is_picked_by_what_is_a_version() {
    let pick = joycore_x_lib::device::manager::pick_version;
    let owned = |s: &str| s.to_string();
    assert_eq!(pick("raw", owned("1.2.3;"), owned("1.2.3"), true, false), "1.2.3;");
    assert_eq!(pick("raw", owned("1.2.3;"), owned("1.2.3"), false, true), "1.2.3");
    assert_eq!(pick("raw", owned("1.2.3;"), owned("1.2.3"), false, false), "1.2.3;");
    assert_eq!(pick("raw", owned("1.2.3"), owned("1.2.3"), false, true), "1.2.3");
    assert_eq!(pick("raw", owned("version"), owned("versio"), true, true), "version");
    assert_eq!(pick("raw", owned("v1"), owned("v"), true, true), "v1");
    assert_eq!(pick("  raw \n", owned(""), owned(""), true, true), "raw");
    assert_eq!(pick("", owned(""), owned(""), false, false), "");
}
