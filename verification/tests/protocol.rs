use joycore_x_lib::serial::interface::{parse_identify_response, join_lines, ResponseCollector};
use joycore_x_lib::serial::protocol::{
    axis_get_command, axis_set_command, button_get_command, button_set_command,
    check_axis_write_response, check_button_write_response, decode_file_response,
    device_status, estimate_storage, parse_axis_response, parse_button_response,
    parse_file_list, read_file_command, AxisConfig, ButtonConfig, StorageInfo,
};
use joycore_x_lib::serial::{SerialDeviceInfo, SerialError};

fn fault<T: std::fmt::Debug>(r: Result<T, SerialError>) -> String {
    match r {
        Err(SerialError::ProtocolError(m)) => m,
        other => panic!("no protocol fault: {:?}", other),
    }
}

fn axis() -> AxisConfig {
    AxisConfig {
        id: 3,
        name: "Throttle".to_string(),
        min_value: -32768,
        max_value: 32767,
        center_value: -5,
        deadzone: 100,
        curve: "curve1".to_string(),
        inverted: true,
    }
}

#[test]
fn commands_are_written_as_the_firmware_reads_them() {
    assert_eq!(axis_get_command(0), "AXIS_GET:0");
    assert_eq!(axis_get_command(255), "AXIS_GET:255");
    assert_eq!(button_get_command(10), "BUTTON_GET:10");
    assert_eq!(read_file_command("/config.bin"), "READ_FILE /config.bin");
    assert_eq!(axis_set_command(&axis()), "AXIS_SET:3,Throttle,-32768,32767,-5,100,curve1,true");
    let button = ButtonConfig {
        id: 7,
        name: "Fire".to_string(),
        function: "toggle".to_string(),
        enabled: false,
    };
    assert_eq!(button_set_command(&button), "BUTTON_SET:7,Fire,toggle,false");
}

#[test]
fn axis_replies_are_read_field_by_field() {
    assert_eq!(
        parse_axis_response("AXIS:3,Throttle,-32768,32767,-5,100,curve1,true"),
        Ok(axis())
    );
    let more = parse_axis_response("AXIS:3,Throttle,+1,2,3,4,c,false,extra").unwrap();
    assert_eq!(more.min_value, 1);
    assert!(!more.inverted);
    assert_eq!(fault(parse_axis_response("AXE:3,T,1,2,3,4,c,true")), "Invalid axis response");
    assert_eq!(fault(parse_axis_response("AXIS:3,T,1,2,3,4,c")), "Incomplete axis data");
    assert_eq!(fault(parse_axis_response("AXIS:256,T,x,2,3,4,c,true")), "Invalid axis ID");
    assert_eq!(fault(parse_axis_response("AXIS:3,T,-32769,2,3,4,c,true")), "Invalid min value");
    assert_eq!(fault(parse_axis_response("AXIS:3,T,1,32768,3,4,c,true")), "Invalid max value");
    assert_eq!(fault(parse_axis_response("AXIS:3,T,1,2,-,4,c,true")), "Invalid center value");
    assert_eq!(fault(parse_axis_response("AXIS:3,T,1,2,-+3,4,c,true")), "Invalid center value");
    assert_eq!(fault(parse_axis_response("AXIS:3,T,1,2,3,65536,c,true")), "Invalid deadzone");
    assert_eq!(fault(parse_axis_response("AXIS:3,T,1,2,3,-4,c,true")), "Invalid deadzone");
    assert_eq!(fault(parse_axis_response("AXIS:3,T,1,2,3,4,c,True")), "Invalid inverted flag");
    assert_eq!(parse_axis_response("AXIS:3,T,-0,2,3,4,c,true").unwrap().min_value, 0);
}

#[test]
fn button_replies_are_read_field_by_field() {
    assert_eq!(
        parse_button_response("BUTTON:2,Jump,ACTION,false"),
        Ok(ButtonConfig {
            id: 2,
            name: "Jump".to_string(),
            function: "ACTION".to_string(),
            enabled: false,
        })
    );
    assert_eq!(fault(parse_button_response("BUTTON 2")), "Invalid button response");
    assert_eq!(fault(parse_button_response("BUTTON:2,Jump,ACTION")), "Incomplete button data");
    assert_eq!(fault(parse_button_response("BUTTON:,Jump,ACTION,true")), "Invalid button ID");
    assert_eq!(fault(parse_button_response("BUTTON:2,Jump,ACTION,1")), "Invalid enabled flag");
}

#[test]
fn write_replies_are_judged_by_their_start() {
    assert_eq!(check_axis_write_response("OK"), Ok(()));
    assert_eq!(check_axis_write_response("OK:saved"), Ok(()));
    assert_eq!(
        fault(check_axis_write_response("ERROR:busy")),
        "Axis config write failed: ERROR:busy"
    );
    assert_eq!(fault(check_button_write_response(" OK")), "Button config write failed:  OK");
    assert_eq!(check_button_write_response("OKAY"), Ok(()));
}

#[test]
fn file_listings_leave_out_the_markers() {
    assert_eq!(
        parse_file_list("FILES:\n  config.bin \r\n\nprofile1.bin\nEND_FILES\n"),
        vec!["config.bin".to_string(), "profile1.bin".to_string()]
    );
    assert_eq!(parse_file_list(""), Vec::<String>::new());
    assert_eq!(parse_file_list("FILES: \n a b "), vec!["a b".to_string()]);
}

#[test]
fn file_replies_are_decoded_and_checked_for_size() {
    assert_eq!(
        decode_file_response("FILE_DATA:/config.bin:4:DEADbeef"),
        Ok(vec![0xDE, 0xAD, 0xBE, 0xEF])
    );
    assert_eq!(decode_file_response("FILE_DATA:/c:0:"), Ok(vec![]));
    assert_eq!(decode_file_response(" 00ff \n"), Ok(vec![0x00, 0xFF]));
    assert_eq!(decode_file_response("FILE_DATA:/c:+2: 0102\r\n"), Ok(vec![1, 2]));
    assert_eq!(
        fault(decode_file_response("FILE_DATA:/config.bin:04")),
        "Invalid FILE_DATA response format: FILE_DATA:/config.bin:04"
    );
    assert_eq!(
        fault(decode_file_response("FILE_DATA:x")),
        "Invalid FILE_DATA response format: FILE_DATA:x"
    );
    assert_eq!(
        fault(decode_file_response("FILE_DATA:/c:four:00")),
        "Invalid file size in response"
    );
    assert_eq!(
        fault(decode_file_response("FILE_DATA:/c:1:0g")),
        "Response contains non-hex characters: '0g'"
    );
    assert_eq!(
        fault(decode_file_response("FILE_DATA:/c:1:00:11")),
        "Response contains non-hex characters: '00:11'"
    );
    assert_eq!(fault(decode_file_response("FILE_DATA:/c:1:000")), "Hex data has odd length: 3");
    assert_eq!(
        fault(decode_file_response("FILE_DATA:/c:3:0001")),
        "Size mismatch: decoded 2 bytes, expected 3 bytes"
    );
    assert_eq!(fault(decode_file_response("OK")), "Response contains non-hex characters: 'OK'");
}

#[test]
fn storage_is_estimated_from_the_number_of_files() {
    assert_eq!(
        estimate_storage(0),
        StorageInfo {
            used_bytes: 64,
            total_bytes: 4096,
            available_bytes: 4032,
            file_count: 0,
            max_files: 8
        }
    );
    assert_eq!(estimate_storage(2).used_bytes, 576);
    assert_eq!(estimate_storage(2).available_bytes, 3520);
    assert_eq!(estimate_storage(15).available_bytes, 192);
    assert_eq!(estimate_storage(16).used_bytes, 4160);
    assert_eq!(estimate_storage(16).available_bytes, 0);
    assert_eq!(estimate_storage(255).used_bytes, 65344);
}

#[test]
fn device_status_falls_back_on_fixed_names() {
    let status = device_status(None, None);
    assert_eq!(status.firmware_version, "Unknown");
    assert_eq!(status.device_name, "JoyCore HOTAS Controller");
    assert_eq!(status.axes_count, 8);
    assert_eq!(status.buttons_count, 64);
    assert!(status.connected);
    let known = device_status(Some("1.2.3"), Some("Stick"));
    assert_eq!(known.firmware_version, "1.2.3");
    assert_eq!(known.device_name, "Stick");
}

#[test]
fn identification_needs_signature_and_magic() {
    let info = parse_identify_response("COM3", "JOYCORE_ID:JOYCORE-FW:4A4F5943:1.2.3").unwrap();
    assert_eq!(
        info,
        SerialDeviceInfo {
            port_name: "COM3".to_string(),
            vid: 0,
            pid: 0,
            serial_number: None,
            manufacturer: Some("JoyCore".to_string()),
            product: Some("HOTAS Controller".to_string()),
            firmware_version: Some("1.2.3".to_string()),
            device_signature: Some("JOYCORE-FW".to_string()),
        }
    );
    let lower = parse_identify_response("p", "JOYCORE_ID:JOYCORE-FW:4a4f5943:v:more").unwrap();
    assert_eq!(lower.firmware_version, Some("v".to_string()));
    assert_eq!(parse_identify_response("p", "JOYCORE_ID:JOYCORE-FW:4A4F5944:1.2.3"), None);
    assert_eq!(parse_identify_response("p", "JOYCORE_ID:JOYCORE:4A4F5943:1.2.3"), None);
    assert_eq!(parse_identify_response("p", "JOYCORE:JOYCORE-FW:4A4F5943:1.2.3"), None);
    assert_eq!(parse_identify_response("p", "JOYCORE_ID:JOYCORE-FW:4A4F5943"), None);
    assert_eq!(parse_identify_response("p", "JOYCORE_ID:JOYCORE-FW:0x4A4F5943:1"), None);
    assert_eq!(parse_identify_response("p", ""), None);
}

#[test]
fn usb_details_fill_what_identification_left_open() {
    let bare = SerialDeviceInfo {
        port_name: "p".to_string(),
        vid: 0,
        pid: 0,
        serial_number: Some("old".to_string()),
        manufacturer: None,
        product: Some("HOTAS Controller".to_string()),
        firmware_version: None,
        device_signature: None,
    };
    let full = bare.with_usb_details(
        None,
        Some("Raspberry Pi".to_string()),
        Some("Pico".to_string()),
        0x2E8A,
        0xA02F,
    );
    assert_eq!(full.serial_number, None);
    assert_eq!(full.manufacturer, Some("Raspberry Pi".to_string()));
    assert_eq!(full.product, Some("HOTAS Controller".to_string()));
    assert_eq!((full.vid, full.pid), (0x2E8A, 0xA02F));
    assert_eq!(full.port_name, "p");
}

#[test]
fn replies_are_collected_line_by_line() {
    let mut collector = ResponseCollector::new();
    collector.on_data(b"FILES:\r\n conf");
    assert_eq!(collector.lines, vec!["FILES:".to_string()]);
    assert_eq!(collector.accumulated, b" conf".to_vec());
    collector.on_data(b"ig.bin \nEND_FILES\nlate\n");
    assert_eq!(
        collector.lines,
        vec!["FILES:".to_string(), "config.bin".to_string(), "END_FILES".to_string()]
    );
    assert_eq!(collector.accumulated, b"late\n".to_vec());
    collector.on_data(b"");
    assert_eq!(collector.lines.len(), 4);
    assert!(collector.accumulated.is_empty());
    collector.on_data(b"tail \xFF");
    assert_eq!(collector.finish(), "FILES:\nconfig.bin\nEND_FILES\nlate\ntail \u{FFFD}");

    let mut stopped = ResponseCollector::new();
    stopped.on_data(b"ERROR:nope\nFILE_DATA:/a:1:00\nx\n");
    assert_eq!(stopped.lines, vec!["ERROR:nope".to_string()]);
    assert_eq!(stopped.finish(), "ERROR:nope\nFILE_DATA:/a:1:00\nx");

    let mut blank = ResponseCollector::new();
    blank.on_data(b"  \n");
    assert_eq!(blank.finish(), "");
    assert_eq!(join_lines(&vec![]), "");
    assert_eq!(join_lines(&vec!["a".to_string()]), "a");
    assert_eq!(join_lines(&vec!["a".to_string(), "".to_string(), "b".to_string()]), "a\n\nb");
}

#[test]
fn serial_errors_have_their_texts() {
    assert_eq!(SerialError::Timeout.message(), "Communication timeout");
    assert_eq!(SerialError::PortNotFound("COM9".to_string()).message(), "Port not found: COM9");
    assert_eq!(
        SerialError::ConnectionFailed("busy".to_string()).message(),
        "Connection failed: busy"
    );
    assert_eq!(
        SerialError::ProtocolError("Invalid axis ID".to_string()).message(),
        "Protocol error: Invalid axis ID"
    );
    assert_eq!(SerialError::IoError("broken pipe".to_string()).message(), "IO error: broken pipe");
    assert_eq!(
        SerialError::SerialportError("no device".to_string()).message(),
        "Serialport error: no device"
    );
}

#[test]
fn a_line_is_kept_without_the_white_space_around_it() {
    let mut collector = joycore_x_lib::serial::interface::ResponseCollector::new();
    assert!(!collector.keep_line("  OK:done \r\n"));
    assert!(!collector.keep_line(" \t "));
    assert!(!collector.keep_line(""));
    assert!(collector.keep_line("ERROR:no such file"));
    assert!(collector.keep_line(" END_FILES"));
    assert!(collector.keep_line("FILE_DATA:/a:2:0102"));
    assert!(!collector.keep_line("END_FILES now"));
    assert_eq!(
        collector.lines,
        vec!["OK:done", "ERROR:no such file", "END_FILES", "FILE_DATA:/a:2:0102", "END_FILES now"]
    );
    assert!(collector.accumulated.is_empty());
    assert_eq!(
        collector.finish(),
        "OK:done\nERROR:no such file\nEND_FILES\nFILE_DATA:/a:2:0102\nEND_FILES now"
    );
}
