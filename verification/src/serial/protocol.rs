//! The text protocol of the configuration commands: how a command is
//! written and what its reply says.

use crate::serial::SerialError;
use crate::text::{
    bool_label, bool_text, chars_of, decimal, digit_of, digit_value, find_char, first_index,
    parse_bool, parse_bool_range, parse_signed, parse_signed_range, parse_unsigned,
    parse_unsigned_range, push_chars, push_decimal, push_signed_decimal, range_starts_with,
    range_texts, signed_decimal, split, split_ranges, starts_with, text_of, trim, trim_range,
};
use vstd::prelude::*;
use vstd::string::StringExecFns;

verus! {

/// What the device says of itself.
#[derive(Debug, Clone, PartialEq, Eq)]
pub struct DeviceStatus {
    pub firmware_version: String,
    pub device_name: String,
    pub axes_count: u8,
    pub buttons_count: u8,
    pub connected: bool,
}

/// The configuration of one axis.
#[derive(Debug, Clone, PartialEq, Eq)]
pub struct AxisConfig {
    pub id: u8,
    pub name: String,
    pub min_value: i16,
    pub max_value: i16,
    pub center_value: i16,
    pub deadzone: u16,
    pub curve: String,
    pub inverted: bool,
}

pub struct AxisConfigView {
    pub id: u8,
    pub name: Seq<char>,
    pub min_value: i16,
    pub max_value: i16,
    pub center_value: i16,
    pub deadzone: u16,
    pub curve: Seq<char>,
    pub inverted: bool,
}

impl View for AxisConfig {
    type V = AxisConfigView;

    open spec fn view(&self) -> AxisConfigView {
        AxisConfigView {
            id: self.id,
            name: self.name@,
            min_value: self.min_value,
            max_value: self.max_value,
            center_value: self.center_value,
            deadzone: self.deadzone,
            curve: self.curve@,
            inverted: self.inverted,
        }
    }
}

/// The configuration of one button.
#[derive(Debug, Clone, PartialEq, Eq)]
pub struct ButtonConfig {
    pub id: u8,
    pub name: String,
    pub function: String,
    pub enabled: bool,
}

pub struct ButtonConfigView {
    pub id: u8,
    pub name: Seq<char>,
    pub function: Seq<char>,
    pub enabled: bool,
}

impl View for ButtonConfig {
    type V = ButtonConfigView;

    open spec fn view(&self) -> ButtonConfigView {
        ButtonConfigView {
            id: self.id,
            name: self.name@,
            function: self.function@,
            enabled: self.enabled,
        }
    }
}

/// A named set of axis and button configurations.
#[derive(Debug, Clone, PartialEq, Eq)]
pub struct ProfileConfig {
    pub id: String,
    pub name: String,
    pub description: String,
    pub axes: Vec<AxisConfig>,
    pub buttons: Vec<ButtonConfig>,
    /// When the profile was made, in microseconds since the Unix epoch.
    pub created_at_us: i64,
    /// When the profile was last changed.
    pub modified_at_us: i64,
}

/// How much of the device's storage is in use.
#[derive(Debug, Clone, Copy, PartialEq, Eq)]
pub struct StorageInfo {
    pub used_bytes: usize,
    pub total_bytes: usize,
    pub available_bytes: usize,
    pub file_count: u8,
    pub max_files: u8,
}

/// The size of the device's storage in bytes.
pub const STORAGE_TOTAL_BYTES: usize = 4096;

/// The most files the device can hold.
pub const STORAGE_MAX_FILES: u8 = 8;

/// The text of a protocol fault in a result.
pub open spec fn fault_of<T>(r: Result<T, SerialError>) -> Option<Seq<char>> {
    match r {
        Err(SerialError::ProtocolError(message)) => Some(message@),
        _ => None,
    }
}

fn fault(message: &str) -> (r: SerialError)
    ensures
        r matches SerialError::ProtocolError(m) && m@ == message@,
{
    SerialError::ProtocolError(message.to_owned())
}

/// `AXIS_GET:<id>`.
pub fn axis_get_command(axis_id: u8) -> (r: String)
    ensures
        r@ == "AXIS_GET:"@ + decimal(axis_id as nat),
{
    let mut command = "AXIS_GET:".to_owned();
    push_decimal(&mut command, axis_id as u64);
    command
}

/// `BUTTON_GET:<id>`.
pub fn button_get_command(button_id: u8) -> (r: String)
    ensures
        r@ == "BUTTON_GET:"@ + decimal(button_id as nat),
{
    let mut command = "BUTTON_GET:".to_owned();
    push_decimal(&mut command, button_id as u64);
    command
}

/// `READ_FILE <name>`.
pub fn read_file_command(filename: &str) -> (r: String)
    ensures
        r@ == "READ_FILE "@ + filename@,
{
    let mut command = "READ_FILE ".to_owned();
    command.append(filename);
    command
}

/// `AXIS_SET:` and the eight fields of the configuration, comma-separated.
pub open spec fn spec_axis_set_command(config: AxisConfigView) -> Seq<char> {
    "AXIS_SET:"@ + decimal(config.id as nat) + ","@ + config.name + ","@ + signed_decimal(
        config.min_value as int,
    ) + ","@ + signed_decimal(config.max_value as int) + ","@ + signed_decimal(
        config.center_value as int,
    ) + ","@ + decimal(config.deadzone as nat) + ","@ + config.curve + ","@ + bool_text(
        config.inverted,
    )
}

/// The command that writes an axis configuration.
pub fn axis_set_command(config: &AxisConfig) -> (r: String)
    ensures
        r@ == spec_axis_set_command(config@),
{
    let mut command = "AXIS_SET:".to_owned();
    push_decimal(&mut command, config.id as u64);
    command.append(",");
    command.append(config.name.as_str());
    command.append(",");
    push_signed_decimal(&mut command, config.min_value as i64);
    command.append(",");
    push_signed_decimal(&mut command, config.max_value as i64);
    command.append(",");
    push_signed_decimal(&mut command, config.center_value as i64);
    command.append(",");
    push_decimal(&mut command, config.deadzone as u64);
    command.append(",");
    command.append(config.curve.as_str());
    command.append(",");
    command.append(bool_label(config.inverted));
    command
}

/// `BUTTON_SET:` and the four fields of the configuration.
pub open spec fn spec_button_set_command(config: ButtonConfigView) -> Seq<char> {
    "BUTTON_SET:"@ + decimal(config.id as nat) + ","@ + config.name + ","@ + config.function
        + ","@ + bool_text(config.enabled)
}

/// The command that writes a button configuration.
pub fn button_set_command(config: &ButtonConfig) -> (r: String)
    ensures
        r@ == spec_button_set_command(config@),
{
    let mut command = "BUTTON_SET:".to_owned();
    push_decimal(&mut command, config.id as u64);
    command.append(",");
    command.append(config.name.as_str());
    command.append(",");
    command.append(config.function.as_str());
    command.append(",");
    command.append(bool_label(config.enabled));
    command
}

/// What the reply to `AXIS_GET` says: `AXIS:` and at least eight
/// comma-separated fields, or the first fault in the order prefix, number
/// of fields, id, limits, centre, deadzone, inversion.
pub open spec fn spec_parse_axis_response(response: Seq<char>) -> Result<
    AxisConfigView,
    Seq<char>,
> {
    if !starts_with(response, "AXIS:"@) {
        Err("Invalid axis response"@)
    } else {
        let parts = split(response.skip("AXIS:"@.len() as int), ',');
        if parts.len() < 8 {
            Err("Incomplete axis data"@)
        } else if parse_unsigned(parts[0], false, u8::MAX as nat) is None {
            Err("Invalid axis ID"@)
        } else if parse_signed(parts[2], i16::MIN as int, i16::MAX as int) is None {
            Err("Invalid min value"@)
        } else if parse_signed(parts[3], i16::MIN as int, i16::MAX as int) is None {
            Err("Invalid max value"@)
        } else if parse_signed(parts[4], i16::MIN as int, i16::MAX as int) is None {
            Err("Invalid center value"@)
        } else if parse_unsigned(parts[5], false, u16::MAX as nat) is None {
            Err("Invalid deadzone"@)
        } else if parse_bool(parts[7]) is None {
            Err("Invalid inverted flag"@)
        } else {
            Ok(
                AxisConfigView {
                    id: parse_unsigned(parts[0], false, u8::MAX as nat)->0 as u8,
                    name: parts[1],
                    min_value: parse_signed(parts[2], i16::MIN as int, i16::MAX as int)->0 as i16,
                    max_value: parse_signed(parts[3], i16::MIN as int, i16::MAX as int)->0 as i16,
                    center_value: parse_signed(
                        parts[4],
                        i16::MIN as int,
                        i16::MAX as int,
                    )->0 as i16,
                    deadzone: parse_unsigned(parts[5], false, u16::MAX as nat)->0 as u16,
                    curve: parts[6],
                    inverted: parse_bool(parts[7])->0,
                },
            )
        }
    }
}

/// Reads the reply to `AXIS_GET`.
pub fn parse_axis_response(response: &str) -> (r: Result<AxisConfig, SerialError>)
    ensures
        match r {
            Ok(config) => spec_parse_axis_response(response@) == Ok::<AxisConfigView, Seq<char>>(
                config@,
            ),
            Err(e) => fault_of(r) is Some && spec_parse_axis_response(response@) == Err::<
                AxisConfigView,
                Seq<char>,
            >(fault_of(r)->0),
        },
{
    let chars = chars_of(response);
    let cs = chars.as_slice();
    let prefix = chars_of("AXIS:");
    assert(cs@.subrange(0, cs@.len() as int) =~= cs@);
    if !range_starts_with(cs, 0, cs.len(), prefix.as_slice()) {
        return Err(fault("Invalid axis response"));
    }
    assert(cs@.skip(prefix@.len() as int) =~= cs@.subrange(prefix@.len() as int, cs@.len() as int));
    let ranges = split_ranges(cs, prefix.len(), cs.len(), ',');
    let ghost parts = range_texts(cs@, ranges@);
    if ranges.len() < 8 {
        return Err(fault("Incomplete axis data"));
    }
    assert(parts[0] == cs@.subrange(ranges[0].0 as int, ranges[0].1 as int));
    assert(parts[1] == cs@.subrange(ranges[1].0 as int, ranges[1].1 as int));
    assert(parts[2] == cs@.subrange(ranges[2].0 as int, ranges[2].1 as int));
    assert(parts[3] == cs@.subrange(ranges[3].0 as int, ranges[3].1 as int));
    assert(parts[4] == cs@.subrange(ranges[4].0 as int, ranges[4].1 as int));
    assert(parts[5] == cs@.subrange(ranges[5].0 as int, ranges[5].1 as int));
    assert(parts[6] == cs@.subrange(ranges[6].0 as int, ranges[6].1 as int));
    assert(parts[7] == cs@.subrange(ranges[7].0 as int, ranges[7].1 as int));
    let id = match parse_unsigned_range(cs, ranges[0].0, ranges[0].1, false, u8::MAX as u64) {
        Some(v) => v as u8,
        None => {
            return Err(fault("Invalid axis ID"));
        },
    };
    let min_value = match parse_signed_range(
        cs,
        ranges[2].0,
        ranges[2].1,
        i16::MIN as i64,
        i16::MAX as i64,
    ) {
        Some(v) => v as i16,
        None => {
            return Err(fault("Invalid min value"));
        },
    };
    let max_value = match parse_signed_range(
        cs,
        ranges[3].0,
        ranges[3].1,
        i16::MIN as i64,
        i16::MAX as i64,
    ) {
        Some(v) => v as i16,
        None => {
            return Err(fault("Invalid max value"));
        },
    };
    let center_value = match parse_signed_range(
        cs,
        ranges[4].0,
        ranges[4].1,
        i16::MIN as i64,
        i16::MAX as i64,
    ) {
        Some(v) => v as i16,
        None => {
            return Err(fault("Invalid center value"));
        },
    };
    let deadzone = match parse_unsigned_range(
        cs,
        ranges[5].0,
        ranges[5].1,
        false,
        u16::MAX as u64,
    ) {
        Some(v) => v as u16,
        None => {
            return Err(fault("Invalid deadzone"));
        },
    };
    let inverted = match parse_bool_range(cs, ranges[7].0, ranges[7].1) {
        Some(v) => v,
        None => {
            return Err(fault("Invalid inverted flag"));
        },
    };
    Ok(
        AxisConfig {
            id,
            name: text_of(cs, ranges[1].0, ranges[1].1),
            min_value,
            max_value,
            center_value,
            deadzone,
            curve: text_of(cs, ranges[6].0, ranges[6].1),
            inverted,
        },
    )
}

/// What the reply to `BUTTON_GET` says: `BUTTON:` and at least four
/// comma-separated fields.
pub open spec fn spec_parse_button_response(response: Seq<char>) -> Result<
    ButtonConfigView,
    Seq<char>,
> {
    if !starts_with(response, "BUTTON:"@) {
        Err("Invalid button response"@)
    } else {
        let parts = split(response.skip("BUTTON:"@.len() as int), ',');
        if parts.len() < 4 {
            Err("Incomplete button data"@)
        } else if parse_unsigned(parts[0], false, u8::MAX as nat) is None {
            Err("Invalid button ID"@)
        } else if parse_bool(parts[3]) is None {
            Err("Invalid enabled flag"@)
        } else {
            Ok(
                ButtonConfigView {
                    id: parse_unsigned(parts[0], false, u8::MAX as nat)->0 as u8,
                    name: parts[1],
                    function: parts[2],
                    enabled: parse_bool(parts[3])->0,
                },
            )
        }
    }
}

/// Reads the reply to `BUTTON_GET`.
pub fn parse_button_response(response: &str) -> (r: Result<ButtonConfig, SerialError>)
    ensures
        match r {
            Ok(config) => spec_parse_button_response(response@) == Ok::<
                ButtonConfigView,
                Seq<char>,
            >(config@),
            Err(e) => fault_of(r) is Some && spec_parse_button_response(response@) == Err::<
                ButtonConfigView,
                Seq<char>,
            >(fault_of(r)->0),
        },
{
    let chars = chars_of(response);
    let cs = chars.as_slice();
    let prefix = chars_of("BUTTON:");
    assert(cs@.subrange(0, cs@.len() as int) =~= cs@);
    if !range_starts_with(cs, 0, cs.len(), prefix.as_slice()) {
        return Err(fault("Invalid button response"));
    }
    assert(cs@.skip(prefix@.len() as int) =~= cs@.subrange(prefix@.len() as int, cs@.len() as int));
    let ranges = split_ranges(cs, prefix.len(), cs.len(), ',');
    let ghost parts = range_texts(cs@, ranges@);
    if ranges.len() < 4 {
        return Err(fault("Incomplete button data"));
    }
    assert(parts[0] == cs@.subrange(ranges[0].0 as int, ranges[0].1 as int));
    assert(parts[1] == cs@.subrange(ranges[1].0 as int, ranges[1].1 as int));
    assert(parts[2] == cs@.subrange(ranges[2].0 as int, ranges[2].1 as int));
    assert(parts[3] == cs@.subrange(ranges[3].0 as int, ranges[3].1 as int));
    let id = match parse_unsigned_range(cs, ranges[0].0, ranges[0].1, false, u8::MAX as u64) {
        Some(v) => v as u8,
        None => {
            return Err(fault("Invalid button ID"));
        },
    };
    let enabled = match parse_bool_range(cs, ranges[3].0, ranges[3].1) {
        Some(v) => v,
        None => {
            return Err(fault("Invalid enabled flag"));
        },
    };
    Ok(
        ButtonConfig {
            id,
            name: text_of(cs, ranges[1].0, ranges[1].1),
            function: text_of(cs, ranges[2].0, ranges[2].1),
            enabled,
        },
    )
}

/// A write was accepted iff the reply starts with `OK`; else the fault is
/// `what`, a colon, a space and the reply.
pub open spec fn spec_check_write_response(response: Seq<char>, what: Seq<char>) -> Result<
    (),
    Seq<char>,
> {
    if starts_with(response, "OK"@) {
        Ok(())
    } else {
        Err(what + ": "@ + response)
    }
}

fn check_write_response(response: &str, what: &str) -> (r: Result<(), SerialError>)
    ensures
        match r {
            Ok(_) => spec_check_write_response(response@, what@) is Ok,
            Err(e) => fault_of(r) is Some && spec_check_write_response(response@, what@) == Err::<
                (),
                Seq<char>,
            >(fault_of(r)->0),
        },
{
    let chars = chars_of(response);
    let ok = chars_of("OK");
    assert(chars@.subrange(0, chars@.len() as int) =~= chars@);
    if range_starts_with(chars.as_slice(), 0, chars.len(), ok.as_slice()) {
        Ok(())
    } else {
        let mut message = what.to_owned();
        message.append(": ");
        message.append(response);
        Err(SerialError::ProtocolError(message))
    }
}

/// Judges the reply to `AXIS_SET`.
pub fn check_axis_write_response(response: &str) -> (r: Result<(), SerialError>)
    ensures
        match r {
            Ok(_) => starts_with(response@, "OK"@),
            Err(e) => !starts_with(response@, "OK"@) && fault_of(r) == Some(
                "Axis config write failed"@ + ": "@ + response@,
            ),
        },
{
    check_write_response(response, "Axis config write failed")
}

/// Judges the reply to `BUTTON_SET`.
pub fn check_button_write_response(response: &str) -> (r: Result<(), SerialError>)
    ensures
        match r {
            Ok(_) => starts_with(response@, "OK"@),
            Err(e) => !starts_with(response@, "OK"@) && fault_of(r) == Some(
                "Button config write failed"@ + ": "@ + response@,
            ),
        },
{
    check_write_response(response, "Button config write failed")
}

/// Whether a line of the file listing names a file: it is not blank and is
/// neither of the two markers around the listing.
pub open spec fn names_file(line: Seq<char>) -> bool {
    line.len() > 0 && line != "FILES:"@ && line != "END_FILES"@
}

/// The file names in a listing: its lines without the white space around
/// them, the blank ones and the markers left out.
pub open spec fn spec_file_list(lines: Seq<Seq<char>>) -> Seq<Seq<char>>
    decreases lines.len(),
{
    if lines.len() == 0 {
        Seq::empty()
    } else if names_file(trim(lines.last())) {
        spec_file_list(lines.drop_last()).push(trim(lines.last()))
    } else {
        spec_file_list(lines.drop_last())
    }
}

/// The files that the reply to `LIST_FILES` names.
pub fn parse_file_list(response: &str) -> (r: Vec<String>)
    ensures
        r.deep_view() == spec_file_list(split(response@, '\n')),
{
    let chars = chars_of(response);
    let cs = chars.as_slice();
    assert(cs@.subrange(0, cs@.len() as int) =~= cs@);
    let ranges = split_ranges(cs, 0, cs.len(), '\n');
    let ghost lines = range_texts(cs@, ranges@);
    let files_marker = chars_of("FILES:");
    let end_marker = chars_of("END_FILES");
    let mut files: Vec<String> = Vec::new();
    let mut i: usize = 0;
    assert(files.deep_view() =~= spec_file_list(lines.take(0)));
    while i < ranges.len()
        invariant
            i <= ranges.len(),
            lines == range_texts(cs@, ranges@),
            crate::text::ranges_within(ranges@, 0, cs@.len() as int),
            files_marker@ == "FILES:"@,
            end_marker@ == "END_FILES"@,
            files.deep_view() == spec_file_list(lines.take(i as int)),
        decreases ranges.len() - i,
    {
        let (from, to) = ranges[i];
        assert(lines.take(i + 1).drop_last() =~= lines.take(i as int));
        assert(lines.take(i + 1).last() == cs@.subrange(from as int, to as int));
        let (a, b) = trim_range(cs, from, to);
        if a < b && !crate::text::range_equals(cs, a, b, files_marker.as_slice())
            && !crate::text::range_equals(cs, a, b, end_marker.as_slice()) {
            let ghost before = files.deep_view();
            let name = text_of(cs, a, b);
            files.push(name);
            assert(files.deep_view() =~= before.push(cs@.subrange(a as int, b as int)));
        }
        i = i + 1;
    }
    assert(lines.take(ranges@.len() as int) =~= lines);
    files
}

/// What is known of the storage from the number of files alone: a file
/// table of 64 bytes and 256 bytes for each file, of 4096 bytes in all.
pub open spec fn spec_estimate_storage(file_count: u8) -> StorageInfo {
    let used = 64 + file_count * 256;
    StorageInfo {
        used_bytes: used as usize,
        total_bytes: STORAGE_TOTAL_BYTES,
        available_bytes: if used <= STORAGE_TOTAL_BYTES {
            (STORAGE_TOTAL_BYTES - used) as usize
        } else {
            0
        },
        file_count,
        max_files: STORAGE_MAX_FILES,
    }
}

/// Estimates the use of the storage from the number of files.
pub fn estimate_storage(file_count: u8) -> (r: StorageInfo)
    ensures
        r == spec_estimate_storage(file_count),
{
    let used: usize = 64 + (file_count as usize) * 256;
    StorageInfo {
        used_bytes: used,
        total_bytes: STORAGE_TOTAL_BYTES,
        available_bytes: if used <= STORAGE_TOTAL_BYTES {
            STORAGE_TOTAL_BYTES - used
        } else {
            0
        },
        file_count,
        max_files: STORAGE_MAX_FILES,
    }
}

/// The status of a connected device: the firmware version and the product
/// name where they are known, eight axes and sixty-four buttons.
pub fn device_status(firmware_version: Option<&str>, product: Option<&str>) -> (r: DeviceStatus)
    ensures
        r.firmware_version@ == (match firmware_version {
            Some(v) => v@,
            None => "Unknown"@,
        }),
        r.device_name@ == (match product {
            Some(p) => p@,
            None => "JoyCore HOTAS Controller"@,
        }),
        r.axes_count == 8,
        r.buttons_count == 64,
        r.connected,
{
    DeviceStatus {
        firmware_version: match firmware_version {
            Some(v) => v.to_owned(),
            None => "Unknown".to_owned(),
        },
        device_name: match product {
            Some(p) => p.to_owned(),
            None => "JoyCore HOTAS Controller".to_owned(),
        },
        axes_count: 8,
        buttons_count: 64,
        connected: true,
    }
}

/// Every character is a hexadecimal digit.
pub open spec fn all_hex(s: Seq<char>) -> bool {
    forall|i: int| 0 <= i < s.len() ==> digit_of(#[trigger] s[i], true) is Some
}

/// The bytes that the first `n` pairs of hexadecimal digits say.
pub open spec fn hex_pairs(s: Seq<char>, n: nat) -> Seq<u8>
    decreases n,
{
    if n == 0 {
        Seq::empty()
    } else {
        hex_pairs(s, (n - 1) as nat).push(
            (digit_of(s[2 * (n - 1)], true)->0 * 16 + digit_of(s[2 * (n - 1) + 1], true)->0) as u8,
        )
    }
}

/// The size that a `FILE_DATA:<path>:<size>:<hex>` reply declares and its
/// hexadecimal payload, or the fault of a reply that is not of this form.
pub open spec fn spec_file_data_fields(response: Seq<char>) -> Result<
    (nat, Seq<char>),
    Seq<char>,
> {
    let after = response.skip("FILE_DATA:"@.len() as int);
    let i = first_index(after, ':');
    let rest = after.skip(i + 1);
    let j = first_index(rest, ':');
    if i >= after.len() || j >= rest.len() {
        Err("Invalid FILE_DATA response format: "@ + response)
    } else {
        match parse_unsigned(rest.take(j), false, usize::MAX as nat) {
            Some(size) => Ok((size, trim(rest.skip(j + 1)))),
            None => Err("Invalid file size in response"@),
        }
    }
}

/// The bytes of a payload of hexadecimal digits, checked against the
/// declared size if there is one.
pub open spec fn spec_decode_hex_payload(hex: Seq<char>, expected: Option<nat>) -> Result<
    Seq<u8>,
    Seq<char>,
> {
    if !all_hex(hex) {
        Err("Response contains non-hex characters: '"@ + hex + "'"@)
    } else if hex.len() % 2 != 0 {
        Err("Hex data has odd length: "@ + decimal(hex.len()))
    } else if expected is Some && expected->0 != hex.len() / 2 {
        Err(
            "Size mismatch: decoded "@ + decimal(hex.len() / 2) + " bytes, expected "@ + decimal(
                expected->0,
            ) + " bytes"@,
        )
    } else {
        Ok(hex_pairs(hex, hex.len() / 2))
    }
}

/// What the reply to `READ_FILE` holds: the bytes that its hexadecimal
/// payload says. A reply that starts with `FILE_DATA:` declares the size of
/// the file, and the payload must have that size; any other reply is taken
/// as a payload without a declared size.
pub open spec fn spec_decode_file_response(response: Seq<char>) -> Result<Seq<u8>, Seq<char>> {
    if starts_with(response, "FILE_DATA:"@) {
        match spec_file_data_fields(response) {
            Ok((size, hex)) => spec_decode_hex_payload(hex, Some(size)),
            Err(message) => Err(message),
        }
    } else {
        spec_decode_hex_payload(trim(response), None)
    }
}

fn decode_hex_payload(cs: &[char], from: usize, to: usize, expected: Option<usize>) -> (r: Result<
    Vec<u8>,
    SerialError,
>)
    requires
        from <= to <= cs.len(),
    ensures
        match r {
            Ok(bytes) => spec_decode_hex_payload(
                cs@.subrange(from as int, to as int),
                match expected {
                    Some(e) => Some(e as nat),
                    None => None,
                },
            ) == Ok::<Seq<u8>, Seq<char>>(bytes@),
            Err(e) => fault_of(r) is Some && spec_decode_hex_payload(
                cs@.subrange(from as int, to as int),
                match expected {
                    Some(e) => Some(e as nat),
                    None => None,
                },
            ) == Err::<Seq<u8>, Seq<char>>(fault_of(r)->0),
        },
{
    let ghost hex = cs@.subrange(from as int, to as int);
    let mut i: usize = from;
    while i < to
        invariant
            from <= i <= to,
            to <= cs.len(),
            hex == cs@.subrange(from as int, to as int),
            forall|j: int| 0 <= j < i - from ==> digit_of(#[trigger] hex[j], true) is Some,
        decreases to - i,
    {
        if digit_value(cs[i], true).is_none() {
            assert(digit_of(hex[i - from], true) is None);
            let mut message = "Response contains non-hex characters: '".to_owned();
            let payload = vstd::slice::slice_subrange(cs, from, to);
            push_chars(&mut message, payload);
            message.append("'");
            return Err(SerialError::ProtocolError(message));
        }
        i = i + 1;
    }
    let len: usize = to - from;
    if len % 2 != 0 {
        let mut message = "Hex data has odd length: ".to_owned();
        push_decimal(&mut message, len as u64);
        return Err(SerialError::ProtocolError(message));
    }
    let count: usize = len / 2;
    match expected {
        Some(e) => {
            if count != e {
                let mut message = "Size mismatch: decoded ".to_owned();
                push_decimal(&mut message, count as u64);
                message.append(" bytes, expected ");
                push_decimal(&mut message, e as u64);
                message.append(" bytes");
                return Err(SerialError::ProtocolError(message));
            }
        },
        None => {},
    }
    let mut bytes: Vec<u8> = Vec::new();
    let mut k: usize = 0;
    while k < count
        invariant
            k <= count,
            count == (to - from) / 2,
            (to - from) % 2 == 0,
            from <= to <= cs.len(),
            hex == cs@.subrange(from as int, to as int),
            all_hex(hex),
            bytes@ == hex_pairs(hex, k as nat),
        decreases count - k,
    {
        assert(hex[2 * k] == cs@[from + 2 * k]);
        assert(hex[2 * k + 1] == cs@[from + 2 * k + 1]);
        let hi = digit_value(cs[from + 2 * k], true).unwrap();
        let lo = digit_value(cs[from + 2 * k + 1], true).unwrap();
        bytes.push(hi * 16 + lo);
        k = k + 1;
    }
    Ok(bytes)
}

/// Reads the reply to `READ_FILE`.
pub fn decode_file_response(response: &str) -> (r: Result<Vec<u8>, SerialError>)
    ensures
        match r {
            Ok(bytes) => spec_decode_file_response(response@) == Ok::<Seq<u8>, Seq<char>>(bytes@),
            Err(e) => fault_of(r) is Some && spec_decode_file_response(response@) == Err::<
                Seq<u8>,
                Seq<char>,
            >(fault_of(r)->0),
        },
{
    let chars = chars_of(response);
    let cs = chars.as_slice();
    let prefix = chars_of("FILE_DATA:");
    assert(cs@.subrange(0, cs@.len() as int) =~= cs@);
    if !range_starts_with(cs, 0, cs.len(), prefix.as_slice()) {
        let (a, b) = trim_range(cs, 0, cs.len());
        return decode_hex_payload(cs, a, b, None);
    }
    let start: usize = prefix.len();
    let end: usize = cs.len();
    let ghost after = cs@.skip(start as int);
    assert(after =~= cs@.subrange(start as int, end as int));
    let first = find_char(cs, start, end, ':');
    if first == end {
        let mut message = "Invalid FILE_DATA response format: ".to_owned();
        message.append(response);
        return Err(SerialError::ProtocolError(message));
    }
    let ghost rest = after.skip(first - start + 1);
    assert(rest =~= cs@.subrange(first + 1, end as int));
    let second = find_char(cs, first + 1, end, ':');
    if second == end {
        let mut message = "Invalid FILE_DATA response format: ".to_owned();
        message.append(response);
        return Err(SerialError::ProtocolError(message));
    }
    assert(rest.take(second - first - 1) =~= cs@.subrange(first + 1, second as int));
    assert(rest.skip(second - first) =~= cs@.subrange(second + 1, end as int));
    let size = match parse_unsigned_range(cs, first + 1, second, false, usize::MAX as u64) {
        Some(v) => v as usize,
        None => {
            return Err(fault("Invalid file size in response"));
        },
    };
    let (a, b) = trim_range(cs, second + 1, end);
    decode_hex_payload(cs, a, b, Some(size))
}

} // verus!
