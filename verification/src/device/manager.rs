//! What the device manager decides from the replies it gets: the firmware
//! version behind the noise around it, and the button mapping that the
//! firmware states over the serial line.

use crate::hid::{identity_mapping, sequential_mapping, ExternalMappingInfo};
use crate::serial::unified::reader::{skip_hex_marks, strip_hex_marks};
use crate::text::{
    chars_of, find_char, first_index, is_blank, parse_unsigned, parse_unsigned_range, range_equals,
    range_is_blank, range_starts_with, range_texts, ranges_within, split, split_ranges,
    starts_with, text_of, trim, trim_range,
};
use crate::update::service::{is_semver, semver_valid};
use vstd::prelude::*;

verus! {

/// A control character: below the space, or from delete to `U+009F`.
pub open spec fn is_control(c: char) -> bool {
    let u = c as u32;
    u <= 0x1F || (0x7F <= u && u <= 0x9F)
}

fn char_is_control(c: char) -> (r: bool)
    ensures
        r == is_control(c),
{
    let u: u32 = c as u32;
    u <= 0x1F || (0x7F <= u && u <= 0x9F)
}

/// `raw` without its NUL characters and with a line feed for every
/// carriage return.
pub open spec fn normalized(raw: Seq<char>) -> Seq<char>
    decreases raw.len(),
{
    if raw.len() == 0 {
        Seq::empty()
    } else if raw.last() == '\0' {
        normalized(raw.drop_last())
    } else if raw.last() == '\r' {
        normalized(raw.drop_last()).push('\n')
    } else {
        normalized(raw.drop_last()).push(raw.last())
    }
}

/// `s` without its control characters.
pub open spec fn without_controls(s: Seq<char>) -> Seq<char>
    decreases s.len(),
{
    if s.len() == 0 {
        Seq::empty()
    } else if is_control(s.last()) {
        without_controls(s.drop_last())
    } else {
        without_controls(s.drop_last()).push(s.last())
    }
}

/// The first of the pieces that is not blank, without the white space
/// around it; nothing if all are blank.
pub open spec fn first_content(pieces: Seq<Seq<char>>) -> Seq<char>
    decreases pieces.len(),
{
    if pieces.len() == 0 {
        Seq::empty()
    } else if !is_blank(pieces[0]) {
        trim(pieces[0])
    } else {
        first_content(pieces.skip(1))
    }
}

/// `s` up to its first space.
pub open spec fn before_space(s: Seq<char>) -> Seq<char> {
    s.take(first_index(s, ' '))
}

/// Some character is a decimal digit.
pub open spec fn has_digit(s: Seq<char>) -> bool {
    exists|i: int| 0 <= i < s.len() && '0' <= #[trigger] s[i] && s[i] <= '9'
}

/// A character that a version can hold: an ASCII letter or digit, a dot, a
/// hyphen or a plus sign.
pub open spec fn is_version_char(c: char) -> bool {
    ('0' <= c && c <= '9') || ('a' <= c && c <= 'z') || ('A' <= c && c <= 'Z') || c == '.'
        || c == '-' || c == '+'
}

/// `s` without the characters at its end that no version can hold.
pub open spec fn without_trailing_junk(s: Seq<char>) -> Seq<char>
    decreases s.len(),
{
    if s.len() > 0 && !is_version_char(s.last()) {
        without_trailing_junk(s.drop_last())
    } else {
        s
    }
}

/// The line of a version reply that is taken for the version: the first
/// line with content, up to its first space, without control characters
/// and without white space around it.
pub open spec fn version_line(raw: Seq<char>) -> Seq<char> {
    trim(without_controls(before_space(first_content(split(normalized(raw), '\n')))))
}

/// Whether a line looks like a version at all: it holds a digit and a dot.
pub open spec fn version_shaped(line: Seq<char>) -> bool {
    line.len() > 0 && has_digit(line) && first_index(line, '.') < line.len()
}

/// Which text is taken for the firmware version, given the version line
/// of a reply, the line without trailing punctuation, and whether each of
/// the two is a semantic version: the line if it is a version; else the
/// line without trailing punctuation, if that is one; else the line as it
/// is, or the whole reply without the white space around it if there is no
/// line with content.
pub open spec fn spec_pick_version(
    raw: Seq<char>,
    line: Seq<char>,
    stripped: Seq<char>,
    line_valid: bool,
    stripped_valid: bool,
) -> Seq<char> {
    if version_shaped(line) && line_valid {
        line
    } else if version_shaped(line) && stripped != line && stripped_valid {
        stripped
    } else if line.len() == 0 {
        trim(raw)
    } else {
        line
    }
}

/// The firmware version in a reply.
pub open spec fn spec_sanitize_firmware_version(raw: Seq<char>) -> Seq<char> {
    let line = version_line(raw);
    let stripped = without_trailing_junk(line);
    spec_pick_version(raw, line, stripped, semver_valid(line), semver_valid(stripped))
}

fn normalize(raw: &[char]) -> (r: Vec<char>)
    ensures
        r@ == normalized(raw@),
{
    let mut out: Vec<char> = Vec::new();
    let mut i: usize = 0;
    while i < raw.len()
        invariant
            i <= raw.len(),
            out@ == normalized(raw@.take(i as int)),
        decreases raw.len() - i,
    {
        assert(raw@.take(i + 1).drop_last() =~= raw@.take(i as int));
        let c = raw[i];
        if c == '\0' {
        } else if c == '\r' {
            out.push('\n');
        } else {
            out.push(c);
        }
        i = i + 1;
    }
    assert(raw@.take(raw@.len() as int) =~= raw@);
    out
}

fn drop_controls(cs: &[char], from: usize, to: usize) -> (r: Vec<char>)
    requires
        from <= to <= cs.len(),
    ensures
        r@ == without_controls(cs@.subrange(from as int, to as int)),
{
    let mut out: Vec<char> = Vec::new();
    let mut i: usize = from;
    assert(cs@.subrange(from as int, from as int) =~= Seq::<char>::empty());
    while i < to
        invariant
            from <= i <= to,
            to <= cs.len(),
            out@ == without_controls(cs@.subrange(from as int, i as int)),
        decreases to - i,
    {
        assert(cs@.subrange(from as int, i + 1).drop_last() =~= cs@.subrange(
            from as int,
            i as int,
        ));
        if !char_is_control(cs[i]) {
            out.push(cs[i]);
        }
        i = i + 1;
    }
    out
}

fn any_digit(cs: &[char]) -> (r: bool)
    ensures
        r == has_digit(cs@),
{
    let mut i: usize = 0;
    while i < cs.len()
        invariant
            i <= cs.len(),
            forall|j: int| 0 <= j < i ==> !('0' <= #[trigger] cs@[j] && cs@[j] <= '9'),
        decreases cs.len() - i,
    {
        if cs[i] >= '0' && cs[i] <= '9' {
            return true;
        }
        i = i + 1;
    }
    false
}

fn can_stand_in_version(c: char) -> (r: bool)
    ensures
        r == is_version_char(c),
{
    (c >= '0' && c <= '9') || (c >= 'a' && c <= 'z') || (c >= 'A' && c <= 'Z') || c == '.' || c
        == '-' || c == '+'
}

/// The first piece with content, as a range of `cs` without the white
/// space around it.
fn first_content_range(cs: &[char], ranges: &Vec<(usize, usize)>) -> (r: (usize, usize))
    requires
        ranges_within(ranges@, 0, cs@.len() as int),
    ensures
        r.0 <= r.1 <= cs.len(),
        cs@.subrange(r.0 as int, r.1 as int) == first_content(range_texts(cs@, ranges@)),
{
    let ghost pieces = range_texts(cs@, ranges@);
    let mut i: usize = 0;
    assert(pieces.skip(0) =~= pieces);
    while i < ranges.len()
        invariant
            i <= ranges.len(),
            pieces == range_texts(cs@, ranges@),
            ranges_within(ranges@, 0, cs@.len() as int),
            first_content(pieces.skip(i as int)) == first_content(pieces),
        decreases ranges.len() - i,
    {
        let (from, to) = ranges[i];
        assert(pieces.skip(i as int)[0] == cs@.subrange(from as int, to as int));
        assert(pieces.skip(i as int).skip(1) =~= pieces.skip(i + 1));
        if !range_is_blank(cs, from, to) {
            return trim_range(cs, from, to);
        }
        i = i + 1;
    }
    assert(cs@.subrange(0, 0) =~= Seq::<char>::empty());
    (0, 0)
}

/// The version line of a reply, and that line without trailing
/// punctuation.
pub fn version_lines(raw: &str) -> (r: (String, String))
    ensures
        r.0@ == version_line(raw@),
        r.1@ == without_trailing_junk(version_line(raw@)),
{
    let raw_chars = chars_of(raw);
    let cleaned = normalize(raw_chars.as_slice());
    let cs = cleaned.as_slice();
    assert(cs@.subrange(0, cs@.len() as int) =~= cs@);
    let ranges = split_ranges(cs, 0, cs.len(), '\n');
    let (a, b) = first_content_range(cs, &ranges);
    let ghost content = cs@.subrange(a as int, b as int);
    let space = find_char(cs, a, b, ' ');
    assert(cs@.subrange(a as int, space as int) =~= before_space(content));
    let kept = drop_controls(cs, a, space);
    let (c, d) = trim_range(kept.as_slice(), 0, kept.len());
    assert(kept@.subrange(0, kept@.len() as int) =~= kept@);
    let line_chars = vstd::slice::slice_to_vec(vstd::slice::slice_subrange(kept.as_slice(), c, d));
    let ghost line = line_chars@;
    assert(line == version_line(raw@));
    let line_text = text_of(line_chars.as_slice(), 0, line_chars.len());
    assert(line_text@ =~= line);
    let mut end: usize = line_chars.len();
    assert(line.take(end as int) =~= line);
    while end > 0 && !can_stand_in_version(line_chars[end - 1])
        invariant
            end <= line_chars.len(),
            line == line_chars@,
            without_trailing_junk(line.take(end as int)) == without_trailing_junk(line),
        decreases end,
    {
        assert(line.take(end as int).drop_last() =~= line.take(end - 1));
        end = end - 1;
    }
    assert(line.take(end as int) == without_trailing_junk(line));
    let stripped = text_of(line_chars.as_slice(), 0, end);
    assert(stripped@ =~= line.take(end as int));
    (line_text, stripped)
}

/// Picks the firmware version, given the version line of a reply, the line
/// without trailing punctuation, and whether each of the two is a semantic
/// version.
pub fn pick_version(
    raw: &str,
    line: String,
    stripped: String,
    line_valid: bool,
    stripped_valid: bool,
) -> (r: String)
    ensures
        r@ == spec_pick_version(raw@, line@, stripped@, line_valid, stripped_valid),
{
    let line_chars = chars_of(line.as_str());
    let stripped_chars = chars_of(stripped.as_str());
    assert(line@.subrange(0, line@.len() as int) =~= line@);
    let dot = find_char(line_chars.as_slice(), 0, line_chars.len(), '.');
    if line_chars.len() > 0 && any_digit(line_chars.as_slice()) && dot < line_chars.len() {
        if line_valid {
            return line;
        }
        if stripped_valid && !range_equals(
            line_chars.as_slice(),
            0,
            line_chars.len(),
            stripped_chars.as_slice(),
        ) {
            return stripped;
        }
    }
    if line_chars.len() == 0 {
        let raw_chars = chars_of(raw);
        let (e, f) = trim_range(raw_chars.as_slice(), 0, raw_chars.len());
        assert(raw_chars@.subrange(0, raw_chars@.len() as int) =~= raw_chars@);
        text_of(raw_chars.as_slice(), e, f)
    } else {
        line
    }
}

/// Finds the firmware version in the reply of the device: the reply may
/// hold several lines, control characters, and words after the version.
pub fn sanitize_firmware_version(raw: &str) -> (r: String)
    ensures
        r@ == spec_sanitize_firmware_version(raw@),
{
    let (line, stripped) = version_lines(raw);
    let line_valid = is_semver(line.as_str());
    let stripped_valid = is_semver(stripped.as_str());
    pick_version(raw, line, stripped, line_valid, stripped_valid)
}

/// What precedes the mapping information in the firmware's reply.
pub open spec fn mapping_info_prefix() -> Seq<char> {
    "HID_MAPPING_INFO:"@
}

/// What precedes the mapping table in the firmware's reply.
pub open spec fn button_map_prefix() -> Seq<char> {
    "HID_BUTTON_MAP:"@
}

/// The number that a field states, zero if it states none below `max`.
pub open spec fn number_or_zero(v: Seq<char>, hex: bool, max: nat) -> nat {
    match parse_unsigned(v, hex, max) {
        Some(n) => n,
        None => 0,
    }
}

/// Mapping information of which nothing is known yet.
pub open spec fn blank_mapping_info() -> ExternalMappingInfo {
    ExternalMappingInfo {
        protocol_version: 0,
        input_report_id: 0,
        button_count: 0,
        axis_count: 0,
        button_byte_offset: 0,
        button_bit_order: 0,
        mapping_crc: 0,
        frame_counter_offset: None,
    }
}

/// The information after one more `key=value` field. A field without `=`
/// or with an unknown key changes nothing; a value that is no number
/// counts as zero.
pub open spec fn with_field(info: ExternalMappingInfo, field: Seq<char>) -> ExternalMappingInfo {
    let at = first_index(field, '=');
    let key = field.take(at);
    let value = field.skip(at + 1);
    if at >= field.len() {
        info
    } else if key == "ver"@ {
        ExternalMappingInfo {
            protocol_version: number_or_zero(value, false, u8::MAX as nat) as u8,
            ..info
        }
    } else if key == "rid"@ {
        ExternalMappingInfo {
            input_report_id: number_or_zero(value, false, u8::MAX as nat) as u8,
            ..info
        }
    } else if key == "btn"@ {
        ExternalMappingInfo {
            button_count: number_or_zero(value, false, u16::MAX as nat) as u16,
            ..info
        }
    } else if key == "axis"@ {
        ExternalMappingInfo {
            axis_count: number_or_zero(value, false, u16::MAX as nat) as u16,
            ..info
        }
    } else if key == "btn_offset"@ {
        ExternalMappingInfo {
            button_byte_offset: number_or_zero(value, false, u8::MAX as nat) as u8,
            ..info
        }
    } else if key == "bit_order"@ {
        ExternalMappingInfo {
            button_bit_order: number_or_zero(value, false, u8::MAX as nat) as u8,
            ..info
        }
    } else if key == "crc"@ {
        ExternalMappingInfo {
            mapping_crc: number_or_zero(strip_hex_marks(value), true, u16::MAX as nat) as u16,
            ..info
        }
    } else if key == "fc_offset"@ {
        ExternalMappingInfo {
            frame_counter_offset: Some(number_or_zero(value, false, u8::MAX as nat) as u8),
            ..info
        }
    } else {
        info
    }
}

/// The information after all the fields, the later ones overriding the
/// earlier.
pub open spec fn with_fields(fields: Seq<Seq<char>>) -> ExternalMappingInfo
    decreases fields.len(),
{
    if fields.len() == 0 {
        blank_mapping_info()
    } else {
        with_field(with_fields(fields.drop_last()), fields.last())
    }
}

/// What the reply to `HID_MAPPING_INFO` says: the comma-separated fields
/// after the prefix, if the reply starts with it and states at least one
/// button.
pub open spec fn spec_parse_mapping_info(response: Seq<char>) -> Option<ExternalMappingInfo> {
    if !starts_with(response, mapping_info_prefix()) {
        None
    } else {
        let info = with_fields(split(response.skip(mapping_info_prefix().len() as int), ','));
        if info.button_count == 0 {
            None
        } else {
            Some(info)
        }
    }
}

fn number_field(cs: &[char], from: usize, to: usize, hex: bool, max: u64) -> (r: u64)
    requires
        from <= to <= cs.len(),
    ensures
        r == number_or_zero(cs@.subrange(from as int, to as int), hex, max as nat),
        r <= max,
{
    match parse_unsigned_range(cs, from, to, hex, max) {
        Some(n) => n,
        None => 0,
    }
}

fn key_is(cs: &[char], from: usize, to: usize, key: &str) -> (r: bool)
    requires
        from <= to <= cs.len(),
    ensures
        r == (cs@.subrange(from as int, to as int) == key@),
{
    let k = chars_of(key);
    range_equals(cs, from, to, k.as_slice())
}

fn apply_field(info: ExternalMappingInfo, cs: &[char], from: usize, to: usize) -> (r:
    ExternalMappingInfo)
    requires
        from <= to <= cs.len(),
    ensures
        r == with_field(info, cs@.subrange(from as int, to as int)),
{
    let ghost field = cs@.subrange(from as int, to as int);
    let eq = find_char(cs, from, to, '=');
    if eq >= to {
        return info;
    }
    assert(field.take(eq - from) =~= cs@.subrange(from as int, eq as int));
    assert(field.skip(eq - from + 1) =~= cs@.subrange(eq + 1, to as int));
    let v: usize = eq + 1;
    if key_is(cs, from, eq, "ver") {
        ExternalMappingInfo {
            protocol_version: number_field(cs, v, to, false, u8::MAX as u64) as u8,
            ..info
        }
    } else if key_is(cs, from, eq, "rid") {
        ExternalMappingInfo {
            input_report_id: number_field(cs, v, to, false, u8::MAX as u64) as u8,
            ..info
        }
    } else if key_is(cs, from, eq, "btn") {
        ExternalMappingInfo {
            button_count: number_field(cs, v, to, false, u16::MAX as u64) as u16,
            ..info
        }
    } else if key_is(cs, from, eq, "axis") {
        ExternalMappingInfo {
            axis_count: number_field(cs, v, to, false, u16::MAX as u64) as u16,
            ..info
        }
    } else if key_is(cs, from, eq, "btn_offset") {
        ExternalMappingInfo {
            button_byte_offset: number_field(cs, v, to, false, u8::MAX as u64) as u8,
            ..info
        }
    } else if key_is(cs, from, eq, "bit_order") {
        ExternalMappingInfo {
            button_bit_order: number_field(cs, v, to, false, u8::MAX as u64) as u8,
            ..info
        }
    } else if key_is(cs, from, eq, "crc") {
        let h = skip_hex_marks(cs, v, to);
        ExternalMappingInfo {
            mapping_crc: number_field(cs, h, to, true, u16::MAX as u64) as u16,
            ..info
        }
    } else if key_is(cs, from, eq, "fc_offset") {
        ExternalMappingInfo {
            frame_counter_offset: Some(number_field(cs, v, to, false, u8::MAX as u64) as u8),
            ..info
        }
    } else {
        info
    }
}

/// Reads the reply to `HID_MAPPING_INFO`.
pub fn parse_mapping_info(response: &str) -> (r: Option<ExternalMappingInfo>)
    ensures
        r == spec_parse_mapping_info(response@),
{
    let chars = chars_of(response);
    let cs = chars.as_slice();
    let prefix = chars_of("HID_MAPPING_INFO:");
    assert(cs@.subrange(0, cs@.len() as int) =~= cs@);
    if !range_starts_with(cs, 0, cs.len(), prefix.as_slice()) {
        return None;
    }
    assert(cs@.skip(prefix@.len() as int) =~= cs@.subrange(prefix@.len() as int, cs@.len() as int));
    let ranges = split_ranges(cs, prefix.len(), cs.len(), ',');
    let ghost fields = range_texts(cs@, ranges@);
    let mut info = ExternalMappingInfo {
        protocol_version: 0,
        input_report_id: 0,
        button_count: 0,
        axis_count: 0,
        button_byte_offset: 0,
        button_bit_order: 0,
        mapping_crc: 0,
        frame_counter_offset: None,
    };
    let mut i: usize = 0;
    while i < ranges.len()
        invariant
            i <= ranges.len(),
            fields == range_texts(cs@, ranges@),
            ranges_within(ranges@, prefix@.len() as int, cs@.len() as int),
            info == with_fields(fields.take(i as int)),
        decreases ranges.len() - i,
    {
        let (from, to) = ranges[i];
        assert(fields.take(i + 1).drop_last() =~= fields.take(i as int));
        assert(fields.take(i + 1).last() == cs@.subrange(from as int, to as int));
        info = apply_field(info, cs, from, to);
        i = i + 1;
    }
    assert(fields.take(ranges@.len() as int) =~= fields);
    if info.button_count == 0 {
        None
    } else {
        Some(info)
    }
}

/// The numbers below 256 among the items, in order.
pub open spec fn listed_buttons(items: Seq<Seq<char>>) -> Seq<u8>
    decreases items.len(),
{
    if items.len() == 0 {
        Seq::empty()
    } else {
        match parse_unsigned(items.last(), false, u8::MAX as nat) {
            Some(n) => listed_buttons(items.drop_last()).push(n as u8),
            None => listed_buttons(items.drop_last()),
        }
    }
}

/// How many buttons a mapping describes: as many as stated, 128 at most.
pub open spec fn mapped_count(button_count: u16) -> nat {
    if button_count < 128 {
        button_count as nat
    } else {
        128
    }
}

/// The mapping that the reply to `HID_BUTTON_MAP` states for so many
/// buttons: the listed buttons, each bit beyond the list standing for the
/// button of its own number; the sequential mapping if the reply says so,
/// lists nothing or is no reply to the command.
pub open spec fn spec_parse_button_map(response: Seq<char>, button_count: u16) -> Seq<u8> {
    let count = mapped_count(button_count);
    if trim(response) == "HID_BUTTON_MAP:SEQUENTIAL"@ || !starts_with(
        response,
        button_map_prefix(),
    ) {
        identity_mapping(count)
    } else {
        let listed = listed_buttons(split(response.skip(button_map_prefix().len() as int), ','));
        if listed.len() == 0 {
            identity_mapping(count)
        } else {
            Seq::new(
                count,
                |i: int|
                    if i < listed.len() {
                        listed[i]
                    } else {
                        i as u8
                    },
            )
        }
    }
}

/// Reads the reply to `HID_BUTTON_MAP`.
pub fn parse_button_map(response: &str, button_count: u16) -> (r: Vec<u8>)
    ensures
        r@ == spec_parse_button_map(response@, button_count),
{
    let count: u8 = if button_count < 128 {
        button_count as u8
    } else {
        128
    };
    let chars = chars_of(response);
    let cs = chars.as_slice();
    assert(cs@.subrange(0, cs@.len() as int) =~= cs@);
    let (a, b) = trim_range(cs, 0, cs.len());
    let sequential = chars_of("HID_BUTTON_MAP:SEQUENTIAL");
    if range_equals(cs, a, b, sequential.as_slice()) {
        return sequential_mapping(count);
    }
    let prefix = chars_of("HID_BUTTON_MAP:");
    if !range_starts_with(cs, 0, cs.len(), prefix.as_slice()) {
        return sequential_mapping(count);
    }
    assert(cs@.skip(prefix@.len() as int) =~= cs@.subrange(prefix@.len() as int, cs@.len() as int));
    let ranges = split_ranges(cs, prefix.len(), cs.len(), ',');
    let ghost items = range_texts(cs@, ranges@);
    let mut listed: Vec<u8> = Vec::new();
    let mut i: usize = 0;
    while i < ranges.len()
        invariant
            i <= ranges.len(),
            items == range_texts(cs@, ranges@),
            ranges_within(ranges@, prefix@.len() as int, cs@.len() as int),
            listed@ == listed_buttons(items.take(i as int)),
        decreases ranges.len() - i,
    {
        let (from, to) = ranges[i];
        assert(items.take(i + 1).drop_last() =~= items.take(i as int));
        assert(items.take(i + 1).last() == cs@.subrange(from as int, to as int));
        match parse_unsigned_range(cs, from, to, false, u8::MAX as u64) {
            Some(n) => {
                listed.push(n as u8);
            },
            None => {},
        }
        i = i + 1;
    }
    assert(items.take(ranges@.len() as int) =~= items);
    if listed.len() == 0 {
        return sequential_mapping(count);
    }
    let mut mapping: Vec<u8> = Vec::new();
    let mut k: u8 = 0;
    while k < count
        invariant
            k <= count,
            mapping@.len() == k,
            forall|j: int|
                0 <= j < k ==> #[trigger] mapping@[j] == (if j < listed@.len() {
                    listed@[j]
                } else {
                    j as u8
                }),
        decreases count - k,
    {
        let id: u8 = if (k as usize) < listed.len() {
            listed[k as usize]
        } else {
            k
        };
        mapping.push(id);
        k = k + 1;
    }
    assert(mapping@ =~= spec_parse_button_map(response@, button_count));
    mapping
}

} // verus!
