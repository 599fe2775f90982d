//! The HID side channel: button states, the mapping information that the
//! firmware publishes in its feature reports, and input reports read
//! through that mapping.

use crate::config::wire::{
    array_of, get_bytes, get_u16, le16, lemma_array_of_view, lemma_le16_read, put_bytes, put_u16,
    put_u8, read16,
};
use crate::seqs::{first_where, lemma_first_where_is};
use crate::text::{hex_encode, hex_lower};
use vstd::prelude::*;

verus! {

broadcast use vstd::array::group_array_axioms;

/// The USB vendor id of the controller.
pub const JOYCORE_VID: u16 = 0x2E8A;

/// The USB product id of the controller.
pub const JOYCORE_PID: u16 = 0xA02F;

/// The feature report that carries the mapping information.
pub const MAPPING_INFO_REPORT_ID: u8 = 3;

/// The feature report that carries the mapping table.
pub const MAPPING_TABLE_REPORT_ID: u8 = 4;

/// The size of the mapping information without its report id.
pub const MAPPING_INFO_SIZE: usize = 16;

/// The most buttons a mapping can describe.
pub const MAX_MAPPED_BUTTONS: u8 = 128;

/// Why the HID side channel has nothing to give.
#[derive(Debug, Clone, Copy, PartialEq, Eq)]
pub enum HidError {
    DeviceNotFound,
    ReadError,
    InvalidData,
}

impl HidError {
    /// What the error says.
    pub open spec fn text(self) -> Seq<char> {
        match self {
            HidError::DeviceNotFound => "Device not found"@,
            HidError::ReadError => "Failed to read HID report"@,
            HidError::InvalidData => "Invalid button data"@,
        }
    }

    /// The error in words.
    pub fn message(&self) -> (r: String)
        ensures
            r@ == self.text(),
    {
        match self {
            HidError::DeviceNotFound => "Device not found".to_owned(),
            HidError::ReadError => "Failed to read HID report".to_owned(),
            HidError::InvalidData => "Invalid button data".to_owned(),
        }
    }
}

/// The buttons as one bit each: bit `n` is set while button `n` is pressed.
#[derive(Debug, Clone, Copy, PartialEq, Eq)]
pub struct ButtonStates {
    pub buttons: u64,
    /// When the state was read, in milliseconds of the caller's clock.
    pub timestamp_ms: i64,
}

/// A button was pressed or released.
#[derive(Debug, Clone, Copy, PartialEq, Eq)]
pub struct ButtonEvent {
    pub button_id: u8,
    pub pressed: bool,
    pub timestamp_ms: i64,
}

/// Bit `index` of `mask` is set.
pub open spec fn bit_set(mask: u64, index: u8) -> bool {
    index < 64 && mask & (1u64 << index) != 0
}

/// The indices below `n` whose bit is set in `mask`, in ascending order.
pub open spec fn set_bits_below(mask: u64, n: nat) -> Seq<u8>
    decreases n,
{
    if n == 0 {
        Seq::empty()
    } else if bit_set(mask, (n - 1) as u8) {
        set_bits_below(mask, (n - 1) as nat).push((n - 1) as u8)
    } else {
        set_bits_below(mask, (n - 1) as nat)
    }
}

impl ButtonStates {
    /// Whether button `button_index` is pressed. No button beyond the
    /// sixty-fourth is.
    pub fn is_button_pressed(&self, button_index: u8) -> (r: bool)
        ensures
            r == bit_set(self.buttons, button_index),
    {
        if button_index >= 64 {
            return false;
        }
        (self.buttons & (1u64 << button_index)) != 0
    }

    /// The pressed buttons, in ascending order.
    pub fn get_pressed_buttons(&self) -> (r: Vec<u8>)
        ensures
            r@ == set_bits_below(self.buttons, 64),
    {
        let mut pressed: Vec<u8> = Vec::new();
        let mut i: u8 = 0;
        while i < 64
            invariant
                i <= 64,
                pressed@ == set_bits_below(self.buttons, i as nat),
            decreases 64 - i,
        {
            if self.is_button_pressed(i) {
                pressed.push(i);
            }
            i = i + 1;
        }
        pressed
    }
}

/// The mapping information of feature report 3, as the firmware lays it
/// out: sixteen bytes, the checksum of the mapping table little-endian.
#[derive(Debug, Clone, Copy, PartialEq, Eq)]
pub struct HIDMappingInfoRaw {
    pub protocol_version: u8,
    pub input_report_id: u8,
    pub button_count: u8,
    pub axis_count: u8,
    pub button_byte_offset: u8,
    /// 0 for the least significant bit first, anything else for the most
    /// significant bit first.
    pub button_bit_order: u8,
    /// Zero for the sequential mapping.
    pub mapping_crc: u16,
    pub frame_counter_offset: u8,
    pub reserved: [u8; 7],
}

impl HIDMappingInfoRaw {
    /// The sixteen bytes of the information in feature report 3.
    pub open spec fn packed(self) -> Seq<u8> {
        seq![
            self.protocol_version,
            self.input_report_id,
            self.button_count,
            self.axis_count,
            self.button_byte_offset,
            self.button_bit_order,
        ] + le16(self.mapping_crc) + seq![self.frame_counter_offset] + self.reserved@
    }

    /// The information that sixteen bytes stand for.
    pub open spec fn unpacked(b: Seq<u8>) -> HIDMappingInfoRaw {
        HIDMappingInfoRaw {
            protocol_version: b[0],
            input_report_id: b[1],
            button_count: b[2],
            axis_count: b[3],
            button_byte_offset: b[4],
            button_bit_order: b[5],
            mapping_crc: read16(b, 6),
            frame_counter_offset: b[8],
            reserved: array_of::<7>(b.subrange(9, 16)),
        }
    }

    /// Reading undoes writing.
    pub proof fn lemma_packed(self)
        ensures
            self.packed().len() == MAPPING_INFO_SIZE,
            HIDMappingInfoRaw::unpacked(self.packed()) == self,
    {
        let b = self.packed();
        lemma_le16_read(self.mapping_crc);
        assert(b.subrange(6, 8) =~= le16(self.mapping_crc));
        assert(read16(b, 6) == read16(b.subrange(6, 8), 0));
        assert(b.subrange(9, 16) =~= self.reserved@);
        lemma_array_of_view::<7>(self.reserved);
    }

    /// A mapping describes at least one button and no more than 128, under
    /// a protocol version that is not zero.
    pub open spec fn plausible(self) -> bool {
        self.protocol_version != 0 && self.button_count != 0 && self.button_count
            <= MAX_MAPPED_BUTTONS
    }

    /// Feature report 3 for this information: the report id, then the
    /// sixteen bytes.
    pub fn to_report(&self) -> (r: Vec<u8>)
        ensures
            r@ == seq![MAPPING_INFO_REPORT_ID] + self.packed(),
    {
        let mut buf: Vec<u8> = Vec::new();
        put_u8(&mut buf, MAPPING_INFO_REPORT_ID);
        put_u8(&mut buf, self.protocol_version);
        put_u8(&mut buf, self.input_report_id);
        put_u8(&mut buf, self.button_count);
        put_u8(&mut buf, self.axis_count);
        put_u8(&mut buf, self.button_byte_offset);
        put_u8(&mut buf, self.button_bit_order);
        put_u16(&mut buf, self.mapping_crc);
        put_u8(&mut buf, self.frame_counter_offset);
        put_bytes(&mut buf, &self.reserved);
        assert(buf@ =~= seq![MAPPING_INFO_REPORT_ID] + self.packed());
        buf
    }

    /// What a feature report 3 of `received` bytes in `report` says: the
    /// information after the report id, if the report is complete and the
    /// information is plausible.
    pub open spec fn spec_from_report(report: Seq<u8>, received: nat) -> Result<
        HIDMappingInfoRaw,
        HidError,
    > {
        if received < MAPPING_INFO_SIZE + 1 || report.len() < MAPPING_INFO_SIZE + 1 {
            Err(HidError::InvalidData)
        } else {
            let info = HIDMappingInfoRaw::unpacked(report.subrange(1, 17));
            if info.plausible() {
                Ok(info)
            } else {
                Err(HidError::InvalidData)
            }
        }
    }

    /// Reads feature report 3 from a buffer into which `received` bytes
    /// were read.
    pub fn from_report(report: &[u8], received: usize) -> (r: Result<HIDMappingInfoRaw, HidError>)
        ensures
            r == HIDMappingInfoRaw::spec_from_report(report@, received as nat),
    {
        if received < MAPPING_INFO_SIZE + 1 || report.len() < MAPPING_INFO_SIZE + 1 {
            return Err(HidError::InvalidData);
        }
        let ghost b = report@.subrange(1, 17);
        let info = HIDMappingInfoRaw {
            protocol_version: report[1],
            input_report_id: report[2],
            button_count: report[3],
            axis_count: report[4],
            button_byte_offset: report[5],
            button_bit_order: report[6],
            mapping_crc: get_u16(report, 7),
            frame_counter_offset: report[9],
            reserved: get_bytes::<7>(report, 10),
        };
        assert(b.subrange(9, 16) =~= report@.subrange(10, 17));
        if info.protocol_version == 0 || info.button_count == 0 || info.button_count
            > MAX_MAPPED_BUTTONS {
            return Err(HidError::InvalidData);
        }
        Ok(info)
    }

    /// Whether the mapping is the sequential one.
    pub fn is_sequential(&self) -> (r: bool)
        ensures
            r == (self.mapping_crc == 0),
    {
        self.mapping_crc == 0
    }
}

/// The mapping in which bit `i` is button `i`.
pub open spec fn identity_mapping(count: nat) -> Seq<u8> {
    Seq::new(count, |i: int| i as u8)
}

/// The mapping in which bit `i` is button `i`, for `count` buttons.
pub fn sequential_mapping(count: u8) -> (r: Vec<u8>)
    ensures
        r@ == identity_mapping(count as nat),
{
    let mut mapping: Vec<u8> = Vec::new();
    let mut i: u8 = 0;
    while i < count
        invariant
            i <= count,
            mapping@ == identity_mapping(i as nat),
        decreases count - i,
    {
        mapping.push(i);
        assert(mapping@ =~= identity_mapping((i + 1) as nat));
        i = i + 1;
    }
    mapping
}

/// The mapping that holds after feature report 4 was asked for: the table
/// of the report if it came in full, the sequential mapping otherwise.
pub open spec fn spec_resolve_mapping(count: u8, table: Option<(Seq<u8>, nat)>) -> Seq<u8> {
    match table {
        Some((report, received)) => if received >= 1 + count && report.len() >= 1 + count {
            report.subrange(1, 1 + count)
        } else {
            identity_mapping(count as nat)
        },
        None => identity_mapping(count as nat),
    }
}

/// Chooses the mapping table. `table` is the buffer of feature report 4
/// and the number of bytes read into it, or nothing if the report could
/// not be read.
pub fn resolve_mapping(count: u8, table: Option<(&[u8], usize)>) -> (r: Vec<u8>)
    ensures
        r@ == spec_resolve_mapping(
            count,
            match table {
                Some((report, received)) => Some((report@, received as nat)),
                None => None,
            },
        ),
{
    match table {
        Some((report, received)) => {
            let needed: usize = 1 + count as usize;
            if received >= needed && report.len() >= needed {
                vstd::slice::slice_to_vec(vstd::slice::slice_subrange(report, 1, needed))
            } else {
                sequential_mapping(count)
            }
        },
        None => sequential_mapping(count),
    }
}

/// Mapping information that came by another way than the feature reports.
#[derive(Debug, Clone, Copy, PartialEq, Eq)]
pub struct ExternalMappingInfo {
    pub protocol_version: u8,
    pub input_report_id: u8,
    pub button_count: u16,
    pub axis_count: u16,
    pub button_byte_offset: u8,
    pub button_bit_order: u8,
    pub mapping_crc: u16,
    pub frame_counter_offset: Option<u8>,
}

impl ExternalMappingInfo {
    /// The information in the layout of the feature report: the counts are
    /// capped at 128 buttons and 32 axes, and an unknown frame counter
    /// offset is written as `0xFF`.
    pub open spec fn as_raw(self) -> HIDMappingInfoRaw {
        HIDMappingInfoRaw {
            protocol_version: self.protocol_version,
            input_report_id: self.input_report_id,
            button_count: if self.button_count < 128 {
                self.button_count as u8
            } else {
                128
            },
            axis_count: if self.axis_count < 32 {
                self.axis_count as u8
            } else {
                32
            },
            button_byte_offset: self.button_byte_offset,
            button_bit_order: self.button_bit_order,
            mapping_crc: self.mapping_crc,
            frame_counter_offset: match self.frame_counter_offset {
                Some(offset) => offset,
                None => 0xFF,
            },
            reserved: [0u8, 0u8, 0u8, 0u8, 0u8, 0u8, 0u8],
        }
    }

    /// The information as feature report 3 would give it.
    pub fn to_raw(&self) -> (r: HIDMappingInfoRaw)
        ensures
            r == self.as_raw(),
    {
        let r = HIDMappingInfoRaw {
            protocol_version: self.protocol_version,
            input_report_id: self.input_report_id,
            button_count: if self.button_count < 128 {
                self.button_count as u8
            } else {
                128
            },
            axis_count: if self.axis_count < 32 {
                self.axis_count as u8
            } else {
                32
            },
            button_byte_offset: self.button_byte_offset,
            button_bit_order: self.button_bit_order,
            mapping_crc: self.mapping_crc,
            frame_counter_offset: match self.frame_counter_offset {
                Some(offset) => offset,
                None => 0xFF,
            },
            reserved: [0; 7],
        };
        assert(r.reserved =~= self.as_raw().reserved);
        r
    }
}

/// What probing one HID interface of the controller found.
#[derive(Debug, Clone, Copy, PartialEq, Eq)]
pub struct InterfaceProbe {
    /// The interface answered the request for its mapping information.
    pub publishes_mapping: bool,
    /// The interface sent an input report while it was listened to.
    pub sends_reports: bool,
}

/// The interfaces that publish a mapping and send reports.
pub open spec fn mapped_and_live() -> spec_fn(InterfaceProbe) -> bool {
    |p: InterfaceProbe| p.publishes_mapping && p.sends_reports
}

/// The interfaces that send reports.
pub open spec fn live() -> spec_fn(InterfaceProbe) -> bool {
    |p: InterfaceProbe| p.sends_reports
}

/// The interface to read, among those probed: the first that publishes a
/// mapping and sends reports; else the first that sends reports; else the
/// first of all; none if there is no interface.
pub open spec fn spec_choose_interface(probes: Seq<InterfaceProbe>) -> Option<int> {
    if probes.len() == 0 {
        None
    } else if first_where(probes, mapped_and_live()) < probes.len() {
        Some(first_where(probes, mapped_and_live()))
    } else if first_where(probes, live()) < probes.len() {
        Some(first_where(probes, live()))
    } else {
        Some(0)
    }
}

/// Chooses the interface to read.
pub fn choose_interface(probes: &[InterfaceProbe]) -> (r: Option<usize>)
    ensures
        match r {
            Some(i) => spec_choose_interface(probes@) == Some(i as int) && i < probes.len(),
            None => spec_choose_interface(probes@) is None,
        },
{
    if probes.len() == 0 {
        return None;
    }
    let mut i: usize = 0;
    while i < probes.len()
        invariant
            i <= probes.len(),
            forall|j: int| 0 <= j < i ==> !mapped_and_live()(probes@[j]),
        decreases probes.len() - i,
    {
        if probes[i].publishes_mapping && probes[i].sends_reports {
            proof {
                lemma_first_where_is(probes@, mapped_and_live(), i as int);
            }
            return Some(i);
        }
        i = i + 1;
    }
    proof {
        lemma_first_where_is(probes@, mapped_and_live(), i as int);
    }
    let mut k: usize = 0;
    while k < probes.len()
        invariant
            k <= probes.len(),
            first_where(probes@, mapped_and_live()) >= probes.len(),
            forall|j: int| 0 <= j < k ==> !live()(probes@[j]),
        decreases probes.len() - k,
    {
        if probes[k].sends_reports {
            proof {
                lemma_first_where_is(probes@, live(), k as int);
            }
            return Some(k);
        }
        k = k + 1;
    }
    proof {
        lemma_first_where_is(probes@, live(), k as int);
    }
    Some(0)
}

/// The mapping in force: the information and, for each bit of the button
/// field, the button it stands for.
#[derive(Debug, Clone, PartialEq, Eq)]
pub struct MappingData {
    pub info: HIDMappingInfoRaw,
    pub mapping: Vec<u8>,
}

/// Where the mapping in force is kept.
#[derive(Debug, Clone, PartialEq, Eq)]
pub struct MappingSlot {
    pub data: Option<MappingData>,
}

impl MappingSlot {
    pub fn new() -> (r: MappingSlot)
        ensures
            r.data is None,
    {
        MappingSlot { data: None }
    }

    /// Puts a mapping that came by another way in force, unless one is in
    /// force already and `force_replace` is not set. Says whether it did.
    pub fn apply_external_mapping(
        &mut self,
        info: ExternalMappingInfo,
        mapping: Vec<u8>,
        force_replace: bool,
    ) -> (applied: bool)
        ensures
            applied == (old(self).data is None || force_replace),
            applied ==> final(self).data == Some(MappingData { info: info.as_raw(), mapping }),
            !applied ==> *final(self) == *old(self),
    {
        if self.data.is_some() && !force_replace {
            return false;
        }
        self.data = Some(MappingData { info: info.to_raw(), mapping });
        true
    }
}

/// Whether bit `bit_index` of a button field is set, counting the bits of
/// each byte from the least or from the most significant one.
pub open spec fn field_bit(field: Seq<u8>, bit_index: int, msb_first: bool) -> bool {
    let byte = field[bit_index / 8];
    let position = (bit_index % 8) as u8;
    if msb_first {
        byte & (1u8 << ((7 - position) as u8)) != 0
    } else {
        byte & (1u8 << position) != 0
    }
}

/// The button that bit `bit_index` stands for: what the mapping says, or
/// the bit's own number where the mapping is too short.
pub open spec fn logical_id(mapping: Seq<u8>, bit_index: int) -> u8 {
    if bit_index < mapping.len() {
        mapping[bit_index]
    } else {
        bit_index as u8
    }
}

/// Which buttons are pressed, one flag for each of the 256 possible
/// buttons, after the first `n` bits of the field have been read.
pub open spec fn pressed_after(field: Seq<u8>, mapping: Seq<u8>, msb_first: bool, n: nat) -> Seq<
    bool,
>
    decreases n,
{
    if n == 0 {
        Seq::new(256, |i: int| false)
    } else if field_bit(field, n - 1, msb_first) {
        pressed_after(field, mapping, msb_first, (n - 1) as nat).update(
            logical_id(mapping, n - 1) as int,
            true,
        )
    } else {
        pressed_after(field, mapping, msb_first, (n - 1) as nat)
    }
}

/// Button `id` is pressed after `n` bits iff one of those bits is set and
/// stands for it.
pub proof fn lemma_pressed_after(field: Seq<u8>, mapping: Seq<u8>, msb_first: bool, n: nat, id: u8)
    ensures
        pressed_after(field, mapping, msb_first, n).len() == 256,
        pressed_after(field, mapping, msb_first, n)[id as int] <==> exists|i: int|
            0 <= i < n && field_bit(field, i, msb_first) && logical_id(mapping, i) == id,
    decreases n,
{
    if n > 0 {
        lemma_pressed_after(field, mapping, msb_first, (n - 1) as nat, id);
        let last = n - 1;
        if pressed_after(field, mapping, msb_first, n)[id as int] {
            if field_bit(field, last, msb_first) && logical_id(mapping, last) == id {
            } else {
                let i = choose|i: int|
                    0 <= i < n - 1 && field_bit(field, i, msb_first) && logical_id(mapping, i)
                        == id;
                assert(0 <= i < n && field_bit(field, i, msb_first) && logical_id(mapping, i)
                    == id);
            }
        }
    }
}

/// The pressed buttons below 64 as a mask: bit `k` is set iff button `k`
/// is flagged.
pub open spec fn mask_of(pressed: Seq<bool>, n: nat) -> u64
    decreases n,
{
    if n == 0 {
        0
    } else if pressed[n - 1] {
        mask_of(pressed, (n - 1) as nat) | (1u64 << ((n - 1) as u64))
    } else {
        mask_of(pressed, (n - 1) as nat)
    }
}

/// Bit `k` of the mask is set iff button `k` is among the first `n` and
/// pressed.
pub proof fn lemma_mask_of(pressed: Seq<bool>, n: nat, k: u8)
    requires
        n <= 64,
        pressed.len() >= n,
    ensures
        bit_set(mask_of(pressed, n), k) <==> (k < n && pressed[k as int]),
    decreases n,
{
    if n > 0 {
        lemma_mask_of(pressed, (n - 1) as nat, k);
        let m = mask_of(pressed, (n - 1) as nat);
        let last = (n - 1) as u64;
        if k < 64 {
            assert((m | (1u64 << last)) & (1u64 << k) != 0 <==> (m & (1u64 << k) != 0 || k
                == last)) by (bit_vector)
                requires
                    last < 64,
                    k < 64,
            ;
        }
    } else {
        assert(0u64 & (1u64 << k) == 0) by (bit_vector);
    }
}

/// What an input report says about the buttons.
#[derive(Debug, Clone, Copy, PartialEq, Eq)]
pub struct DecodedReport {
    /// Where in the report the button field begins.
    pub offset: usize,
    /// One flag for each possible button.
    pub pressed: [bool; 256],
    /// The first 64 buttons as a mask.
    pub mask: u64,
}

impl MappingData {
    /// Whether the bits of a byte are counted from the most significant.
    pub open spec fn msb_first(self) -> bool {
        self.info.button_bit_order != 0
    }

    /// The length of the button field: one bit for each button, rounded up
    /// to whole bytes, sixteen bytes at most.
    pub open spec fn field_len(self) -> int {
        if (self.info.button_count + 7) / 8 < 16 {
            (self.info.button_count + 7) / 8
        } else {
            16
        }
    }

    /// Where the payload of a report begins: after the report id, if the
    /// mapping names one and the report starts with it.
    pub open spec fn payload_start(self, report: Seq<u8>) -> int {
        if self.info.input_report_id != 0 && report.len() > 0 && report[0]
            == self.info.input_report_id {
            1
        } else {
            0
        }
    }

    /// Where the button field of a report of `size` bytes begins, if the
    /// report is long enough to hold it.
    pub open spec fn field_start(self, report: Seq<u8>, size: int) -> Option<int> {
        let start = self.payload_start(report);
        if size <= start || size > report.len() || size - start < self.info.button_byte_offset
            + self.field_len() {
            None
        } else {
            Some(start + self.info.button_byte_offset)
        }
    }

    /// What a report of `size` bytes says: nothing if it does not hold the
    /// button field; else, for each of the mapped bits that is set, the
    /// button it stands for is pressed.
    pub open spec fn spec_decode(self, report: Seq<u8>, size: int) -> Option<(int, Seq<bool>)> {
        match self.field_start(report, size) {
            Some(at) => Some(
                (
                    at,
                    pressed_after(
                        report.subrange(at, at + self.field_len()),
                        self.mapping@,
                        self.msb_first(),
                        self.info.button_count as nat,
                    ),
                ),
            ),
            None => None,
        }
    }

    /// Reads the buttons of an input report of `size` bytes.
    pub fn decode_report(&self, report: &[u8], size: usize) -> (r: Option<DecodedReport>)
        requires
            self.info.button_count <= MAX_MAPPED_BUTTONS,
        ensures
            match r {
                Some(d) => self.spec_decode(report@, size as int) == Some(
                    (d.offset as int, d.pressed@),
                ) && d.mask == mask_of(d.pressed@, 64),
                None => self.spec_decode(report@, size as int) is None,
            },
    {
        let has_report_id = self.info.input_report_id != 0 && report.len() > 0 && report[0]
            == self.info.input_report_id;
        let start: usize = if has_report_id {
            1
        } else {
            0
        };
        let count: usize = self.info.button_count as usize;
        let field_len: usize = if (count + 7) / 8 < 16 {
            (count + 7) / 8
        } else {
            16
        };
        let offset: usize = self.info.button_byte_offset as usize;
        if size <= start || size > report.len() || size - start < offset + field_len {
            return None;
        }
        let at: usize = start + offset;
        let ghost field = report@.subrange(at as int, at + field_len);
        let msb_first = self.info.button_bit_order != 0;
        let mut pressed: [bool; 256] = [false; 256];
        assert(pressed@ =~= pressed_after(field, self.mapping@, msb_first, 0));
        let mut bit_index: usize = 0;
        while bit_index < count
            invariant
                bit_index <= count,
                count <= 128,
                count <= field_len * 8,
                at + field_len <= report.len(),
                field == report@.subrange(at as int, at + field_len),
                pressed@ == pressed_after(field, self.mapping@, msb_first, bit_index as nat),
            decreases count - bit_index,
        {
            let byte: u8 = report[at + bit_index / 8];
            let position: u8 = (bit_index % 8) as u8;
            let set = if msb_first {
                (byte & (1u8 << (7 - position))) != 0
            } else {
                (byte & (1u8 << position)) != 0
            };
            if set {
                let id: u8 = if bit_index < self.mapping.len() {
                    self.mapping[bit_index]
                } else {
                    bit_index as u8
                };
                pressed[id as usize] = true;
                assert(pressed@ =~= pressed_after(
                    field,
                    self.mapping@,
                    msb_first,
                    (bit_index + 1) as nat,
                ));
            }
            bit_index = bit_index + 1;
        }
        let mut mask: u64 = 0;
        let mut k: usize = 0;
        while k < 64
            invariant
                k <= 64,
                mask == mask_of(pressed@, k as nat),
            decreases 64 - k,
        {
            if pressed[k] {
                mask = mask | (1u64 << (k as u64));
            }
            k = k + 1;
        }
        Some(DecodedReport { offset: at, pressed, mask })
    }
}

/// The buttons that are flagged in `now` and not in `before`, below `n`,
/// in ascending order.
pub open spec fn newly_set(now: Seq<bool>, before: Seq<bool>, n: nat) -> Seq<u8>
    decreases n,
{
    if n == 0 {
        Seq::empty()
    } else if now[n - 1] && !before[n - 1] {
        newly_set(now, before, (n - 1) as nat).push((n - 1) as u8)
    } else {
        newly_set(now, before, (n - 1) as nat)
    }
}

/// One event for each button, all at one time.
pub open spec fn events_for(ids: Seq<u8>, pressed: bool, timestamp_ms: i64) -> Seq<ButtonEvent> {
    Seq::new(ids.len(), |i: int| ButtonEvent { button_id: ids[i], pressed, timestamp_ms })
}

/// What is known of the buttons between input reports.
#[derive(Debug, Clone, Copy, PartialEq, Eq)]
pub struct ButtonTracker {
    /// The buttons that were pressed in the last report that changed
    /// anything.
    pub pressed: [bool; 256],
    /// The last state that was made known.
    pub state: ButtonStates,
    /// Where the button field was found.
    pub selected_offset: Option<usize>,
    /// The mask of the last report that changed anything.
    pub last_raw_value: u64,
    /// How many reports have been seen.
    pub report_count: u64,
}

/// Every so many unchanged reports the time of the state is refreshed.
pub const HEARTBEAT_REPORTS: u64 = 200;

impl ButtonTracker {
    /// A tracker that has seen no report: no button is pressed.
    pub fn new(now_ms: i64) -> (r: ButtonTracker)
        ensures
            r.pressed@ == Seq::new(256, |i: int| false),
            r.state == (ButtonStates { buttons: 0, timestamp_ms: now_ms }),
            r.selected_offset is None,
            r.last_raw_value == 0,
            r.report_count == 0,
    {
        let r = ButtonTracker {
            pressed: [false; 256],
            state: ButtonStates { buttons: 0, timestamp_ms: now_ms },
            selected_offset: None,
            last_raw_value: 0,
            report_count: 0,
        };
        assert(r.pressed@ =~= Seq::new(256, |i: int| false));
        r
    }

    /// The events that a decoded report gives rise to: the buttons that
    /// are newly pressed, in ascending order, then those that are newly
    /// released.
    pub open spec fn changes(self, decoded: DecodedReport, now_ms: i64) -> Seq<ButtonEvent> {
        events_for(newly_set(decoded.pressed@, self.pressed@, 256), true, now_ms) + events_for(
            newly_set(self.pressed@, decoded.pressed@, 256),
            false,
            now_ms,
        )
    }

    /// The tracker after a decoded report. A report that changes a button
    /// replaces the state; every two-hundredth report refreshes the time of
    /// the state if it changes nothing; any other changes nothing but the
    /// count.
    pub open spec fn after_report(self, decoded: DecodedReport, now_ms: i64) -> ButtonTracker {
        let count = if self.report_count < u64::MAX {
            (self.report_count + 1) as u64
        } else {
            self.report_count
        };
        if self.changes(decoded, now_ms).len() > 0 {
            ButtonTracker {
                pressed: decoded.pressed,
                state: ButtonStates { buttons: decoded.mask, timestamp_ms: now_ms },
                selected_offset: Some(decoded.offset),
                last_raw_value: decoded.mask,
                report_count: count,
            }
        } else if count % HEARTBEAT_REPORTS == 0 {
            ButtonTracker {
                state: ButtonStates { timestamp_ms: now_ms, ..self.state },
                report_count: count,
                ..self
            }
        } else {
            ButtonTracker { report_count: count, ..self }
        }
    }

    /// Takes a decoded report in and gives the events to make known.
    pub fn on_report(&mut self, decoded: &DecodedReport, now_ms: i64) -> (events: Vec<ButtonEvent>)
        ensures
            events@ == old(self).changes(*decoded, now_ms),
            *final(self) == old(self).after_report(*decoded, now_ms),
    {
        if self.report_count < u64::MAX {
            self.report_count = self.report_count + 1;
        }
        let mut events: Vec<ButtonEvent> = Vec::new();
        let ghost mut ids: Seq<u8> = Seq::empty();
        let mut i: usize = 0;
        assert(events@ =~= events_for(ids, true, now_ms));
        while i < 256
            invariant
                i <= 256,
                ids == newly_set(decoded.pressed@, self.pressed@, i as nat),
                events@ == events_for(ids, true, now_ms),
            decreases 256 - i,
        {
            if decoded.pressed[i] && !self.pressed[i] {
                events.push(ButtonEvent { button_id: i as u8, pressed: true, timestamp_ms: now_ms });
                proof {
                    ids = ids.push(i as u8);
                }
                assert(events@ =~= events_for(ids, true, now_ms));
            }
            i = i + 1;
        }
        let ghost pressed_events = events@;
        let ghost mut released: Seq<u8> = Seq::empty();
        let mut j: usize = 0;
        assert(events@ =~= pressed_events + events_for(released, false, now_ms));
        while j < 256
            invariant
                j <= 256,
                released == newly_set(self.pressed@, decoded.pressed@, j as nat),
                events@ == pressed_events + events_for(released, false, now_ms),
            decreases 256 - j,
        {
            if self.pressed[j] && !decoded.pressed[j] {
                events.push(
                    ButtonEvent { button_id: j as u8, pressed: false, timestamp_ms: now_ms },
                );
                proof {
                    released = released.push(j as u8);
                }
                assert(events@ =~= pressed_events + events_for(released, false, now_ms));
            }
            j = j + 1;
        }
        if events.len() > 0 {
            self.pressed = decoded.pressed;
            self.state = ButtonStates { buttons: decoded.mask, timestamp_ms: now_ms };
            self.selected_offset = Some(decoded.offset);
            self.last_raw_value = decoded.mask;
        } else if self.report_count % HEARTBEAT_REPORTS == 0 {
            self.state.timestamp_ms = now_ms;
        }
        events
    }
}

/// The last input report for inspection: its length and its bytes in
/// hexadecimal, or nothing if no report has been seen.
pub fn full_report_hex(report: &[u8], len: usize) -> (r: Option<(usize, String)>)
    requires
        len <= report.len(),
    ensures
        match r {
            Some((n, text)) => len > 0 && n == len && text@ == hex_lower(
                report@.subrange(0, len as int),
            ),
            None => len == 0,
        },
{
    if len == 0 {
        return None;
    }
    let seen = vstd::slice::slice_subrange(report, 0, len);
    Some((len, hex_encode(seen)))
}

/// The value of up to `n` bytes of `data` from `start` on, the first byte
/// the least significant.
pub open spec fn window_value(data: Seq<u8>, start: int, n: nat) -> u64
    decreases n,
{
    if n == 0 {
        0
    } else {
        window_value(data, start, (n - 1) as nat) | ((data[start + n - 1] as u64) << ((8 * (n
            - 1)) as u64))
    }
}

/// How many bytes of `data` a window of eight bytes from `start` covers.
pub open spec fn window_len(data: Seq<u8>, start: int) -> nat {
    if start >= data.len() {
        0
    } else if data.len() - start < 8 {
        (data.len() - start) as nat
    } else {
        8
    }
}

/// The eight bytes of `data` from `start` on as one number, as far as
/// `data` reaches.
pub open spec fn window(data: Seq<u8>, start: int) -> u64 {
    window_value(data, start, window_len(data, start))
}

fn read_window(data: &[u8], start: usize) -> (r: u64)
    ensures
        r == window(data@, start as int),
{
    if start >= data.len() {
        return 0;
    }
    let n: usize = if data.len() - start < 8 {
        data.len() - start
    } else {
        8
    };
    let mut value: u64 = 0;
    let mut i: usize = 0;
    while i < n
        invariant
            i <= n <= 8,
            start + n <= data.len(),
            value == window_value(data@, start as int, i as nat),
        decreases n - i,
    {
        value = value | ((data[start + i] as u64) << ((8 * i) as u64));
        i = i + 1;
    }
    value
}

/// Where, besides the first two bytes, firmware without a mapping may
/// keep its buttons.
pub open spec fn extra_offset(k: int) -> int {
    if k == 0 {
        16
    } else if k == 1 {
        17
    } else if k == 2 {
        24
    } else {
        32
    }
}

fn extra_offset_at(k: usize) -> (r: usize)
    requires
        k < 4,
    ensures
        r == extra_offset(k as int),
{
    if k == 0 {
        16
    } else if k == 1 {
        17
    } else if k == 2 {
        24
    } else {
        32
    }
}

/// Finds the buttons in the reports of firmware that publishes no mapping:
/// the first reports give the resting values of the places where the
/// buttons may be, and the first place that departs from its resting value
/// is taken for the button field from then on.
#[derive(Debug, Clone, Copy, PartialEq, Eq)]
pub struct LegacyDecoder {
    /// The place that was taken for the button field.
    pub preferred_offset: Option<usize>,
    /// The resting value at offset 0.
    pub baseline_0: Option<u64>,
    /// The resting value at offset 1.
    pub baseline_1: Option<u64>,
    /// The resting values at the four other places.
    pub baseline_extra: [Option<u64>; 4],
    /// The first byte of the first report.
    pub first_byte: Option<u8>,
    /// Whether a first byte was seen that differs from the one before it.
    pub first_byte_varies: bool,
}

impl LegacyDecoder {
    pub fn new() -> (r: LegacyDecoder)
        ensures
            r.preferred_offset is None,
            r.baseline_0 is None,
            r.baseline_1 is None,
            forall|k: int| 0 <= k < 4 ==> r.baseline_extra[k] is None,
            r.first_byte is None,
            !r.first_byte_varies,
    {
        LegacyDecoder {
            preferred_offset: None,
            baseline_0: None,
            baseline_1: None,
            baseline_extra: [None; 4],
            first_byte: None,
            first_byte_varies: false,
        }
    }

    /// The resting value that holds at one of the four other places after
    /// a report: the one known, else what the report holds there.
    pub open spec fn extra_after(self, data: Seq<u8>, k: int) -> Option<u64> {
        if self.baseline_extra[k] is None && data.len() > extra_offset(k) {
            Some(window(data, extra_offset(k)))
        } else {
            self.baseline_extra[k]
        }
    }

    /// The decoder after it has looked at a report, before it chooses.
    pub open spec fn observed(self, data: Seq<u8>) -> LegacyDecoder {
        LegacyDecoder {
            preferred_offset: self.preferred_offset,
            baseline_0: if self.baseline_0 is None {
                Some(window(data, 0))
            } else {
                self.baseline_0
            },
            baseline_1: if self.baseline_1 is None {
                Some(if data.len() > 1 {
                    window(data, 1)
                } else {
                    0
                })
            } else {
                self.baseline_1
            },
            baseline_extra: [
                self.extra_after(data, 0),
                self.extra_after(data, 1),
                self.extra_after(data, 2),
                self.extra_after(data, 3),
            ],
            first_byte: if self.first_byte is None {
                Some(data[0])
            } else {
                self.first_byte
            },
            first_byte_varies: self.first_byte_varies || (self.first_byte is Some
                && self.first_byte->0 != data[0]),
        }
    }

    /// How far the report departs from the resting value at `offset`; zero
    /// at a place the report does not reach or that is none of the six.
    pub open spec fn departure(self, data: Seq<u8>, offset: int) -> u64 {
        if offset == 0 {
            window(data, 0) ^ self.baseline_0->0
        } else if offset == 1 {
            (if data.len() > 1 {
                window(data, 1)
            } else {
                0
            }) ^ self.baseline_1->0
        } else if offset == 16 && data.len() > 16 {
            window(data, 16) ^ self.baseline_extra[0]->0
        } else if offset == 17 && data.len() > 17 {
            window(data, 17) ^ self.baseline_extra[1]->0
        } else if offset == 24 && data.len() > 24 {
            window(data, 24) ^ self.baseline_extra[2]->0
        } else if offset == 32 && data.len() > 32 {
            window(data, 32) ^ self.baseline_extra[3]->0
        } else {
            0
        }
    }

    /// The place number `k` in the order in which the places are tried:
    /// offset 1 before offset 0 while the first byte has not varied (it is
    /// then taken for a report id), offset 0 first otherwise; then the
    /// four other places.
    pub open spec fn candidate(self, k: int) -> int {
        if k == 0 {
            if self.first_byte_varies {
                0
            } else {
                1
            }
        } else if k == 1 {
            if self.first_byte_varies {
                1
            } else {
                0
            }
        } else {
            extra_offset(k - 2)
        }
    }

    /// The first place from number `k` on at which the report departs from
    /// the resting value.
    pub open spec fn first_departing(self, data: Seq<u8>, k: int) -> Option<int>
        decreases 6 - k,
    {
        if k >= 6 || k < 0 {
            None
        } else if self.departure(data, self.candidate(k)) != 0 {
            Some(self.candidate(k))
        } else {
            self.first_departing(data, k + 1)
        }
    }

    /// The decoder after a report of at least one byte.
    pub open spec fn after_report(self, data: Seq<u8>) -> LegacyDecoder {
        let seen = self.observed(data);
        if seen.preferred_offset is Some {
            seen
        } else {
            match seen.first_departing(data, 0) {
                Some(offset) => LegacyDecoder { preferred_offset: Some(offset as usize), ..seen },
                None => seen,
            }
        }
    }

    /// The place of the button field after the report, offset 0 while none
    /// is chosen, and the buttons there: the departure from the resting
    /// value.
    pub open spec fn reading(self, data: Seq<u8>) -> (usize, u64) {
        let after = self.after_report(data);
        let offset = match after.preferred_offset {
            Some(o) => o,
            None => 0,
        };
        (offset, after.departure(data, offset as int))
    }

    fn departure_at(&self, data: &[u8], offset: usize) -> (r: u64)
        requires
            self.baseline_0 is Some,
            self.baseline_1 is Some,
            forall|k: int|
                0 <= k < 4 && data@.len() > extra_offset(k) ==> self.baseline_extra[k] is Some,
        ensures
            r == self.departure(data@, offset as int),
    {
        if offset == 0 {
            read_window(data, 0) ^ self.baseline_0.unwrap()
        } else if offset == 1 {
            let v: u64 = if data.len() > 1 {
                read_window(data, 1)
            } else {
                0
            };
            v ^ self.baseline_1.unwrap()
        } else if offset == 16 && data.len() > 16 {
            assert(extra_offset(0) == 16);
            read_window(data, 16) ^ self.baseline_extra[0].unwrap()
        } else if offset == 17 && data.len() > 17 {
            assert(extra_offset(1) == 17);
            read_window(data, 17) ^ self.baseline_extra[1].unwrap()
        } else if offset == 24 && data.len() > 24 {
            assert(extra_offset(2) == 24);
            read_window(data, 24) ^ self.baseline_extra[2].unwrap()
        } else if offset == 32 && data.len() > 32 {
            assert(extra_offset(3) == 32);
            read_window(data, 32) ^ self.baseline_extra[3].unwrap()
        } else {
            0
        }
    }

    fn candidate_at(&self, k: usize) -> (r: usize)
        requires
            k < 6,
        ensures
            r == self.candidate(k as int),
    {
        if k == 0 {
            if self.first_byte_varies {
                0
            } else {
                1
            }
        } else if k == 1 {
            if self.first_byte_varies {
                1
            } else {
                0
            }
        } else {
            extra_offset_at(k - 2)
        }
    }

    /// Takes a report in and says where the buttons are taken to be and
    /// what they are.
    pub fn on_report(&mut self, data: &[u8]) -> (r: (usize, u64))
        requires
            data.len() > 0,
        ensures
            *final(self) == old(self).after_report(data@),
            r == old(self).reading(data@),
    {
        match self.first_byte {
            None => {
                self.first_byte = Some(data[0]);
            },
            Some(previous) => {
                if previous != data[0] {
                    self.first_byte_varies = true;
                }
            },
        }
        if self.baseline_0.is_none() {
            self.baseline_0 = Some(read_window(data, 0));
        }
        if self.baseline_1.is_none() {
            self.baseline_1 = Some(
                if data.len() > 1 {
                    read_window(data, 1)
                } else {
                    0
                },
            );
        }
        let mut k: usize = 0;
        while k < 4
            invariant
                k <= 4,
                forall|j: int| 0 <= j < k ==> self.baseline_extra[j] == old(self).extra_after(data@, j),
                forall|j: int| k <= j < 4 ==> self.baseline_extra[j] == old(self).baseline_extra[j],
                self.preferred_offset == old(self).observed(data@).preferred_offset,
                self.baseline_0 == old(self).observed(data@).baseline_0,
                self.baseline_1 == old(self).observed(data@).baseline_1,
                self.first_byte == old(self).observed(data@).first_byte,
                self.first_byte_varies == old(self).observed(data@).first_byte_varies,
            decreases 4 - k,
        {
            let start = extra_offset_at(k);
            if self.baseline_extra[k].is_none() && data.len() > start {
                self.baseline_extra[k] = Some(read_window(data, start));
            }
            k = k + 1;
        }
        assert(self.baseline_extra =~= old(self).observed(data@).baseline_extra);
        assert(*self == old(self).observed(data@));
        let ghost seen = *self;
        if self.preferred_offset.is_none() {
            let mut c: usize = 0;
            while c < 6
                invariant_except_break
                    *self == seen,
                invariant
                    c <= 6,
                    seen.preferred_offset is None,
                    seen.baseline_0 is Some,
                    seen.baseline_1 is Some,
                    forall|j: int|
                        0 <= j < 4 && data@.len() > extra_offset(j) ==> seen.baseline_extra[j]
                            is Some,
                    seen.first_departing(data@, c as int) == seen.first_departing(data@, 0),
                ensures
                    seen.preferred_offset is None,
                    *self == seen.after_report_choice(data@),
                decreases 6 - c,
            {
                let offset = self.candidate_at(c);
                if self.departure_at(data, offset) != 0 {
                    self.preferred_offset = Some(offset);
                    break ;
                }
                c = c + 1;
            }
        }
        let offset: usize = match self.preferred_offset {
            Some(o) => o,
            None => 0,
        };
        (offset, self.departure_at(data, offset))
    }

    /// The decoder that has looked at a report, after it has chosen.
    pub open spec fn after_report_choice(self, data: Seq<u8>) -> LegacyDecoder {
        match self.first_departing(data, 0) {
            Some(offset) => LegacyDecoder { preferred_offset: Some(offset as usize), ..self },
            None => self,
        }
    }
}

/// The first bits that are set in `mask`, from bit `from` on, `room` of
/// them at most, in ascending order.
pub open spec fn leading_set_bits(mask: u64, from: nat, room: nat) -> Seq<u8>
    decreases 64 - from,
{
    if from >= 64 || room == 0 {
        Seq::empty()
    } else if bit_set(mask, from as u8) {
        seq![from as u8] + leading_set_bits(mask, from + 1, (room - 1) as nat)
    } else {
        leading_set_bits(mask, from + 1, room)
    }
}

fn leading_bits(mask: u64, room: usize) -> (r: Vec<u8>)
    ensures
        r@ == leading_set_bits(mask, 0, room as nat),
{
    let mut out: Vec<u8> = Vec::new();
    let mut i: u8 = 0;
    assert(out@ + leading_set_bits(mask, 0, room as nat) =~= leading_set_bits(
        mask,
        0,
        room as nat,
    ));
    while i < 64 && out.len() < room
        invariant
            i <= 64,
            out@.len() <= room,
            out@ + leading_set_bits(mask, i as nat, (room - out@.len()) as nat)
                == leading_set_bits(mask, 0, room as nat),
        decreases 64 - i,
    {
        let ghost before = out@;
        let ghost rest = leading_set_bits(mask, (i + 1) as nat, (room - before.len() - 1) as nat);
        if (mask & (1u64 << i)) != 0 {
            out.push(i);
            assert(out@ + rest =~= before + (seq![i] + rest));
        }
        i = i + 1;
    }
    assert(out@ + Seq::<u8>::empty() =~= out@);
    out
}

/// How many events of each kind a report of firmware without a mapping
/// gives rise to at most.
pub const LEGACY_EVENT_LIMIT: usize = 8;

/// Every so many unchanged reports of firmware without a mapping the time
/// of the state is refreshed.
pub const LEGACY_HEARTBEAT_REPORTS: u64 = 400;

impl ButtonTracker {
    /// The events that a reading of firmware without a mapping gives rise
    /// to: the first eight buttons that are newly pressed, then the first
    /// eight that are newly released.
    pub open spec fn legacy_changes(self, value: u64, now_ms: i64) -> Seq<ButtonEvent> {
        let changed = self.state.buttons ^ value;
        events_for(leading_set_bits(changed & value, 0, LEGACY_EVENT_LIMIT as nat), true, now_ms)
            + events_for(
            leading_set_bits(changed & self.state.buttons, 0, LEGACY_EVENT_LIMIT as nat),
            false,
            now_ms,
        )
    }

    /// The tracker after such a reading: a reading that differs from the
    /// state replaces it; every four-hundredth report refreshes the time of
    /// the state if it changes nothing.
    pub open spec fn after_legacy(self, offset: usize, value: u64, now_ms: i64) -> ButtonTracker {
        let count = if self.report_count < u64::MAX {
            (self.report_count + 1) as u64
        } else {
            self.report_count
        };
        if self.state.buttons != value {
            ButtonTracker {
                state: ButtonStates { buttons: value, timestamp_ms: now_ms },
                selected_offset: Some(offset),
                last_raw_value: value,
                report_count: count,
                ..self
            }
        } else if count % LEGACY_HEARTBEAT_REPORTS == 0 {
            ButtonTracker {
                state: ButtonStates { timestamp_ms: now_ms, ..self.state },
                report_count: count,
                ..self
            }
        } else {
            ButtonTracker { report_count: count, ..self }
        }
    }

    /// Takes a reading of firmware without a mapping in and gives the
    /// events to make known.
    pub fn on_legacy_reading(&mut self, offset: usize, value: u64, now_ms: i64) -> (events: Vec<
        ButtonEvent,
    >)
        ensures
            events@ == (if old(self).state.buttons != value {
                old(self).legacy_changes(value, now_ms)
            } else {
                Seq::empty()
            }),
            *final(self) == old(self).after_legacy(offset, value, now_ms),
    {
        if self.report_count < u64::MAX {
            self.report_count = self.report_count + 1;
        }
        let mut events: Vec<ButtonEvent> = Vec::new();
        if self.state.buttons != value {
            let changed: u64 = self.state.buttons ^ value;
            let pressed = leading_bits(changed & value, LEGACY_EVENT_LIMIT);
            let released = leading_bits(changed & self.state.buttons, LEGACY_EVENT_LIMIT);
            let mut i: usize = 0;
            while i < pressed.len()
                invariant
                    i <= pressed.len(),
                    events@ == events_for(pressed@.take(i as int), true, now_ms),
                decreases pressed.len() - i,
            {
                events.push(
                    ButtonEvent { button_id: pressed[i], pressed: true, timestamp_ms: now_ms },
                );
                assert(events@ =~= events_for(pressed@.take(i + 1), true, now_ms));
                i = i + 1;
            }
            assert(pressed@.take(pressed@.len() as int) =~= pressed@);
            let ghost first = events@;
            let mut j: usize = 0;
            assert(events@ =~= first + events_for(released@.take(0), false, now_ms));
            while j < released.len()
                invariant
                    j <= released.len(),
                    events@ == first + events_for(released@.take(j as int), false, now_ms),
                decreases released.len() - j,
            {
                events.push(
                    ButtonEvent { button_id: released[j], pressed: false, timestamp_ms: now_ms },
                );
                assert(events@ =~= first + events_for(released@.take(j + 1), false, now_ms));
                j = j + 1;
            }
            assert(released@.take(released@.len() as int) =~= released@);
            self.state = ButtonStates { buttons: value, timestamp_ms: now_ms };
            self.selected_offset = Some(offset);
            self.last_raw_value = value;
        } else if self.report_count % LEGACY_HEARTBEAT_REPORTS == 0 {
            self.state.timestamp_ms = now_ms;
        }
        events
    }
}

} // verus!
