//! The persisted configuration record: a fixed header, the USB descriptor,
//! the axis table and two variable-length sections, laid out byte for byte
//! as the firmware stores them, with the firmware's CRC-32.

use crate::config::wire::{
    array_of, get_bytes, get_u16, get_u32, le16, le32, lemma_array_of_view, lemma_le16_read,
    lemma_le32_read, put_bytes, put_u16, put_u32, put_u8, read16, read32,
};
use crate::text::{decimal, hex_upper, push_decimal, push_hex_upper};
use vstd::array::spec_array_fill_for_copy_type;
use vstd::prelude::*;
use vstd::string::StringExecFns;

verus! {

broadcast use vstd::array::group_array_axioms;

/// "JOYC", the constant every configuration file starts with.
pub const CONFIG_MAGIC: u32 = 0x4A4F5943;

/// The layout version this codec reads and writes.
pub const CONFIG_VERSION: u16 = 7;

pub const CONFIG_HEADER_SIZE: usize = 16;

pub const STORED_USB_DESCRIPTOR_SIZE: usize = 76;

pub const STORED_AXIS_CONFIG_SIZE: usize = 15;

pub const STORED_PIN_MAP_ENTRY_SIZE: usize = 10;

pub const STORED_LOGICAL_INPUT_SIZE: usize = 10;

/// Size of the fixed part: header, descriptor, counts and eight axes.
pub const STORED_CONFIG_SIZE: usize = 216;

pub const MAX_PIN_MAP_COUNT: u8 = 32;

pub const MAX_LOGICAL_INPUT_COUNT: u8 = 64;

/// Why a buffer is not a configuration file, or a record cannot become one.
#[derive(Debug, Clone, Copy, PartialEq, Eq)]
pub enum ConfigError {
    /// The buffer cannot hold a header, or it is as long as its header
    /// declares and yet shorter than the fixed part of a record.
    TooSmall { len: usize },
    /// The magic field holds something else than [`CONFIG_MAGIC`].
    InvalidMagic { magic: u32 },
    /// The version field holds something else than [`CONFIG_VERSION`].
    InvalidVersion { version: u16 },
    /// More pin-map entries are declared than the firmware can hold.
    PinMapCountTooLarge { count: u8 },
    /// More logical inputs are declared than the firmware can hold.
    LogicalInputCountTooLarge { count: u8 },
    /// The buffer's length differs from the size the header declares.
    SizeMismatch { actual: usize, declared: u16 },
    /// The stored checksum differs from the one computed over the buffer.
    ChecksumMismatch { calculated: u32, stored: u32 },
    /// The buffer ends before the declared pin-map entries do.
    TruncatedPinMap,
    /// The buffer ends before the declared logical inputs do.
    TruncatedLogicalInputs,
    /// The encoded record would be longer than the size field can say.
    SizeOverflow,
}

#[derive(Debug, Clone, Copy, PartialEq, Eq)]
pub struct ConfigHeader {
    pub magic: u32,
    pub version: u16,
    pub size: u16,
    pub checksum: u32,
    pub reserved: [u8; 4],
}

#[derive(Debug, Clone, Copy, PartialEq, Eq)]
pub struct StoredUSBDescriptor {
    pub vid: u16,
    pub pid: u16,
    pub manufacturer: [u8; 32],
    pub product: [u8; 32],
    pub reserved: [u8; 8],
}

#[derive(Debug, Clone, Copy, PartialEq, Eq)]
pub struct StoredAxisConfig {
    pub enabled: u8,
    pub pin: u8,
    pub min_value: u16,
    pub max_value: u16,
    pub filter_level: u8,
    pub ewma_alpha: u16,
    pub deadband: u16,
    pub curve: u8,
    pub reserved: [u8; 3],
}

#[derive(Debug, Clone, Copy, PartialEq, Eq)]
pub struct StoredPinMapEntry {
    pub name: [u8; 8],
    pub pin_type: u8,
    pub reserved: u8,
}

#[derive(Debug, Clone, Copy, PartialEq, Eq)]
pub struct StoredLogicalInput {
    pub input_type: u8,
    pub behavior: u8,
    pub joy_button_id: u8,
    pub reverse: u8,
    pub encoder_latch_mode: u8,
    pub reserved: [u8; 3],
    pub data: [u8; 2],
}

/// The fixed part of the record.
#[derive(Debug, Clone, Copy, PartialEq, Eq)]
pub struct StoredConfig {
    pub header: ConfigHeader,
    pub usb_descriptor: StoredUSBDescriptor,
    pub pin_map_count: u8,
    pub logical_input_count: u8,
    pub shift_reg_count: u8,
    pub padding: u8,
    pub axes: [StoredAxisConfig; 8],
}

impl ConfigHeader {
    /// The sixteen bytes of the header on the wire.
    pub open spec fn packed(self) -> Seq<u8> {
        le32(self.magic) + le16(self.version) + le16(self.size) + le32(self.checksum)
            + self.reserved@
    }

    /// The header that sixteen bytes stand for.
    pub open spec fn unpacked(b: Seq<u8>) -> ConfigHeader {
        ConfigHeader {
            magic: read32(b, 0),
            version: read16(b, 4),
            size: read16(b, 6),
            checksum: read32(b, 8),
            reserved: array_of::<4>(b.subrange(12, 16)),
        }
    }

    /// Packing loses nothing: the packed form has the size of the record and
    /// unpacks to the record.
    pub proof fn lemma_packed(self)
        ensures
            self.packed().len() == CONFIG_HEADER_SIZE,
            ConfigHeader::unpacked(self.packed()) == self,
    {
        let b = self.packed();
        lemma_le32_read(self.magic);
        lemma_le16_read(self.version);
        lemma_le16_read(self.size);
        lemma_le32_read(self.checksum);
        assert(b.subrange(0, 4) =~= le32(self.magic));
        assert(b.subrange(4, 6) =~= le16(self.version));
        assert(b.subrange(6, 8) =~= le16(self.size));
        assert(b.subrange(8, 12) =~= le32(self.checksum));
        assert(b.subrange(12, 16) =~= self.reserved@);
        assert(read32(b, 0) == read32(b.subrange(0, 4), 0));
        assert(read16(b, 4) == read16(b.subrange(4, 6), 0));
        assert(read16(b, 6) == read16(b.subrange(6, 8), 0));
        assert(read32(b, 8) == read32(b.subrange(8, 12), 0));
        lemma_array_of_view::<4>(self.reserved);
    }

    /// The magic, version and size fields do not depend on the checksum,
    /// and the checksum occupies bytes 8 to 11 alone.
    pub proof fn lemma_checksum_field(self, checksum: u32)
        ensures
            (ConfigHeader { checksum, ..self }).packed().subrange(0, 8) == self.packed().subrange(
                0,
                8,
            ),
            (ConfigHeader { checksum, ..self }).packed().subrange(12, 16) == self.packed().subrange(
                12,
                16,
            ),
            (ConfigHeader { checksum, ..self }).packed().subrange(8, 12) == le32(checksum),
    {
        let a = (ConfigHeader { checksum, ..self }).packed();
        let b = self.packed();
        assert(a.subrange(0, 8) =~= b.subrange(0, 8));
        assert(a.subrange(12, 16) =~= b.subrange(12, 16));
        assert(a.subrange(8, 12) =~= le32(checksum));
    }

    /// Appends the packed form to `buf`.
    pub fn write_to(&self, buf: &mut Vec<u8>)
        ensures
            final(buf)@ == old(buf)@ + self.packed(),
    {
        put_u32(buf, self.magic);
        put_u16(buf, self.version);
        put_u16(buf, self.size);
        put_u32(buf, self.checksum);
        put_bytes(buf, &self.reserved);
        assert(buf@ =~= old(buf)@ + self.packed());
    }

    /// Reads the record that stands at `at` in `data`.
    pub fn read_from(data: &[u8], at: usize) -> (r: ConfigHeader)
        requires
            at + CONFIG_HEADER_SIZE <= data.len(),
        ensures
            r == ConfigHeader::unpacked(data@.subrange(at as int, at + CONFIG_HEADER_SIZE)),
    {
        let ghost b = data@.subrange(at as int, at + CONFIG_HEADER_SIZE);
        let r = ConfigHeader {
            magic: get_u32(data, at),
            version: get_u16(data, at + 4),
            size: get_u16(data, at + 6),
            checksum: get_u32(data, at + 8),
            reserved: get_bytes::<4>(data, at + 12),
        };
        assert(b.subrange(12, 16) =~= data@.subrange(at + 12, at + 16));
        r
    }
}

impl StoredUSBDescriptor {
    /// The bytes of the record on the wire: its fields in order, integers
    /// little-endian.
    pub open spec fn packed(self) -> Seq<u8> {
        le16(self.vid) + le16(self.pid) + self.manufacturer@ + self.product@ + self.reserved@
    }

    /// The record that the bytes stand for.
    pub open spec fn unpacked(b: Seq<u8>) -> StoredUSBDescriptor {
        StoredUSBDescriptor {
            vid: read16(b, 0),
            pid: read16(b, 2),
            manufacturer: array_of::<32>(b.subrange(4, 36)),
            product: array_of::<32>(b.subrange(36, 68)),
            reserved: array_of::<8>(b.subrange(68, 76)),
        }
    }

    /// Packing loses nothing: the packed form has the size of the record and
    /// unpacks to the record.
    pub proof fn lemma_packed(self)
        ensures
            self.packed().len() == STORED_USB_DESCRIPTOR_SIZE,
            StoredUSBDescriptor::unpacked(self.packed()) == self,
    {
        let b = self.packed();
        lemma_le16_read(self.vid);
        lemma_le16_read(self.pid);
        assert(b.subrange(0, 2) =~= le16(self.vid));
        assert(b.subrange(2, 4) =~= le16(self.pid));
        assert(b.subrange(4, 36) =~= self.manufacturer@);
        assert(b.subrange(36, 68) =~= self.product@);
        assert(b.subrange(68, 76) =~= self.reserved@);
        assert(read16(b, 0) == read16(b.subrange(0, 2), 0));
        assert(read16(b, 2) == read16(b.subrange(2, 4), 0));
        lemma_array_of_view::<32>(self.manufacturer);
        lemma_array_of_view::<32>(self.product);
        lemma_array_of_view::<8>(self.reserved);
    }

    /// Appends the packed form to `buf`.
    pub fn write_to(&self, buf: &mut Vec<u8>)
        ensures
            final(buf)@ == old(buf)@ + self.packed(),
    {
        put_u16(buf, self.vid);
        put_u16(buf, self.pid);
        put_bytes(buf, &self.manufacturer);
        put_bytes(buf, &self.product);
        put_bytes(buf, &self.reserved);
        assert(buf@ =~= old(buf)@ + self.packed());
    }

    /// Reads the record that stands at `at` in `data`.
    pub fn read_from(data: &[u8], at: usize) -> (r: StoredUSBDescriptor)
        requires
            at + STORED_USB_DESCRIPTOR_SIZE <= data.len(),
        ensures
            r == StoredUSBDescriptor::unpacked(
                data@.subrange(at as int, at + STORED_USB_DESCRIPTOR_SIZE),
            ),
    {
        let ghost b = data@.subrange(at as int, at + STORED_USB_DESCRIPTOR_SIZE);
        let r = StoredUSBDescriptor {
            vid: get_u16(data, at),
            pid: get_u16(data, at + 2),
            manufacturer: get_bytes::<32>(data, at + 4),
            product: get_bytes::<32>(data, at + 36),
            reserved: get_bytes::<8>(data, at + 68),
        };
        assert(b.subrange(4, 36) =~= data@.subrange(at + 4, at + 36));
        assert(b.subrange(36, 68) =~= data@.subrange(at + 36, at + 68));
        assert(b.subrange(68, 76) =~= data@.subrange(at + 68, at + 76));
        r
    }
}

impl StoredAxisConfig {
    /// The bytes of the record on the wire: its fields in order, integers
    /// little-endian.
    pub open spec fn packed(self) -> Seq<u8> {
        seq![self.enabled, self.pin] + le16(self.min_value) + le16(self.max_value)
            + seq![self.filter_level] + le16(self.ewma_alpha) + le16(self.deadband)
            + seq![self.curve] + self.reserved@
    }

    /// The record that the bytes stand for.
    pub open spec fn unpacked(b: Seq<u8>) -> StoredAxisConfig {
        StoredAxisConfig {
            enabled: b[0],
            pin: b[1],
            min_value: read16(b, 2),
            max_value: read16(b, 4),
            filter_level: b[6],
            ewma_alpha: read16(b, 7),
            deadband: read16(b, 9),
            curve: b[11],
            reserved: array_of::<3>(b.subrange(12, 15)),
        }
    }

    /// Packing loses nothing: the packed form has the size of the record and
    /// unpacks to the record.
    pub proof fn lemma_packed(self)
        ensures
            self.packed().len() == STORED_AXIS_CONFIG_SIZE,
            StoredAxisConfig::unpacked(self.packed()) == self,
    {
        let b = self.packed();
        lemma_le16_read(self.min_value);
        lemma_le16_read(self.max_value);
        lemma_le16_read(self.ewma_alpha);
        lemma_le16_read(self.deadband);
        assert(b.subrange(2, 4) =~= le16(self.min_value));
        assert(b.subrange(4, 6) =~= le16(self.max_value));
        assert(b.subrange(7, 9) =~= le16(self.ewma_alpha));
        assert(b.subrange(9, 11) =~= le16(self.deadband));
        assert(b.subrange(12, 15) =~= self.reserved@);
        assert(read16(b, 2) == read16(b.subrange(2, 4), 0));
        assert(read16(b, 4) == read16(b.subrange(4, 6), 0));
        assert(read16(b, 7) == read16(b.subrange(7, 9), 0));
        assert(read16(b, 9) == read16(b.subrange(9, 11), 0));
        lemma_array_of_view::<3>(self.reserved);
    }

    /// Appends the packed form to `buf`.
    pub fn write_to(&self, buf: &mut Vec<u8>)
        ensures
            final(buf)@ == old(buf)@ + self.packed(),
    {
        put_u8(buf, self.enabled);
        put_u8(buf, self.pin);
        put_u16(buf, self.min_value);
        put_u16(buf, self.max_value);
        put_u8(buf, self.filter_level);
        put_u16(buf, self.ewma_alpha);
        put_u16(buf, self.deadband);
        put_u8(buf, self.curve);
        put_bytes(buf, &self.reserved);
        assert(buf@ =~= old(buf)@ + self.packed());
    }

    /// Reads the record that stands at `at` in `data`.
    pub fn read_from(data: &[u8], at: usize) -> (r: StoredAxisConfig)
        requires
            at + STORED_AXIS_CONFIG_SIZE <= data.len(),
        ensures
            r == StoredAxisConfig::unpacked(
                data@.subrange(at as int, at + STORED_AXIS_CONFIG_SIZE),
            ),
    {
        let ghost b = data@.subrange(at as int, at + STORED_AXIS_CONFIG_SIZE);
        let r = StoredAxisConfig {
            enabled: data[at],
            pin: data[at + 1],
            min_value: get_u16(data, at + 2),
            max_value: get_u16(data, at + 4),
            filter_level: data[at + 6],
            ewma_alpha: get_u16(data, at + 7),
            deadband: get_u16(data, at + 9),
            curve: data[at + 11],
            reserved: get_bytes::<3>(data, at + 12),
        };
        assert(b.subrange(12, 15) =~= data@.subrange(at + 12, at + 15));
        r
    }
}

impl StoredPinMapEntry {
    /// The bytes of the record on the wire: its fields in order, integers
    /// little-endian.
    pub open spec fn packed(self) -> Seq<u8> {
        self.name@ + seq![self.pin_type, self.reserved]
    }

    /// The record that the bytes stand for.
    pub open spec fn unpacked(b: Seq<u8>) -> StoredPinMapEntry {
        StoredPinMapEntry { name: array_of::<8>(b.subrange(0, 8)), pin_type: b[8], reserved: b[9] }
    }

    /// Packing loses nothing: the packed form has the size of the record and
    /// unpacks to the record.
    pub proof fn lemma_packed(self)
        ensures
            self.packed().len() == STORED_PIN_MAP_ENTRY_SIZE,
            StoredPinMapEntry::unpacked(self.packed()) == self,
    {
        let b = self.packed();
        assert(b.subrange(0, 8) =~= self.name@);
        lemma_array_of_view::<8>(self.name);
    }

    /// Appends the packed form to `buf`.
    pub fn write_to(&self, buf: &mut Vec<u8>)
        ensures
            final(buf)@ == old(buf)@ + self.packed(),
    {
        put_bytes(buf, &self.name);
        put_u8(buf, self.pin_type);
        put_u8(buf, self.reserved);
        assert(buf@ =~= old(buf)@ + self.packed());
    }

    /// Reads the record that stands at `at` in `data`.
    pub fn read_from(data: &[u8], at: usize) -> (r: StoredPinMapEntry)
        requires
            at + STORED_PIN_MAP_ENTRY_SIZE <= data.len(),
        ensures
            r == StoredPinMapEntry::unpacked(
                data@.subrange(at as int, at + STORED_PIN_MAP_ENTRY_SIZE),
            ),
    {
        let ghost b = data@.subrange(at as int, at + STORED_PIN_MAP_ENTRY_SIZE);
        let r = StoredPinMapEntry {
            name: get_bytes::<8>(data, at),
            pin_type: data[at + 8],
            reserved: data[at + 9],
        };
        assert(b.subrange(0, 8) =~= data@.subrange(at as int, at + 8));
        r
    }
}

impl StoredLogicalInput {
    /// The bytes of the record on the wire: its fields in order, integers
    /// little-endian.
    pub open spec fn packed(self) -> Seq<u8> {
        seq![
            self.input_type,
            self.behavior,
            self.joy_button_id,
            self.reverse,
            self.encoder_latch_mode,
        ] + self.reserved@ + self.data@
    }

    /// The record that the bytes stand for.
    pub open spec fn unpacked(b: Seq<u8>) -> StoredLogicalInput {
        StoredLogicalInput {
            input_type: b[0],
            behavior: b[1],
            joy_button_id: b[2],
            reverse: b[3],
            encoder_latch_mode: b[4],
            reserved: array_of::<3>(b.subrange(5, 8)),
            data: array_of::<2>(b.subrange(8, 10)),
        }
    }

    /// Packing loses nothing: the packed form has the size of the record and
    /// unpacks to the record.
    pub proof fn lemma_packed(self)
        ensures
            self.packed().len() == STORED_LOGICAL_INPUT_SIZE,
            StoredLogicalInput::unpacked(self.packed()) == self,
    {
        let b = self.packed();
        assert(b.subrange(5, 8) =~= self.reserved@);
        assert(b.subrange(8, 10) =~= self.data@);
        lemma_array_of_view::<3>(self.reserved);
        lemma_array_of_view::<2>(self.data);
    }

    /// Appends the packed form to `buf`.
    pub fn write_to(&self, buf: &mut Vec<u8>)
        ensures
            final(buf)@ == old(buf)@ + self.packed(),
    {
        put_u8(buf, self.input_type);
        put_u8(buf, self.behavior);
        put_u8(buf, self.joy_button_id);
        put_u8(buf, self.reverse);
        put_u8(buf, self.encoder_latch_mode);
        put_bytes(buf, &self.reserved);
        put_bytes(buf, &self.data);
        assert(buf@ =~= old(buf)@ + self.packed());
    }

    /// Reads the record that stands at `at` in `data`.
    pub fn read_from(data: &[u8], at: usize) -> (r: StoredLogicalInput)
        requires
            at + STORED_LOGICAL_INPUT_SIZE <= data.len(),
        ensures
            r == StoredLogicalInput::unpacked(
                data@.subrange(at as int, at + STORED_LOGICAL_INPUT_SIZE),
            ),
    {
        let ghost b = data@.subrange(at as int, at + STORED_LOGICAL_INPUT_SIZE);
        let r = StoredLogicalInput {
            input_type: data[at],
            behavior: data[at + 1],
            joy_button_id: data[at + 2],
            reverse: data[at + 3],
            encoder_latch_mode: data[at + 4],
            reserved: get_bytes::<3>(data, at + 5),
            data: get_bytes::<2>(data, at + 8),
        };
        assert(b.subrange(5, 8) =~= data@.subrange(at + 5, at + 8));
        assert(b.subrange(8, 10) =~= data@.subrange(at + 8, at + 10));
        r
    }
}

impl StoredUSBDescriptor {
    /// The Raspberry Pi vendor id and the controller's product id, the
    /// names and the reserved bytes zero.
    pub open spec fn spec_default() -> StoredUSBDescriptor {
        StoredUSBDescriptor {
            vid: 0x2E8A,
            pid: 0xA02F,
            manufacturer: spec_array_fill_for_copy_type::<u8, 32>(0u8),
            product: spec_array_fill_for_copy_type::<u8, 32>(0u8),
            reserved: spec_array_fill_for_copy_type::<u8, 8>(0u8),
        }
    }
}

impl Default for StoredUSBDescriptor {
    /// The Raspberry Pi vendor id and the controller's product id, names empty.
    fn default() -> (r: StoredUSBDescriptor)
        ensures
            r == StoredUSBDescriptor::spec_default(),
    {
        StoredUSBDescriptor {
            vid: 0x2E8A,
            pid: 0xA02F,
            manufacturer: [0; 32],
            product: [0; 32],
            reserved: [0; 8],
        }
    }
}

impl StoredAxisConfig {
    /// A disabled axis with the full ten-bit range and a linear curve.
    pub open spec fn spec_default() -> StoredAxisConfig {
        StoredAxisConfig {
            enabled: 0,
            pin: 0,
            min_value: 0,
            max_value: 1023,
            filter_level: 2,
            ewma_alpha: 6554,
            deadband: 0,
            curve: 0,
            reserved: [0u8, 0u8, 0u8],
        }
    }
}

impl Default for StoredAxisConfig {
    fn default() -> (r: StoredAxisConfig)
        ensures
            r == StoredAxisConfig::spec_default(),
    {
        let r = StoredAxisConfig {
            enabled: 0,
            pin: 0,
            min_value: 0,
            max_value: 1023,
            filter_level: 2,
            ewma_alpha: 6554,
            deadband: 0,
            curve: 0,
            reserved: [0; 3],
        };
        assert(r.reserved =~= StoredAxisConfig::spec_default().reserved);
        r
    }
}

impl ConfigHeader {
    /// The header of a record of `size` bytes whose checksum is not yet
    /// computed: the expected magic and version, the checksum and the
    /// reserved bytes zero.
    pub open spec fn spec_new(size: u16) -> ConfigHeader {
        ConfigHeader {
            magic: CONFIG_MAGIC,
            version: CONFIG_VERSION,
            size,
            checksum: 0,
            reserved: spec_array_fill_for_copy_type::<u8, 4>(0u8),
        }
    }

    /// A header for a record of `size` bytes, its checksum not yet computed.
    pub fn new(size: u16) -> (r: ConfigHeader)
        ensures
            r == ConfigHeader::spec_new(size),
    {
        ConfigHeader {
            magic: CONFIG_MAGIC,
            version: CONFIG_VERSION,
            size,
            checksum: 0,
            reserved: [0; 4],
        }
    }

    /// The first fault of the header, the magic before the version.
    pub open spec fn spec_validate(self) -> Result<(), ConfigError> {
        if self.magic != CONFIG_MAGIC {
            Err(ConfigError::InvalidMagic { magic: self.magic })
        } else if self.version != CONFIG_VERSION {
            Err(ConfigError::InvalidVersion { version: self.version })
        } else {
            Ok(())
        }
    }

    /// Accepts the header iff it carries the expected magic and version.
    pub fn validate(&self) -> (r: Result<(), ConfigError>)
        ensures
            r == self.spec_validate(),
    {
        if self.magic != CONFIG_MAGIC {
            return Err(ConfigError::InvalidMagic { magic: self.magic });
        }
        if self.version != CONFIG_VERSION {
            return Err(ConfigError::InvalidVersion { version: self.version });
        }
        Ok(())
    }
}

impl StoredConfig {
    /// The wire form of the first `n` axes, one after the other.
    pub open spec fn axes_packed(axes: [StoredAxisConfig; 8], n: nat) -> Seq<u8>
        decreases n,
    {
        if n == 0 {
            Seq::empty()
        } else {
            Self::axes_packed(axes, (n - 1) as nat) + axes[n - 1].packed()
        }
    }

    /// The bytes of the record on the wire: its fields in order, integers
    /// little-endian.
    pub open spec fn packed(self) -> Seq<u8> {
        self.header.packed() + self.usb_descriptor.packed() + seq![
            self.pin_map_count,
            self.logical_input_count,
            self.shift_reg_count,
            self.padding,
        ] + Self::axes_packed(self.axes, 8)
    }

    /// The record that the bytes stand for.
    pub open spec fn unpacked(b: Seq<u8>) -> StoredConfig {
        StoredConfig {
            header: ConfigHeader::unpacked(b.subrange(0, 16)),
            usb_descriptor: StoredUSBDescriptor::unpacked(b.subrange(16, 92)),
            pin_map_count: b[92],
            logical_input_count: b[93],
            shift_reg_count: b[94],
            padding: b[95],
            axes: [
                StoredAxisConfig::unpacked(b.subrange(96, 111)),
                StoredAxisConfig::unpacked(b.subrange(111, 126)),
                StoredAxisConfig::unpacked(b.subrange(126, 141)),
                StoredAxisConfig::unpacked(b.subrange(141, 156)),
                StoredAxisConfig::unpacked(b.subrange(156, 171)),
                StoredAxisConfig::unpacked(b.subrange(171, 186)),
                StoredAxisConfig::unpacked(b.subrange(186, 201)),
                StoredAxisConfig::unpacked(b.subrange(201, 216)),
            ],
        }
    }

    /// The first `n` axes take fifteen bytes each, and axis `k` stands at
    /// byte `15 * k`.
    pub proof fn lemma_axes_packed(axes: [StoredAxisConfig; 8], n: nat, k: int)
        requires
            n <= 8,
            0 <= k < n,
        ensures
            Self::axes_packed(axes, n).len() == 15 * n,
            Self::axes_packed(axes, n).subrange(15 * k, 15 * k + 15) == axes[k].packed(),
        decreases n,
    {
        axes[n - 1].lemma_packed();
        if n > 1 {
            Self::lemma_axes_packed(axes, (n - 1) as nat, if k < n - 1 { k } else { 0 });
        }
        let all = Self::axes_packed(axes, n);
        let init = Self::axes_packed(axes, (n - 1) as nat);
        assert(init.len() == 15 * (n - 1)) by {
            if n == 1 {
            }
        }
        if k < n - 1 {
            assert(all.subrange(15 * k, 15 * k + 15) =~= init.subrange(15 * k, 15 * k + 15));
        } else {
            assert(all.subrange(15 * k, 15 * k + 15) =~= axes[k].packed());
        }
    }

    /// Each axis stands where the layout puts it.
    proof fn lemma_axis_unpacked(self, k: int)
        requires
            0 <= k < 8,
        ensures
            StoredAxisConfig::unpacked(self.packed().subrange(96 + 15 * k, 111 + 15 * k))
                == self.axes[k],
    {
        let b = self.packed();
        let ax = Self::axes_packed(self.axes, 8);
        self.header.lemma_packed();
        self.usb_descriptor.lemma_packed();
        Self::lemma_axes_packed(self.axes, 8, k);
        self.axes[k].lemma_packed();
        assert(b.subrange(96 + 15 * k, 111 + 15 * k) =~= ax.subrange(15 * k, 15 * k + 15));
    }

    proof fn lemma_head_unpacked(self)
        ensures
            self.packed().len() == STORED_CONFIG_SIZE,
            ConfigHeader::unpacked(self.packed().subrange(0, 16)) == self.header,
            StoredUSBDescriptor::unpacked(self.packed().subrange(16, 92)) == self.usb_descriptor,
            self.packed()[92] == self.pin_map_count,
            self.packed()[93] == self.logical_input_count,
            self.packed()[94] == self.shift_reg_count,
            self.packed()[95] == self.padding,
    {
        let b = self.packed();
        self.header.lemma_packed();
        self.usb_descriptor.lemma_packed();
        Self::lemma_axes_packed(self.axes, 8, 0);
        assert(b.subrange(0, 16) =~= self.header.packed());
        assert(b.subrange(16, 92) =~= self.usb_descriptor.packed());
    }

    /// Packing loses nothing: the packed form has the size of the record and
    /// unpacks to the record.
    pub proof fn lemma_packed(self)
        ensures
            self.packed().len() == STORED_CONFIG_SIZE,
            StoredConfig::unpacked(self.packed()) == self,
    {
        let r = StoredConfig::unpacked(self.packed());
        self.lemma_head_unpacked();
        assert forall|k: int| 0 <= k < 8 implies r.axes[k] == self.axes[k] by {
            self.lemma_axis_unpacked(k);
        }
        assert(r.axes =~= self.axes);
    }

    /// The fixed part of a fresh record: a header for a size not yet known,
    /// the default descriptor, all counts zero and eight default axes.
    pub open spec fn spec_new() -> StoredConfig {
        StoredConfig {
            header: ConfigHeader::spec_new(0),
            usb_descriptor: StoredUSBDescriptor::spec_default(),
            pin_map_count: 0,
            logical_input_count: 0,
            shift_reg_count: 0,
            padding: 0,
            axes: spec_array_fill_for_copy_type::<StoredAxisConfig, 8>(
                StoredAxisConfig::spec_default(),
            ),
        }
    }

    /// A record with the current magic and version, the default descriptor,
    /// no entries and eight default axes.
    pub fn new() -> (r: StoredConfig)
        ensures
            r == StoredConfig::spec_new(),
    {
        StoredConfig {
            header: ConfigHeader::new(0),
            usb_descriptor: StoredUSBDescriptor::default(),
            pin_map_count: 0,
            logical_input_count: 0,
            shift_reg_count: 0,
            padding: 0,
            axes: [StoredAxisConfig::default(); 8],
        }
    }

    /// The first count that exceeds its ceiling, the pin map before the inputs.
    pub open spec fn spec_validate_counts(self) -> Result<(), ConfigError> {
        if self.pin_map_count > MAX_PIN_MAP_COUNT {
            Err(ConfigError::PinMapCountTooLarge { count: self.pin_map_count })
        } else if self.logical_input_count > MAX_LOGICAL_INPUT_COUNT {
            Err(ConfigError::LogicalInputCountTooLarge { count: self.logical_input_count })
        } else {
            Ok(())
        }
    }

    /// Accepts the record iff neither declared count exceeds what the
    /// firmware can hold.
    pub fn validate_counts(&self) -> (r: Result<(), ConfigError>)
        ensures
            r == self.spec_validate_counts(),
    {
        if self.pin_map_count > MAX_PIN_MAP_COUNT {
            return Err(ConfigError::PinMapCountTooLarge { count: self.pin_map_count });
        }
        if self.logical_input_count > MAX_LOGICAL_INPUT_COUNT {
            return Err(
                ConfigError::LogicalInputCountTooLarge { count: self.logical_input_count },
            );
        }
        Ok(())
    }

    /// Appends the packed form to `buf`.
    pub fn write_to(&self, buf: &mut Vec<u8>)
        ensures
            final(buf)@ == old(buf)@ + self.packed(),
    {
        self.header.write_to(buf);
        self.usb_descriptor.write_to(buf);
        put_u8(buf, self.pin_map_count);
        put_u8(buf, self.logical_input_count);
        put_u8(buf, self.shift_reg_count);
        put_u8(buf, self.padding);
        let ghost head = buf@;
        assert(head =~= old(buf)@ + self.header.packed() + self.usb_descriptor.packed() + seq![
            self.pin_map_count,
            self.logical_input_count,
            self.shift_reg_count,
            self.padding,
        ]);
        let mut i: usize = 0;
        while i < 8
            invariant
                i <= 8,
                buf@ == head + Self::axes_packed(self.axes, i as nat),
            decreases 8 - i,
        {
            self.axes[i].write_to(buf);
            assert(buf@ =~= head + Self::axes_packed(self.axes, (i + 1) as nat));
            i = i + 1;
        }
        assert(buf@ =~= old(buf)@ + self.packed());
    }

    /// Reads the record that stands at `at` in `data`.
    pub fn read_from(data: &[u8], at: usize) -> (r: StoredConfig)
        requires
            at + STORED_CONFIG_SIZE <= data.len(),
        ensures
            r == StoredConfig::unpacked(data@.subrange(at as int, at + STORED_CONFIG_SIZE)),
    {
        let ghost b = data@.subrange(at as int, at + STORED_CONFIG_SIZE);
        let ghost e = StoredConfig::unpacked(b);
        let header = ConfigHeader::read_from(data, at);
        assert(b.subrange(0, 16) =~= data@.subrange(at as int, at + 16));
        let usb_descriptor = StoredUSBDescriptor::read_from(data, at + 16);
        assert(b.subrange(16, 92) =~= data@.subrange(at + 16, at + 92));
        let mut axes: [StoredAxisConfig; 8] = [StoredAxisConfig::default(); 8];
        let mut i: usize = 0;
        while i < 8
            invariant
                i <= 8,
                at + STORED_CONFIG_SIZE <= data.len(),
                b == data@.subrange(at as int, at + STORED_CONFIG_SIZE),
                forall|k: int|
                    0 <= k < i ==> axes[k] == StoredAxisConfig::unpacked(
                        #[trigger] b.subrange(96 + 15 * k, 111 + 15 * k),
                    ),
            decreases 8 - i,
        {
            let axis = StoredAxisConfig::read_from(data, at + 96 + 15 * i);
            assert(b.subrange(96 + 15 * i, 111 + 15 * i) =~= data@.subrange(
                at + 96 + 15 * i,
                at + 96 + 15 * i + 15,
            ));
            axes[i] = axis;
            i = i + 1;
        }
        let r = StoredConfig {
            header,
            usb_descriptor,
            pin_map_count: data[at + 92],
            logical_input_count: data[at + 93],
            shift_reg_count: data[at + 94],
            padding: data[at + 95],
            axes,
        };
        proof {
            assert forall|k: int| 0 <= k < 8 implies r.axes[k] == e.axes[k] by {
                assert(r.axes[k] == StoredAxisConfig::unpacked(
                    b.subrange(96 + 15 * k, 111 + 15 * k),
                ));
            }
            assert(r.axes =~= e.axes);
        }
        r
    }
}

/// One shift of the reflected CRC-32 register.
pub open spec fn crc32_shift(c: u32) -> u32 {
    if c & 1 != 0 {
        (c >> 1) ^ 0xEDB88320u32
    } else {
        c >> 1
    }
}

/// `n` shifts of the register.
pub open spec fn crc32_shifts(c: u32, n: nat) -> u32
    decreases n,
{
    if n == 0 {
        c
    } else {
        crc32_shifts(crc32_shift(c), (n - 1) as nat)
    }
}

/// The register after one more byte: the byte is folded into the low eight
/// bits, then the register is shifted eight times.
pub open spec fn spec_crc32_update_byte(c: u32, byte: u8) -> u32 {
    crc32_shifts(c ^ (byte as u32), 8)
}

/// The register after all of `data`, starting from `c`.
pub open spec fn crc32_fold(c: u32, data: Seq<u8>) -> u32
    decreases data.len(),
{
    if data.len() == 0 {
        c
    } else {
        spec_crc32_update_byte(crc32_fold(c, data.drop_last()), data.last())
    }
}

/// CRC-32 of `data`: polynomial `0xEDB88320`, seed `0xFFFFFFFF`, inverted.
pub open spec fn spec_crc32(data: Seq<u8>) -> u32 {
    !crc32_fold(0xFFFF_FFFFu32, data)
}

/// What the stored checksum covers: every byte but the checksum's own four.
pub open spec fn checksum_coverage(data: Seq<u8>) -> Seq<u8> {
    data.subrange(0, 8) + data.subrange(12, data.len() as int)
}

/// The checksum the firmware stores for a record of these bytes.
pub open spec fn spec_firmware_crc32(data: Seq<u8>) -> u32 {
    spec_crc32(checksum_coverage(data))
}

/// Feeding two runs one after the other is feeding their concatenation.
pub proof fn lemma_crc32_fold_concat(c: u32, a: Seq<u8>, b: Seq<u8>)
    ensures
        crc32_fold(c, a + b) == crc32_fold(crc32_fold(c, a), b),
    decreases b.len(),
{
    if b.len() == 0 {
        assert(a + b =~= a);
    } else {
        lemma_crc32_fold_concat(c, a, b.drop_last());
        assert((a + b).drop_last() =~= a + b.drop_last());
    }
}

/// Advances the CRC register by one byte.
pub fn crc32_update_byte(checksum: u32, byte: u8) -> (r: u32)
    ensures
        r == spec_crc32_update_byte(checksum, byte),
{
    let mut c: u32 = checksum ^ (byte as u32);
    let mut i: u32 = 0;
    while i < 8
        invariant
            i <= 8,
            crc32_shifts(c, (8 - i) as nat) == spec_crc32_update_byte(checksum, byte),
        decreases 8 - i,
    {
        if c & 1 != 0 {
            c = (c >> 1) ^ 0xEDB88320;
        } else {
            c = c >> 1;
        }
        i = i + 1;
    }
    c
}

/// Advances the register over `data[from..to]`.
fn crc32_feed(c: u32, data: &[u8], from: usize, to: usize) -> (r: u32)
    requires
        from <= to <= data.len(),
    ensures
        r == crc32_fold(c, data@.subrange(from as int, to as int)),
{
    let mut r: u32 = c;
    let mut i: usize = from;
    while i < to
        invariant
            from <= i <= to,
            to <= data.len(),
            r == crc32_fold(c, data@.subrange(from as int, i as int)),
        decreases to - i,
    {
        assert(data@.subrange(from as int, i + 1).drop_last() =~= data@.subrange(
            from as int,
            i as int,
        ));
        r = crc32_update_byte(r, data[i]);
        i = i + 1;
    }
    r
}

/// CRC-32 of the whole of `data`.
pub fn calculate_crc32(data: &[u8]) -> (r: u32)
    ensures
        r == spec_crc32(data@),
{
    let c: u32 = crc32_feed(0xFFFF_FFFF, data, 0, data.len());
    assert(data@.subrange(0, data@.len() as int) =~= data@);
    !c
}

/// CRC-32 of a record in the firmware's coverage order: the header up to
/// the checksum field, then everything after that field.
pub fn calculate_firmware_crc32(data: &[u8]) -> (r: u32)
    requires
        data.len() >= CONFIG_HEADER_SIZE,
    ensures
        r == spec_firmware_crc32(data@),
{
    let c0: u32 = crc32_feed(0xFFFF_FFFF, data, 0, 8);
    let c1: u32 = crc32_feed(c0, data, 12, 16);
    let c2: u32 = crc32_feed(c1, data, 16, data.len());
    proof {
        let a = data@.subrange(0, 8);
        let b = data@.subrange(12, 16);
        let c = data@.subrange(16, data@.len() as int);
        lemma_crc32_fold_concat(0xFFFF_FFFF, a, b);
        lemma_crc32_fold_concat(0xFFFF_FFFF, a + b, c);
        assert(a + b + c =~= checksum_coverage(data@));
    }
    !c2
}

/// The wire form of a run of pin-map entries.
pub open spec fn pin_map_packed(s: Seq<StoredPinMapEntry>) -> Seq<u8>
    decreases s.len(),
{
    if s.len() == 0 {
        Seq::empty()
    } else {
        pin_map_packed(s.drop_last()) + s.last().packed()
    }
}

/// The wire form of a run of logical inputs.
pub open spec fn logical_inputs_packed(s: Seq<StoredLogicalInput>) -> Seq<u8>
    decreases s.len(),
{
    if s.len() == 0 {
        Seq::empty()
    } else {
        logical_inputs_packed(s.drop_last()) + s.last().packed()
    }
}

/// Each pin-map entry takes ten bytes.
pub proof fn lemma_pin_map_packed_len(s: Seq<StoredPinMapEntry>)
    ensures
        pin_map_packed(s).len() == 10 * s.len(),
    decreases s.len(),
{
    if s.len() > 0 {
        lemma_pin_map_packed_len(s.drop_last());
        s.last().lemma_packed();
    }
}

/// Pin-map entry `k` stands at byte `10 * k`.
pub proof fn lemma_pin_map_packed_at(s: Seq<StoredPinMapEntry>, k: int)
    requires
        0 <= k < s.len(),
    ensures
        pin_map_packed(s).subrange(10 * k, 10 * k + 10) == s[k].packed(),
    decreases s.len(),
{
    let init = pin_map_packed(s.drop_last());
    lemma_pin_map_packed_len(s.drop_last());
    s.last().lemma_packed();
    if k < s.len() - 1 {
        lemma_pin_map_packed_at(s.drop_last(), k);
        assert(pin_map_packed(s).subrange(10 * k, 10 * k + 10) =~= init.subrange(
            10 * k,
            10 * k + 10,
        ));
    } else {
        assert(pin_map_packed(s).subrange(10 * k, 10 * k + 10) =~= s[k].packed());
    }
}

/// Each logical input takes ten bytes.
pub proof fn lemma_logical_inputs_packed_len(s: Seq<StoredLogicalInput>)
    ensures
        logical_inputs_packed(s).len() == 10 * s.len(),
    decreases s.len(),
{
    if s.len() > 0 {
        lemma_logical_inputs_packed_len(s.drop_last());
        s.last().lemma_packed();
    }
}

/// Logical input `k` stands at byte `10 * k`.
pub proof fn lemma_logical_inputs_packed_at(s: Seq<StoredLogicalInput>, k: int)
    requires
        0 <= k < s.len(),
    ensures
        logical_inputs_packed(s).subrange(10 * k, 10 * k + 10) == s[k].packed(),
    decreases s.len(),
{
    let init = logical_inputs_packed(s.drop_last());
    lemma_logical_inputs_packed_len(s.drop_last());
    s.last().lemma_packed();
    if k < s.len() - 1 {
        lemma_logical_inputs_packed_at(s.drop_last(), k);
        assert(logical_inputs_packed(s).subrange(10 * k, 10 * k + 10) =~= init.subrange(
            10 * k,
            10 * k + 10,
        ));
    } else {
        assert(logical_inputs_packed(s).subrange(10 * k, 10 * k + 10) =~= s[k].packed());
    }
}

/// The complete record: the fixed part and the two variable-length sections.
#[derive(Debug, Clone, PartialEq, Eq)]
pub struct BinaryConfig {
    pub stored_config: StoredConfig,
    pub pin_map_entries: Vec<StoredPinMapEntry>,
    pub logical_inputs: Vec<StoredLogicalInput>,
}

/// A complete record as a mathematical value.
pub struct BinaryConfigView {
    pub stored_config: StoredConfig,
    pub pin_map_entries: Seq<StoredPinMapEntry>,
    pub logical_inputs: Seq<StoredLogicalInput>,
}

impl View for BinaryConfig {
    type V = BinaryConfigView;

    open spec fn view(&self) -> BinaryConfigView {
        BinaryConfigView {
            stored_config: self.stored_config,
            pin_map_entries: self.pin_map_entries@,
            logical_inputs: self.logical_inputs@,
        }
    }
}

impl BinaryConfigView {
    /// The length of the encoded record.
    pub open spec fn total_size(self) -> int {
        STORED_CONFIG_SIZE + 10 * self.pin_map_entries.len() + 10 * self.logical_inputs.len()
    }

    /// The record with other size and checksum fields.
    pub open spec fn with_header(self, size: u16, checksum: u32) -> BinaryConfigView {
        BinaryConfigView {
            stored_config: StoredConfig {
                header: ConfigHeader { size, checksum, ..self.stored_config.header },
                ..self.stored_config
            },
            ..self
        }
    }

    /// The bytes of the record as it stands: the fixed part, then the
    /// pin-map entries, then the logical inputs.
    pub open spec fn wire(self) -> Seq<u8> {
        self.stored_config.packed() + pin_map_packed(self.pin_map_entries) + logical_inputs_packed(
            self.logical_inputs,
        )
    }

    /// The record as encoding leaves it: the size field says the total
    /// length, and the checksum field holds the checksum of the record
    /// laid out with that size and a zero checksum.
    pub open spec fn sealed(self) -> BinaryConfigView {
        let size = self.total_size() as u16;
        self.with_header(size, spec_firmware_crc32(self.with_header(size, 0).wire()))
    }

    /// What encoding gives: the bytes of the sealed record, unless the
    /// total length does not fit the size field.
    pub open spec fn spec_to_bytes(self) -> Result<Seq<u8>, ConfigError> {
        if self.total_size() > 0xFFFF {
            Err(ConfigError::SizeOverflow)
        } else {
            Ok(self.sealed().wire())
        }
    }

    /// A record that decoding accepts once it is encoded: the expected magic
    /// and version, and counts that are within their ceilings and say how
    /// many entries there are.
    pub open spec fn well_formed(self) -> bool {
        &&& self.stored_config.header.spec_validate() is Ok
        &&& self.stored_config.spec_validate_counts() is Ok
        &&& self.stored_config.pin_map_count == self.pin_map_entries.len()
        &&& self.stored_config.logical_input_count == self.logical_inputs.len()
    }
}

/// The pin-map entries that `count` declares, read after the fixed part.
pub open spec fn pin_map_section(data: Seq<u8>, count: nat) -> Seq<StoredPinMapEntry> {
    Seq::new(
        count,
        |k: int| StoredPinMapEntry::unpacked(data.subrange(216 + 10 * k, 226 + 10 * k)),
    )
}

/// The logical inputs that `count` declares, read from `start` on.
pub open spec fn logical_input_section(data: Seq<u8>, start: int, count: nat) -> Seq<
    StoredLogicalInput,
> {
    Seq::new(
        count,
        |k: int| StoredLogicalInput::unpacked(data.subrange(start + 10 * k, start + 10 * k + 10)),
    )
}

/// What decoding gives for a buffer that holds a header but not the whole
/// fixed part: the fault of the header's magic or version, else that the
/// length is not the declared one; a buffer that is as long as it declares
/// is too small to be a record.
pub open spec fn spec_short_buffer_fault(data: Seq<u8>) -> ConfigError {
    let header = ConfigHeader::unpacked(data.subrange(0, CONFIG_HEADER_SIZE as int));
    if let Err(e) = header.spec_validate() {
        e
    } else if data.len() != header.size {
        ConfigError::SizeMismatch { actual: data.len() as usize, declared: header.size }
    } else {
        ConfigError::TooSmall { len: data.len() as usize }
    }
}

/// What decoding gives for every buffer: the record, or the first fault in
/// the order length of the header, magic, version, counts, declared size,
/// checksum, variable-length sections. A buffer that cannot hold a header
/// is too small; one that holds a header but not the fixed part is judged
/// by its header alone.
pub open spec fn spec_from_bytes(data: Seq<u8>) -> Result<BinaryConfigView, ConfigError> {
    if data.len() < CONFIG_HEADER_SIZE {
        Err(ConfigError::TooSmall { len: data.len() as usize })
    } else if data.len() < STORED_CONFIG_SIZE {
        Err(spec_short_buffer_fault(data))
    } else {
        let stored = StoredConfig::unpacked(data.subrange(0, STORED_CONFIG_SIZE as int));
        let pins = stored.pin_map_count as nat;
        let inputs = stored.logical_input_count as nat;
        if let Err(e) = stored.header.spec_validate() {
            Err(e)
        } else if let Err(e) = stored.spec_validate_counts() {
            Err(e)
        } else if data.len() != stored.header.size {
            Err(
                ConfigError::SizeMismatch {
                    actual: data.len() as usize,
                    declared: stored.header.size,
                },
            )
        } else if spec_firmware_crc32(data) != stored.header.checksum {
            Err(
                ConfigError::ChecksumMismatch {
                    calculated: spec_firmware_crc32(data),
                    stored: stored.header.checksum,
                },
            )
        } else if 216 + 10 * pins > data.len() {
            Err(ConfigError::TruncatedPinMap)
        } else if 216 + 10 * pins + 10 * inputs > data.len() {
            Err(ConfigError::TruncatedLogicalInputs)
        } else {
            Ok(
                BinaryConfigView {
                    stored_config: stored,
                    pin_map_entries: pin_map_section(data, pins),
                    logical_inputs: logical_input_section(data, (216 + 10 * pins) as int, inputs),
                },
            )
        }
    }
}

impl BinaryConfigView {
    /// The fresh record: the fixed part of [`StoredConfig::spec_new`] and
    /// no entries.
    pub open spec fn spec_new() -> BinaryConfigView {
        BinaryConfigView {
            stored_config: StoredConfig::spec_new(),
            pin_map_entries: Seq::empty(),
            logical_inputs: Seq::empty(),
        }
    }
}

impl BinaryConfig {
    /// A record with no entries around [`StoredConfig::new`].
    pub fn new() -> (r: BinaryConfig)
        ensures
            r@ == BinaryConfigView::spec_new(),
            r@.well_formed(),
    {
        let r = BinaryConfig {
            stored_config: StoredConfig::new(),
            pin_map_entries: Vec::new(),
            logical_inputs: Vec::new(),
        };
        assert(r@.pin_map_entries =~= Seq::<StoredPinMapEntry>::empty());
        assert(r@.logical_inputs =~= Seq::<StoredLogicalInput>::empty());
        r
    }

    /// The record laid out with the given size field and a zero checksum.
    fn encode_plain(&self, size: u16) -> (buf: Vec<u8>)
        ensures
            buf@ == self@.with_header(size, 0).wire(),
    {
        let sized = StoredConfig {
            header: ConfigHeader { size, checksum: 0, ..self.stored_config.header },
            ..self.stored_config
        };
        let n: usize = self.pin_map_entries.len();
        let m: usize = self.logical_inputs.len();
        let mut buf: Vec<u8> = Vec::new();
        sized.write_to(&mut buf);
        let ghost fixed = buf@;
        assert(fixed =~= sized.packed());
        let mut i: usize = 0;
        while i < n
            invariant
                i <= n,
                n == self.pin_map_entries.len(),
                buf@ == fixed + pin_map_packed(self.pin_map_entries@.take(i as int)),
            decreases n - i,
        {
            self.pin_map_entries[i].write_to(&mut buf);
            assert(self.pin_map_entries@.take(i + 1).drop_last() =~= self.pin_map_entries@.take(
                i as int,
            ));
            assert(buf@ =~= fixed + pin_map_packed(self.pin_map_entries@.take(i + 1)));
            i = i + 1;
        }
        assert(self.pin_map_entries@.take(n as int) =~= self.pin_map_entries@);
        let ghost head = buf@;
        let mut j: usize = 0;
        while j < m
            invariant
                j <= m,
                m == self.logical_inputs.len(),
                buf@ == head + logical_inputs_packed(self.logical_inputs@.take(j as int)),
            decreases m - j,
        {
            self.logical_inputs[j].write_to(&mut buf);
            assert(self.logical_inputs@.take(j + 1).drop_last() =~= self.logical_inputs@.take(
                j as int,
            ));
            assert(buf@ =~= head + logical_inputs_packed(self.logical_inputs@.take(j + 1)));
            j = j + 1;
        }
        assert(self.logical_inputs@.take(m as int) =~= self.logical_inputs@);
        buf
    }

    /// Encodes the record. The size and checksum fields of the result are
    /// computed here, whatever the record holds in them. Fails only when
    /// the total length is more than the size field can say.
    pub fn to_bytes(&self) -> (r: Result<Vec<u8>, ConfigError>)
        ensures
            match r {
                Ok(bytes) => self@.spec_to_bytes() == Ok::<Seq<u8>, ConfigError>(bytes@),
                Err(e) => self@.spec_to_bytes() == Err::<Seq<u8>, ConfigError>(e),
            },
    {
        let n: usize = self.pin_map_entries.len();
        let m: usize = self.logical_inputs.len();
        if n > 6531 || m > 6531 {
            return Err(ConfigError::SizeOverflow);
        }
        let total: usize = STORED_CONFIG_SIZE + 10 * n + 10 * m;
        if total > 0xFFFF {
            return Err(ConfigError::SizeOverflow);
        }
        let mut buf: Vec<u8> = self.encode_plain(total as u16);
        proof {
            self@.lemma_sealed_wire();
        }
        let checksum: u32 = calculate_firmware_crc32(buf.as_slice());
        patch_checksum(&mut buf, checksum);
        Ok(buf)
    }

    /// Decodes a buffer, or says what is wrong with it. Nothing is accepted
    /// in part: the result is a record only if every check has passed.
    pub fn from_bytes(data: &[u8]) -> (r: Result<BinaryConfig, ConfigError>)
        ensures
            match r {
                Ok(config) => spec_from_bytes(data@) == Ok::<BinaryConfigView, ConfigError>(
                    config@,
                ),
                Err(e) => spec_from_bytes(data@) == Err::<BinaryConfigView, ConfigError>(e),
            },
    {
        if data.len() < CONFIG_HEADER_SIZE {
            return Err(ConfigError::TooSmall { len: data.len() });
        }
        if data.len() < STORED_CONFIG_SIZE {
            let header = ConfigHeader::read_from(data, 0);
            match header.validate() {
                Err(e) => {
                    return Err(e);
                },
                Ok(_) => {},
            }
            if data.len() != header.size as usize {
                return Err(
                    ConfigError::SizeMismatch { actual: data.len(), declared: header.size },
                );
            }
            return Err(ConfigError::TooSmall { len: data.len() });
        }
        let stored_config = StoredConfig::read_from(data, 0);
        match stored_config.header.validate() {
            Err(e) => {
                return Err(e);
            },
            Ok(_) => {},
        }
        match stored_config.validate_counts() {
            Err(e) => {
                return Err(e);
            },
            Ok(_) => {},
        }
        let declared: u16 = stored_config.header.size;
        if data.len() != declared as usize {
            return Err(ConfigError::SizeMismatch { actual: data.len(), declared });
        }
        let calculated: u32 = calculate_firmware_crc32(data);
        if calculated != stored_config.header.checksum {
            return Err(
                ConfigError::ChecksumMismatch {
                    calculated,
                    stored: stored_config.header.checksum,
                },
            );
        }
        let pins: usize = stored_config.pin_map_count as usize;
        let inputs: usize = stored_config.logical_input_count as usize;
        if STORED_CONFIG_SIZE + 10 * pins > data.len() {
            return Err(ConfigError::TruncatedPinMap);
        }
        let start: usize = STORED_CONFIG_SIZE + 10 * pins;
        if start + 10 * inputs > data.len() {
            return Err(ConfigError::TruncatedLogicalInputs);
        }
        let mut pin_map_entries: Vec<StoredPinMapEntry> = Vec::new();
        let mut i: usize = 0;
        while i < pins
            invariant
                i <= pins,
                216 + 10 * pins <= data.len(),
                pin_map_entries@ == pin_map_section(data@, i as nat),
            decreases pins - i,
        {
            let entry = StoredPinMapEntry::read_from(data, STORED_CONFIG_SIZE + 10 * i);
            pin_map_entries.push(entry);
            assert(pin_map_entries@ =~= pin_map_section(data@, (i + 1) as nat));
            i = i + 1;
        }
        let mut logical_inputs: Vec<StoredLogicalInput> = Vec::new();
        let mut j: usize = 0;
        while j < inputs
            invariant
                j <= inputs,
                start + 10 * inputs <= data.len(),
                logical_inputs@ == logical_input_section(data@, start as int, j as nat),
            decreases inputs - j,
        {
            let input = StoredLogicalInput::read_from(data, start + 10 * j);
            logical_inputs.push(input);
            assert(logical_inputs@ =~= logical_input_section(
                data@,
                start as int,
                (j + 1) as nat,
            ));
            j = j + 1;
        }
        Ok(BinaryConfig { stored_config, pin_map_entries, logical_inputs })
    }
}

/// Writes `checksum` into bytes 8 to 11.
fn patch_checksum(buf: &mut Vec<u8>, checksum: u32)
    requires
        old(buf).len() >= 12,
    ensures
        final(buf)@ == old(buf)@.subrange(0, 8) + le32(checksum) + old(buf)@.subrange(
            12,
            old(buf)@.len() as int,
        ),
{
    assert(checksum & 0xff <= 0xff) by (bit_vector);
    assert((checksum >> 8) & 0xff <= 0xff) by (bit_vector);
    assert((checksum >> 16) & 0xff <= 0xff) by (bit_vector);
    assert(checksum >> 24 <= 0xff) by (bit_vector);
    buf.set(8, (checksum & 0xff) as u8);
    buf.set(9, ((checksum >> 8) & 0xff) as u8);
    buf.set(10, ((checksum >> 16) & 0xff) as u8);
    buf.set(11, (checksum >> 24) as u8);
    assert(buf@ =~= old(buf)@.subrange(0, 8) + le32(checksum) + old(buf)@.subrange(
        12,
        old(buf)@.len() as int,
    ));
}

/// Two byte runs that agree but for four bytes at 8 to 11 of their first
/// sixteen have the same checksum coverage, and the one is the other with
/// those four bytes replaced.
proof fn lemma_replace_checksum_bytes(h0: Seq<u8>, h1: Seq<u8>, field: Seq<u8>, rest: Seq<u8>)
    requires
        h0.len() == 16,
        field.len() == 4,
        h1 == h0.subrange(0, 8) + field + h0.subrange(12, 16),
    ensures
        h1 + rest == (h0 + rest).subrange(0, 8) + field + (h0 + rest).subrange(
            12,
            (h0 + rest).len() as int,
        ),
        checksum_coverage(h1 + rest) == checksum_coverage(h0 + rest),
{
    assert(h1 + rest =~= (h0 + rest).subrange(0, 8) + field + (h0 + rest).subrange(
        12,
        (h0 + rest).len() as int,
    ));
    assert(checksum_coverage(h1 + rest) =~= checksum_coverage(h0 + rest));
}

impl StoredConfig {
    /// What follows the header in the fixed part.
    pub open spec fn body_packed(self) -> Seq<u8> {
        self.usb_descriptor.packed() + seq![
            self.pin_map_count,
            self.logical_input_count,
            self.shift_reg_count,
            self.padding,
        ] + Self::axes_packed(self.axes, 8)
    }

    /// The fixed part is its header followed by its body.
    pub proof fn lemma_packed_split(self)
        ensures
            self.packed() == self.header.packed() + self.body_packed(),
    {
        assert(self.packed() =~= self.header.packed() + self.body_packed());
    }
}

impl BinaryConfigView {
    /// What follows the header in the record.
    pub open spec fn tail(self) -> Seq<u8> {
        self.stored_config.body_packed() + pin_map_packed(self.pin_map_entries)
            + logical_inputs_packed(self.logical_inputs)
    }

    /// The record on the wire is its header followed by its tail, and as
    /// long as its size says.
    pub proof fn lemma_wire_split(self)
        ensures
            self.wire() == self.stored_config.header.packed() + self.tail(),
            self.wire().len() == self.total_size(),
    {
        self.stored_config.lemma_packed_split();
        self.stored_config.lemma_packed();
        lemma_pin_map_packed_len(self.pin_map_entries);
        lemma_logical_inputs_packed_len(self.logical_inputs);
        let h = self.stored_config.header.packed();
        let b = self.stored_config.body_packed();
        let p = pin_map_packed(self.pin_map_entries);
        let l = logical_inputs_packed(self.logical_inputs);
        assert((h + b) + p + l =~= h + (b + p + l));
    }

    /// The bytes of a sealed record are those of the record laid out with a
    /// zero checksum, with the checksum written into bytes 8 to 11; the
    /// checksum covers none of its own bytes.
    pub proof fn lemma_sealed_wire(self)
        ensures
            ({
                let size = self.total_size() as u16;
                let plain = self.with_header(size, 0).wire();
                let checksum = spec_firmware_crc32(plain);
                &&& plain.len() == self.total_size()
                &&& self.sealed().wire() == plain.subrange(0, 8) + le32(checksum) + plain.subrange(
                    12,
                    plain.len() as int,
                )
                &&& checksum_coverage(self.sealed().wire()) == checksum_coverage(plain)
            }),
    {
        let size = self.total_size() as u16;
        let sized = self.with_header(size, 0);
        let plain = sized.wire();
        let checksum = spec_firmware_crc32(plain);
        let sealed = self.sealed();
        let h0 = sized.stored_config.header;
        let h1 = sealed.stored_config.header;
        sized.lemma_wire_split();
        sealed.lemma_wire_split();
        assert(sized.tail() == sealed.tail());
        assert(h1 == ConfigHeader { checksum, ..h0 });
        assert(h1.packed() == h0.packed().subrange(0, 8) + le32(checksum) + h0.packed().subrange(
            12,
            16,
        )) by {
            h0.lemma_checksum_field(checksum);
            h0.lemma_packed();
            h1.lemma_packed();
            let p = h1.packed();
            assert(p =~= p.subrange(0, 8) + p.subrange(8, 12) + p.subrange(12, 16));
        }
        assert(h0.packed().len() == 16) by {
            h0.lemma_packed();
        }
        assert(le32(checksum).len() == 4);
        lemma_replace_checksum_bytes(h0.packed(), h1.packed(), le32(checksum), sized.tail());
    }
}

/// What a configuration file becomes when it is decoded and encoded
/// again before it is written to the device: its own bytes as far as the
/// declared entries reach, or the fault that decoding or encoding finds.
pub open spec fn spec_validated_bytes(data: Seq<u8>) -> Result<Seq<u8>, ConfigError> {
    match spec_from_bytes(data) {
        Ok(config) => config.spec_to_bytes(),
        Err(e) => Err(e),
    }
}

/// Checks a configuration file before it is written to the device, by
/// decoding it and encoding what was decoded.
pub fn validated_bytes(data: &[u8]) -> (r: Result<Vec<u8>, ConfigError>)
    ensures
        match r {
            Ok(bytes) => spec_validated_bytes(data@) == Ok::<Seq<u8>, ConfigError>(bytes@),
            Err(e) => spec_validated_bytes(data@) == Err::<Seq<u8>, ConfigError>(e),
        },
{
    match BinaryConfig::from_bytes(data) {
        Ok(config) => config.to_bytes(),
        Err(e) => Err(e),
    }
}

impl ConfigError {
    /// What the error says, with the values that were found.
    pub open spec fn text(self) -> Seq<char> {
        match self {
            ConfigError::TooSmall { len } => "Data too small for StoredConfig"@,
            ConfigError::InvalidMagic { magic } => "Invalid magic number: 0x"@ + hex_upper(
                magic as nat,
                8,
            ),
            ConfigError::InvalidVersion { version } => "Invalid version: "@ + decimal(
                version as nat,
            ) + " (expected "@ + decimal(CONFIG_VERSION as nat) + ")"@,
            ConfigError::PinMapCountTooLarge { count } => "Pin map count "@ + decimal(
                count as nat,
            ) + " exceeds maximum "@ + decimal(MAX_PIN_MAP_COUNT as nat),
            ConfigError::LogicalInputCountTooLarge { count } => "Logical input count "@ + decimal(
                count as nat,
            ) + " exceeds maximum "@ + decimal(MAX_LOGICAL_INPUT_COUNT as nat),
            ConfigError::SizeMismatch { actual, declared } => "Size mismatch: got "@ + decimal(
                actual as nat,
            ) + " bytes, header says "@ + decimal(declared as nat),
            ConfigError::ChecksumMismatch {
                calculated,
                stored,
            } => "Checksum mismatch: calculated 0x"@ + hex_upper(calculated as nat, 8)
                + ", got 0x"@ + hex_upper(stored as nat, 8),
            ConfigError::TruncatedPinMap => "Insufficient data for pin map entries"@,
            ConfigError::TruncatedLogicalInputs => "Insufficient data for logical inputs"@,
            ConfigError::SizeOverflow => "Configuration too large for the size field"@,
        }
    }

    /// The error in words.
    pub fn message(&self) -> (r: String)
        ensures
            r@ == self.text(),
    {
        match self {
            ConfigError::TooSmall { len } => "Data too small for StoredConfig".to_owned(),
            ConfigError::InvalidMagic { magic } => {
                let mut s = "Invalid magic number: 0x".to_owned();
                push_hex_upper(&mut s, *magic as u64, 8);
                s
            },
            ConfigError::InvalidVersion { version } => {
                let mut s = "Invalid version: ".to_owned();
                push_decimal(&mut s, *version as u64);
                s.append(" (expected ");
                push_decimal(&mut s, CONFIG_VERSION as u64);
                s.append(")");
                s
            },
            ConfigError::PinMapCountTooLarge { count } => {
                let mut s = "Pin map count ".to_owned();
                push_decimal(&mut s, *count as u64);
                s.append(" exceeds maximum ");
                push_decimal(&mut s, MAX_PIN_MAP_COUNT as u64);
                s
            },
            ConfigError::LogicalInputCountTooLarge { count } => {
                let mut s = "Logical input count ".to_owned();
                push_decimal(&mut s, *count as u64);
                s.append(" exceeds maximum ");
                push_decimal(&mut s, MAX_LOGICAL_INPUT_COUNT as u64);
                s
            },
            ConfigError::SizeMismatch { actual, declared } => {
                let mut s = "Size mismatch: got ".to_owned();
                push_decimal(&mut s, *actual as u64);
                s.append(" bytes, header says ");
                push_decimal(&mut s, *declared as u64);
                s
            },
            ConfigError::ChecksumMismatch { calculated, stored } => {
                let mut s = "Checksum mismatch: calculated 0x".to_owned();
                push_hex_upper(&mut s, *calculated as u64, 8);
                s.append(", got 0x");
                push_hex_upper(&mut s, *stored as u64, 8);
                s
            },
            ConfigError::TruncatedPinMap => "Insufficient data for pin map entries".to_owned(),
            ConfigError::TruncatedLogicalInputs => "Insufficient data for logical inputs".to_owned(),
            ConfigError::SizeOverflow => "Configuration too large for the size field".to_owned(),
        }
    }
}

} // verus!
