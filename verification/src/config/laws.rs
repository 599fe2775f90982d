//! What holds of the codec as a whole: decoding undoes encoding, and a
//! damaged, wrongly labelled or shortened buffer is never accepted.

use crate::config::binary::{
    checksum_coverage, crc32_fold, crc32_shift, crc32_shifts, lemma_logical_inputs_packed_at,
    lemma_logical_inputs_packed_len, lemma_pin_map_packed_at, lemma_pin_map_packed_len,
    logical_input_section, logical_inputs_packed, pin_map_packed, pin_map_section,
    spec_crc32_update_byte, spec_firmware_crc32, spec_from_bytes, BinaryConfigView, ConfigError,
    StoredConfig, CONFIG_HEADER_SIZE, CONFIG_MAGIC, CONFIG_VERSION, STORED_CONFIG_SIZE,
};
use crate::config::wire::{read16, read32};
use vstd::prelude::*;

verus! {

broadcast use vstd::array::group_array_axioms;

/// The fixed part of a record is what stands first in its bytes.
proof fn lemma_wire_fixed_part(s: BinaryConfigView)
    ensures
        s.wire().len() == s.total_size(),
        StoredConfig::unpacked(s.wire().subrange(0, 216)) == s.stored_config,
{
    s.lemma_wire_split();
    s.stored_config.lemma_packed();
    assert(s.wire().subrange(0, 216) =~= s.stored_config.packed());
}

/// The pin-map entries of a record are what its bytes hold after the fixed
/// part.
proof fn lemma_wire_pin_map(s: BinaryConfigView)
    ensures
        pin_map_section(s.wire(), s.pin_map_entries.len()) == s.pin_map_entries,
{
    let b = s.wire();
    let pins = s.pin_map_entries.len();
    s.stored_config.lemma_packed();
    lemma_pin_map_packed_len(s.pin_map_entries);
    let fixed = s.stored_config.packed();
    let packed = pin_map_packed(s.pin_map_entries);
    assert forall|k: int| 0 <= k < pins implies pin_map_section(b, pins)[k]
        == s.pin_map_entries[k] by {
        lemma_pin_map_packed_at(s.pin_map_entries, k);
        s.pin_map_entries[k].lemma_packed();
        assert(b.subrange(216 + 10 * k, 226 + 10 * k) =~= packed.subrange(10 * k, 10 * k + 10));
    }
    assert(pin_map_section(b, pins) =~= s.pin_map_entries);
}

/// The logical inputs of a record are what its bytes hold after the
/// pin-map entries.
proof fn lemma_wire_logical_inputs(s: BinaryConfigView)
    ensures
        logical_input_section(
            s.wire(),
            (216 + 10 * s.pin_map_entries.len()) as int,
            s.logical_inputs.len(),
        ) == s.logical_inputs,
{
    let b = s.wire();
    let start = (216 + 10 * s.pin_map_entries.len()) as int;
    let inputs = s.logical_inputs.len();
    s.stored_config.lemma_packed();
    lemma_pin_map_packed_len(s.pin_map_entries);
    lemma_logical_inputs_packed_len(s.logical_inputs);
    let packed = logical_inputs_packed(s.logical_inputs);
    assert forall|k: int| 0 <= k < inputs implies logical_input_section(b, start, inputs)[k]
        == s.logical_inputs[k] by {
        lemma_logical_inputs_packed_at(s.logical_inputs, k);
        s.logical_inputs[k].lemma_packed();
        assert(b.subrange(start + 10 * k, start + 10 * k + 10) =~= packed.subrange(
            10 * k,
            10 * k + 10,
        ));
    }
    assert(logical_input_section(b, start, inputs) =~= s.logical_inputs);
}

/// A record whose header states its size and its checksum is what decoding
/// reads from its bytes.
proof fn lemma_decode_wire(s: BinaryConfigView)
    requires
        s.well_formed(),
        s.stored_config.header.size == s.total_size(),
        s.stored_config.header.checksum == spec_firmware_crc32(s.wire()),
    ensures
        spec_from_bytes(s.wire()) == Ok::<BinaryConfigView, ConfigError>(s),
{
    let b = s.wire();
    lemma_wire_fixed_part(s);
    lemma_wire_pin_map(s);
    lemma_wire_logical_inputs(s);
    let stored = StoredConfig::unpacked(b.subrange(0, 216));
    assert(stored == s.stored_config);
    assert(b.len() == 216 + 10 * s.pin_map_entries.len() + 10 * s.logical_inputs.len());
    assert(stored.pin_map_count == s.pin_map_entries.len());
    assert(stored.logical_input_count == s.logical_inputs.len());
}

/// Sealing a well-formed record keeps it well formed, and its header then
/// states its size and its checksum.
proof fn lemma_sealed_well_formed(v: BinaryConfigView)
    requires
        v.well_formed(),
    ensures
        v.total_size() <= 0xFFFF,
        v.sealed().well_formed(),
        v.sealed().total_size() == v.total_size(),
        v.sealed().stored_config.header.size == v.total_size(),
        v.sealed().stored_config.header.checksum == spec_firmware_crc32(v.sealed().wire()),
{
    v.lemma_sealed_wire();
    assert(v.total_size() <= 216 + 320 + 640);
}

/// Decoding an encoded record gives the record back, field for field, with
/// the size and checksum that encoding wrote into its header; so the
/// checksum that encoding embeds is the one that decoding accepts.
pub proof fn lemma_decode_encode(v: BinaryConfigView)
    requires
        v.well_formed(),
    ensures
        v.spec_to_bytes() is Ok,
        spec_from_bytes(v.spec_to_bytes()->Ok_0) == Ok::<BinaryConfigView, ConfigError>(
            v.sealed(),
        ),
{
    lemma_sealed_well_formed(v);
    lemma_decode_wire(v.sealed());
}

/// A record whose header already holds its encoded size and checksum comes
/// back from decoding exactly as it went into encoding.
pub proof fn lemma_decode_encode_sealed(v: BinaryConfigView)
    requires
        v.well_formed(),
        v == v.sealed(),
    ensures
        v.spec_to_bytes() is Ok,
        spec_from_bytes(v.spec_to_bytes()->Ok_0) == Ok::<BinaryConfigView, ConfigError>(v),
{
    lemma_decode_encode(v);
}

/// A buffer that holds a header whose magic field is not the expected
/// constant is refused for that reason, and one with the right magic and
/// another version for that one, whatever the rest of the buffer holds and
/// however long it is.
pub proof fn lemma_magic_version_gate(data: Seq<u8>)
    requires
        data.len() >= CONFIG_HEADER_SIZE,
    ensures
        read32(data, 0) != CONFIG_MAGIC ==> spec_from_bytes(data) == Err::<
            BinaryConfigView,
            ConfigError,
        >(ConfigError::InvalidMagic { magic: read32(data, 0) }),
        read32(data, 0) == CONFIG_MAGIC && read16(data, 4) != CONFIG_VERSION ==> spec_from_bytes(
            data,
        ) == Err::<BinaryConfigView, ConfigError>(
            ConfigError::InvalidVersion { version: read16(data, 4) },
        ),
{
    if data.len() < STORED_CONFIG_SIZE {
        let h = data.subrange(0, 16);
        assert(read32(h, 0) == read32(data, 0));
        assert(read16(h, 4) == read16(data, 4));
    } else {
        let h = data.subrange(0, 216).subrange(0, 16);
        assert(read32(h, 0) == read32(data, 0));
        assert(read16(h, 4) == read16(data, 4));
    }
}

/// A valid buffer shortened by its last byte is refused because its length
/// is not the declared one.
pub proof fn lemma_trimmed_rejected(data: Seq<u8>)
    requires
        spec_from_bytes(data) is Ok,
    ensures
        spec_from_bytes(data.drop_last()) == Err::<BinaryConfigView, ConfigError>(
            ConfigError::SizeMismatch {
                actual: (data.len() - 1) as usize,
                declared: data.len() as u16,
            },
        ),
{
    let t = data.drop_last();
    if data.len() > STORED_CONFIG_SIZE {
        assert(t.subrange(0, 216) =~= data.subrange(0, 216));
    } else {
        let h = data.subrange(0, 216).subrange(0, 16);
        assert(t.subrange(0, 16) =~= h);
    }
}

/// So is a valid buffer shortened by more, as long as the header is left.
pub proof fn lemma_shortened_rejected(data: Seq<u8>, len: int)
    requires
        spec_from_bytes(data) is Ok,
        CONFIG_HEADER_SIZE <= len < data.len(),
    ensures
        spec_from_bytes(data.take(len)) == Err::<BinaryConfigView, ConfigError>(
            ConfigError::SizeMismatch { actual: len as usize, declared: data.len() as u16 },
        ),
{
    let t = data.take(len);
    let h = data.subrange(0, 216).subrange(0, 16);
    if len >= STORED_CONFIG_SIZE {
        assert(t.subrange(0, 216) =~= data.subrange(0, 216));
    } else {
        assert(t.subrange(0, 16) =~= h);
    }
}

/// The shift of the CRC register loses nothing.
pub proof fn lemma_crc32_shift_injective(a: u32, b: u32)
    requires
        crc32_shift(a) == crc32_shift(b),
    ensures
        a == b,
{
    assert((if a & 1 != 0 {
        (a >> 1) ^ 0xEDB88320u32
    } else {
        a >> 1
    }) == (if b & 1 != 0 {
        (b >> 1) ^ 0xEDB88320u32
    } else {
        b >> 1
    }) ==> a == b) by (bit_vector);
}

/// Nor do any number of shifts.
pub proof fn lemma_crc32_shifts_injective(a: u32, b: u32, n: nat)
    requires
        crc32_shifts(a, n) == crc32_shifts(b, n),
    ensures
        a == b,
    decreases n,
{
    if n > 0 {
        lemma_crc32_shifts_injective(crc32_shift(a), crc32_shift(b), (n - 1) as nat);
        lemma_crc32_shift_injective(a, b);
    }
}

/// Two steps of the checksum agree only if they start from the same
/// register and take the same byte, when either of the two is shared.
pub proof fn lemma_crc32_update_injective(c1: u32, b1: u8, c2: u32, b2: u8)
    requires
        spec_crc32_update_byte(c1, b1) == spec_crc32_update_byte(c2, b2),
    ensures
        b1 == b2 ==> c1 == c2,
        c1 == c2 ==> b1 == b2,
{
    lemma_crc32_shifts_injective(c1 ^ (b1 as u32), c2 ^ (b2 as u32), 8);
    assert(c1 ^ (b1 as u32) == c2 ^ (b1 as u32) ==> c1 == c2) by (bit_vector);
    assert(c1 ^ (b1 as u32) == c1 ^ (b2 as u32) ==> b1 == b2) by (bit_vector);
}

/// Two byte runs of one length that differ in exactly one byte leave the
/// CRC register in different states.
pub proof fn lemma_crc32_fold_detects_byte(c: u32, x: Seq<u8>, y: Seq<u8>, at: int)
    requires
        x.len() == y.len(),
        0 <= at < x.len(),
        x[at] != y[at],
        forall|i: int| 0 <= i < x.len() && i != at ==> x[i] == y[i],
    ensures
        crc32_fold(c, x) != crc32_fold(c, y),
    decreases x.len(),
{
    let px = x.drop_last();
    let py = y.drop_last();
    if at == x.len() - 1 {
        assert(px =~= py);
        if crc32_fold(c, x) == crc32_fold(c, y) {
            lemma_crc32_update_injective(crc32_fold(c, px), x.last(), crc32_fold(c, py), y.last());
        }
    } else {
        lemma_crc32_fold_detects_byte(c, px, py, at);
        if crc32_fold(c, x) == crc32_fold(c, y) {
            lemma_crc32_update_injective(crc32_fold(c, px), x.last(), crc32_fold(c, py), y.last());
        }
    }
}

/// Changing one byte outside the checksum field changes the checksum that
/// the firmware computes over the buffer.
pub proof fn lemma_firmware_crc32_detects_byte(data: Seq<u8>, damaged: Seq<u8>, at: int)
    requires
        data.len() >= 16,
        damaged.len() == data.len(),
        0 <= at < data.len(),
        !(8 <= at < 12),
        damaged[at] != data[at],
        forall|i: int| 0 <= i < data.len() && i != at ==> damaged[i] == data[i],
    ensures
        spec_firmware_crc32(damaged) != spec_firmware_crc32(data),
{
    let x = checksum_coverage(data);
    let y = checksum_coverage(damaged);
    let k = if at < 8 {
        at
    } else {
        at - 4
    };
    assert(x[k] == data[at]);
    assert(y[k] == damaged[at]);
    lemma_crc32_fold_detects_byte(0xFFFF_FFFFu32, x, y, k);
    let a = crc32_fold(0xFFFF_FFFFu32, x);
    let b = crc32_fold(0xFFFF_FFFFu32, y);
    assert(!a == !b ==> a == b) by (bit_vector);
}

/// A valid buffer in which one byte outside the checksum field has been
/// changed (one flipped bit is such a change) is never accepted. Where the
/// changed byte is none of the magic, version, size and count fields, which
/// are judged before the checksum, the buffer is refused for its checksum.
pub proof fn lemma_corruption_detected(data: Seq<u8>, damaged: Seq<u8>, at: int)
    requires
        spec_from_bytes(data) is Ok,
        damaged.len() == data.len(),
        0 <= at < data.len(),
        !(8 <= at < 12),
        damaged[at] != data[at],
        forall|i: int| 0 <= i < data.len() && i != at ==> damaged[i] == data[i],
    ensures
        spec_from_bytes(damaged) is Err,
        at >= 12 && at != 92 && at != 93 ==> spec_from_bytes(damaged) == Err::<
            BinaryConfigView,
            ConfigError,
        >(
            ConfigError::ChecksumMismatch {
                calculated: spec_firmware_crc32(damaged),
                stored: spec_firmware_crc32(data),
            },
        ),
{
    lemma_firmware_crc32_detects_byte(data, damaged, at);
    let good = StoredConfig::unpacked(data.subrange(0, 216));
    let bad = StoredConfig::unpacked(damaged.subrange(0, 216));
    let gh = data.subrange(0, 216).subrange(0, 16);
    let bh = damaged.subrange(0, 216).subrange(0, 16);
    assert(read32(bh, 8) == read32(gh, 8));
    assert(bad.header.checksum == good.header.checksum);
    if at >= 12 && at != 92 && at != 93 {
        assert(read32(bh, 0) == read32(gh, 0));
        assert(read16(bh, 4) == read16(gh, 4));
        assert(read16(bh, 6) == read16(gh, 6));
        assert(bad.pin_map_count == good.pin_map_count);
        assert(bad.logical_input_count == good.logical_input_count);
    }
}

/// The byte `b` with bit `bit` flipped.
pub open spec fn flipped(b: u8, bit: u8) -> u8 {
    b ^ (1u8 << bit)
}

/// A valid buffer in which one bit outside the checksum field has been
/// flipped is never accepted; where the bit is in none of the magic,
/// version, size and count fields, the buffer is refused for its checksum.
pub proof fn lemma_bit_flip_detected(data: Seq<u8>, at: int, bit: u8)
    requires
        spec_from_bytes(data) is Ok,
        0 <= at < data.len(),
        !(8 <= at < 12),
        bit < 8,
    ensures
        spec_from_bytes(data.update(at, flipped(data[at], bit))) is Err,
        at >= 12 && at != 92 && at != 93 ==> spec_from_bytes(
            data.update(at, flipped(data[at], bit)),
        ) == Err::<BinaryConfigView, ConfigError>(
            ConfigError::ChecksumMismatch {
                calculated: spec_firmware_crc32(data.update(at, flipped(data[at], bit))),
                stored: spec_firmware_crc32(data),
            },
        ),
{
    let b = data[at];
    assert(bit < 8 ==> b ^ (1u8 << bit) != b) by (bit_vector);
    lemma_corruption_detected(data, data.update(at, flipped(b, bit)), at);
}

} // verus!
