//! Byte-level building blocks of the configuration layout: little-endian
//! integers and fixed-length byte arrays appended to and read from buffers.

use vstd::prelude::*;

verus! {

broadcast use vstd::array::group_array_axioms;

/// The two bytes of `x`, least significant first.
pub open spec fn le16(x: u16) -> Seq<u8> {
    seq![(x & 0xff) as u8, (x >> 8) as u8]
}

/// The four bytes of `x`, least significant first.
pub open spec fn le32(x: u32) -> Seq<u8> {
    seq![
        (x & 0xff) as u8,
        ((x >> 8) & 0xff) as u8,
        ((x >> 16) & 0xff) as u8,
        (x >> 24) as u8,
    ]
}

/// The 16-bit value whose little-endian bytes start at `at`.
pub open spec fn read16(b: Seq<u8>, at: int) -> u16 {
    (b[at] as u16) | ((b[at + 1] as u16) << 8)
}

/// The 32-bit value whose little-endian bytes start at `at`.
pub open spec fn read32(b: Seq<u8>, at: int) -> u32 {
    (b[at] as u32) | ((b[at + 1] as u32) << 8) | ((b[at + 2] as u32) << 16) | ((b[at + 3] as u32)
        << 24)
}

/// The array that holds exactly the bytes of `s`.
pub open spec fn array_of<const N: usize>(s: Seq<u8>) -> [u8; N] {
    choose|a: [u8; N]| a@ == s
}

/// Reading what was written gives the number back.
pub proof fn lemma_le16_read(x: u16)
    ensures
        le16(x).len() == 2,
        read16(le16(x), 0) == x,
{
    let lo: u8 = (x & 0xff) as u8;
    let hi: u8 = (x >> 8) as u8;
    assert(((x & 0xff) as u8 as u16) | (((x >> 8) as u8 as u16) << 8) == x) by (bit_vector);
}

/// Reading what was written gives the number back.
pub proof fn lemma_le32_read(x: u32)
    ensures
        le32(x).len() == 4,
        read32(le32(x), 0) == x,
{
    assert(((x & 0xff) as u8 as u32) | ((((x >> 8) & 0xff) as u8 as u32) << 8) | ((((x >> 16)
        & 0xff) as u8 as u32) << 16) | (((x >> 24) as u8 as u32) << 24) == x) by (bit_vector);
}

/// An array is the one that holds its own bytes.
pub proof fn lemma_array_of_view<const N: usize>(a: [u8; N])
    ensures
        array_of::<N>(a@) == a,
{
    let c = array_of::<N>(a@);
    assert(c@ == a@);
    assert(c =~= a);
}

/// Appends one byte.
pub fn put_u8(buf: &mut Vec<u8>, x: u8)
    ensures
        final(buf)@ == old(buf)@ + seq![x],
{
    buf.push(x);
    assert(buf@ =~= old(buf)@ + seq![x]);
}

/// Appends a 16-bit number, low byte first.
pub fn put_u16(buf: &mut Vec<u8>, x: u16)
    ensures
        final(buf)@ == old(buf)@ + le16(x),
{
    assert(x & 0xff <= 0xff) by (bit_vector);
    assert(x >> 8 <= 0xff) by (bit_vector);
    buf.push((x & 0xff) as u8);
    buf.push((x >> 8) as u8);
    assert(buf@ =~= old(buf)@ + le16(x));
}

/// Appends a 32-bit number, low byte first.
pub fn put_u32(buf: &mut Vec<u8>, x: u32)
    ensures
        final(buf)@ == old(buf)@ + le32(x),
{
    assert(x & 0xff <= 0xff) by (bit_vector);
    assert((x >> 8) & 0xff <= 0xff) by (bit_vector);
    assert((x >> 16) & 0xff <= 0xff) by (bit_vector);
    assert(x >> 24 <= 0xff) by (bit_vector);
    buf.push((x & 0xff) as u8);
    buf.push(((x >> 8) & 0xff) as u8);
    buf.push(((x >> 16) & 0xff) as u8);
    buf.push((x >> 24) as u8);
    assert(buf@ =~= old(buf)@ + le32(x));
}

/// Appends the bytes of an array.
pub fn put_bytes<const N: usize>(buf: &mut Vec<u8>, a: &[u8; N])
    ensures
        final(buf)@ == old(buf)@ + a@,
{
    let mut i: usize = 0;
    while i < N
        invariant
            i <= N,
            buf@ == old(buf)@ + a@.take(i as int),
        decreases N - i,
    {
        buf.push(a[i]);
        assert(a@.take(i + 1) =~= a@.take(i as int).push(a@[i as int]));
        assert(buf@ =~= old(buf)@ + a@.take(i + 1));
        i = i + 1;
    }
    assert(a@.take(N as int) =~= a@);
}

/// The 16-bit number at `at`, low byte first.
pub fn get_u16(data: &[u8], at: usize) -> (x: u16)
    requires
        at + 2 <= data.len(),
    ensures
        x == read16(data@, at as int),
{
    let lo: u16 = data[at] as u16;
    let hi: u16 = data[at + 1] as u16;
    lo | (hi << 8)
}

/// The 32-bit number at `at`, low byte first.
pub fn get_u32(data: &[u8], at: usize) -> (x: u32)
    requires
        at + 4 <= data.len(),
    ensures
        x == read32(data@, at as int),
{
    let b0: u32 = data[at] as u32;
    let b1: u32 = data[at + 1] as u32;
    let b2: u32 = data[at + 2] as u32;
    let b3: u32 = data[at + 3] as u32;
    b0 | (b1 << 8) | (b2 << 16) | (b3 << 24)
}

/// The `N` bytes at `at`.
pub fn get_bytes<const N: usize>(data: &[u8], at: usize) -> (a: [u8; N])
    requires
        at + N <= data.len(),
    ensures
        a@ == data@.subrange(at as int, at + N),
        a == array_of::<N>(data@.subrange(at as int, at + N)),
{
    let mut a: [u8; N] = [0u8; N];
    let mut i: usize = 0;
    while i < N
        invariant
            i <= N,
            at + N <= data.len(),
            forall|j: int| 0 <= j < i ==> a@[j] == data@[at + j],
        decreases N - i,
    {
        a[i] = data[at + i];
        i = i + 1;
    }
    assert(a@ =~= data@.subrange(at as int, at + N));
    proof {
        lemma_array_of_view::<N>(a);
    }
    a
}

} // verus!
