use vstd::prelude::*;
use crate::structure::guid::{EntityId, GuidPrefix};
use crate::structure::sequence_number::SequenceNumber;

verus! {

/// The byte order of the numbers in a submessage.
#[derive(PartialEq, Eq, Structural, Clone, Copy, Debug)]
pub enum Endianness {
    LittleEndian,
    BigEndian,
}

/// Whether the one-bit `mask` is set in `flags`.
pub open spec fn spec_flag_set(flags: u8, mask: u8) -> bool {
    mask > 0 && (flags / mask) % 2 == 1
}

/// Whether the flag `mask`, a power of two, is set in `flags`.
#[verifier::when_used_as_spec(spec_flag_set)]
pub fn flag_set(flags: u8, mask: u8) -> (r: bool)
    ensures
        r == spec_flag_set(flags, mask),
{
    mask > 0 && (flags / mask) % 2 == 1
}

/// Bit 0 of every submessage's flags: set for little-endian.
pub const FLAG_ENDIANNESS: u8 = 0x01;

/// The byte order that the flags of a submessage announce: bit 0 set means
/// little-endian.
pub open spec fn spec_endianness_of(flags: u8) -> Endianness {
    if flags % 2 == 1 {
        Endianness::LittleEndian
    } else {
        Endianness::BigEndian
    }
}

/// The byte order that `flags` announces.
#[verifier::when_used_as_spec(spec_endianness_of)]
pub fn endianness_of(flags: u8) -> (r: Endianness)
    ensures
        r == spec_endianness_of(flags),
{
    if flags % 2 == 1 {
        Endianness::LittleEndian
    } else {
        Endianness::BigEndian
    }
}

/// The flag bit that announces the byte order `e`.
pub open spec fn spec_endianness_flag(e: Endianness) -> u8 {
    match e {
        Endianness::LittleEndian => 1u8,
        Endianness::BigEndian => 0u8,
    }
}

/// The flags that announce `e` and nothing else.
#[verifier::when_used_as_spec(spec_endianness_flag)]
pub fn endianness_flag(e: Endianness) -> (r: u8)
    ensures
        r == spec_endianness_flag(e),
        spec_endianness_of(r) == e,
{
    match e {
        Endianness::LittleEndian => 1u8,
        Endianness::BigEndian => 0u8,
    }
}

/// The 16-bit number that the bytes `b0`, `b1` stand for in byte order `e`.
pub open spec fn u16_of(b0: u8, b1: u8, e: Endianness) -> u16 {
    match e {
        Endianness::LittleEndian => (b0 + 256 * b1) as u16,
        Endianness::BigEndian => (b1 + 256 * b0) as u16,
    }
}

/// A 16-bit number on the wire.
pub open spec fn u16_bytes(x: u16, e: Endianness) -> Seq<u8> {
    match e {
        Endianness::LittleEndian => seq![(x % 256) as u8, (x / 256) as u8],
        Endianness::BigEndian => seq![(x / 256) as u8, (x % 256) as u8],
    }
}

/// The 16-bit number that `s` holds at `i`.
pub open spec fn u16_at(s: Seq<u8>, i: int, e: Endianness) -> u16 {
    u16_of(s[i], s[i + 1], e)
}

/// The 32-bit number that four bytes stand for in byte order `e`.
pub open spec fn u32_of(b0: u8, b1: u8, b2: u8, b3: u8, e: Endianness) -> u32 {
    match e {
        Endianness::LittleEndian => (b0 + 256 * b1 + 65536 * b2 + 16777216 * b3) as u32,
        Endianness::BigEndian => (b3 + 256 * b2 + 65536 * b1 + 16777216 * b0) as u32,
    }
}

/// A 32-bit number on the wire.
pub open spec fn u32_bytes(x: u32, e: Endianness) -> Seq<u8> {
    match e {
        Endianness::LittleEndian => seq![
            (x % 256) as u8,
            ((x / 256) % 256) as u8,
            ((x / 65536) % 256) as u8,
            (x / 16777216) as u8,
        ],
        Endianness::BigEndian => seq![
            (x / 16777216) as u8,
            ((x / 65536) % 256) as u8,
            ((x / 256) % 256) as u8,
            (x % 256) as u8,
        ],
    }
}

/// The 32-bit number that `s` holds at `i`.
pub open spec fn u32_at(s: Seq<u8>, i: int, e: Endianness) -> u32 {
    u32_of(s[i], s[i + 1], s[i + 2], s[i + 3], e)
}

/// A signed 32-bit number as the unsigned number with the same bits.
pub open spec fn i32_to_u32(x: i32) -> u32 {
    if x >= 0 {
        x as u32
    } else {
        (x + 0x1_0000_0000) as u32
    }
}

/// The signed number with the bits of `u`.
pub open spec fn u32_to_i32(u: u32) -> i32 {
    if u < 0x8000_0000 {
        u as i32
    } else {
        (u - 0x1_0000_0000) as i32
    }
}

/// A signed 32-bit number on the wire.
pub open spec fn i32_bytes(x: i32, e: Endianness) -> Seq<u8> {
    u32_bytes(i32_to_u32(x), e)
}

/// The signed 32-bit number that `s` holds at `i`.
pub open spec fn i32_at(s: Seq<u8>, i: int, e: Endianness) -> i32 {
    u32_to_i32(u32_at(s, i, e))
}

/// The high word of a sequence number: the number divided by 2^32, rounded
/// down.
pub open spec fn sn_high(sn: SequenceNumber) -> i32 {
    (sn / 0x1_0000_0000) as i32
}

/// The low word of a sequence number: what the high word leaves.
pub open spec fn sn_low(sn: SequenceNumber) -> u32 {
    (sn % 0x1_0000_0000) as u32
}

/// The sequence number with high word `high` and low word `low`.
pub open spec fn sn_of(high: i32, low: u32) -> SequenceNumber {
    (high * 0x1_0000_0000 + low) as i64
}

/// A sequence number on the wire: its high word, then its low word.
pub open spec fn sn_bytes(sn: SequenceNumber, e: Endianness) -> Seq<u8> {
    i32_bytes(sn_high(sn), e) + u32_bytes(sn_low(sn), e)
}

/// The sequence number that `s` holds at `i`.
pub open spec fn sn_at(s: Seq<u8>, i: int, e: Endianness) -> SequenceNumber {
    sn_of(i32_at(s, i, e), u32_at(s, i + 4, e))
}

/// An entity id on the wire: the three bytes of its key, then its kind.
pub open spec fn entity_id_bytes(id: EntityId) -> Seq<u8> {
    seq![id.entity_key[0], id.entity_key[1], id.entity_key[2], id.entity_kind]
}

/// The entity id that `s` holds at `i`.
pub open spec fn entity_id_at(s: Seq<u8>, i: int) -> EntityId {
    EntityId { entity_key: [s[i], s[i + 1], s[i + 2]], entity_kind: s[i + 3] }
}

/// A GUID prefix on the wire: its twelve bytes.
pub open spec fn guid_prefix_bytes(p: GuidPrefix) -> Seq<u8> {
    p.bytes@
}

/// The GUID prefix that `s` holds at `i`.
pub open spec fn guid_prefix_at(s: Seq<u8>, i: int) -> GuidPrefix {
    GuidPrefix {
        bytes: [
            s[i],
            s[i + 1],
            s[i + 2],
            s[i + 3],
            s[i + 4],
            s[i + 5],
            s[i + 6],
            s[i + 7],
            s[i + 8],
            s[i + 9],
            s[i + 10],
            s[i + 11],
        ],
    }
}

/// The bytes of a 16-bit number are read back as the same.
pub proof fn lemma_u16_roundtrip(x: u16, e: Endianness)
    ensures
        u16_bytes(x, e).len() == 2,
        u16_at(u16_bytes(x, e), 0, e) == x,
{
}

/// The bytes of a 32-bit number are read back as the same.
pub proof fn lemma_u32_roundtrip(x: u32, e: Endianness)
    ensures
        u32_bytes(x, e).len() == 4,
        u32_at(u32_bytes(x, e), 0, e) == x,
{
}

/// The bytes of a signed 32-bit number are read back as the same.
pub proof fn lemma_i32_roundtrip(x: i32, e: Endianness)
    ensures
        i32_bytes(x, e).len() == 4,
        i32_at(i32_bytes(x, e), 0, e) == x,
{
    lemma_u32_roundtrip(i32_to_u32(x), e);
}

/// A sequence number is made of its high and its low word.
pub proof fn lemma_sn_words(sn: SequenceNumber)
    ensures
        sn_of(sn_high(sn), sn_low(sn)) == sn,
        -0x8000_0000 <= sn / 0x1_0000_0000 < 0x8000_0000,
        0 <= sn % 0x1_0000_0000 < 0x1_0000_0000,
{
}

/// The bytes of a sequence number are read back as the same.
pub proof fn lemma_sn_roundtrip(sn: SequenceNumber, e: Endianness)
    ensures
        sn_bytes(sn, e).len() == 8,
        sn_at(sn_bytes(sn, e), 0, e) == sn,
{
    lemma_sn_words(sn);
    lemma_i32_roundtrip(sn_high(sn), e);
    lemma_u32_roundtrip(sn_low(sn), e);
    let s = sn_bytes(sn, e);
    let a = i32_bytes(sn_high(sn), e);
    let b = u32_bytes(sn_low(sn), e);
    assert(s[0] == a[0] && s[1] == a[1] && s[2] == a[2] && s[3] == a[3]);
    assert(s[4] == b[0] && s[5] == b[1] && s[6] == b[2] && s[7] == b[3]);
}

/// Appends a 16-bit number to `buf`, as the wire format has it.
pub fn put_u16(buf: &mut Vec<u8>, x: u16, e: Endianness)
    ensures
        final(buf)@ == old(buf)@ + u16_bytes(x, e),
{
    let lo: u8 = (x % 256) as u8;
    let hi: u8 = (x / 256) as u8;
    match e {
        Endianness::LittleEndian => {
            buf.push(lo);
            buf.push(hi);
        },
        Endianness::BigEndian => {
            buf.push(hi);
            buf.push(lo);
        },
    }
    assert(buf@ =~= old(buf)@ + u16_bytes(x, e));
}

/// Appends a 32-bit number to `buf`, as the wire format has it.
pub fn put_u32(buf: &mut Vec<u8>, x: u32, e: Endianness)
    ensures
        final(buf)@ == old(buf)@ + u32_bytes(x, e),
{
    let b0: u8 = (x % 256) as u8;
    let b1: u8 = ((x / 256) % 256) as u8;
    let b2: u8 = ((x / 65536) % 256) as u8;
    let b3: u8 = (x / 16777216) as u8;
    match e {
        Endianness::LittleEndian => {
            buf.push(b0);
            buf.push(b1);
            buf.push(b2);
            buf.push(b3);
        },
        Endianness::BigEndian => {
            buf.push(b3);
            buf.push(b2);
            buf.push(b1);
            buf.push(b0);
        },
    }
    assert(buf@ =~= old(buf)@ + u32_bytes(x, e));
}

/// Appends a signed 32-bit number to `buf`, as the wire format has it.
pub fn put_i32(buf: &mut Vec<u8>, x: i32, e: Endianness)
    ensures
        final(buf)@ == old(buf)@ + i32_bytes(x, e),
{
    let u: u32 = if x >= 0 {
        x as u32
    } else {
        (x as i64 + 0x1_0000_0000) as u32
    };
    put_u32(buf, u, e);
}

/// Appends a sequence number to `buf`, as the wire format has it.
pub fn put_sn(buf: &mut Vec<u8>, sn: SequenceNumber, e: Endianness)
    ensures
        final(buf)@ == old(buf)@ + sn_bytes(sn, e),
{
    let high: i32;
    let low: u32;
    if sn >= 0 {
        high = (sn / 0x1_0000_0000) as i32;
        low = (sn % 0x1_0000_0000) as u32;
    } else {
        let m: i64 = -(sn + 1);
        high = (-(m / 0x1_0000_0000) - 1) as i32;
        low = (0xFFFF_FFFF - (m % 0x1_0000_0000)) as u32;
    }
    assert(high == sn_high(sn) && low == sn_low(sn));
    put_i32(buf, high, e);
    put_u32(buf, low, e);
    assert(buf@ =~= old(buf)@ + sn_bytes(sn, e));
}

/// Appends an entity id to `buf`, as the wire format has it.
pub fn put_entity_id(buf: &mut Vec<u8>, id: EntityId)
    ensures
        final(buf)@ == old(buf)@ + entity_id_bytes(id),
{
    buf.push(id.entity_key[0]);
    buf.push(id.entity_key[1]);
    buf.push(id.entity_key[2]);
    buf.push(id.entity_kind);
    assert(buf@ =~= old(buf)@ + entity_id_bytes(id));
}

/// Appends a GUID prefix to `buf`, as the wire format has it.
pub fn put_guid_prefix(buf: &mut Vec<u8>, p: GuidPrefix)
    ensures
        final(buf)@ == old(buf)@ + guid_prefix_bytes(p),
{
    let mut i: usize = 0;
    while i < 12
        invariant
            i <= 12,
            buf@ == old(buf)@ + p.bytes@.subrange(0, i as int),
        decreases 12 - i,
    {
        buf.push(p.bytes[i]);
        assert(buf@ =~= old(buf)@ + p.bytes@.subrange(0, i + 1));
        i += 1;
    }
    assert(p.bytes@.subrange(0, 12) =~= p.bytes@);
}

/// Appends `bytes` to `buf`.
pub fn put_bytes(buf: &mut Vec<u8>, bytes: &[u8])
    ensures
        final(buf)@ == old(buf)@ + bytes@,
{
    let mut i: usize = 0;
    while i < bytes.len()
        invariant
            i <= bytes.len(),
            buf@ == old(buf)@ + bytes@.subrange(0, i as int),
        decreases bytes.len() - i,
    {
        buf.push(bytes[i]);
        assert(buf@ =~= old(buf)@ + bytes@.subrange(0, i + 1));
        i += 1;
    }
    assert(bytes@.subrange(0, bytes.len() as int) =~= bytes@);
}

/// The bytes of `buf` from `from` up to, not including, `to`.
pub fn copy_range(buf: &[u8], from: usize, to: usize) -> (r: Vec<u8>)
    requires
        from <= to <= buf@.len(),
    ensures
        r@ == buf@.subrange(from as int, to as int),
{
    let mut out: Vec<u8> = Vec::new();
    let mut i: usize = from;
    while i < to
        invariant
            from <= i <= to <= buf@.len(),
            out@ == buf@.subrange(from as int, i as int),
        decreases to - i,
    {
        out.push(buf[i]);
        assert(out@ =~= buf@.subrange(from as int, i + 1));
        i += 1;
    }
    out
}

/// Reads a 16-bit number from `buf` at the given place.
pub fn read_u16(buf: &[u8], i: usize, e: Endianness) -> (r: u16)
    requires
        i + 2 <= buf@.len(),
    ensures
        r == u16_at(buf@, i as int, e),
{
    let b0: u16 = buf[i] as u16;
    let b1: u16 = buf[i + 1] as u16;
    match e {
        Endianness::LittleEndian => b0 + 256 * b1,
        Endianness::BigEndian => b1 + 256 * b0,
    }
}

/// Reads a 32-bit number from `buf` at the given place.
pub fn read_u32(buf: &[u8], i: usize, e: Endianness) -> (r: u32)
    requires
        i + 4 <= buf@.len(),
    ensures
        r == u32_at(buf@, i as int, e),
{
    let b0: u32 = buf[i] as u32;
    let b1: u32 = buf[i + 1] as u32;
    let b2: u32 = buf[i + 2] as u32;
    let b3: u32 = buf[i + 3] as u32;
    match e {
        Endianness::LittleEndian => b0 + 256 * b1 + 65536 * b2 + 16777216 * b3,
        Endianness::BigEndian => b3 + 256 * b2 + 65536 * b1 + 16777216 * b0,
    }
}

/// Reads a signed 32-bit number from `buf` at the given place.
pub fn read_i32(buf: &[u8], i: usize, e: Endianness) -> (r: i32)
    requires
        i + 4 <= buf@.len(),
    ensures
        r == i32_at(buf@, i as int, e),
{
    let u = read_u32(buf, i, e);
    if u < 0x8000_0000 {
        u as i32
    } else {
        (u as i64 - 0x1_0000_0000) as i32
    }
}

/// Reads a sequence number from `buf` at the given place.
pub fn read_sn(buf: &[u8], i: usize, e: Endianness) -> (r: SequenceNumber)
    requires
        i + 8 <= buf@.len(),
    ensures
        r == sn_at(buf@, i as int, e),
{
    let n = buf.len();
    assert(i + 8 <= n);
    let high = read_i32(buf, i, e);
    let low = read_u32(buf, i + 4, e);
    (high as i64) * 0x1_0000_0000 + (low as i64)
}

/// Reads an entity id from `buf` at the given place.
pub fn read_entity_id(buf: &[u8], i: usize) -> (r: EntityId)
    requires
        i + 4 <= buf@.len(),
    ensures
        r == entity_id_at(buf@, i as int),
{
    let r = EntityId { entity_key: [buf[i], buf[i + 1], buf[i + 2]], entity_kind: buf[i + 3] };
    assert(r.entity_key =~= entity_id_at(buf@, i as int).entity_key);
    r
}

/// Reads a GUID prefix from `buf` at the given place.
pub fn read_guid_prefix(buf: &[u8], i: usize) -> (r: GuidPrefix)
    requires
        i + 12 <= buf@.len(),
    ensures
        r == guid_prefix_at(buf@, i as int),
{
    let r = GuidPrefix {
        bytes: [
            buf[i],
            buf[i + 1],
            buf[i + 2],
            buf[i + 3],
            buf[i + 4],
            buf[i + 5],
            buf[i + 6],
            buf[i + 7],
            buf[i + 8],
            buf[i + 9],
            buf[i + 10],
            buf[i + 11],
        ],
    };
    assert(r.bytes =~= guid_prefix_at(buf@, i as int).bytes);
    r
}

} // verus!
