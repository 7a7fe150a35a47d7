use vstd::prelude::*;
use crate::messages::wire::{guid_prefix_at, guid_prefix_bytes, put_guid_prefix, read_guid_prefix};
use crate::structure::guid::GuidPrefix;

verus! {

/// The four bytes every RTPS message starts with.
#[allow(non_camel_case_types)]
#[derive(PartialEq, Eq, Structural, Clone, Copy, Debug)]
pub enum ProtocolId {
    PROTOCOL_RTPS,
}

impl Default for ProtocolId {
    fn default() -> (r: ProtocolId)
        ensures
            r == ProtocolId::PROTOCOL_RTPS,
    {
        ProtocolId::PROTOCOL_RTPS
    }
}

/// The version of the protocol that a participant speaks.
#[derive(PartialEq, Eq, Structural, Clone, Copy, Debug)]
pub struct ProtocolVersion {
    pub major: u8,
    pub minor: u8,
}

impl ProtocolVersion {
    /// Version 2.3 of the protocol, the one this crate speaks.
    pub open spec fn spec_v2_3() -> ProtocolVersion {
        ProtocolVersion { major: 2, minor: 3 }
    }

    /// Version 2.3 of the protocol, the one this crate speaks.
    #[verifier::when_used_as_spec(spec_v2_3)]
    pub fn v2_3() -> (r: ProtocolVersion)
        ensures
            r == Self::spec_v2_3(),
    {
        ProtocolVersion { major: 2, minor: 3 }
    }
}

/// The two bytes that name the vendor of an implementation.
#[derive(PartialEq, Eq, Structural, Clone, Copy, Debug)]
pub struct VendorId {
    pub first: u8,
    pub second: u8,
}

impl VendorId {
    /// The vendor id that names nobody.
    pub open spec fn spec_unknown() -> VendorId {
        VendorId { first: 0, second: 0 }
    }

    /// The vendor id that names nobody.
    #[verifier::when_used_as_spec(spec_unknown)]
    pub fn unknown() -> (r: VendorId)
        ensures
            r == Self::spec_unknown(),
    {
        VendorId { first: 0, second: 0 }
    }
}

/// The size of the header of a message.
pub const RTPS_MESSAGE_HEADER_SIZE: usize = 20;

/// The header of a message: protocol id, version, vendor, and the prefix of
/// the participant that sent it.
#[derive(Clone, Copy, Debug, PartialEq, Eq)]
pub struct Header {
    pub protocol_id: ProtocolId,
    pub protocol_version: ProtocolVersion,
    pub vendor_id: VendorId,
    pub guid_prefix: GuidPrefix,
}

/// "RTPS" in ASCII.
pub open spec fn magic() -> Seq<u8> {
    seq![0x52u8, 0x54u8, 0x50u8, 0x53u8]
}

/// A message header on the wire: the protocol's name, version, vendor id
/// and the sender's GUID prefix, 20 bytes in all.
pub open spec fn header_bytes(h: Header) -> Seq<u8> {
    magic() + seq![
        h.protocol_version.major,
        h.protocol_version.minor,
        h.vendor_id.first,
        h.vendor_id.second,
    ] + guid_prefix_bytes(h.guid_prefix)
}

/// The header that `s` starts with; none where `s` is shorter than a header
/// or does not start with the protocol id.
pub open spec fn header_at(s: Seq<u8>) -> Option<Header> {
    if s.len() < 20 || s[0] != 0x52 || s[1] != 0x54 || s[2] != 0x50 || s[3] != 0x53 {
        None
    } else {
        Some(
            Header {
                protocol_id: ProtocolId::PROTOCOL_RTPS,
                protocol_version: ProtocolVersion { major: s[4], minor: s[5] },
                vendor_id: VendorId { first: s[6], second: s[7] },
                guid_prefix: guid_prefix_at(s, 8),
            },
        )
    }
}

/// A header followed by anything reads back as that header.
pub proof fn lemma_header_roundtrip(h: Header, rest: Seq<u8>)
    ensures
        header_bytes(h).len() == 20,
        header_at(header_bytes(h) + rest) == Some(h),
{
    let s = header_bytes(h) + rest;
    let r = guid_prefix_at(s, 8);
    assert forall|k: int| 0 <= k < 12 implies r.bytes[k] == h.guid_prefix.bytes[k] by {
        assert(s[8 + k] == header_bytes(h)[8 + k]);
    }
    assert(r.bytes =~= h.guid_prefix.bytes);
}

impl Header {
    /// The header of a message of this implementation from `guid_prefix`.
    pub fn new(guid_prefix: GuidPrefix) -> (r: Header)
        ensures
            r == (Header {
                protocol_id: ProtocolId::PROTOCOL_RTPS,
                protocol_version: ProtocolVersion::spec_v2_3(),
                vendor_id: VendorId::spec_unknown(),
                guid_prefix,
            }),
    {
        Header {
            protocol_id: ProtocolId::PROTOCOL_RTPS,
            protocol_version: ProtocolVersion::v2_3(),
            vendor_id: VendorId::unknown(),
            guid_prefix,
        }
    }

    /// Appends the header to `buf`.
    pub fn write_to(&self, buf: &mut Vec<u8>)
        ensures
            final(buf)@ == old(buf)@ + header_bytes(*self),
    {
        buf.push(0x52);
        buf.push(0x54);
        buf.push(0x50);
        buf.push(0x53);
        buf.push(self.protocol_version.major);
        buf.push(self.protocol_version.minor);
        buf.push(self.vendor_id.first);
        buf.push(self.vendor_id.second);
        put_guid_prefix(buf, self.guid_prefix);
        assert(buf@ =~= old(buf)@ + header_bytes(*self));
    }

    /// The bytes of this header.
    pub fn write_to_vec(&self) -> (r: Vec<u8>)
        ensures
            r@ == header_bytes(*self),
    {
        let mut buf: Vec<u8> = Vec::new();
        self.write_to(&mut buf);
        assert(buf@ =~= header_bytes(*self));
        buf
    }

    /// Reads the header at the start of `buf`.
    pub fn read_from_buffer(buf: &[u8]) -> (r: Option<Header>)
        ensures
            r == header_at(buf@),
    {
        if buf.len() < 20 {
            return None;
        }
        if buf[0] != 0x52 || buf[1] != 0x54 || buf[2] != 0x50 || buf[3] != 0x53 {
            return None;
        }
        Some(
            Header {
                protocol_id: ProtocolId::PROTOCOL_RTPS,
                protocol_version: ProtocolVersion { major: buf[4], minor: buf[5] },
                vendor_id: VendorId { first: buf[6], second: buf[7] },
                guid_prefix: read_guid_prefix(buf, 8),
            },
        )
    }

    /// Whether two headers are the same.
    pub fn same(&self, other: &Header) -> (r: bool)
        ensures
            r == (*self == *other),
    {
        self.protocol_version.major == other.protocol_version.major
            && self.protocol_version.minor == other.protocol_version.minor && self.vendor_id.first
            == other.vendor_id.first && self.vendor_id.second == other.vendor_id.second
            && self.guid_prefix == other.guid_prefix
    }
}

} // verus!
