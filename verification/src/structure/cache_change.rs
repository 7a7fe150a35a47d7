use vstd::prelude::*;
use crate::structure::guid::GUID;
use crate::structure::sequence_number::SequenceNumber;

verus! {

/// What a cache change says of its instance.
#[allow(non_camel_case_types)]
#[derive(PartialEq, Eq, Structural, Clone, Copy, Debug)]
pub enum ChangeKind {
    ALIVE,
    NOT_ALIVE_DISPOSED,
    NOT_ALIVE_UNREGISTERED,
}

/// The handle of a data instance: the 16-byte hash of its key.
#[derive(PartialEq, Eq, Structural, Clone, Copy, Debug)]
pub struct InstanceHandle {
    pub key_hash: u128,
}

impl Default for InstanceHandle {
    fn default() -> (r: InstanceHandle)
        ensures
            r.key_hash == 0,
    {
        InstanceHandle { key_hash: 0 }
    }
}

/// Identifiers of the payload encodings the protocol names.
pub const REPRESENTATION_CDR_BE: u16 = 0x0000;

pub const REPRESENTATION_CDR_LE: u16 = 0x0001;

pub const REPRESENTATION_PL_CDR_BE: u16 = 0x0002;

pub const REPRESENTATION_PL_CDR_LE: u16 = 0x0003;

/// A sample as opaque bytes, tagged with the identifier of its encoding.
#[derive(Debug, PartialEq, Eq)]
pub struct SerializedPayload {
    pub representation_identifier: u16,
    pub representation_options: u16,
    pub value: Vec<u8>,
}

/// A payload as plain values.
pub struct SerializedPayloadView {
    pub representation_identifier: u16,
    pub representation_options: u16,
    pub value: Seq<u8>,
}

impl View for SerializedPayload {
    type V = SerializedPayloadView;

    open spec fn view(&self) -> SerializedPayloadView {
        SerializedPayloadView {
            representation_identifier: self.representation_identifier,
            representation_options: self.representation_options,
            value: self.value@,
        }
    }
}

/// Copies a byte vector.
pub fn clone_bytes(v: &Vec<u8>) -> (r: Vec<u8>)
    ensures
        r@ == v@,
{
    let r = v.clone();
    assert(r@ =~= v@);
    r
}

impl SerializedPayload {
    /// An empty payload in little-endian CDR.
    pub fn new() -> (r: SerializedPayload)
        ensures
            r@ == (SerializedPayloadView {
                representation_identifier: REPRESENTATION_CDR_LE,
                representation_options: 0,
                value: Seq::empty(),
            }),
    {
        SerializedPayload {
            representation_identifier: REPRESENTATION_CDR_LE,
            representation_options: 0,
            value: Vec::new(),
        }
    }

    /// A payload of the given encoding with no options set.
    pub fn from_parts(representation_identifier: u16, value: Vec<u8>) -> (r: SerializedPayload)
        ensures
            r@ == (SerializedPayloadView {
                representation_identifier,
                representation_options: 0,
                value: value@,
            }),
    {
        SerializedPayload { representation_identifier, representation_options: 0, value }
    }
}

impl Clone for SerializedPayload {
    fn clone(&self) -> (r: SerializedPayload)
        ensures
            r@ == self@,
    {
        SerializedPayload {
            representation_identifier: self.representation_identifier,
            representation_options: self.representation_options,
            value: clone_bytes(&self.value),
        }
    }
}

/// An optional payload as plain values.
pub open spec fn payload_view(p: Option<SerializedPayload>) -> Option<SerializedPayloadView> {
    match p {
        Some(x) => Some(x@),
        None => None,
    }
}

/// A copy of an optional payload.
pub fn clone_payload(p: &Option<SerializedPayload>) -> (r: Option<SerializedPayload>)
    ensures
        payload_view(r) == payload_view(*p),
{
    match p {
        Some(x) => Some(x.clone()),
        None => None,
    }
}

/// The record of one sample, as a writer made it or a reader received it.
#[derive(Debug, PartialEq, Eq)]
pub struct CacheChange {
    pub kind: ChangeKind,
    pub writer_guid: GUID,
    pub instance_handle: InstanceHandle,
    pub sequence_number: SequenceNumber,
    pub data_value: Option<SerializedPayload>,
}

/// A cache change as plain values.
pub struct CacheChangeView {
    pub kind: ChangeKind,
    pub writer_guid: GUID,
    pub key_hash: u128,
    pub sequence_number: SequenceNumber,
    pub data_value: Option<SerializedPayloadView>,
}

impl View for CacheChange {
    type V = CacheChangeView;

    open spec fn view(&self) -> CacheChangeView {
        CacheChangeView {
            kind: self.kind,
            writer_guid: self.writer_guid,
            key_hash: self.instance_handle.key_hash,
            sequence_number: self.sequence_number,
            data_value: payload_view(self.data_value),
        }
    }
}

impl CacheChange {
    /// A change of the given kind, made by `writer_guid` under
    /// `sequence_number`.
    pub fn new(
        kind: ChangeKind,
        writer_guid: GUID,
        sequence_number: SequenceNumber,
        instance_handle: InstanceHandle,
        data_value: Option<SerializedPayload>,
    ) -> (r: CacheChange)
        ensures
            r@ == (CacheChangeView {
                kind,
                writer_guid,
                key_hash: instance_handle.key_hash,
                sequence_number,
                data_value: payload_view(data_value),
            }),
    {
        CacheChange { kind, writer_guid, instance_handle, sequence_number, data_value }
    }
}

impl Clone for CacheChange {
    fn clone(&self) -> (r: CacheChange)
        ensures
            r@ == self@,
    {
        CacheChange {
            kind: self.kind,
            writer_guid: self.writer_guid,
            instance_handle: self.instance_handle,
            sequence_number: self.sequence_number,
            data_value: clone_payload(&self.data_value),
        }
    }
}

} // verus!
