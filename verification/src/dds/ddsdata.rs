use vstd::prelude::*;
use crate::structure::cache_change::{
    ChangeKind,
    SerializedPayload,
    SerializedPayloadView,
    clone_payload,
    payload_view,
};

verus! {

/// What a data writer hands to its RTPS writer: a sample in serialized form,
/// or the news that an instance is gone.
#[derive(Debug, PartialEq, Eq)]
pub struct DDSData {
    pub change_kind: ChangeKind,
    /// The hash of the key of the instance that the sample belongs to.
    pub value_key_hash: u128,
    /// The sample; absent where the instance was disposed or unregistered.
    pub value: Option<SerializedPayload>,
}

/// What a sample holds, with its payload as a plain value.
pub struct DDSDataView {
    pub change_kind: ChangeKind,
    pub value_key_hash: u128,
    pub value: Option<SerializedPayloadView>,
}

impl View for DDSData {
    type V = DDSDataView;

    open spec fn view(&self) -> DDSDataView {
        DDSDataView {
            change_kind: self.change_kind,
            value_key_hash: self.value_key_hash,
            value: payload_view(self.value),
        }
    }
}

impl DDSData {
    /// An alive sample of the instance `value_key_hash`.
    pub fn new(value_key_hash: u128, value: SerializedPayload) -> (r: DDSData)
        ensures
            r@ == (DDSDataView {
                change_kind: ChangeKind::ALIVE,
                value_key_hash,
                value: Some(value@),
            }),
    {
        DDSData { change_kind: ChangeKind::ALIVE, value_key_hash, value: Some(value) }
    }

    /// The news that the instance `value_key_hash` was disposed.
    pub fn new_disposed(value_key_hash: u128) -> (r: DDSData)
        ensures
            r@ == (DDSDataView {
                change_kind: ChangeKind::NOT_ALIVE_DISPOSED,
                value_key_hash,
                value: None,
            }),
    {
        DDSData { change_kind: ChangeKind::NOT_ALIVE_DISPOSED, value_key_hash, value: None }
    }
}

impl Clone for DDSData {
    fn clone(&self) -> (r: DDSData)
        ensures
            r@ == self@,
    {
        DDSData {
            change_kind: self.change_kind,
            value_key_hash: self.value_key_hash,
            value: clone_payload(&self.value),
        }
    }
}

} // verus!
