use vstd::prelude::*;
use crate::messages::submessages::{
    AckSubmessage,
    BodyView,
    Data,
    DataFrag,
    DataFragView,
    DataView,
    Gap,
    Heartbeat,
    HeartbeatFrag,
    InterpreterSubmessage,
    ReaderSubmessage,
    WriterSubmessage,
    HEARTBEAT_FLAG_FINAL,
    INFOREPLY_FLAG_MULTICAST,
};
use crate::messages::wire::{flag_set, spec_flag_set};
use crate::network::event_loop::try_send;
use crate::rtps::message_receiver::{MessageReceiver, data_target, heartbeat_target, interpreted};
use crate::rtps::message_receiver::MessageReceiverState;
use crate::rtps::reader::Reader;
use crate::security::security_plugins::SecurityPlugins;
use crate::security::types::SecurityError;
use crate::structure::cache_change::{SerializedPayload, SerializedPayloadView, clone_bytes};
use crate::structure::guid::{EntityId, GuidPrefix, GUID};
use crate::structure::time::Instant;

verus! {

/// `d` with the bytes `value` for its payload, where it has one.
pub open spec fn with_payload_value(d: DataView, value: Seq<u8>) -> DataView {
    match d.serialized_payload {
        Some(p) => DataView {
            serialized_payload: Some(SerializedPayloadView { value, ..p }),
            ..d
        },
        None => d,
    }
}

/// `post` is `pre` after the data `d` was handed to it through the security
/// plugins: either the plugins refused the payload and the reader is as it
/// was, or the reader was given the data with the payload the plugins made
/// of it. Data without payload reaches the reader as it is.
pub open spec fn data_delivered(
    pre: &Reader,
    post: &Reader,
    d: DataView,
    source: GuidPrefix,
    now: Instant,
) -> bool {
    match d.serialized_payload {
        None => Reader::data_handled(pre, post, d, source, now),
        Some(_) => *post == *pre || exists|value: Seq<u8>|
            Reader::data_handled(pre, post, #[trigger] with_payload_value(d, value), source, now),
    }
}

/// The fragments that go to a reader once the plugins have given `answer`
/// for the payload of `d`: the fragments of `d` with the decoded payload,
/// where the plugins did decode and the payload is no longer than the
/// fragments that `d` claims to carry; none where the plugins refused or
/// where the payload is longer than that.
pub open spec fn spec_decoded_datafrag(
    d: DataFragView,
    answer: Result<Vec<u8>, SecurityError>,
) -> Option<DataFragView> {
    match answer {
        Ok(value) => if value@.len() <= d.fragments_in_submessage * d.fragment_size {
            Some(DataFragView { serialized_payload: value@, ..d })
        } else {
            None
        },
        Err(_) => None,
    }
}

/// The fragments that go to a reader once the plugins have given `answer`
/// for the payload of `datafrag`.
pub fn decoded_datafrag(datafrag: DataFrag, answer: Result<Vec<u8>, SecurityError>) -> (r: Option<
    DataFrag,
>)
    ensures
        match spec_decoded_datafrag(datafrag@, answer) {
            Some(v) => r matches Some(f) && f@ == v,
            None => r is None,
        },
{
    let decoded_payload = match answer {
        Ok(value) => value,
        Err(_) => {
            return None;
        },
    };
    assert((datafrag.fragments_in_submessage as u64) * (datafrag.fragment_size as u64) <= 0xFFFF
        * 0xFFFF) by (nonlinear_arith)
        requires
            datafrag.fragments_in_submessage <= 0xFFFF,
            datafrag.fragment_size <= 0xFFFF,
    ;
    let room: u64 = (datafrag.fragments_in_submessage as u64) * (datafrag.fragment_size as u64);
    if decoded_payload.len() as u64 > room {
        // More bytes than the fragments can hold: the submessage lies.
        return None;
    }
    Some(
        DataFrag {
            reader_id: datafrag.reader_id,
            writer_id: datafrag.writer_id,
            writer_sn: datafrag.writer_sn,
            fragment_starting_num: datafrag.fragment_starting_num,
            fragments_in_submessage: datafrag.fragments_in_submessage,
            fragment_size: datafrag.fragment_size,
            data_size: datafrag.data_size,
            inline_qos: datafrag.inline_qos,
            serialized_payload: decoded_payload,
        },
    )
}

impl<P: SecurityPlugins> MessageReceiver<P> {
    /// Whether what follows is meant for this participant.
    pub fn for_us(&self) -> (r: bool)
        ensures
            r == self.spec_for_us(),
    {
        self.dest_guid_prefix == self.own_guid_prefix || self.dest_guid_prefix.is_unknown()
    }

    /// Follows an interpreter submessage: see `interpreted`.
    pub fn handle_interpreter_submessage(&mut self, interp_subm: InterpreterSubmessage)
        ensures
            final(self).interp() == interpreted(
                old(self).interp(),
                old(self).own_guid_prefix,
                interp_subm.body(),
                interp_subm.flags(),
            ),
            final(self).same_but_interp(old(self)),
    {
        match interp_subm {
            InterpreterSubmessage::InfoTimestamp(ts_struct, _flags) => {
                // The flags have told already whether there is a timestamp.
                self.source_timestamp = ts_struct.timestamp;
            },
            InterpreterSubmessage::InfoSource(info_src, _flags) => {
                self.source_guid_prefix = info_src.guid_prefix;
                self.source_version = info_src.protocol_version;
                self.source_vendor_id = info_src.vendor_id;
                self.unicast_reply_locator_list.clear();
                self.multicast_reply_locator_list.clear();
                self.source_timestamp = None;
            },
            InterpreterSubmessage::InfoReply(info_reply, flags) => {
                self.unicast_reply_locator_list = info_reply.unicast_locator_list;
                self.multicast_reply_locator_list =
                match (flag_set(flags, INFOREPLY_FLAG_MULTICAST), info_reply.multicast_locator_list) {
                    (true, Some(ll)) => ll,
                    // The flag announces a list that is not there.
                    (true, None) => Vec::new(),
                    (false, None) => Vec::new(),
                    // A list that the flag does not announce is passed over.
                    (false, Some(_)) => Vec::new(),
                };
            },
            InterpreterSubmessage::InfoDestination(info_dest, _flags) => {
                if info_dest.guid_prefix.is_unknown() {
                    self.dest_guid_prefix = self.own_guid_prefix;
                } else {
                    self.dest_guid_prefix = info_dest.guid_prefix;
                }
            },
        }
    }

    /// What goes on to the writer side for a submessage of a reader: the
    /// acknowledgement or the request for fragments that it holds, with the
    /// prefix of the participant it came from; nothing where the submessage
    /// is not for this participant.
    pub open spec fn spec_forwarded(&self, submessage: ReaderSubmessage) -> Option<
        (GuidPrefix, AckSubmessage),
    > {
        if self.spec_for_us() {
            Some(
                (
                    self.source_guid_prefix,
                    match submessage {
                        ReaderSubmessage::AckNack(acknack, _) => AckSubmessage::AckNack(acknack),
                        ReaderSubmessage::NackFrag(nack_frag, _) => AckSubmessage::NackFrag(nack_frag),
                    },
                ),
            )
        } else {
            None
        }
    }

    /// What goes on to the writer side for a submessage of a reader.
    pub fn forwarded(&self, submessage: ReaderSubmessage) -> (r: Option<(GuidPrefix, AckSubmessage)>)
        ensures
            r == self.spec_forwarded(submessage),
    {
        if !self.for_us() {
            return None;
        }
        let ack = match submessage {
            ReaderSubmessage::AckNack(acknack, _) => AckSubmessage::AckNack(acknack),
            ReaderSubmessage::NackFrag(nack_frag, _) => AckSubmessage::NackFrag(nack_frag),
        };
        Some((self.source_guid_prefix, ack))
    }

    /// Passes what `forwarded` gives for the submessage on to the writer
    /// side. The channel is never waited for: where it is full or closed the
    /// acknowledgement is dropped. The receiver itself stays as it is.
    pub fn handle_reader_submessage(&mut self, submessage: ReaderSubmessage)
        ensures
            *final(self) == *old(self),
    {
        match self.forwarded(submessage) {
            Some(item) => {
                // This must not block: the receiving end runs on this very
                // thread.
                let _ = try_send(&self.acknack_sender, item);
            },
            None => {},
        }
    }

    /// The sign of life that goes to discovery for a submessage of a writer:
    /// the prefix of the sender, where the submessage is for this participant
    /// and is data from a built-in participant writer; else none.
    pub open spec fn spec_liveness_signal(&self, body: BodyView) -> Option<GuidPrefix> {
        match body {
            BodyView::Data(d) => if self.spec_for_us() && d.writer_id
                == EntityId::spec_spdp_builtin_participant_writer() {
                Some(self.source_guid_prefix)
            } else {
                None
            },
            _ => None,
        }
    }

    /// The sign of life that goes to discovery for a submessage of a writer.
    pub fn liveness_signal(&self, submessage: &WriterSubmessage) -> (r: Option<GuidPrefix>)
        ensures
            r == self.spec_liveness_signal(submessage.body()),
    {
        match submessage {
            WriterSubmessage::Data(data, _) => {
                if self.for_us() && data.writer_id == EntityId::spdp_builtin_participant_writer() {
                    Some(self.source_guid_prefix)
                } else {
                    None
                }
            },
            _ => None,
        }
    }

    /// Has the security plugins decode the payload of `data`, and hands the
    /// data with the decoded payload to `reader`. Where the plugins refuse,
    /// the reader gets nothing.
    pub fn decode_and_handle_data(
        security_plugins: &P,
        source_guid: &GUID,
        data: Data,
        data_flags: u8,
        reader: &mut Reader,
        mr_state: &MessageReceiverState,
        now: Instant,
    )
        requires
            old(reader).wf(),
            source_guid.prefix == mr_state.source_guid_prefix,
        ensures
            final(reader).wf(),
            data_delivered(old(reader), final(reader), data@, mr_state.source_guid_prefix, now),
    {
        let Data { reader_id, writer_id, writer_sn, inline_qos, serialized_payload } = data;
        let decoded_payload = match serialized_payload {
            None => None,
            Some(p) => {
                let reader_guid = reader.guid();
                match security_plugins.decode_serialized_payload(
                    p.value,
                    &inline_qos,
                    source_guid,
                    &reader_guid,
                ) {
                    Ok(value) => Some(
                        SerializedPayload {
                            representation_identifier: p.representation_identifier,
                            representation_options: p.representation_options,
                            value,
                        },
                    ),
                    Err(_) => {
                        return ;
                    },
                }
            },
        };
        let decoded = Data {
            reader_id,
            writer_id,
            writer_sn,
            inline_qos,
            serialized_payload: decoded_payload,
        };
        proof {
            match data@.serialized_payload {
                Some(_) => {
                    assert(decoded@ == with_payload_value(
                        data@,
                        decoded@.serialized_payload.unwrap().value,
                    ));
                },
                None => {
                    assert(decoded@ == data@);
                },
            }
        }
        reader.handle_data_msg(decoded, data_flags, mr_state, now);
    }

    /// Has the security plugins decode the payload of `datafrag`, and hands
    /// what `decoded_datafrag` makes of their answer to `reader`. The reader
    /// keeps no fragments, so it stays as it is whatever the plugins answer.
    pub fn decode_and_handle_datafrag(
        security_plugins: &P,
        source_guid: &GUID,
        datafrag: DataFrag,
        datafrag_flags: u8,
        reader: &mut Reader,
        mr_state: &MessageReceiverState,
    )
        ensures
            *final(reader) == *old(reader),
    {
        let encoded = clone_bytes(&datafrag.serialized_payload);
        let reader_guid = reader.guid();
        let answer = security_plugins.decode_serialized_payload(
            encoded,
            &datafrag.inline_qos,
            source_guid,
            &reader_guid,
        );
        match decoded_datafrag(datafrag, answer) {
            Some(decoded) => {
                reader.handle_datafrag_msg(&decoded, datafrag_flags, mr_state);
            },
            None => {},
        }
    }

    fn is_data_target(reader: &Reader, reader_id: EntityId, writer_id: EntityId) -> (r: bool)
        ensures
            r == data_target(reader, reader_id, writer_id),
    {
        if reader_id == EntityId::unknown() {
            reader.contains_writer(writer_id) || (writer_id
                == EntityId::spdp_builtin_participant_writer() && reader.entity_id()
                == EntityId::spdp_builtin_participant_reader()) || (writer_id
                == EntityId::p2p_builtin_participant_stateless_writer() && reader.entity_id()
                == EntityId::p2p_builtin_participant_stateless_reader())
        } else {
            reader.entity_id() == reader_id
        }
    }

    fn is_heartbeat_target(reader: &Reader, reader_id: EntityId, writer_id: EntityId) -> (r: bool)
        ensures
            r == heartbeat_target(reader, reader_id, writer_id),
    {
        if reader_id == EntityId::unknown() {
            reader.contains_writer(writer_id)
        } else {
            reader.entity_id() == reader_id
        }
    }

    /// What the wf of a receiver needs of changed readers.
    proof fn lemma_wf_readers(pre: &Self, post: &Self)
        requires
            pre.wf(),
            post.same_readers_as(pre),
            forall|j: int|
                0 <= j < post.available_readers@.len() ==> (#[trigger] post.available_readers@[j]).wf(),
        ensures
            post.wf(),
    {
        assert forall|i: int, j: int| 0 <= i < j < post.available_readers@.len() implies (
        #[trigger] post.available_readers@[i]).guid.entity_id != (
        #[trigger] post.available_readers@[j]).guid.entity_id by {
            assert(post.available_readers@[i].guid == pre.available_readers@[i].guid);
            assert(post.available_readers@[j].guid == pre.available_readers@[j].guid);
        }
    }

    /// `post` is `pre` after the submessage `body` of a writer, with flags
    /// `flags`, was handed to the readers it is for. Only readers change.
    /// Where the message is not for this participant none does. Else data
    /// reaches the readers that `data_target` names, a heartbeat those that
    /// `heartbeat_target` names, a gap the reader it names, each as the
    /// reader's own contract says; fragments change no reader.
    pub open spec fn writer_handled(
        pre: &Self,
        post: &Self,
        body: BodyView,
        flags: u8,
        now: Instant,
    ) -> bool {
        &&& post.same_but_readers(pre)
        &&& post.same_readers_as(pre)
        &&& !pre.spec_for_us() ==> post.available_readers@ == pre.available_readers@
        &&& pre.spec_for_us() ==> forall|j: int|
            #![trigger post.available_readers@[j]]
            0 <= j < pre.available_readers@.len() ==> {
                let r0 = &pre.available_readers@[j];
                let r1 = &post.available_readers@[j];
                let source = pre.source_guid_prefix;
                match body {
                    BodyView::Data(d) => if data_target(r0, d.reader_id, d.writer_id) {
                        data_delivered(r0, r1, d, source, now)
                    } else {
                        *r1 == *r0
                    },
                    BodyView::Heartbeat(hb) => if heartbeat_target(r0, hb.reader_id, hb.writer_id) {
                        Reader::heartbeat_handled(
                            r0,
                            r1,
                            hb,
                            spec_flag_set(flags, HEARTBEAT_FLAG_FINAL),
                            source,
                        )
                    } else {
                        *r1 == *r0
                    },
                    BodyView::Gap(gap) => if r0.guid.entity_id == gap.reader_id {
                        Reader::gap_handled(r0, r1, gap, source)
                    } else {
                        *r1 == *r0
                    },
                    _ => *r1 == *r0,
                }
            }
    }

    /// Hands a submessage of a writer to the readers it is for. A
    /// submessage that is not for this participant is dropped. Data and
    /// fragments go to the readers that `data_target` names, heartbeats to
    /// those that `heartbeat_target` names, a gap to the reader it names.
    /// Besides, what `liveness_signal` gives for the submessage goes to
    /// discovery, past the readers; where that channel is full, the sign is
    /// dropped.
    pub fn handle_writer_submessage(&mut self, submessage: WriterSubmessage, now: Instant)
        requires
            old(self).wf(),
        ensures
            final(self).wf(),
            Self::writer_handled(old(self), final(self), submessage.body(), submessage.flags(), now),
    {
        if !self.for_us() {
            return ;
        }
        let sign_of_life = self.liveness_signal(&submessage);
        let mr_state = self.clone_partial_message_receiver_state();
        let source_guid_prefix = mr_state.source_guid_prefix;
        let n = self.available_readers.len();
        match submessage {
            WriterSubmessage::Data(data, data_flags) => {
                let writer_entity_id = data.writer_id;
                let source_guid = GUID { prefix: source_guid_prefix, entity_id: writer_entity_id };
                let mut j: usize = 0;
                while j < n
                    invariant
                        j <= n,
                        n == old(self).available_readers@.len(),
                        old(self).wf(),
                        self.same_but_readers(old(self)),
                        self.same_readers_as(old(self)),
                        source_guid.prefix == mr_state.source_guid_prefix,
                        source_guid_prefix == old(self).source_guid_prefix,
                        source_guid_prefix == mr_state.source_guid_prefix,
                        forall|k: int| 0 <= k < n ==> (#[trigger] self.available_readers@[k]).wf(),
                        forall|k: int|
                            j <= k < n ==>
                                #[trigger] self.available_readers@[k] == old(self).available_readers@[k],
                        forall|k: int|
                            #![trigger self.available_readers@[k]]
                            0 <= k < j ==> {
                                let pre = &old(self).available_readers@[k];
                                let post = &self.available_readers@[k];
                                if data_target(pre, data.reader_id, data.writer_id) {
                                    data_delivered(pre, post, data@, source_guid_prefix, now)
                                } else {
                                    *post == *pre
                                }
                            },
                    decreases n - j,
                {
                    let ghost before = self.available_readers@;
                    if Self::is_data_target(
                        &self.available_readers[j],
                        data.reader_id,
                        data.writer_id,
                    ) {
                        Self::decode_and_handle_data(
                            &self.security_plugins,
                            &source_guid,
                            data.clone(),
                            data_flags,
                            &mut self.available_readers[j],
                            &mr_state,
                            now,
                        );
                    }
                    proof {
                        assert forall|k: int|
                            0 <= k < n && k != j implies #[trigger] self.available_readers@[k]
                            == before[k] by {}
                        assert(self.available_readers@[j as int].guid == before[j as int].guid) by {
                            let pre = &before[j as int];
                            let post = &self.available_readers@[j as int];
                            if data_target(pre, data.reader_id, data.writer_id) {
                                assert(data_delivered(pre, post, data@, source_guid_prefix, now));
                                if *post != *pre {
                                    if data@.serialized_payload is Some {
                                        let value = choose|value: Seq<u8>|
                                            Reader::data_handled(
                                                pre,
                                                post,
                                                #[trigger] with_payload_value(data@, value),
                                                source_guid_prefix,
                                                now,
                                            );
                                        assert(post.same_reader(pre));
                                    } else {
                                        assert(post.same_reader(pre));
                                    }
                                }
                            }
                        }
                    }
                    j += 1;
                }
                // A sign of life of the participant, whatever the readers do
                // with the data.
                match sign_of_life {
                    Some(prefix) => {
                        let _ = try_send(&self.spdp_liveness_sender, prefix);
                    },
                    None => {},
                }
            },
            WriterSubmessage::Heartbeat(heartbeat, flags) => {
                let final_flag = flag_set(flags, HEARTBEAT_FLAG_FINAL);
                let mut j: usize = 0;
                while j < n
                    invariant
                        j <= n,
                        n == old(self).available_readers@.len(),
                        old(self).wf(),
                        self.same_but_readers(old(self)),
                        self.same_readers_as(old(self)),
                        source_guid_prefix == old(self).source_guid_prefix,
                        source_guid_prefix == mr_state.source_guid_prefix,
                        final_flag == spec_flag_set(flags, HEARTBEAT_FLAG_FINAL),
                        forall|k: int| 0 <= k < n ==> (#[trigger] self.available_readers@[k]).wf(),
                        forall|k: int|
                            j <= k < n ==>
                                #[trigger] self.available_readers@[k] == old(self).available_readers@[k],
                        forall|k: int|
                            #![trigger self.available_readers@[k]]
                            0 <= k < j ==> {
                                let pre = &old(self).available_readers@[k];
                                let post = &self.available_readers@[k];
                                if heartbeat_target(pre, heartbeat.reader_id, heartbeat.writer_id) {
                                    Reader::heartbeat_handled(
                                        pre,
                                        post,
                                        heartbeat,
                                        final_flag,
                                        source_guid_prefix,
                                    )
                                } else {
                                    *post == *pre
                                }
                            },
                    decreases n - j,
                {
                    let ghost before = self.available_readers@;
                    if Self::is_heartbeat_target(
                        &self.available_readers[j],
                        heartbeat.reader_id,
                        heartbeat.writer_id,
                    ) {
                        self.available_readers[j].handle_heartbeat_msg(
                            &heartbeat,
                            final_flag,
                            mr_state.clone(),
                        );
                    }
                    proof {
                        assert forall|k: int|
                            0 <= k < n && k != j implies #[trigger] self.available_readers@[k]
                            == before[k] by {}
                    }
                    j += 1;
                }
            },
            WriterSubmessage::Gap(gap, _flags) => {
                let mut j: usize = 0;
                while j < n
                    invariant
                        j <= n,
                        n == old(self).available_readers@.len(),
                        old(self).wf(),
                        self.same_but_readers(old(self)),
                        self.same_readers_as(old(self)),
                        source_guid_prefix == old(self).source_guid_prefix,
                        source_guid_prefix == mr_state.source_guid_prefix,
                        forall|k: int| 0 <= k < n ==> (#[trigger] self.available_readers@[k]).wf(),
                        forall|k: int|
                            j <= k < n ==>
                                #[trigger] self.available_readers@[k] == old(self).available_readers@[k],
                        forall|k: int|
                            #![trigger self.available_readers@[k]]
                            0 <= k < j ==> {
                                let pre = &old(self).available_readers@[k];
                                let post = &self.available_readers@[k];
                                if pre.guid.entity_id == gap.reader_id {
                                    Reader::gap_handled(pre, post, gap@, source_guid_prefix)
                                } else {
                                    *post == *pre
                                }
                            },
                    decreases n - j,
                {
                    let ghost before = self.available_readers@;
                    if self.available_readers[j].entity_id() == gap.reader_id {
                        self.available_readers[j].handle_gap_msg(&gap, &mr_state);
                    }
                    proof {
                        assert forall|k: int|
                            0 <= k < n && k != j implies #[trigger] self.available_readers@[k]
                            == before[k] by {}
                    }
                    j += 1;
                }
            },
            WriterSubmessage::DataFrag(datafrag, flags) => {
                let source_guid = GUID { prefix: source_guid_prefix, entity_id: datafrag.writer_id };
                let mut j: usize = 0;
                while j < n
                    invariant
                        j <= n,
                        n == old(self).available_readers@.len(),
                        self.same_but_readers(old(self)),
                        self.available_readers@ == old(self).available_readers@,
                    decreases n - j,
                {
                    let ghost before = self.available_readers@;
                    let reader_id = datafrag.reader_id;
                    let writer_id = datafrag.writer_id;
                    let target = if reader_id == EntityId::unknown() {
                        self.available_readers[j].contains_writer(writer_id) || (writer_id
                            == EntityId::spdp_builtin_participant_writer()
                            && self.available_readers[j].entity_id()
                            == EntityId::spdp_builtin_participant_reader())
                    } else {
                        self.available_readers[j].entity_id() == reader_id
                    };
                    if target {
                        Self::decode_and_handle_datafrag(
                            &self.security_plugins,
                            &source_guid,
                            datafrag.clone(),
                            flags,
                            &mut self.available_readers[j],
                            &mr_state,
                        );
                    }
                    proof {
                        assert(self.available_readers@ =~= before);
                    }
                    j += 1;
                }
            },
            WriterSubmessage::HeartbeatFrag(heartbeatfrag, _flags) => {
                let mut j: usize = 0;
                while j < n
                    invariant
                        j <= n,
                        n == old(self).available_readers@.len(),
                        self.same_but_readers(old(self)),
                        self.available_readers@ == old(self).available_readers@,
                    decreases n - j,
                {
                    let ghost before = self.available_readers@;
                    if Self::is_heartbeat_target(
                        &self.available_readers[j],
                        heartbeatfrag.reader_id,
                        heartbeatfrag.writer_id,
                    ) {
                        self.available_readers[j].handle_heartbeatfrag_msg(
                            &heartbeatfrag,
                            &mr_state,
                        );
                    }
                    proof {
                        assert(self.available_readers@ =~= before);
                    }
                    j += 1;
                }
            },
        }
        proof {
            Self::lemma_wf_readers(old(self), self);
        }
    }
}

} // verus!
