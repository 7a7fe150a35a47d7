use vstd::prelude::*;
use bytes::Bytes;
use crate::messages::header::Header;
use crate::messages::serialization::message_at;
use crate::messages::submessages::{
    BodyView,
    Message,
    MessageView,
    SecurePostfix,
    SecurePrefix,
    SecuritySubmessage,
    Submessage,
    SubmessageBody,
    SubmessageView,
    WriterSubmessage,
    submessages_view,
};
use crate::rtps::message_receiver::{
    InterpreterState,
    MessageReceiver,
    SecureReceiverState,
    SecureStateView,
    MAX_SECURE_NESTING,
    entry_state,
    interpreted,
    interpreted_all,
    is_interpreter,
    is_security,
    is_writer_body,
};
use crate::rtps::reader::Reader;
use crate::security::authentication::types::{bytes_contents, bytes_to_vec};
use crate::security::cryptographic::SecureSubmessageKind;
use crate::security::security_plugins::SecurityPlugins;
use crate::security::types::SecurityError;
use crate::structure::cache_change::CacheChange;
use crate::structure::guid::EntityId;
use crate::structure::history_cache::{first_index_of, lemma_first_index_of};
use crate::structure::sequence_number::SequenceNumber;
use crate::structure::time::Instant;

verus! {

/// Whether `bytes` are the ping that some implementations send in place of
/// a message: shorter than a header, the protocol id in front, "DDSPING"
/// from the tenth byte on.
pub open spec fn spec_is_rtps_ping(bytes: Seq<u8>) -> bool {
    &&& 16 <= bytes.len() < 20
    &&& bytes.subrange(0, 4) == seq![0x52u8, 0x54u8, 0x50u8, 0x53u8]
    &&& bytes.subrange(9, 16) == seq![0x44u8, 0x44u8, 0x53u8, 0x50u8, 0x49u8, 0x4Eu8, 0x47u8]
}

/// Whether `bytes` is the short datagram by which some implementations
/// probe a port.
pub fn is_rtps_ping(bytes: &[u8]) -> (r: bool)
    ensures
        r == spec_is_rtps_ping(bytes@),
{
    if bytes.len() < 16 || bytes.len() >= 20 {
        return false;
    }
    let r = bytes[0] == 0x52 && bytes[1] == 0x54 && bytes[2] == 0x50 && bytes[3] == 0x53
        && bytes[9] == 0x44 && bytes[10] == 0x44 && bytes[11] == 0x53 && bytes[12] == 0x50
        && bytes[13] == 0x49 && bytes[14] == 0x4E && bytes[15] == 0x47;
    proof {
        let a = bytes@.subrange(0, 4);
        let b = bytes@.subrange(9, 16);
        let ma = seq![0x52u8, 0x54u8, 0x50u8, 0x53u8];
        let mb = seq![0x44u8, 0x44u8, 0x53u8, 0x50u8, 0x49u8, 0x4Eu8, 0x47u8];
        if r {
            assert(a =~= ma);
            assert(b =~= mb);
        } else {
            if a == ma && b == mb {
                assert(a[0] == ma[0] && a[1] == ma[1] && a[2] == ma[2] && a[3] == ma[3]);
                assert(b[0] == mb[0] && b[1] == mb[1] && b[2] == mb[2] && b[3] == mb[3]);
                assert(b[4] == mb[4] && b[5] == mb[5] && b[6] == mb[6]);
            }
        }
    }
    r
}

impl<P: SecurityPlugins> MessageReceiver<P> {
    /// All but the readers, what the interpreter submessages set and the
    /// state of the secured submessage under way is as in `pre`, and the
    /// readers are the same ones.
    pub open spec fn follows(&self, pre: &Self) -> bool {
        &&& self.same_readers_as(pre)
        &&& self.acknack_sender == pre.acknack_sender
        &&& self.spdp_liveness_sender == pre.spdp_liveness_sender
        &&& self.security_plugins == pre.security_plugins
        &&& self.own_guid_prefix == pre.own_guid_prefix
        &&& self.secure_rtps_wrapped == pre.secure_rtps_wrapped
    }

    /// `post` is `pre`, which had no secured submessage under way, after the
    /// submessage `sub`. An interpreter submessage is followed, as
    /// `interpreted` says; a submessage of a writer goes to the readers, as
    /// `writer_handled` says; a submessage of a reader goes on to the writer
    /// side and leaves the receiver as it is. Of the submessages of the
    /// security extension only the prefix of a secured submessage, in a
    /// message meant for this participant, has an effect: it is kept, and
    /// the receiver waits for the submessage behind it.
    pub open spec fn plain_handled(pre: &Self, post: &Self, sub: SubmessageView, now: Instant) -> bool {
        &&& post.follows(pre)
        &&& post.submessage_count == pre.submessage_count
        &&& !is_security(sub.body) ==> post.secure() is Idle && post.interp() == interpreted(
            pre.interp(),
            pre.own_guid_prefix,
            sub.body,
            sub.flags,
        )
        &&& is_interpreter(sub.body) ==> post.same_but_interp(pre)
        &&& is_writer_body(sub.body) ==> Self::writer_handled(pre, post, sub.body, sub.flags, now)
        &&& sub.body is AckNack || sub.body is NackFrag ==> *post == *pre
        &&& is_security(sub.body) ==> post.interp() == pre.interp() && post.available_readers@
            == pre.available_readers@ && post.secure() == match sub.body {
            BodyView::SecurePrefix(p) => if pre.spec_for_us() {
                SecureStateView::Prefix(p)
            } else {
                SecureStateView::Idle
            },
            _ => SecureStateView::Idle,
        }
    }

    /// `post` is `pre`, which had no secured submessage under way, after
    /// the secured submessage `kept` was closed and given to the plugins.
    /// What has happened depends on the plugins, and is one of three
    /// things. The plugins refused, or they made a submessage of a reader
    /// of it, which goes on to the writer side: the receiver is as it was.
    /// Or they said that it is not encoded: it was taken as it stands, as
    /// `plain_handled` says. Or they made a submessage of a writer of it,
    /// which went to the readers as `writer_handled` says.
    pub open spec fn secure_handled(pre: &Self, post: &Self, kept: SubmessageView, now: Instant) -> bool {
        ||| *post == *pre
        ||| Self::plain_handled(pre, post, kept, now)
        ||| exists|body: BodyView, flags: u8|
            is_writer_body(body) && #[trigger] Self::writer_handled(pre, post, body, flags, now)
    }

    /// `self` without a secured submessage under way.
    pub open spec fn idle(&self) -> Self {
        MessageReceiver { secure_receiver_state: None, ..*self }
    }

    /// `post` is `pre` after the next submessage `sub` of a message. Where
    /// no secured submessage is under way, see `plain_handled`. After the
    /// prefix of a secured submessage, whatever comes is kept as the secured
    /// submessage. After that, a postfix closes the secured submessage,
    /// which is given to the plugins as `secure_handled` says; anything else
    /// is out of sequence, and the prefix and what was kept are dropped with
    /// it.
    pub open spec fn submessage_handled(pre: &Self, post: &Self, sub: SubmessageView, now: Instant) -> bool {
        &&& post.follows(pre)
        &&& post.submessage_count == pre.submessage_count
        &&& match pre.secure() {
            SecureStateView::Idle => Self::plain_handled(pre, post, sub, now),
            SecureStateView::Prefix(p) => {
                &&& post.secure() == SecureStateView::SecureSubmessage(p, sub)
                &&& post.interp() == pre.interp()
                &&& post.available_readers@ == pre.available_readers@
            },
            SecureStateView::SecureSubmessage(_, kept) => if sub.body is SecurePostfix {
                Self::secure_handled(&pre.idle(), post, kept, now)
            } else {
                &&& post.secure() is Idle
                &&& post.interp() == pre.interp()
                &&& post.available_readers@ == pre.available_readers@
            },
        }
    }

    /// `post` is `pre` after the submessages `subs`, each taken as
    /// `submessage_handled` says and counted: there are states of the
    /// receiver, from `pre` to `post`, each of which follows from the one
    /// before by the next submessage.
    pub open spec fn submessages_handled(
        pre: &Self,
        post: &Self,
        subs: Seq<SubmessageView>,
        now: Instant,
    ) -> bool {
        exists|states: Seq<Self>| #[trigger]
            Self::walked(states, subs, now) && states[0] == *pre && states.last() == *post
    }

    /// `states` are the states of a receiver that takes the submessages
    /// `subs` one after the other.
    pub open spec fn walked(states: Seq<Self>, subs: Seq<SubmessageView>, now: Instant) -> bool {
        &&& states.len() == subs.len() + 1
        &&& forall|i: int|
            0 <= i < subs.len() ==> Self::counted_handled(
                &(#[trigger] states[i]),
                &states[i + 1],
                subs[i],
                now,
            )
    }

    /// `post` is `pre` after the submessage `sub` was taken and counted.
    pub open spec fn counted_handled(pre: &Self, post: &Self, sub: SubmessageView, now: Instant) -> bool {
        exists|after: Self|
            #[trigger] Self::submessage_handled(pre, &after, sub, now) && after.wf()
                && post.counted_after(&after)
    }

    /// `self` is `pre` after a reset: it has forgotten sender, destination,
    /// time, reply locators and any secured submessage under way, and has
    /// counted no submessage; its readers and channels are as they were.
    pub open spec fn is_reset_of(&self, pre: &Self) -> bool {
        &&& self.interp() == (InterpreterState {
            source_version: crate::messages::header::ProtocolVersion::spec_v2_3(),
            source_vendor_id: crate::messages::header::VendorId::spec_unknown(),
            source_guid_prefix: crate::structure::guid::GuidPrefix::spec_unknown(),
            dest_guid_prefix: crate::structure::guid::GuidPrefix::spec_unknown(),
            unicast_reply_locator_list: Seq::empty(),
            multicast_reply_locator_list: Seq::empty(),
            source_timestamp: None,
        })
        &&& self.submessage_count == 0
        &&& self.secure() is Idle
        &&& self.secure_rtps_wrapped is None
        &&& self.available_readers == pre.available_readers
        &&& self.acknack_sender == pre.acknack_sender
        &&& self.spdp_liveness_sender == pre.spdp_liveness_sender
        &&& self.security_plugins == pre.security_plugins
        &&& self.own_guid_prefix == pre.own_guid_prefix
    }

    /// `self` is `other` with one more submessage counted.
    pub open spec fn counted_after(&self, other: &Self) -> bool {
        &&& self.submessage_count == other.submessage_count + 1
        &&& self.available_readers == other.available_readers
        &&& self.acknack_sender == other.acknack_sender
        &&& self.spdp_liveness_sender == other.spdp_liveness_sender
        &&& self.security_plugins == other.security_plugins
        &&& self.own_guid_prefix == other.own_guid_prefix
        &&& self.interp() == other.interp()
        &&& self.secure_receiver_state == other.secure_receiver_state
        &&& self.secure_rtps_wrapped == other.secure_rtps_wrapped
    }

    /// `self` stands at the start of a message with header `header`, with
    /// the readers and channels of `pre`.
    pub open spec fn begun(&self, pre: &Self, header: Header) -> bool {
        &&& self.interp() == entry_state(pre.own_guid_prefix, header)
        &&& self.submessage_count == 0
        &&& self.secure() is Idle
        &&& self.secure_rtps_wrapped is None
        &&& self.available_readers == pre.available_readers
        &&& self.acknack_sender == pre.acknack_sender
        &&& self.spdp_liveness_sender == pre.spdp_liveness_sender
        &&& self.security_plugins == pre.security_plugins
        &&& self.own_guid_prefix == pre.own_guid_prefix
    }

    /// Whatever the last datagram has left in `pre`, the first submessage of
    /// the next one finds the receiver in a state `entry` that names this
    /// participant as the destination, has no timestamp and no reply
    /// locators, and has counted nothing.
    pub proof fn lemma_message_starts_afresh(pre: &Self, entry: &Self, header: Header)
        requires
            entry.begun(pre, header),
        ensures
            entry.dest_guid_prefix == pre.own_guid_prefix,
            entry.source_guid_prefix == header.guid_prefix,
            entry.source_timestamp is None,
            entry.unicast_reply_locator_list@.len() == 0,
            entry.multicast_reply_locator_list@.len() == 0,
            entry.submessage_count == 0,
    {
    }

    /// `post` is `pre` after the message `m`. The receiver starts afresh,
    /// whatever the last message has left. Of a message secured as a whole,
    /// which the plugins decode, no more is said than that the readers stay
    /// the same ones. Any other message has its submessages taken one after
    /// the other; where none of them is of the security extension, what the
    /// interpreter submessages have set in the end is what `interpreted_all`
    /// gives.
    pub open spec fn message_handled(pre: &Self, post: &Self, m: MessageView, now: Instant) -> bool {
        &&& post.same_readers_as(pre)
        &&& post.acknack_sender == pre.acknack_sender
        &&& post.spdp_liveness_sender == pre.spdp_liveness_sender
        &&& post.security_plugins == pre.security_plugins
        &&& post.own_guid_prefix == pre.own_guid_prefix
        &&& !(m.submessages.len() > 0 && m.submessages[0].body is SecureRTPSPrefix) ==> {
            &&& post.submessage_count == m.submessages.len()
            &&& exists|entry: Self|
                #[trigger] entry.begun(pre, m.header) && Self::submessages_handled(
                    &entry,
                    post,
                    m.submessages,
                    now,
                )
            &&& (forall|i: int|
                0 <= i < m.submessages.len() ==> !is_security((#[trigger] m.submessages[i]).body))
                ==> post.secure() is Idle && post.interp() == interpreted_all(
                entry_state(pre.own_guid_prefix, m.header),
                pre.own_guid_prefix,
                m.submessages,
            )
        }
    }

    /// Takes a submessage while no secured submessage is under way.
    fn handle_plain_submessage(&mut self, submessage: Submessage, now: Instant)
        requires
            old(self).wf(),
            old(self).secure() is Idle,
        ensures
            final(self).wf(),
            Self::plain_handled(old(self), final(self), submessage@, now),
    {
        match submessage.body {
            SubmessageBody::Interpreter(m) => self.handle_interpreter_submessage(m),
            SubmessageBody::Writer(m) => self.handle_writer_submessage(m, now),
            SubmessageBody::Reader(m) => self.handle_reader_submessage(m),
            SubmessageBody::Security(m) => {
                if self.for_us() {
                    match m {
                        SecuritySubmessage::SecureBody(_sec_body, _sec_body_flags) => {
                            // A secured body without a prefix: dropped.
                        },
                        SecuritySubmessage::SecurePrefix(sec_prefix, _) => {
                            self.secure_receiver_state = Some(
                                SecureReceiverState::Prefix(sec_prefix),
                            );
                        },
                        SecuritySubmessage::SecurePostfix(_sec_postfix, _sec_postfix_flags) => {
                            // A postfix out of sequence: dropped.
                        },
                        SecuritySubmessage::SecureRTPSPrefix(_, _) => {
                            // This prefix is allowed at the start of a message
                            // only, where the message is decoded as a whole.
                        },
                        SecuritySubmessage::SecureRTPSPostfix(_, _) => {
                            // A postfix out of sequence: dropped.
                        },
                    }
                }
            },
        }
    }

    /// Takes what the plugins have made of a secured submessage of a
    /// writer: where they refused, nothing; else the submessage goes to the
    /// readers as `writer_handled` says.
    fn handle_decoded_writer_submessage(
        &mut self,
        decoded: Result<WriterSubmessage, SecurityError>,
        now: Instant,
    )
        requires
            old(self).wf(),
        ensures
            final(self).wf(),
            match decoded {
                Err(_) => *final(self) == *old(self),
                Ok(submessage) => Self::writer_handled(
                    old(self),
                    final(self),
                    submessage.body(),
                    submessage.flags(),
                    now,
                ),
            },
    {
        match decoded {
            Ok(submessage) => {
                self.handle_writer_submessage(submessage, now);
            },
            Err(_sec_err) => {},
        }
    }

    /// Takes a secured submessage of which the plugins have said what it
    /// holds. Where they refused, it is dropped. An interpreter submessage
    /// is not encoded and is taken as it stands. A submessage of a writer or
    /// of a reader is decoded by the plugins, and what comes out goes to the
    /// readers or on to the writer side; where the plugins refuse to decode
    /// it, it is dropped.
    fn handle_preprocessed_submessage(
        &mut self,
        kind: Result<SecureSubmessageKind, SecurityError>,
        sec_prefix: SecurePrefix,
        encoded_submessage: Submessage,
        sec_postfix: SecurePostfix,
        now: Instant,
    )
        requires
            old(self).wf(),
            old(self).secure() is Idle,
        ensures
            final(self).wf(),
            match kind {
                Err(_) => *final(self) == *old(self),
                Ok(SecureSubmessageKind::InfoSubmessage) => Self::plain_handled(
                    old(self),
                    final(self),
                    encoded_submessage@,
                    now,
                ),
                Ok(SecureSubmessageKind::DatawriterSubmessage(_, _)) => *final(self) == *old(self)
                    || exists|body: BodyView, flags: u8|
                    is_writer_body(body) && #[trigger] Self::writer_handled(
                        old(self),
                        final(self),
                        body,
                        flags,
                        now,
                    ),
                Ok(SecureSubmessageKind::DatareaderSubmessage(_, _)) => *final(self) == *old(self),
            },
    {
        match kind {
            Err(_e) => {},
            Ok(SecureSubmessageKind::InfoSubmessage) => {
                self.handle_plain_submessage(encoded_submessage, now);
            },
            Ok(
                SecureSubmessageKind::DatawriterSubmessage(
                    sending_datawriter_crypto_handle,
                    receiving_datareader_crypto_handle,
                ),
            ) => {
                let decoded = self.security_plugins.decode_datawriter_submessage(
                    sec_prefix,
                    encoded_submessage,
                    sec_postfix,
                    receiving_datareader_crypto_handle,
                    sending_datawriter_crypto_handle,
                );
                let ghost made = decoded;
                self.handle_decoded_writer_submessage(decoded, now);
                proof {
                    match made {
                        Ok(submessage) => {
                            assert(is_writer_body(submessage.body()) && Self::writer_handled(
                                old(self),
                                self,
                                submessage.body(),
                                submessage.flags(),
                                now,
                            ));
                        },
                        Err(_) => {},
                    }
                }
            },
            Ok(
                SecureSubmessageKind::DatareaderSubmessage(
                    sending_datareader_crypto,
                    receiving_datawriter_crypto,
                ),
            ) => {
                match self.security_plugins.decode_datareader_submessage(
                    sec_prefix,
                    encoded_submessage,
                    sec_postfix,
                    receiving_datawriter_crypto,
                    sending_datareader_crypto,
                ) {
                    Ok(submessage) => {
                        self.handle_reader_submessage(submessage);
                    },
                    Err(_sec_err) => {},
                }
            },
        }
    }

    /// Takes a secured submessage that has come whole: asks the plugins
    /// what it holds, and takes it as `handle_preprocessed_submessage` says
    /// for their answer. Whatever the plugins answer, `secure_handled`
    /// holds.
    fn handle_secure_submessage(
        &mut self,
        sec_prefix: SecurePrefix,
        encoded_submessage: Submessage,
        sec_postfix: SecurePostfix,
        now: Instant,
    )
        requires
            old(self).wf(),
            old(self).secure() is Idle,
        ensures
            final(self).wf(),
            final(self).follows(old(self)),
            final(self).submessage_count == old(self).submessage_count,
            Self::secure_handled(old(self), final(self), encoded_submessage@, now),
    {
        let kind = self.security_plugins.preprocess_secure_submessage(
            &sec_prefix,
            &self.source_guid_prefix,
            &self.dest_guid_prefix,
        );
        self.handle_preprocessed_submessage(
            kind,
            sec_prefix,
            encoded_submessage,
            sec_postfix,
            now,
        );
    }

    /// Takes the next submessage of a message. Where no secured submessage
    /// is under way, see `plain_handled`. After the prefix of a secured
    /// submessage, whatever comes is kept as the secured submessage. After
    /// that, a postfix closes the secured submessage, which is then decoded
    /// and taken; anything else is out of sequence, and the prefix and what
    /// was kept are dropped with it.
    pub fn handle_submessage(&mut self, submessage: Submessage, now: Instant)
        requires
            old(self).wf(),
        ensures
            final(self).wf(),
            Self::submessage_handled(old(self), final(self), submessage@, now),
    {
        let mut state: Option<SecureReceiverState> = None;
        std::mem::swap(&mut state, &mut self.secure_receiver_state);
        // Taking the state leaves "no secured submessage under way"; every
        // branch in which another state is to hold sets it.
        match state {
            None => {
                self.handle_plain_submessage(submessage, now);
            },
            Some(SecureReceiverState::Prefix(sec_prefix)) => {
                self.secure_receiver_state = Some(
                    SecureReceiverState::SecureSubmessage(sec_prefix, submessage),
                );
            },
            Some(SecureReceiverState::SecureSubmessage(sec_prefix, sec_submessage)) => {
                // A prefix and one submessage have come: now the postfix is
                // due, and nothing else.
                match submessage.body {
                    SubmessageBody::Security(SecuritySubmessage::SecurePostfix(sec_postfix, _)) => {
                        self.handle_secure_submessage(sec_prefix, sec_submessage, sec_postfix, now);
                    },
                    _other => {},
                }
            },
        }
    }

    /// Takes the submessages `submessages` one after the other.
    fn handle_submessages(&mut self, submessages: Vec<Submessage>, now: Instant)
        requires
            old(self).wf(),
            old(self).submessage_count == 0,
            old(self).secure() is Idle,
        ensures
            final(self).wf(),
            final(self).follows(old(self)),
            final(self).submessage_count == submessages@.len(),
            Self::submessages_handled(old(self), final(self), submessages_view(submessages@), now),
            (forall|i: int|
                0 <= i < submessages@.len() ==> !is_security(
                    (#[trigger] submessages_view(submessages@)[i]).body,
                )) ==> final(self).secure() is Idle && final(self).interp() == interpreted_all(
                old(self).interp(),
                old(self).own_guid_prefix,
                submessages_view(submessages@),
            ),
    {
        let ghost all = submessages_view(submessages@);
        let n = submessages.len();
        let mut rest = submessages;
        let mut k: usize = 0;
        let ghost mut states: Seq<Self> = seq![*self];
        proof {
            assert(all.subrange(0, 0) =~= Seq::<SubmessageView>::empty());
            assert(all.subrange(0, all.len() as int) =~= all);
        }
        while k < n
            invariant
                k <= n,
                n == all.len(),
                self.wf(),
                self.follows(old(self)),
                self.submessage_count == k,
                submessages_view(rest@) == all.subrange(k as int, n as int),
                states.len() == k + 1,
                states[0] == *old(self),
                states.last() == *self,
                forall|i: int|
                    0 <= i < k ==> Self::counted_handled(
                        &(#[trigger] states[i]),
                        &states[i + 1],
                        all[i],
                        now,
                    ),
                (forall|i: int| 0 <= i < k ==> !is_security((#[trigger] all[i]).body))
                    ==> self.secure() is Idle && self.interp() == interpreted_all(
                    old(self).interp(),
                    old(self).own_guid_prefix,
                    all.subrange(0, k as int),
                ),
            decreases n - k,
        {
            let ghost before = *self;
            let ghost rest_before = rest@;
            assert(rest@.len() == n - k) by {
                assert(submessages_view(rest@).len() == rest@.len());
            }
            let submessage = rest.remove(0);
            proof {
                assert(submessage@ == submessages_view(rest_before)[0]);
                assert(submessage@ == all[k as int]);
                assert(submessages_view(rest@) =~= all.subrange(k + 1, n as int)) by {
                    assert forall|i: int| 0 <= i < rest@.len() implies submessages_view(
                        rest@,
                    )[i] == all.subrange(k + 1, n as int)[i] by {
                        assert(rest@[i] == rest_before[i + 1]);
                        assert(submessages_view(rest_before)[i + 1] == all[k + 1 + i]);
                    }
                }
            }
            self.handle_submessage(submessage, now);
            let ghost after = *self;
            self.submessage_count = self.submessage_count + 1;
            proof {
                let cur = all.subrange(0, k + 1);
                assert(cur.drop_last() =~= all.subrange(0, k as int));
                assert(cur.last() == all[k as int]);
                assert(Self::submessage_handled(&before, &after, all[k as int], now));
                assert(self.counted_after(&after));
                assert(after.wf());
                assert(Self::counted_handled(&before, self, all[k as int], now));
                let earlier = states;
                states = states.push(*self);
                assert forall|i: int| 0 <= i < k + 1 implies Self::counted_handled(
                    &(#[trigger] states[i]),
                    &states[i + 1],
                    all[i],
                    now,
                ) by {
                    if i < k {
                        assert(states[i] == earlier[i]);
                        assert(states[i + 1] == earlier[i + 1]);
                    } else {
                        assert(states[i] == before);
                        assert(states[i + 1] == *self);
                    }
                }
                assert forall|a: int, b: int| 0 <= a < b < self.available_readers@.len() implies (
                #[trigger] self.available_readers@[a]).guid.entity_id != (
                #[trigger] self.available_readers@[b]).guid.entity_id by {
                    assert(self.available_readers@[a].guid == before.available_readers@[a].guid);
                    assert(self.available_readers@[b].guid == before.available_readers@[b].guid);
                }
                if forall|i: int| 0 <= i < k + 1 ==> !is_security((#[trigger] all[i]).body) {
                    assert(!is_security(all[k as int].body));
                    assert(forall|i: int| 0 <= i < k ==> !is_security((#[trigger] all[i]).body));
                }
            }
            k += 1;
        }
        proof {
            assert(Self::walked(states, all, now));
        }
    }

    fn handle_parsed_message_nested(&mut self, rtps_message: Message, now: Instant, depth: usize)
        requires
            old(self).wf(),
        ensures
            final(self).wf(),
            Self::message_handled(old(self), final(self), rtps_message@, now),
        decreases depth,
    {
        self.begin_message(&rtps_message.header);
        let secured = rtps_message.submessages.len() > 0 && match &rtps_message.submessages[0].body {
            SubmessageBody::Security(SecuritySubmessage::SecureRTPSPrefix(_, _)) => true,
            _ => false,
        };
        proof {
            if rtps_message@.submessages.len() > 0 {
                assert(rtps_message@.submessages[0] == rtps_message.submessages@[0]@);
            }
        }
        if secured {
            // The message is secured as a whole: the plugins decode it, and
            // what comes out is taken in its place.
            if depth == 0 {
                return ;
            }
            match self.security_plugins.decode_rtps_message(
                rtps_message,
                &self.source_guid_prefix,
                &self.dest_guid_prefix,
            ) {
                Err(_e) => {},
                Ok(message) => {
                    let ghost mid = *self;
                    self.handle_parsed_message_nested(message, now, depth - 1);
                    proof {
                        assert forall|j: int|
                            0 <= j < old(self).available_readers@.len() implies (
                        #[trigger] self.available_readers@[j]).guid == old(self).available_readers@[j].guid by {
                            assert(self.available_readers@[j].guid
                                == mid.available_readers@[j].guid);
                        }
                    }
                },
            }
        } else {
            let ghost entry = *self;
            let Message { header, submessages } = rtps_message;
            self.handle_submessages(submessages, now);
            proof {
                assert(entry.begun(old(self), rtps_message@.header));
                assert(Self::submessages_handled(&entry, self, rtps_message@.submessages, now));
                assert forall|j: int|
                    0 <= j < old(self).available_readers@.len() implies (
                #[trigger] self.available_readers@[j]).guid == old(self).available_readers@[j].guid by {
                    assert(self.available_readers@[j].guid == entry.available_readers@[j].guid);
                }
            }
        }
    }

    /// Takes one message. The receiver starts afresh, as `entry_state`
    /// says, whatever the last message has left. A message that begins with
    /// the prefix of a message secured as a whole is handed to the plugins,
    /// and what they make of it is taken in its place, to a nesting of at
    /// most `MAX_SECURE_NESTING`. Any other message has its submessages
    /// taken one after the other.
    pub fn handle_parsed_message(&mut self, rtps_message: Message, now: Instant)
        requires
            old(self).wf(),
        ensures
            final(self).wf(),
            Self::message_handled(old(self), final(self), rtps_message@, now),
    {
        self.handle_parsed_message_nested(rtps_message, now, MAX_SECURE_NESTING);
    }

    /// Takes one datagram, given as its bytes. A datagram that does not
    /// hold a message, for one because it is shorter than a header, is
    /// dropped, and the receiver is reset. The message that a datagram holds
    /// is taken as `handle_parsed_message` says.
    pub fn handle_datagram(&mut self, bytes: &[u8], now: Instant)
        requires
            old(self).wf(),
        ensures
            final(self).wf(),
            match message_at(bytes@) {
                None => final(self).is_reset_of(old(self)),
                Some(m) => Self::message_handled(old(self), final(self), m, now),
            },
    {
        if bytes.len() < crate::messages::header::RTPS_MESSAGE_HEADER_SIZE {
            // Too short for a message. Some implementations send a ping of
            // this form; there is nothing to answer to it.
            let _ping = is_rtps_ping(bytes);
            self.reset();
            return ;
        }
        let rtps_message = match Message::read_from_buffer(bytes) {
            Some(m) => m,
            None => {
                self.reset();
                return ;
            },
        };
        self.handle_parsed_message(rtps_message, now);
    }

    /// Takes one datagram as it came from the socket, at `now`.
    pub fn handle_received_packet(&mut self, msg_bytes: &Bytes, now: Instant)
        requires
            old(self).wf(),
        ensures
            final(self).wf(),
            match message_at(bytes_contents(*msg_bytes)) {
                None => final(self).is_reset_of(old(self)),
                Some(m) => Self::message_handled(old(self), final(self), m, now),
            },
    {
        let bytes = bytes_to_vec(msg_bytes);
        self.handle_datagram(bytes.as_slice(), now);
    }

    /// A copy of the first change with sequence number `sequence_number` in
    /// the history cache of the first reader with entity id `reader_id`.
    /// There is none where there is no such reader, or where its cache
    /// holds no change under that number.
    pub fn get_reader_and_history_cache_change(
        &self,
        reader_id: EntityId,
        sequence_number: SequenceNumber,
    ) -> (r: Option<CacheChange>)
        ensures
            r is Some <==> exists|i: int, k: int|
                #![trigger self.is_first_reader(i, reader_id), self.available_readers@[i].history_cache@[k]]
                self.is_first_reader(i, reader_id) && 0 <= k
                    < self.available_readers@[i].history_cache@.len()
                    && self.available_readers@[i].history_cache@[k].sequence_number
                    == sequence_number,
            r matches Some(c) ==> exists|i: int|
                #![trigger self.is_first_reader(i, reader_id)]
                {
                    let cache = self.available_readers@[i].history_cache@;
                    &&& self.is_first_reader(i, reader_id)
                    &&& first_index_of(cache, sequence_number) < cache.len()
                    &&& c@ == cache[first_index_of(cache, sequence_number)]
                    &&& c@.sequence_number == sequence_number
                },
    {
        match self.reader_index(reader_id) {
            Some(i) => {
                let ghost cache = self.available_readers@[i as int].history_cache@;
                proof {
                    lemma_first_index_of(cache, sequence_number);
                    // No other reader is the first with this entity id.
                    assert forall|j: int| self.is_first_reader(j, reader_id) implies j == i by {
                        if j < i {
                            assert(self.available_readers@[j].guid.entity_id != reader_id);
                        } else if i < j {
                            assert(self.available_readers@[i as int].guid.entity_id != reader_id);
                        }
                    }
                }
                match self.available_readers[i].history_cache.get_change(sequence_number) {
                    Some(c) => {
                        proof {
                            let k = first_index_of(cache, sequence_number);
                            assert(self.is_first_reader(i as int, reader_id) && 0 <= k < cache.len()
                                && self.available_readers@[i as int].history_cache@[k].sequence_number
                                == sequence_number);
                        }
                        Some(c.clone())
                    },
                    None => None,
                }
            },
            None => None,
        }
    }
}

} // verus!
