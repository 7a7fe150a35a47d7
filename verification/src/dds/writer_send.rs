use vstd::prelude::*;
use crate::common::sorted::lemma_strictly_ascending_unique;
use crate::common::timed_event_handler::Timeout;
use crate::dds::ddsdata::DDSData;
use crate::dds::rtps_reader_proxy::RtpsReaderProxy;
use crate::dds::writer::{Writer, cache_first};
use crate::dds::writer_maintenance::{lemma_inv_readers, readers_follow};
use crate::dds::writer_state::reader_index;
use crate::messages::serialization::{message_bytes, message_in, message_writable};
use crate::messages::submessages::{Message, data_sequence_numbers};
use crate::messages::wire::Endianness;
use crate::network::constant::TimerMessageType;
use crate::network::udp_sender::{
    DatagramView,
    UDPSender,
    multicast_datagrams,
    unicast_datagrams,
};
use crate::structure::cache_change::CacheChangeView;
use crate::structure::guid::GUID;
use crate::structure::sequence_number::{SequenceNumber, strictly_ascending};
use crate::structure::time::{Instant, Timestamp};

verus! {

/// The heartbeat counter after one more heartbeat. It stops at its greatest
/// value.
pub open spec fn next_count(c: i32) -> i32 {
    if c == i32::MAX {
        c
    } else {
        (c + 1) as i32
    }
}

/// The counter after `n` more heartbeats.
pub open spec fn count_after(c: i32, n: nat) -> i32
    decreases n,
{
    if n == 0 {
        c
    } else {
        next_count(count_after(c, (n - 1) as nat))
    }
}

/// The datagrams by which `bytes` go to a reader: one to each of its unicast
/// locators, then one by multicast to each of its UDP/IPv4 multicast
/// locators.
pub open spec fn transmission(bytes: Seq<u8>, reader: RtpsReaderProxy) -> Seq<DatagramView> {
    unicast_datagrams(bytes, reader.unicast_locator_list@) + multicast_datagrams(
        bytes,
        reader.multicast_locator_list@,
    )
}

/// The elements of a finite set in ascending order.
pub open spec fn ascending_seq(s: Set<SequenceNumber>) -> Seq<SequenceNumber> {
    choose|q: Seq<SequenceNumber>| strictly_ascending(q) && q.to_set() == s
}

/// A strictly ascending sequence is the ascending sequence of its elements.
pub proof fn lemma_ascending_seq(q: Seq<SequenceNumber>)
    requires
        strictly_ascending(q),
    ensures
        ascending_seq(q.to_set()) == q,
{
    let c = ascending_seq(q.to_set());
    assert(strictly_ascending(c) && c.to_set() == q.to_set());
    lemma_strictly_ascending_unique(c, q);
}

/// Sends `message` to `reader`.
fn transmit(udp: &mut UDPSender, message: &Message, endianness: Endianness, reader: &RtpsReaderProxy)
    requires
        message_writable(message@),
        message_in(message@, endianness),
    ensures
        final(udp)@ == old(udp)@ + transmission(message_bytes(message@), *reader),
{
    match message.write_to_vec_with_ctx(endianness) {
        Some(buffer) => {
            udp.send_to_locator_list(&buffer, &reader.unicast_locator_list);
            udp.send_ipv4_multicast(&buffer, &reader.multicast_locator_list);
            assert(udp@ =~= old(udp)@ + transmission(message_bytes(message@), *reader));
        },
        None => {},
    }
}

impl Writer {
    /// The held change with sequence number `sn`.
    pub open spec fn held_change(&self, sn: SequenceNumber) -> Option<CacheChangeView> {
        if cache_first(self.cache(), self.last_change_sequence_number) <= sn
            <= self.last_change_sequence_number {
            Some(
                self.cache()[sn - cache_first(self.cache(), self.last_change_sequence_number)],
            )
        } else {
            None
        }
    }

    /// What sending the change `sn` to `reader` at `now` puts on the wire,
    /// and the heartbeat counter afterwards, where the counter was `c`
    /// before: nothing where the change is not held or is too large for a
    /// submessage; else the message that carries it, to each locator of the
    /// reader, with a heartbeat under the next count where the writer is
    /// reliable.
    pub open spec fn change_out(
        &self,
        reader: RtpsReaderProxy,
        sn: SequenceNumber,
        now: Timestamp,
        c: i32,
    ) -> (Seq<DatagramView>, i32) {
        match self.held_change(sn) {
            Some(ch) => if self.data_fits(ch, reader.remote_reader_guid.entity_id) {
                let c2 = if self.spec_is_reliable() {
                    next_count(c)
                } else {
                    c
                };
                (
                    transmission(
                        message_bytes(self.spec_user_msg(ch, reader.remote_reader_guid, now, c2)),
                        reader,
                    ),
                    c2,
                )
            } else {
                (Seq::empty(), c)
            },
            None => (Seq::empty(), c),
        }
    }

    /// What sending the changes `seqs` to `reader`, one after the other,
    /// puts on the wire, and the heartbeat counter afterwards.
    pub open spec fn changes_out(
        &self,
        reader: RtpsReaderProxy,
        seqs: Seq<SequenceNumber>,
        now: Timestamp,
        c: i32,
    ) -> (Seq<DatagramView>, i32)
        decreases seqs.len(),
    {
        if seqs.len() == 0 {
            (Seq::empty(), c)
        } else {
            let (out, c1) = self.changes_out(reader, seqs.drop_last(), now, c);
            let (step, c2) = self.change_out(reader, seqs.last(), now, c1);
            (out + step, c2)
        }
    }

    /// What a bare heartbeat to `reader` puts on the wire, and the counter
    /// afterwards.
    pub open spec fn heartbeat_out(&self, reader: RtpsReaderProxy, c: i32) -> (
        Seq<DatagramView>,
        i32,
    ) {
        (
            transmission(
                message_bytes(self.spec_heartbeat_msg(reader.remote_reader_guid, next_count(c))),
                reader,
            ),
            next_count(c),
        )
    }

    /// What serving `reader` puts on the wire, and the counter afterwards.
    /// On a heartbeat tick the reader gets what it has asked for, in
    /// ascending order, then what it is owed besides, in ascending order,
    /// and a bare heartbeat where it was owed nothing. Otherwise it gets
    /// what it is owed, in ascending order.
    pub open spec fn reader_out(
        &self,
        reader: RtpsReaderProxy,
        now: Timestamp,
        c: i32,
        tick: bool,
    ) -> (Seq<DatagramView>, i32) {
        if tick {
            let (o1, c1) = self.changes_out(
                reader,
                ascending_seq(reader.requested_set()),
                now,
                c,
            );
            let (o2, c2) = self.changes_out(
                reader,
                ascending_seq(reader.unsent_set().difference(reader.requested_set())),
                now,
                c1,
            );
            if reader.unsent_set() =~= Set::<SequenceNumber>::empty() {
                let (o3, c3) = self.heartbeat_out(reader, c2);
                (o1 + o2 + o3, c3)
            } else {
                (o1 + o2, c2)
            }
        } else {
            self.changes_out(reader, ascending_seq(reader.unsent_set()), now, c)
        }
    }

    /// What serving `readers`, one after the other, puts on the wire, and
    /// the counter afterwards.
    pub open spec fn readers_out(
        &self,
        readers: Seq<RtpsReaderProxy>,
        now: Timestamp,
        c: i32,
        tick: bool,
    ) -> (Seq<DatagramView>, i32)
        decreases readers.len(),
    {
        if readers.len() == 0 {
            (Seq::empty(), c)
        } else {
            let (out, c1) = self.readers_out(readers.drop_last(), now, c, tick);
            let (step, c2) = self.reader_out(readers.last(), now, c1, tick);
            (out + step, c2)
        }
    }

    /// Everything but the readers, the heartbeat counter and what waits to
    /// be sent is as in `other`.
    pub open spec fn same_but_sending(&self, other: &Writer) -> bool {
        &&& self.same_settings(other)
        &&& self.cache() == other.cache()
        &&& self.timed() == other.timed()
        &&& self.instants() == other.instants()
        &&& self.first_change_sequence_number == other.first_change_sequence_number
        &&& self.last_change_sequence_number == other.last_change_sequence_number
        &&& self.timed_event_handler == other.timed_event_handler
        &&& self.key_to_instant == other.key_to_instant
        &&& self.writer_is_disposed == other.writer_is_disposed
    }

    /// `self` differs from `other` at most in reader `i`, which has the
    /// changes in `sent` neither owed nor asked for any more.
    pub open spec fn served(&self, other: &Writer, i: int, sent: Set<SequenceNumber>) -> bool {
        &&& self.readers@.len() == other.readers@.len()
        &&& forall|j: int|
            0 <= j < self.readers@.len() && j != i ==> #[trigger] self.readers@[j]
                == other.readers@[j]
        &&& self.readers@[i].same_peer(&other.readers@[i])
        &&& self.readers@[i].highest_acked == other.readers@[i].highest_acked
        &&& self.readers@[i].unsent_set() == other.readers@[i].unsent_set().difference(sent)
        &&& self.readers@[i].requested_set() == other.readers@[i].requested_set().difference(
            sent,
        )
    }

    fn increase_heartbeat_counter(&mut self)
        ensures
            final(self).heartbeat_message_counter == next_count(
                old(self).heartbeat_message_counter,
            ),
            final(self).same_but_sending(old(self)),
            final(self).readers == old(self).readers,
            final(self).udp_sender == old(self).udp_sender,
    {
        if self.heartbeat_message_counter < i32::MAX {
            self.heartbeat_message_counter = self.heartbeat_message_counter + 1;
        }
    }

    /// Sends the change `sn` to the matched reader `i` and marks it as
    /// neither owed nor asked for any more.
    fn send_change_to(&mut self, i: usize, sn: SequenceNumber, now: Timestamp)
        requires
            old(self).wf(),
            i < old(self).readers@.len(),
        ensures
            final(self).wf(),
            final(self).udp_sender@ == old(self).udp_sender@ + old(self).change_out(
                old(self).readers@[i as int],
                sn,
                now,
                old(self).heartbeat_message_counter,
            ).0,
            final(self).heartbeat_message_counter == old(self).change_out(
                old(self).readers@[i as int],
                sn,
                now,
                old(self).heartbeat_message_counter,
            ).1,
            final(self).served(old(self), i as int, set![sn]),
            final(self).same_but_sending(old(self)),
    {
        let reader_guid = self.readers[i].remote_reader_guid;
        let saved = self.heartbeat_message_counter;
        match self.find_cache_change(sn) {
            Some(change) => {
                if self.is_reliable() {
                    self.increase_heartbeat_counter();
                }
                match self.write_user_msg(change, reader_guid, now) {
                    Some(message) => {
                        transmit(&mut self.udp_sender, &message, self.endianness, &self.readers[i]);
                    },
                    None => {
                        self.heartbeat_message_counter = saved;
                        assert(self.udp_sender@ =~= old(self).udp_sender@ + Seq::<
                            DatagramView,
                        >::empty());
                    },
                }
            },
            None => {
                assert(self.udp_sender@ =~= old(self).udp_sender@ + Seq::<DatagramView>::empty());
            },
        }
        self.readers[i].remove_unsend_change(sn);
        self.readers[i].remove_requested_change(sn);
        proof {
            assert(self.readers@[i as int].unsent_set() =~=
                old(self).readers@[i as int].unsent_set().difference(set![sn]));
            assert(self.readers@[i as int].requested_set() =~=
                old(self).readers@[i as int].requested_set().difference(set![sn]));
            assert(readers_follow(
                self.readers@,
                old(self).readers@,
                self.last_change_sequence_number,
            ));
            lemma_inv_readers(
                self.first_change_sequence_number,
                self.last_change_sequence_number,
                self.guid,
                self.cache(),
                self.instants(),
                old(self).readers@,
                self.readers@,
            );
        }
    }

    /// Sends the changes `seqs` to the matched reader `i`, one after the
    /// other.
    fn send_changes_to(&mut self, i: usize, seqs: &Vec<SequenceNumber>, now: Timestamp)
        requires
            old(self).wf(),
            i < old(self).readers@.len(),
        ensures
            final(self).wf(),
            final(self).udp_sender@ == old(self).udp_sender@ + old(self).changes_out(
                old(self).readers@[i as int],
                seqs@,
                now,
                old(self).heartbeat_message_counter,
            ).0,
            final(self).heartbeat_message_counter == old(self).changes_out(
                old(self).readers@[i as int],
                seqs@,
                now,
                old(self).heartbeat_message_counter,
            ).1,
            final(self).served(old(self), i as int, seqs@.to_set()),
            final(self).same_but_sending(old(self)),
    {
        let ghost r0 = old(self).readers@[i as int];
        let ghost c0 = old(self).heartbeat_message_counter;
        let mut k: usize = 0;
        proof {
            assert(seqs@.subrange(0, 0) =~= Seq::<SequenceNumber>::empty());
            assert(seqs@.subrange(0, 0).to_set() =~= Set::<SequenceNumber>::empty());
            assert(self.udp_sender@ =~= old(self).udp_sender@ + Seq::<DatagramView>::empty());
            assert(r0.unsent_set().difference(Set::<SequenceNumber>::empty()) =~= r0.unsent_set());
            assert(r0.requested_set().difference(Set::<SequenceNumber>::empty())
                =~= r0.requested_set());
        }
        while k < seqs.len()
            invariant
                k <= seqs.len(),
                i < old(self).readers@.len(),
                r0 == old(self).readers@[i as int],
                c0 == old(self).heartbeat_message_counter,
                self.wf(),
                self.udp_sender@ == old(self).udp_sender@ + old(self).changes_out(
                    r0,
                    seqs@.subrange(0, k as int),
                    now,
                    c0,
                ).0,
                self.heartbeat_message_counter == old(self).changes_out(
                    r0,
                    seqs@.subrange(0, k as int),
                    now,
                    c0,
                ).1,
                self.served(old(self), i as int, seqs@.subrange(0, k as int).to_set()),
                self.same_but_sending(old(self)),
            decreases seqs.len() - k,
        {
            let ghost before = *self;
            let ghost pre = seqs@.subrange(0, k as int);
            let ghost cur = seqs@.subrange(0, k + 1);
            let sn = seqs[k];
            self.send_change_to(i, sn, now);
            proof {
                assert(cur.drop_last() =~= pre);
                assert(cur.last() == sn);
                let rb = before.readers@[i as int];
                // What is sent depends on the reader's identity and locators
                // only, and those have not changed.
                assert(before.change_out(rb, sn, now, before.heartbeat_message_counter) ==
                    old(self).change_out(r0, sn, now, before.heartbeat_message_counter)) by {
                    assert(rb.same_peer(&r0));
                    assert(before.held_change(sn) == old(self).held_change(sn));
                }
                assert(self.udp_sender@ =~= old(self).udp_sender@ + old(self).changes_out(
                    r0,
                    cur,
                    now,
                    c0,
                ).0);
                crate::common::sorted::lemma_push_to_set(pre, sn);
                assert(cur =~= pre.push(sn));
                assert(self.readers@[i as int].unsent_set() =~= r0.unsent_set().difference(
                    cur.to_set(),
                ));
                assert(self.readers@[i as int].requested_set() =~= r0.requested_set().difference(
                    cur.to_set(),
                ));
                assert forall|j: int|
                    0 <= j < self.readers@.len() && j != i implies #[trigger] self.readers@[j]
                    == old(self).readers@[j] by {
                    assert(self.readers@[j] == before.readers@[j]);
                }
            }
            k += 1;
        }
        proof {
            assert(seqs@.subrange(0, seqs.len() as int) =~= seqs@);
        }
    }

    /// Serves the matched reader `i`: see `reader_out`.
    fn serve_reader(&mut self, i: usize, now: Timestamp, tick: bool)
        requires
            old(self).wf(),
            i < old(self).readers@.len(),
        ensures
            final(self).wf(),
            final(self).udp_sender@ == old(self).udp_sender@ + old(self).reader_out(
                old(self).readers@[i as int],
                now,
                old(self).heartbeat_message_counter,
                tick,
            ).0,
            final(self).heartbeat_message_counter == old(self).reader_out(
                old(self).readers@[i as int],
                now,
                old(self).heartbeat_message_counter,
                tick,
            ).1,
            final(self).served(
                old(self),
                i as int,
                if tick {
                    old(self).readers@[i as int].unsent_set().union(
                        old(self).readers@[i as int].requested_set(),
                    )
                } else {
                    old(self).readers@[i as int].unsent_set()
                },
            ),
            final(self).same_but_sending(old(self)),
    {
        let ghost r0 = old(self).readers@[i as int];
        let ghost c0 = old(self).heartbeat_message_counter;
        if tick {
            let owed_nothing = self.readers[i].unsent.is_empty();
            let requested = self.readers[i].requested_changes();
            proof {
                lemma_ascending_seq(requested@);
            }
            self.send_changes_to(i, &requested, now);
            let ghost mid = *self;
            let unsent = self.readers[i].unsent_changes();
            proof {
                lemma_ascending_seq(unsent@);
                assert(unsent@.to_set() =~= r0.unsent_set().difference(r0.requested_set()));
            }
            self.send_changes_to(i, &unsent, now);
            proof {
                let r1 = mid.readers@[i as int];
                let c1 = mid.heartbeat_message_counter;
                assert(r1.same_peer(&r0));
                lemma_changes_out_peer(mid, *old(self), r1, r0, unsent@, now, c1);
                assert(self.readers@[i as int].unsent_set() =~= r0.unsent_set().difference(
                    r0.unsent_set().union(r0.requested_set()),
                ));
                assert(self.readers@[i as int].requested_set() =~= r0.requested_set().difference(
                    r0.unsent_set().union(r0.requested_set()),
                ));
                assert forall|j: int|
                    0 <= j < self.readers@.len() && j != i implies #[trigger] self.readers@[j]
                    == old(self).readers@[j] by {
                    assert(self.readers@[j] == mid.readers@[j]);
                }
            }
            if owed_nothing {
                let ghost before = *self;
                self.increase_heartbeat_counter();
                let reader_guid = self.readers[i].remote_reader_guid;
                let message = self.write_heartbeat_msg(reader_guid);
                transmit(&mut self.udp_sender, &message, self.endianness, &self.readers[i]);
                proof {
                    let rb = before.readers@[i as int];
                    assert(rb.same_peer(&r0));
                    assert(self.spec_heartbeat_msg(reader_guid, self.heartbeat_message_counter)
                        == old(self).spec_heartbeat_msg(
                        r0.remote_reader_guid,
                        self.heartbeat_message_counter,
                    ));
                    assert(transmission(message_bytes(message@), self.readers@[i as int])
                        == transmission(message_bytes(message@), r0));
                    assert(self.udp_sender@ =~= old(self).udp_sender@ + old(self).reader_out(
                        r0,
                        now,
                        c0,
                        tick,
                    ).0);
                }
            } else {
                proof {
                    assert(self.udp_sender@ =~= old(self).udp_sender@ + old(self).reader_out(
                        r0,
                        now,
                        c0,
                        tick,
                    ).0);
                }
            }
        } else {
            let unsent = self.readers[i].unsent_changes();
            proof {
                lemma_ascending_seq(unsent@);
            }
            self.send_changes_to(i, &unsent, now);
        }
    }

    /// Serves every matched reader in turn: see `readers_out`.
    fn serve_readers(&mut self, now: Timestamp, tick: bool)
        requires
            old(self).wf(),
        ensures
            final(self).wf(),
            final(self).udp_sender@ == old(self).udp_sender@ + old(self).readers_out(
                old(self).readers@,
                now,
                old(self).heartbeat_message_counter,
                tick,
            ).0,
            final(self).heartbeat_message_counter == old(self).readers_out(
                old(self).readers@,
                now,
                old(self).heartbeat_message_counter,
                tick,
            ).1,
            final(self).readers@.len() == old(self).readers@.len(),
            forall|j: int|
                0 <= j < old(self).readers@.len() ==> {
                    &&& (#[trigger] final(self).readers@[j]).same_peer(&old(self).readers@[j])
                    &&& final(self).readers@[j].highest_acked == old(self).readers@[j].highest_acked
                    &&& final(self).readers@[j].unsent_set() == Set::<SequenceNumber>::empty()
                    &&& final(self).readers@[j].requested_set() == if tick {
                        Set::<SequenceNumber>::empty()
                    } else {
                        old(self).readers@[j].requested_set().difference(
                            old(self).readers@[j].unsent_set(),
                        )
                    }
                },
            final(self).same_but_sending(old(self)),
    {
        let ghost c0 = old(self).heartbeat_message_counter;
        let n = self.readers.len();
        let mut i: usize = 0;
        proof {
            assert(old(self).readers@.subrange(0, 0) =~= Seq::<RtpsReaderProxy>::empty());
            assert(self.udp_sender@ =~= old(self).udp_sender@ + Seq::<DatagramView>::empty());
        }
        while i < n
            invariant
                i <= n,
                n == old(self).readers@.len(),
                self.readers@.len() == n,
                c0 == old(self).heartbeat_message_counter,
                self.wf(),
                self.udp_sender@ == old(self).udp_sender@ + old(self).readers_out(
                    old(self).readers@.subrange(0, i as int),
                    now,
                    c0,
                    tick,
                ).0,
                self.heartbeat_message_counter == old(self).readers_out(
                    old(self).readers@.subrange(0, i as int),
                    now,
                    c0,
                    tick,
                ).1,
                forall|j: int| i <= j < n ==> #[trigger] self.readers@[j] == old(self).readers@[j],
                forall|j: int|
                    0 <= j < i ==> {
                        &&& (#[trigger] self.readers@[j]).same_peer(&old(self).readers@[j])
                        &&& self.readers@[j].highest_acked == old(self).readers@[j].highest_acked
                        &&& self.readers@[j].unsent_set() == Set::<SequenceNumber>::empty()
                        &&& self.readers@[j].requested_set() == if tick {
                            Set::<SequenceNumber>::empty()
                        } else {
                            old(self).readers@[j].requested_set().difference(
                                old(self).readers@[j].unsent_set(),
                            )
                        }
                    },
                self.same_but_sending(old(self)),
            decreases n - i,
        {
            let ghost before = *self;
            let ghost r0 = old(self).readers@[i as int];
            self.serve_reader(i, now, tick);
            proof {
                let cur = old(self).readers@.subrange(0, i + 1);
                assert(cur.drop_last() =~= old(self).readers@.subrange(0, i as int));
                assert(cur.last() == r0);
                assert(before.readers@[i as int] == r0);
                lemma_reader_out_frame(before, *old(self), r0, now, before.heartbeat_message_counter, tick);
                assert(self.udp_sender@ =~= old(self).udp_sender@ + old(self).readers_out(
                    cur,
                    now,
                    c0,
                    tick,
                ).0);
                assert(self.readers@[i as int].unsent_set() =~= Set::<SequenceNumber>::empty());
                if tick {
                    assert(self.readers@[i as int].requested_set() =~= Set::<
                        SequenceNumber,
                    >::empty());
                }
                assert forall|j: int| 0 <= j < i implies {
                    &&& (#[trigger] self.readers@[j]).same_peer(&old(self).readers@[j])
                    &&& self.readers@[j].highest_acked == old(self).readers@[j].highest_acked
                    &&& self.readers@[j].unsent_set() == Set::<SequenceNumber>::empty()
                    &&& self.readers@[j].requested_set() == if tick {
                        Set::<SequenceNumber>::empty()
                    } else {
                        old(self).readers@[j].requested_set().difference(
                            old(self).readers@[j].unsent_set(),
                        )
                    }
                } by {
                    assert(self.readers@[j] == before.readers@[j]);
                }
                assert forall|j: int| i + 1 <= j < n implies #[trigger] self.readers@[j] == old(self).readers@[j] by {
                    assert(self.readers@[j] == before.readers@[j]);
                }
            }
            i += 1;
        }
        proof {
            assert(old(self).readers@.subrange(0, n as int) =~= old(self).readers@);
        }
    }

    /// Sends to the first reader that is owed a change the lowest change it
    /// is owed. Nothing happens where no reader is owed anything.
    pub fn send_next_unsend_message(&mut self, now: Timestamp)
        requires
            old(self).wf(),
        ensures
            final(self).wf(),
            final(self).same_but_sending(old(self)),
            final(self).readers@.len() == old(self).readers@.len(),
            (forall|i: int|
                0 <= i < old(self).readers@.len() ==> (#[trigger] old(self).readers@[i]).unsent_set()
                    =~= Set::<SequenceNumber>::empty()) ==>
                        final(self).readers@ == old(self).readers@
                        && final(self).udp_sender@ == old(self).udp_sender@
                        && final(self).heartbeat_message_counter == old(self).heartbeat_message_counter,
            forall|i: int, sn: SequenceNumber|
                #![trigger old(self).readers@[i].unsent_set().contains(sn)]
                0 <= i < old(self).readers@.len() && old(self).readers@[i].unsent_set().contains(sn)
                    && (forall|j: int|
                    0 <= j < i ==> (#[trigger] old(self).readers@[j]).unsent_set() =~= Set::<
                        SequenceNumber,
                    >::empty()) && (forall|x: SequenceNumber|
                    old(self).readers@[i].unsent_set().contains(x) ==> sn <= x) ==> {
                    &&& final(self).udp_sender@ == old(self).udp_sender@ + old(self).change_out(
                        old(self).readers@[i],
                        sn,
                        now,
                        old(self).heartbeat_message_counter,
                    ).0
                    &&& final(self).heartbeat_message_counter == old(self).change_out(
                        old(self).readers@[i],
                        sn,
                        now,
                        old(self).heartbeat_message_counter,
                    ).1
                    &&& final(self).served(old(self), i, set![sn])
                },
    {
        let mut i: usize = 0;
        while i < self.readers.len()
            invariant
                i <= self.readers.len(),
                self.wf(),
                *self == *old(self),
                forall|j: int|
                    0 <= j < i ==> (#[trigger] self.readers@[j]).unsent_set() =~= Set::<
                        SequenceNumber,
                    >::empty(),
            decreases self.readers.len() - i,
        {
            match self.readers[i].next_unsent_change() {
                Some(sn) => {
                    self.send_change_to(i, sn, now);
                    proof {
                        assert forall|ii: int, s: SequenceNumber|
                            #![trigger old(self).readers@[ii].unsent_set().contains(s)]
                            0 <= ii < old(self).readers@.len()
                                && old(self).readers@[ii].unsent_set().contains(s)
                                && (forall|j: int|
                                0 <= j < ii ==> (#[trigger] old(self).readers@[j]).unsent_set()
                                    =~= Set::<SequenceNumber>::empty()) && (forall|
                                x: SequenceNumber,
                            |
                                old(self).readers@[ii].unsent_set().contains(x) ==> s
                                    <= x) implies ii == i && s == sn by {
                            if ii < i {
                                assert(old(self).readers@[ii].unsent_set() =~= Set::<
                                    SequenceNumber,
                                >::empty());
                            }
                            if ii > i {
                                assert(old(self).readers@[i as int].unsent_set() =~= Set::<
                                    SequenceNumber,
                                >::empty());
                            }
                        }
                    }
                    return ;
                },
                None => {},
            }
            i += 1;
        }
    }

    /// `post` is `pre` after it has sent to every reader what the reader is
    /// owed. A reliable writer whose last change is not acknowledged by all
    /// its readers sends nothing: its changes go out with the heartbeats.
    /// Any other writer serves its readers in turn, each with the changes it
    /// is owed in ascending order.
    pub open spec fn all_sent(pre: &Writer, post: &Writer, now: Timestamp) -> bool {
        let waits = pre.spec_is_reliable() && !crate::dds::writer::acked_by_all(
            pre.readers@,
            pre.last_change_sequence_number,
        );
        let out = pre.readers_out(pre.readers@, now, pre.heartbeat_message_counter, false);
        &&& post.same_but_sending(pre)
        &&& post.readers@.len() == pre.readers@.len()
        &&& waits ==> {
            &&& post.readers@ == pre.readers@
            &&& post.udp_sender@ == pre.udp_sender@
            &&& post.heartbeat_message_counter == pre.heartbeat_message_counter
        }
        &&& !waits ==> {
            &&& post.udp_sender@ == pre.udp_sender@ + out.0
            &&& post.heartbeat_message_counter == out.1
            &&& forall|j: int|
                0 <= j < pre.readers@.len() ==> {
                    &&& (#[trigger] post.readers@[j]).same_peer(&pre.readers@[j])
                    &&& post.readers@[j].highest_acked == pre.readers@[j].highest_acked
                    &&& post.readers@[j].unsent_set() == Set::<SequenceNumber>::empty()
                    &&& post.readers@[j].requested_set() == pre.readers@[j].requested_set().difference(
                        pre.readers@[j].unsent_set(),
                    )
                }
        }
    }

    /// Sends to every reader what it is owed, reader by reader, in ascending
    /// order of the sequence numbers. A reliable writer waits until every
    /// reader has acknowledged the last change.
    pub fn send_all_unsend_messages(&mut self, now: Timestamp)
        requires
            old(self).wf(),
        ensures
            final(self).wf(),
            Self::all_sent(old(self), final(self), now),
    {
        if self.is_reliable() {
            let last = self.last_change_sequence_number;
            if !self.change_with_sequence_number_is_acked_by_all(&last) {
                return ;
            }
        }
        self.serve_readers(now, false);
    }

    /// Publishes a sample: takes it as `insert_to_history_cache` says, at
    /// the instant `now`, and then sends what is owed as
    /// `send_all_unsend_messages` says, with `timestamp` as the time of the
    /// messages.
    pub fn publish(&mut self, data: DDSData, now: Instant, timestamp: Timestamp)
        requires
            old(self).wf(),
            old(self).last_change_sequence_number < i64::MAX - 1,
        ensures
            final(self).wf(),
            final(self).last_change_sequence_number == old(self).last_change_sequence_number + 1,
            final(self).first_change_sequence_number == 1,
            final(self).cache() == old(self).cache().push(
                old(self).change_made(data@, old(self).last_change_sequence_number),
            ),
            exists|taken: Writer|
                #![trigger Self::all_sent(&taken, final(self), timestamp)]
                Self::published(old(self), &taken, data@, now) && Self::all_sent(
                    &taken,
                    final(self),
                    timestamp,
                ),
    {
        self.insert_to_history_cache(data, now);
        let ghost taken = *self;
        self.send_all_unsend_messages(timestamp);
        assert(Self::published(old(self), &taken, data@, now) && Self::all_sent(
            &taken,
            self,
            timestamp,
        ));
    }

    /// To be called when the heartbeat timer expires. A writer that is not
    /// reliable, or that has no heartbeat period, does nothing. A reliable
    /// one serves each matched reader in turn: it sends the reader the
    /// changes it has asked for, in ascending order, then the changes it is
    /// owed, in ascending order, each with a heartbeat; a reader that was
    /// owed nothing gets a bare heartbeat. Then the timer is asked for
    /// again.
    pub fn handle_heartbeat_tick(&mut self, now: Timestamp)
        requires
            old(self).wf(),
            old(self).timed_event_handler is Some,
        ensures
            final(self).wf(),
            final(self).same_settings(old(self)),
            final(self).cache() == old(self).cache(),
            final(self).timed() == old(self).timed(),
            final(self).instants() == old(self).instants(),
            final(self).first_change_sequence_number == old(self).first_change_sequence_number,
            final(self).last_change_sequence_number == old(self).last_change_sequence_number,
            final(self).readers@.len() == old(self).readers@.len(),
            !(old(self).spec_is_reliable() && old(self).heartbeat_period is Some) ==> {
                &&& final(self).readers@ == old(self).readers@
                &&& final(self).udp_sender@ == old(self).udp_sender@
                &&& final(self).heartbeat_message_counter == old(self).heartbeat_message_counter
                &&& final(self).timed_event_handler == old(self).timed_event_handler
            },
            old(self).spec_is_reliable() && old(self).heartbeat_period is Some ==> {
                &&& final(self).udp_sender@ == old(self).udp_sender@ + old(self).readers_out(
                    old(self).readers@,
                    now,
                    old(self).heartbeat_message_counter,
                    true,
                ).0
                &&& final(self).heartbeat_message_counter == old(self).readers_out(
                    old(self).readers@,
                    now,
                    old(self).heartbeat_message_counter,
                    true,
                ).1
                &&& forall|j: int|
                    0 <= j < old(self).readers@.len() ==> {
                        &&& (#[trigger] final(self).readers@[j]).same_peer(&old(self).readers@[j])
                        &&& final(self).readers@[j].highest_acked == old(self).readers@[j].highest_acked
                        &&& final(self).readers@[j].unsent_set() == Set::<SequenceNumber>::empty()
                        &&& final(self).readers@[j].requested_set() == Set::<
                            SequenceNumber,
                        >::empty()
                    }
                &&& final(self).timed_event_handler matches Some(h)
                    && h@ == old(self).timed_event_handler.unwrap()@.push(
                    Timeout {
                        duration: old(self).heartbeat_period.unwrap(),
                        kind: TimerMessageType::writer_heartbeat,
                    },
                )
            },
    {
        let period = match self.heartbeat_period {
            Some(p) => p,
            None => {
                return ;
            },
        };
        if !self.is_reliable() {
            return ;
        }
        self.serve_readers(now, true);
        // After the heartbeat is handled the timer runs again.
        match &mut self.timed_event_handler {
            Some(h) => {
                h.set_timeout(&period, TimerMessageType::writer_heartbeat);
            },
            None => {},
        }
    }

    /// Counts the heartbeats that went with the changes `sequence_numbers`
    /// to the reader `remote_reader_guid`, one for each change and one where
    /// there is none, and marks the changes as no longer owed to that
    /// reader. Nothing happens where no reader is named.
    pub fn increase_heartbeat_counter_and_remove_unsend_sequence_numbers(
        &mut self,
        sequence_numbers: Vec<SequenceNumber>,
        remote_reader_guid: &Option<GUID>,
    )
        requires
            old(self).wf(),
        ensures
            final(self).wf(),
            final(self).same_but_sending(old(self)),
            final(self).udp_sender == old(self).udp_sender,
            final(self).readers@.len() == old(self).readers@.len(),
            match *remote_reader_guid {
                None => final(self).readers@ == old(self).readers@
                    && final(self).heartbeat_message_counter == old(self).heartbeat_message_counter,
                Some(guid) => {
                    &&& final(self).heartbeat_message_counter == count_after(
                        old(self).heartbeat_message_counter,
                        if sequence_numbers@.len() == 0 {
                            1nat
                        } else {
                            sequence_numbers@.len()
                        },
                    )
                    &&& if reader_index(old(self).readers@, guid) == old(self).readers@.len() {
                        final(self).readers@ == old(self).readers@
                    } else {
                        let i = reader_index(old(self).readers@, guid);
                        &&& forall|j: int|
                            0 <= j < old(self).readers@.len()
                                && j != i ==>
                                #[trigger] final(self).readers@[j] == old(self).readers@[j]
                        &&& final(self).readers@[i].same_peer(&old(self).readers@[i])
                        &&& final(self).readers@[i].highest_acked == old(self).readers@[i].highest_acked
                        &&& final(self).readers@[i].requested_set() == old(self).readers@[i].requested_set()
                        &&& final(self).readers@[i].unsent_set() ==
                            old(self).readers@[i].unsent_set().difference(sequence_numbers@.to_set())
                    }
                },
            },
    {
        let guid = match remote_reader_guid {
            Some(g) => *g,
            None => {
                return ;
            },
        };
        let count: usize = sequence_numbers.len();
        let ghost c0 = old(self).heartbeat_message_counter;
        let mut x: usize = 0;
        while x < count
            invariant
                x <= count,
                self.wf(),
                self.same_but_sending(old(self)),
                self.udp_sender == old(self).udp_sender,
                self.readers == old(self).readers,
                self.heartbeat_message_counter == count_after(c0, x as nat),
            decreases count - x,
        {
            self.increase_heartbeat_counter();
            x += 1;
        }
        if count == 0 {
            self.increase_heartbeat_counter();
            assert(count_after(c0, 1) == next_count(count_after(c0, 0)));
        }
        let ghost c1 = self.heartbeat_message_counter;
        match self.matched_reader_index(guid) {
            Some(i) => {
                let ghost r0 = old(self).readers@[i as int];
                let mut k: usize = 0;
                proof {
                    assert(sequence_numbers@.subrange(0, 0).to_set() =~= Set::<
                        SequenceNumber,
                    >::empty());
                    assert(r0.unsent_set().difference(Set::<SequenceNumber>::empty())
                        =~= r0.unsent_set());
                }
                while k < count
                    invariant
                        k <= count,
                        count == sequence_numbers@.len(),
                        i < old(self).readers@.len(),
                        r0 == old(self).readers@[i as int],
                        self.readers@.len() == old(self).readers@.len(),
                        forall|j: int|
                            0 <= j < self.readers@.len() && j != i ==> #[trigger] self.readers@[j]
                                == old(self).readers@[j],
                        self.readers@[i as int].same_peer(&r0),
                        self.readers@[i as int].highest_acked == r0.highest_acked,
                        self.readers@[i as int].requested_set() == r0.requested_set(),
                        self.readers@[i as int].unsent_set() == r0.unsent_set().difference(
                            sequence_numbers@.subrange(0, k as int).to_set(),
                        ),
                        self.same_but_sending(old(self)),
                        self.udp_sender == old(self).udp_sender,
                        self.heartbeat_message_counter == c1,
                    decreases count - k,
                {
                    let ghost pre = sequence_numbers@.subrange(0, k as int);
                    let sn = sequence_numbers[k];
                    self.readers[i].remove_unsend_change(sn);
                    proof {
                        crate::common::sorted::lemma_push_to_set(pre, sn);
                        assert(sequence_numbers@.subrange(0, k + 1) =~= pre.push(sn));
                        assert(self.readers@[i as int].unsent_set() =~= r0.unsent_set().difference(
                            sequence_numbers@.subrange(0, k + 1).to_set(),
                        ));
                    }
                    k += 1;
                }
                proof {
                    assert(sequence_numbers@.subrange(0, count as int) =~= sequence_numbers@);
                    assert(readers_follow(
                        self.readers@,
                        old(self).readers@,
                        self.last_change_sequence_number,
                    ));
                    lemma_inv_readers(
                        self.first_change_sequence_number,
                        self.last_change_sequence_number,
                        self.guid,
                        self.cache(),
                        self.instants(),
                        old(self).readers@,
                        self.readers@,
                    );
                }
            },
            None => {},
        }
    }

    /// Marks the changes that `message` carries as no longer owed to the
    /// reader `remote_reader_guid`. Nothing happens where there is no
    /// message, where no reader is named, or where the reader is not known.
    pub fn increase_heartbeat_counter_and_remove_unsend(
        &mut self,
        message: &Option<Message>,
        remote_reader_guid: &Option<GUID>,
    )
        requires
            old(self).wf(),
        ensures
            final(self).wf(),
            final(self).same_but_sending(old(self)),
            final(self).udp_sender == old(self).udp_sender,
            final(self).readers@.len() == old(self).readers@.len(),
            match (*message, *remote_reader_guid) {
                (Some(m), Some(guid)) => if reader_index(old(self).readers@, guid) == old(self).readers@.len() {
                    final(self).readers@ == old(self).readers@
                } else {
                    let i = reader_index(old(self).readers@, guid);
                    &&& forall|j: int|
                        0 <= j < old(self).readers@.len()
                            && j != i ==>
                            #[trigger] final(self).readers@[j] == old(self).readers@[j]
                    &&& final(self).readers@[i].same_peer(&old(self).readers@[i])
                    &&& final(self).readers@[i].highest_acked == old(self).readers@[i].highest_acked
                    &&& final(self).readers@[i].requested_set() == old(self).readers@[i].requested_set()
                    &&& final(self).readers@[i].unsent_set() == old(self).readers@[i].unsent_set().difference(
                        data_sequence_numbers(m@.submessages).to_set(),
                    )
                },
                _ => final(self).readers@ == old(self).readers@,
            },
    {
        let guid = match remote_reader_guid {
            Some(g) => *g,
            None => {
                return ;
            },
        };
        let sequence_numbers = match message {
            Some(m) => m.get_data_sub_message_sequence_numbers(),
            None => {
                return ;
            },
        };
        let saved = self.heartbeat_message_counter;
        self.increase_heartbeat_counter_and_remove_unsend_sequence_numbers(
            sequence_numbers,
            remote_reader_guid,
        );
        self.heartbeat_message_counter = saved;
    }
}

/// What is sent for changes depends on the writer's settings and cache and
/// on the reader's identity and locators only.
pub proof fn lemma_changes_out_peer(
    w1: Writer,
    w2: Writer,
    r1: RtpsReaderProxy,
    r2: RtpsReaderProxy,
    seqs: Seq<SequenceNumber>,
    now: Timestamp,
    c: i32,
)
    requires
        w1.same_but_sending(&w2),
        r1.same_peer(&r2),
    ensures
        w1.changes_out(r1, seqs, now, c) == w2.changes_out(r2, seqs, now, c),
    decreases seqs.len(),
{
    if seqs.len() > 0 {
        lemma_changes_out_peer(w1, w2, r1, r2, seqs.drop_last(), now, c);
        let c1 = w1.changes_out(r1, seqs.drop_last(), now, c).1;
        assert(w1.held_change(seqs.last()) == w2.held_change(seqs.last()));
        assert(w1.change_out(r1, seqs.last(), now, c1) == w2.change_out(r2, seqs.last(), now, c1));
    }
}

/// What is sent to a reader depends on the writer's settings and cache only.
pub proof fn lemma_reader_out_frame(
    w1: Writer,
    w2: Writer,
    r: RtpsReaderProxy,
    now: Timestamp,
    c: i32,
    tick: bool,
)
    requires
        w1.same_but_sending(&w2),
    ensures
        w1.reader_out(r, now, c, tick) == w2.reader_out(r, now, c, tick),
{
    if tick {
        let q1 = ascending_seq(r.requested_set());
        let q2 = ascending_seq(r.unsent_set().difference(r.requested_set()));
        lemma_changes_out_peer(w1, w2, r, r, q1, now, c);
        let c1 = w1.changes_out(r, q1, now, c).1;
        lemma_changes_out_peer(w1, w2, r, r, q2, now, c1);
        let c2 = w1.changes_out(r, q2, now, c1).1;
        assert(w1.spec_heartbeat_msg(r.remote_reader_guid, next_count(c2))
            == w2.spec_heartbeat_msg(r.remote_reader_guid, next_count(c2)));
    } else {
        lemma_changes_out_peer(w1, w2, r, r, ascending_seq(r.unsent_set()), now, c);
    }
}

} // verus!
