use vstd::prelude::*;
use crate::common::timed_event_handler::{TimedEventHandler, Timeout};
use crate::dds::ddsdata::{DDSData, DDSDataView};
use crate::dds::rtps_reader_proxy::{RtpsReaderProxy, acked_after};
use crate::dds::writer::{
    Writer,
    acked_by_all,
    acked_prefix_len,
    cache_contiguous,
    cache_first,
    evicted_by_cleaning,
    readers_distinct,
};
use crate::network::constant::TimerMessageType;
use crate::structure::cache_change::{CacheChange, CacheChangeView, ChangeKind, InstanceHandle};
use crate::structure::guid::GUID;
use crate::structure::history_cache::{TimedChange, disposed_if, from_sequence_number};
use crate::structure::sequence_number::SequenceNumber;
use crate::structure::time::Instant;

verus! {

/// The later of `now` and the instant of the change `last`, where one is
/// held: the instant under which the next change is filed.
pub open spec fn next_instant(
    instants: Map<SequenceNumber, Instant>,
    last: SequenceNumber,
    now: Instant,
) -> Instant {
    if instants.contains_key(last) && instants[last].nanos > now.nanos {
        instants[last]
    } else {
        now
    }
}

/// The least index of a reader with GUID `guid` among `readers`, or the
/// number of readers where there is none.
pub open spec fn reader_index(readers: Seq<RtpsReaderProxy>, guid: GUID) -> int
    decreases readers.len(),
{
    if readers.len() == 0 {
        0
    } else if readers[0].remote_reader_guid == guid {
        0
    } else {
        1 + reader_index(readers.drop_first(), guid)
    }
}

/// `reader_index` is the first place of `guid` among `readers`, or their
/// number where `guid` is not among them.
pub proof fn lemma_reader_index(readers: Seq<RtpsReaderProxy>, guid: GUID)
    ensures
        0 <= reader_index(readers, guid) <= readers.len(),
        reader_index(readers, guid) < readers.len() ==> readers[reader_index(
            readers,
            guid,
        )].remote_reader_guid == guid,
        forall|i: int|
            0 <= i < reader_index(readers, guid) ==> (#[trigger] readers[i]).remote_reader_guid
                != guid,
    decreases readers.len(),
{
    if readers.len() == 0 {
    } else if readers[0].remote_reader_guid == guid {
    } else {
        let t = readers.drop_first();
        lemma_reader_index(t, guid);
        assert forall|i: int| 0 <= i < reader_index(readers, guid) implies (
        #[trigger] readers[i]).remote_reader_guid != guid by {
            if i > 0 {
                assert(t[i - 1] == readers[i]);
            }
        }
    }
}

/// Keeping the changes of a contiguous cache from a sequence number on is
/// dropping the changes in front of it.
pub proof fn lemma_from_sequence_number_contiguous(
    cache: Seq<CacheChangeView>,
    last: SequenceNumber,
    n: int,
)
    requires
        cache_contiguous(cache, last),
        0 <= n <= cache.len(),
        cache_first(cache, last) + n <= i64::MAX,
    ensures
        from_sequence_number(cache, (cache_first(cache, last) + n) as i64) == cache.subrange(
            n,
            cache.len() as int,
        ),
    decreases cache.len(),
{
    reveal(Seq::filter);
    let bound = (cache_first(cache, last) + n) as i64;
    let pred = |c: CacheChangeView| c.sequence_number >= bound;
    if cache.len() == 0 {
        assert(cache.filter(pred) =~= cache.subrange(n, cache.len() as int));
    } else {
        let pre = cache.drop_last();
        let l = cache.last();
        assert(l == cache[cache.len() - 1]);
        assert(cache_contiguous(pre, (last - 1) as i64)) by {
            assert forall|i: int| 0 <= i < pre.len() implies (#[trigger] pre[i]).sequence_number
                == (last - 1) - pre.len() + 1 + i by {
                assert(pre[i] == cache[i]);
            }
        }
        if n == cache.len() {
            lemma_from_sequence_number_contiguous(pre, (last - 1) as i64, n - 1);
            assert(pre.filter(|c: CacheChangeView| c.sequence_number >= (bound - 1) as i64)
                == pre.subrange(n - 1, pre.len() as int));
            lemma_filter_none(pre, bound);
            assert(cache.filter(pred) =~= cache.subrange(n, cache.len() as int));
        } else {
            lemma_from_sequence_number_contiguous(pre, (last - 1) as i64, n);
            assert(cache.filter(pred) =~= cache.subrange(n, cache.len() as int));
        }
    }
}

proof fn lemma_filter_none(cache: Seq<CacheChangeView>, bound: SequenceNumber)
    requires
        forall|i: int| 0 <= i < cache.len() ==> (#[trigger] cache[i]).sequence_number < bound,
    ensures
        cache.filter(|c: CacheChangeView| c.sequence_number >= bound).len() == 0,
    decreases cache.len(),
{
    reveal(Seq::filter);
    if cache.len() > 0 {
        let pre = cache.drop_last();
        assert forall|i: int| 0 <= i < pre.len() implies (#[trigger] pre[i]).sequence_number
            < bound by {
            assert(pre[i] == cache[i]);
        }
        lemma_filter_none(pre, bound);
        assert(cache.last() == cache[cache.len() - 1]);
    }
}

/// The number of changes in `cache` that every reader has acknowledged.
pub open spec fn acked_count(cache: Seq<CacheChangeView>, readers: Seq<RtpsReaderProxy>) -> nat {
    cache.filter(|c: CacheChangeView| acked_by_all(readers, c.sequence_number)).len()
}

proof fn lemma_acked_downward(readers: Seq<RtpsReaderProxy>, a: SequenceNumber, b: SequenceNumber)
    requires
        a <= b,
        acked_by_all(readers, b),
    ensures
        acked_by_all(readers, a),
{
    assert forall|i: int| 0 <= i < readers.len() implies (
    #[trigger] readers[i]).spec_sequence_is_acked(a) by {
        assert(readers[i].spec_sequence_is_acked(b));
    }
}

/// In a contiguous cache a change is acknowledged by every reader exactly
/// if it stands before the first change that is not.
pub proof fn lemma_acked_prefix_facts(
    cache: Seq<CacheChangeView>,
    last: SequenceNumber,
    readers: Seq<RtpsReaderProxy>,
)
    requires
        cache_contiguous(cache, last),
    ensures
        acked_prefix_len(cache, readers) <= cache.len(),
        forall|i: int|
            0 <= i < cache.len() ==> (acked_by_all(readers, (#[trigger] cache[i]).sequence_number)
                <==> i < acked_prefix_len(cache, readers)),
    decreases cache.len(),
{
    if cache.len() == 0 {
    } else {
        let t = cache.drop_first();
        assert(cache_contiguous(t, last)) by {
            assert forall|i: int| 0 <= i < t.len() implies (#[trigger] t[i]).sequence_number
                == last - t.len() + 1 + i by {
                assert(t[i] == cache[i + 1]);
            }
        }
        lemma_acked_prefix_facts(t, last, readers);
        if acked_by_all(readers, cache[0].sequence_number) {
            assert forall|i: int| 0 <= i < cache.len() implies (acked_by_all(
                readers,
                (#[trigger] cache[i]).sequence_number,
            ) <==> i < acked_prefix_len(cache, readers)) by {
                if i > 0 {
                    assert(t[i - 1] == cache[i]);
                }
            }
        } else {
            assert forall|i: int| 0 <= i < cache.len() implies !acked_by_all(
                readers,
                (#[trigger] cache[i]).sequence_number,
            ) by {
                if acked_by_all(readers, cache[i].sequence_number) {
                    lemma_acked_downward(
                        readers,
                        cache[0].sequence_number,
                        cache[i].sequence_number,
                    );
                }
            }
        }
    }
}

proof fn lemma_filter_prefix(s: Seq<CacheChangeView>, pred: spec_fn(CacheChangeView) -> bool, k: int)
    requires
        0 <= k <= s.len(),
        forall|i: int| 0 <= i < s.len() ==> (pred(#[trigger] s[i]) <==> i < k),
    ensures
        s.filter(pred).len() == k,
    decreases s.len(),
{
    reveal(Seq::filter);
    if s.len() > 0 {
        let pre = s.drop_last();
        assert(s.last() == s[s.len() - 1]);
        let kk = if k == s.len() {
            k - 1
        } else {
            k
        };
        assert forall|i: int| 0 <= i < pre.len() implies (pred(#[trigger] pre[i]) <==> i < kk) by {
            assert(pre[i] == s[i]);
        }
        lemma_filter_prefix(pre, pred, kk);
    }
}

/// In a contiguous cache the changes that every reader has acknowledged are
/// the changes at its front.
pub proof fn lemma_acked_count_is_prefix(
    cache: Seq<CacheChangeView>,
    last: SequenceNumber,
    readers: Seq<RtpsReaderProxy>,
)
    requires
        cache_contiguous(cache, last),
    ensures
        acked_count(cache, readers) == acked_prefix_len(cache, readers),
{
    lemma_acked_prefix_facts(cache, last, readers);
    lemma_filter_prefix(
        cache,
        |c: CacheChangeView| acked_by_all(readers, c.sequence_number),
        acked_prefix_len(cache, readers) as int,
    );
}

/// After a cleaning pass that keeps `depth` changes, the number of changes
/// that every reader has acknowledged and that are still held is the smaller
/// of `depth` and the number of acknowledged changes held before.
pub proof fn lemma_cleaning_keeps_depth(
    cache: Seq<CacheChangeView>,
    last: SequenceNumber,
    readers: Seq<RtpsReaderProxy>,
    depth: i32,
)
    requires
        cache_contiguous(cache, last),
        depth >= 0,
    ensures
        evicted_by_cleaning(cache, readers, depth) <= cache.len(),
        acked_count(
            cache.subrange(evicted_by_cleaning(cache, readers, depth) as int, cache.len() as int),
            readers,
        ) == if acked_count(cache, readers) < depth {
            acked_count(cache, readers)
        } else {
            depth as nat
        },
{
    let n = evicted_by_cleaning(cache, readers, depth) as int;
    let k = acked_prefix_len(cache, readers) as int;
    lemma_acked_prefix_facts(cache, last, readers);
    lemma_acked_count_is_prefix(cache, last, readers);
    let rest = cache.subrange(n, cache.len() as int);
    assert forall|i: int| 0 <= i < rest.len() implies (acked_by_all(
        readers,
        (#[trigger] rest[i]).sequence_number,
    ) <==> i < k - n) by {
        assert(rest[i] == cache[i + n]);
    }
    lemma_filter_prefix(
        rest,
        |c: CacheChangeView| acked_by_all(readers, c.sequence_number),
        k - n,
    );
}

/// A writer numbers its changes 1, 2, 3 and so on. `lasts` holds the number
/// of a writer's last change when the writer is made and after each of the
/// publications that follow: a new writer has made no change, and each
/// publication raises the number by one.
pub proof fn lemma_publications_are_numbered(lasts: Seq<SequenceNumber>)
    requires
        lasts.len() > 0,
        lasts[0] == 0,
        forall|i: int| 1 <= i < lasts.len() ==> #[trigger] lasts[i] == lasts[i - 1] + 1,
    ensures
        forall|i: int| 0 <= i < lasts.len() ==> #[trigger] lasts[i] == i,
        forall|i: int, j: int| 0 <= i < j < lasts.len() ==> lasts[i] < lasts[j],
    decreases lasts.len(),
{
    if lasts.len() > 1 {
        let front = lasts.drop_last();
        assert forall|i: int| 1 <= i < front.len() implies #[trigger] front[i] == front[i - 1] + 1 by {
            assert(front[i] == lasts[i]);
            assert(front[i - 1] == lasts[i - 1]);
        }
        lemma_publications_are_numbered(front);
        assert forall|i: int| 0 <= i < lasts.len() implies #[trigger] lasts[i] == i by {
            if i < front.len() {
                assert(front[i] == lasts[i]);
            } else {
                assert(lasts[i - 1] == front[i - 1]);
            }
        }
    }
}

/// Once every reader has answered that nothing below `last + 1` is missing,
/// each reader's highest acknowledged change is `last` or later, and every
/// change up to `last` is acknowledged by all of them. `before` and `after`
/// are the readers before and after their answers were taken.
pub proof fn lemma_ack_all_reaches_last(
    before: Seq<RtpsReaderProxy>,
    after: Seq<RtpsReaderProxy>,
    last: SequenceNumber,
)
    requires
        last < i64::MAX,
        before.len() == after.len(),
        forall|i: int|
            0 <= i < after.len() ==> (#[trigger] after[i]).highest_acked == acked_after(
                before[i].highest_acked,
                (last + 1) as i64,
            ),
    ensures
        forall|i: int| 0 <= i < after.len() ==> (#[trigger] after[i]).highest_acked >= last,
        forall|s: SequenceNumber| s <= last ==> acked_by_all(after, s),
{
    assert forall|s: SequenceNumber| s <= last implies acked_by_all(after, s) by {
        assert forall|i: int| 0 <= i < after.len() implies (#[trigger] after[i]).spec_sequence_is_acked(
            s,
        ) by {
            assert(after[i].highest_acked >= last);
        }
    }
}

/// Marks `sn` as owed to every reader.
fn mark_unsent(readers: &mut Vec<RtpsReaderProxy>, sn: SequenceNumber)
    ensures
        final(readers)@.len() == old(readers)@.len(),
        forall|i: int|
            0 <= i < old(readers)@.len() ==> {
                &&& (#[trigger] final(readers)@[i]).unsent_set() == old(readers)@[i].unsent_set().insert(
                    sn,
                )
                &&& final(readers)@[i].requested_set() == old(readers)@[i].requested_set()
                &&& final(readers)@[i].highest_acked == old(readers)@[i].highest_acked
                &&& final(readers)@[i].same_peer(&old(readers)@[i])
            },
{
    let n = readers.len();
    let mut i: usize = 0;
    while i < n
        invariant
            i <= n,
            readers@.len() == n,
            old(readers)@.len() == n,
            forall|j: int|
                0 <= j < i ==> {
                    &&& (#[trigger] readers@[j]).unsent_set() == old(readers)@[j].unsent_set().insert(
                        sn,
                    )
                    &&& readers@[j].requested_set() == old(readers)@[j].requested_set()
                    &&& readers@[j].highest_acked == old(readers)@[j].highest_acked
                    &&& readers@[j].same_peer(&old(readers)@[j])
                },
            forall|j: int| i <= j < n ==> #[trigger] readers@[j] == old(readers)@[j],
        decreases n - i,
    {
        readers[i].unsend_changes_set(sn);
        i += 1;
    }
}

impl Writer {
    /// Gives the writer the handler through which it asks for timers, and
    /// asks for the first ones: one for cache cleaning, and one for the
    /// heartbeat where the writer has a heartbeat period.
    pub fn add_timed_event_handler(&mut self, time_handler: TimedEventHandler)
        requires
            old(self).wf(),
        ensures
            final(self).wf(),
            final(self).timed_event_handler matches Some(h) && h@ == time_handler@.push(
                Timeout {
                    duration: old(self).cache_cleaning_period,
                    kind: TimerMessageType::writer_cache_cleaning,
                },
            ) + match old(self).heartbeat_period {
                Some(p) => seq![Timeout { duration: p, kind: TimerMessageType::writer_heartbeat }],
                None => Seq::<Timeout>::empty(),
            },
            final(self).same_settings(old(self)),
            final(self).cache() == old(self).cache(),
            final(self).timed() == old(self).timed(),
            final(self).instants() == old(self).instants(),
            final(self).readers == old(self).readers,
            final(self).first_change_sequence_number == old(self).first_change_sequence_number,
            final(self).last_change_sequence_number == old(self).last_change_sequence_number,
            final(self).heartbeat_message_counter == old(self).heartbeat_message_counter,
            final(self).udp_sender == old(self).udp_sender,
    {
        let mut handler = time_handler;
        handler.set_timeout(&self.cache_cleaning_period, TimerMessageType::writer_cache_cleaning);
        match self.heartbeat_period {
            Some(period) => {
                handler.set_timeout(&period, TimerMessageType::writer_heartbeat);
            },
            None => {},
        }
        proof {
            assert(handler@ =~= time_handler@.push(
                Timeout {
                    duration: self.cache_cleaning_period,
                    kind: TimerMessageType::writer_cache_cleaning,
                },
            ) + match self.heartbeat_period {
                Some(p) => seq![Timeout { duration: p, kind: TimerMessageType::writer_heartbeat }],
                None => Seq::<Timeout>::empty(),
            });
        }
        self.timed_event_handler = Some(handler);
    }

    /// The change that the writer makes of the sample `data` when the last
    /// change it made was `last`.
    pub open spec fn change_made(&self, data: DDSDataView, last: SequenceNumber) -> CacheChangeView {
        CacheChangeView {
            kind: data.change_kind,
            writer_guid: self.guid,
            key_hash: data.value_key_hash,
            sequence_number: (last + 1) as i64,
            data_value: data.value,
        }
    }

    /// `post` is `pre` after it has taken the sample `data` at the instant
    /// `now`: the sample has the next sequence number, is the last change of
    /// the cache, filed under `now` or under the instant of the change
    /// before it where the clock has gone back, and is owed to every
    /// matched reader. Nothing is sent yet.
    pub open spec fn published(pre: &Writer, post: &Writer, data: DDSDataView, now: Instant) -> bool {
        let last = pre.last_change_sequence_number;
        let instant = next_instant(pre.instants(), last, now);
        &&& post.last_change_sequence_number == last + 1
        &&& post.first_change_sequence_number == 1
        &&& post.writer_is_disposed == (data.change_kind != ChangeKind::ALIVE)
        &&& post.cache() == pre.cache().push(pre.change_made(data, last))
        &&& post.instants() == pre.instants().insert((last + 1) as i64, instant)
        &&& post.timed() == pre.timed().push(
            TimedChange { instant, change: pre.change_made(data, last) },
        )
        &&& post.key_to_instant@ == pre.key_to_instant@.insert(data.value_key_hash, instant)
        &&& post.readers@.len() == pre.readers@.len()
        &&& forall|i: int|
            0 <= i < pre.readers@.len() ==> {
                &&& (#[trigger] post.readers@[i]).unsent_set() == pre.readers@[i].unsent_set().insert(
                    (last + 1) as i64,
                )
                &&& post.readers@[i].requested_set() == pre.readers@[i].requested_set()
                &&& post.readers@[i].highest_acked == pre.readers@[i].highest_acked
                &&& post.readers@[i].same_peer(&pre.readers@[i])
            }
        &&& post.same_settings(pre)
        &&& post.heartbeat_message_counter == pre.heartbeat_message_counter
        &&& post.udp_sender == pre.udp_sender
        &&& post.timed_event_handler == pre.timed_event_handler
    }

    /// Takes a sample from the data writer: gives it the next sequence
    /// number, files it in the history cache under the instant `now` (or
    /// under the instant of the previous change, where the clock has gone
    /// back), and marks it as owed to every matched reader.
    pub fn insert_to_history_cache(&mut self, data: DDSData, now: Instant)
        requires
            old(self).wf(),
            old(self).last_change_sequence_number < i64::MAX - 1,
        ensures
            final(self).wf(),
            final(self).last_change_sequence_number == old(self).last_change_sequence_number + 1,
            Self::published(old(self), final(self), data@, now),
    {
        self.writer_is_disposed = match data.change_kind {
            ChangeKind::ALIVE => false,
            _ => true,
        };
        let previous = self.last_change_sequence_number;
        let instant = match self.sequence_number_to_instant.get(&previous) {
            Some(i) => if i.nanos > now.nanos {
                *i
            } else {
                now
            },
            None => now,
        };
        self.last_change_sequence_number = previous + 1;
        // The first change a writer makes is change 1.
        if self.first_change_sequence_number == 0 {
            self.first_change_sequence_number = 1;
        }
        let data_key = data.value_key_hash;
        let new_cache_change = CacheChange::new(
            data.change_kind,
            self.guid,
            self.last_change_sequence_number,
            InstanceHandle { key_hash: data_key },
            data.value,
        );
        proof {
            let timed = self.timed();
            if timed.len() > 0 {
                assert(timed.last() == timed[timed.len() - 1]);
                assert(self.cache()[timed.len() - 1] == timed.last().change);
                assert(timed.last().change.sequence_number == previous);
            }
        }
        self.history_cache.add_change_at(new_cache_change, instant);
        self.sequence_number_to_instant.insert(self.last_change_sequence_number, instant);
        self.key_to_instant.insert(data_key, instant);
        mark_unsent(&mut self.readers, self.last_change_sequence_number);
        proof {
            let last = self.last_change_sequence_number;
            let cache = self.cache();
            let oc = old(self).cache();
            let oi = old(self).instants();
            let ni = self.instants();
            assert(ni == oi.insert(last, instant));
            let ot = old(self).timed();
            assert forall|i: int| 0 <= i < self.timed().len() implies ni.contains_key(
                (#[trigger] self.timed()[i]).change.sequence_number,
            ) && ni[self.timed()[i].change.sequence_number] == self.timed()[i].instant by {
                if i < ot.len() {
                    assert(self.timed()[i] == ot[i]);
                    assert(oc[i] == ot[i].change);
                    assert(ot[i].change.sequence_number != last);
                }
            }
            assert(cache_first(cache, last) == cache_first(oc, previous));
            assert forall|s: SequenceNumber| #[trigger] ni.contains_key(s) <==> cache_first(
                cache,
                last,
            ) <= s <= last by {
                assert(oi.contains_key(s) <==> cache_first(oc, previous) <= s <= previous);
            }
            assert forall|a: SequenceNumber, b: SequenceNumber| #[trigger]
                ni.contains_key(a) && #[trigger] ni.contains_key(b) && a <= b implies ni[a].nanos
                <= ni[b].nanos by {
                assert(oi.contains_key(a) <==> cache_first(oc, previous) <= a <= previous);
                assert(oi.contains_key(b) <==> cache_first(oc, previous) <= b <= previous);
                if b == last && a != last {
                    assert(oi.contains_key(previous));
                    assert(oi[a].nanos <= oi[previous].nanos);
                }
            }
            assert forall|i: int, s: SequenceNumber|
                0 <= i < self.readers@.len() && #[trigger] self.readers@[i].unsent_set().contains(
                    s,
                ) implies 1 <= s <= last by {
                assert(self.readers@[i].unsent_set() == old(self).readers@[i].unsent_set().insert(
                    last,
                ));
                if s != last {
                    assert(old(self).readers@[i].unsent_set().contains(s));
                }
            }
            assert forall|i: int, s: SequenceNumber|
                0 <= i < self.readers@.len() && #[trigger] self.readers@[i].requested_set().contains(
                    s,
                ) implies 1 <= s <= last by {
                assert(self.readers@[i].requested_set() == old(self).readers@[i].requested_set());
                assert(old(self).readers@[i].requested_set().contains(s));
            }
            assert(cache_contiguous(cache, last)) by {
                assert forall|i: int| 0 <= i < cache.len() implies (
                #[trigger] cache[i]).sequence_number == last - cache.len() + 1 + i by {
                    if i < oc.len() {
                        assert(cache[i] == oc[i]);
                    }
                }
            }
            assert forall|i: int| 0 <= i < cache.len() implies (#[trigger] cache[i]).writer_guid
                == self.guid by {
                if i < oc.len() {
                    assert(cache[i] == oc[i]);
                }
            }
            assert(readers_distinct(self.readers@)) by {
                assert forall|i: int, j: int| 0 <= i < j < self.readers@.len() implies !((
                #[trigger] self.readers@[i]).remote_group_entity_id == (
                #[trigger] self.readers@[j]).remote_group_entity_id
                    && self.readers@[i].remote_reader_guid
                    == self.readers@[j].remote_reader_guid) by {
                    assert(self.readers@[i].same_peer(&old(self).readers@[i]));
                    assert(self.readers@[j].same_peer(&old(self).readers@[j]));
                }
            }
        }
    }

    /// Marks the last change as owed to every matched reader.
    pub fn writer_set_unsent_changes(&mut self)
        requires
            old(self).wf(),
        ensures
            final(self).wf(),
            final(self).readers@.len() == old(self).readers@.len(),
            forall|i: int|
                0 <= i < old(self).readers@.len() ==> {
                    &&& (#[trigger] final(self).readers@[i]).unsent_set() ==
                        if old(self).last_change_sequence_number >= 1 {
                        old(self).readers@[i].unsent_set().insert(
                            old(self).last_change_sequence_number,
                        )
                    } else {
                        old(self).readers@[i].unsent_set()
                    }
                    &&& final(self).readers@[i].requested_set() == old(self).readers@[i].requested_set()
                    &&& final(self).readers@[i].highest_acked == old(self).readers@[i].highest_acked
                    &&& final(self).readers@[i].same_peer(&old(self).readers@[i])
                },
            final(self).same_settings(old(self)),
            final(self).cache() == old(self).cache(),
            final(self).timed() == old(self).timed(),
            final(self).instants() == old(self).instants(),
            final(self).first_change_sequence_number == old(self).first_change_sequence_number,
            final(self).last_change_sequence_number == old(self).last_change_sequence_number,
            final(self).heartbeat_message_counter == old(self).heartbeat_message_counter,
            final(self).udp_sender == old(self).udp_sender,
    {
        if self.last_change_sequence_number >= 1 {
            mark_unsent(&mut self.readers, self.last_change_sequence_number);
            proof {
                assert(readers_distinct(self.readers@)) by {
                    assert forall|i: int, j: int| 0 <= i < j < self.readers@.len() implies !((
                    #[trigger] self.readers@[i]).remote_group_entity_id == (
                    #[trigger] self.readers@[j]).remote_group_entity_id
                        && self.readers@[i].remote_reader_guid
                        == self.readers@[j].remote_reader_guid) by {
                        assert(self.readers@[i].same_peer(&old(self).readers@[i]));
                        assert(self.readers@[j].same_peer(&old(self).readers@[j]));
                    }
                }
            }
        }
    }

    /// Called when the data writer disposes an instance: every alive change
    /// of the instance that is still held becomes a disposed one. Nothing is
    /// removed.
    pub fn handle_not_alive_disposed_cache_change(&mut self, data: DDSData)
        requires
            old(self).wf(),
        ensures
            final(self).wf(),
            final(self).writer_is_disposed,
            final(self).cache() == if old(self).key_to_instant@.contains_key(
                data@.value_key_hash,
            ) {
                old(self).cache().map_values(
                    |c: CacheChangeView| disposed_if(c, data@.value_key_hash),
                )
            } else {
                old(self).cache()
            },
            final(self).history_cache.instants() == old(self).history_cache.instants(),
            final(self).same_settings(old(self)),
            final(self).instants() == old(self).instants(),
            final(self).readers == old(self).readers,
            final(self).first_change_sequence_number == old(self).first_change_sequence_number,
            final(self).last_change_sequence_number == old(self).last_change_sequence_number,
            final(self).heartbeat_message_counter == old(self).heartbeat_message_counter,
            final(self).udp_sender == old(self).udp_sender,
    {
        let known = self.key_to_instant.contains_key(&data.value_key_hash);
        self.writer_is_disposed = true;
        if known {
            self.history_cache.mark_disposed(data.value_key_hash);
            proof {
                let ot = old(self).timed();
                let nt = self.timed();
                assert(self.history_cache.instants() == old(self).history_cache.instants());
                assert(nt.len() == ot.len()) by {
                    assert(self.cache().len() == old(self).cache().len());
                }
                assert forall|i: int| 0 <= i < nt.len() implies {
                    &&& (#[trigger] nt[i]).instant == ot[i].instant
                    &&& nt[i].change.sequence_number == ot[i].change.sequence_number
                    &&& nt[i].change.writer_guid == ot[i].change.writer_guid
                } by {
                    assert(self.history_cache.instants()[i] == nt[i].instant);
                    assert(old(self).history_cache.instants()[i] == ot[i].instant);
                    assert(self.cache()[i] == nt[i].change);
                    assert(old(self).cache()[i] == ot[i].change);
                }
                assert forall|i: int, j: int| 0 <= i <= j < nt.len() implies nt[i].instant.nanos
                    <= nt[j].instant.nanos by {
                    assert(ot[i].instant.nanos <= ot[j].instant.nanos);
                }
            }
        }
    }

    /// Whether every matched reader has acknowledged `cache_change`.
    pub fn is_acked_by_all(&self, cache_change: &CacheChange) -> (r: bool)
        ensures
            r == acked_by_all(self.readers@, cache_change.sequence_number),
    {
        self.change_with_sequence_number_is_acked_by_all(&cache_change.sequence_number)
    }

    /// Whether every matched reader has acknowledged the change
    /// `sequence_number`.
    pub fn change_with_sequence_number_is_acked_by_all(
        &self,
        sequence_number: &SequenceNumber,
    ) -> (r: bool)
        ensures
            r == acked_by_all(self.readers@, *sequence_number),
    {
        let mut i: usize = 0;
        while i < self.readers.len()
            invariant
                i <= self.readers.len(),
                forall|j: int|
                    0 <= j < i ==> (#[trigger] self.readers@[j]).spec_sequence_is_acked(
                        *sequence_number,
                    ),
            decreases self.readers.len() - i,
        {
            if self.readers[i].sequence_is_acked(*sequence_number) == false {
                return false;
            }
            i += 1;
        }
        true
    }
}

} // verus!
