use vstd::prelude::*;
use crate::common::sorted::{ascending, sorted};
use crate::structure::cache_change::{CacheChange, CacheChangeView, ChangeKind};
use crate::structure::guid::GUID;
use crate::structure::sequence_number::SequenceNumber;
use crate::structure::time::Instant;

verus! {

/// A change and the instant under which the cache holds it.
pub struct TimedChange {
    pub instant: Instant,
    pub change: CacheChangeView,
}

#[derive(Debug)]
struct CacheEntry {
    instant: Instant,
    change: CacheChange,
}

impl View for CacheEntry {
    type V = TimedChange;

    closed spec fn view(&self) -> TimedChange {
        TimedChange { instant: self.instant, change: self.change@ }
    }
}

/// The changes of one topic, in the order in which they were added, each
/// under the instant of its insertion. Instants never go back: a change that
/// is added under an instant before that of the last change is filed under
/// the instant of the last change.
#[derive(Debug)]
pub struct HistoryCache {
    entries: Vec<CacheEntry>,
}

/// The changes of `s`, in order.
pub open spec fn changes_of(s: Seq<TimedChange>) -> Seq<CacheChangeView> {
    s.map_values(|t: TimedChange| t.change)
}

/// The instants of `s`, in order.
pub open spec fn instants_of(s: Seq<TimedChange>) -> Seq<Instant> {
    s.map_values(|t: TimedChange| t.instant)
}

/// No change of `s` is held under an instant before that of an earlier one.
pub open spec fn sorted_by_instant(s: Seq<TimedChange>) -> bool {
    forall|i: int, j: int| 0 <= i <= j < s.len() ==> s[i].instant.nanos <= s[j].instant.nanos
}

/// The instant of the last change of `s`; the origin where there is none.
pub open spec fn latest_instant(s: Seq<TimedChange>) -> Instant {
    if s.len() == 0 {
        Instant { nanos: 0 }
    } else {
        s.last().instant
    }
}

/// The instant under which a change that comes at `instant` is filed behind
/// the changes of `s`: `instant`, but not before the instant of the last.
pub open spec fn filed_under(s: Seq<TimedChange>, instant: Instant) -> Instant {
    if instant.nanos < latest_instant(s).nanos {
        latest_instant(s)
    } else {
        instant
    }
}

/// Those of `s` whose change passes `pred`.
pub open spec fn timed_filter(s: Seq<TimedChange>, pred: spec_fn(CacheChangeView) -> bool) -> Seq<
    TimedChange,
> {
    s.filter(|t: TimedChange| pred(t.change))
}

/// The least index at which `s` holds a change with sequence number `sn`, or
/// `s.len()` where it holds none.
pub open spec fn first_index_of(s: Seq<CacheChangeView>, sn: SequenceNumber) -> int
    decreases s.len(),
{
    if s.len() == 0 {
        0
    } else if s[0].sequence_number == sn {
        0
    } else {
        1 + first_index_of(s.subrange(1, s.len() as int), sn)
    }
}

/// The writer `writer_guid` has made `c` under the sequence number `sn`.
pub open spec fn made_by(c: CacheChangeView, writer_guid: GUID, sn: SequenceNumber) -> bool {
    c.writer_guid == writer_guid && c.sequence_number == sn
}

/// `s` without the changes whose sequence number is `sn`.
pub open spec fn without_sequence_number(
    s: Seq<CacheChangeView>,
    sn: SequenceNumber,
) -> Seq<CacheChangeView> {
    s.filter(|c: CacheChangeView| c.sequence_number != sn)
}

/// `s` without the changes whose sequence number is below `sn`.
pub open spec fn from_sequence_number(
    s: Seq<CacheChangeView>,
    sn: SequenceNumber,
) -> Seq<CacheChangeView> {
    s.filter(|c: CacheChangeView| c.sequence_number >= sn)
}

/// `s` without the changes that the writer `writer_guid` made under a
/// sequence number below `sn`.
pub open spec fn without_changes_of_below(
    s: Seq<CacheChangeView>,
    writer_guid: GUID,
    sn: SequenceNumber,
) -> Seq<CacheChangeView> {
    s.filter(|c: CacheChangeView| !(c.writer_guid == writer_guid && c.sequence_number < sn))
}

/// `c`, disposed if it is an alive change of the instance `key`.
pub open spec fn disposed_if(c: CacheChangeView, key: u128) -> CacheChangeView {
    if c.key_hash == key && c.kind == ChangeKind::ALIVE {
        CacheChangeView { kind: ChangeKind::NOT_ALIVE_DISPOSED, ..c }
    } else {
        c
    }
}

/// The sequence numbers of the changes in `s`, in order.
pub open spec fn sequence_numbers_of(s: Seq<CacheChangeView>) -> Seq<SequenceNumber> {
    s.map_values(|c: CacheChangeView| c.sequence_number)
}

/// The changes of `s` that the writer `writer_guid` made, in order.
pub open spec fn changes_by(s: Seq<CacheChangeView>, writer_guid: GUID) -> Seq<CacheChangeView> {
    s.filter(|c: CacheChangeView| c.writer_guid == writer_guid)
}

/// `first_index_of` is the first place of a change numbered `sn` in `s`, or
/// the length of `s` where there is none.
pub proof fn lemma_first_index_of(s: Seq<CacheChangeView>, sn: SequenceNumber)
    ensures
        0 <= first_index_of(s, sn) <= s.len(),
        first_index_of(s, sn) < s.len() ==> s[first_index_of(s, sn)].sequence_number == sn,
        forall|i: int| 0 <= i < first_index_of(s, sn) ==> s[i].sequence_number != sn,
    decreases s.len(),
{
    if s.len() == 0 {
    } else if s[0].sequence_number == sn {
    } else {
        let t = s.subrange(1, s.len() as int);
        lemma_first_index_of(t, sn);
        assert forall|i: int| 0 <= i < first_index_of(s, sn) implies s[i].sequence_number
            != sn by {
            if i > 0 {
                assert(t[i - 1] == s[i]);
            }
        }
    }
}

/// Removing by a condition on the changes removes the same changes whether
/// one looks at them with their instants or without, leaves the order of
/// what stays, and so leaves instants that never went back as they were.
pub proof fn lemma_timed_filter(s: Seq<TimedChange>, pred: spec_fn(CacheChangeView) -> bool)
    ensures
        changes_of(timed_filter(s, pred)) == changes_of(s).filter(pred),
        forall|i: int|
            0 <= i < timed_filter(s, pred).len() ==> s.contains(#[trigger] timed_filter(s, pred)[i])
                && pred(timed_filter(s, pred)[i].change),
        sorted_by_instant(s) ==> sorted_by_instant(timed_filter(s, pred)),
    decreases s.len(),
{
    reveal(Seq::filter);
    let lifted = |t: TimedChange| pred(t.change);
    let f = timed_filter(s, pred);
    if s.len() == 0 {
        assert(changes_of(f) =~= changes_of(s).filter(pred));
    } else {
        let pre = s.drop_last();
        let l = s.last();
        lemma_timed_filter(pre, pred);
        let fp = timed_filter(pre, pred);
        assert(changes_of(s).drop_last() =~= changes_of(pre));
        assert(changes_of(s).last() == l.change);
        if pred(l.change) {
            assert(f == fp.push(l));
            assert(changes_of(f) =~= changes_of(fp).push(l.change));
        } else {
            assert(f == fp);
        }
        assert forall|i: int| 0 <= i < f.len() implies s.contains(#[trigger] f[i]) && pred(
            f[i].change,
        ) by {
            if i < fp.len() {
                assert(f[i] == fp[i]);
                assert(pre.contains(fp[i]));
                let k = choose|k: int| 0 <= k < pre.len() && pre[k] == fp[i];
                assert(s[k] == fp[i]);
            } else {
                assert(s[s.len() - 1] == l);
            }
        }
        if sorted_by_instant(s) {
            assert(sorted_by_instant(pre)) by {
                assert forall|i: int, j: int| 0 <= i <= j < pre.len() implies pre[i].instant.nanos
                    <= pre[j].instant.nanos by {
                    assert(pre[i] == s[i] && pre[j] == s[j]);
                }
            }
            assert forall|i: int, j: int| 0 <= i <= j < f.len() implies f[i].instant.nanos
                <= f[j].instant.nanos by {
                if j < fp.len() {
                    assert(f[i] == fp[i] && f[j] == fp[j]);
                } else if i < fp.len() {
                    assert(pre.contains(fp[i]));
                    let k = choose|k: int| 0 <= k < pre.len() && pre[k] == fp[i];
                    assert(s[k].instant.nanos <= s[s.len() - 1].instant.nanos);
                }
            }
        }
    }
}

/// One step of filtering a prefix: the filter of the first `i + 1` entries
/// is the filter of the first `i`, followed by entry `i` where it passes.
proof fn lemma_filter_step(v: Seq<CacheEntry>, i: int, pred: spec_fn(CacheChangeView) -> bool)
    requires
        0 <= i < v.len(),
    ensures
        timed_filter(timed_of(v.subrange(0, i + 1)), pred) == if pred(v[i]@.change) {
            timed_filter(timed_of(v.subrange(0, i)), pred).push(v[i]@)
        } else {
            timed_filter(timed_of(v.subrange(0, i)), pred)
        },
{
    reveal(Seq::filter);
    let a = timed_of(v.subrange(0, i + 1));
    assert(a.drop_last() =~= timed_of(v.subrange(0, i)));
    assert(a.last() == v[i]@);
}

spec fn timed_of(v: Seq<CacheEntry>) -> Seq<TimedChange> {
    v.map_values(|e: CacheEntry| e@)
}

impl View for HistoryCache {
    type V = Seq<CacheChangeView>;

    open spec fn view(&self) -> Seq<CacheChangeView> {
        changes_of(self.timed())
    }
}

impl HistoryCache {
    /// The changes held, each with its instant, in the order in which they
    /// were added.
    pub closed spec fn timed(&self) -> Seq<TimedChange> {
        timed_of(self.entries@)
    }

    /// The instants of the changes held, in order.
    pub open spec fn instants(&self) -> Seq<Instant> {
        instants_of(self.timed())
    }

    /// The instants of the changes held never go back.
    pub open spec fn wf(&self) -> bool {
        sorted_by_instant(self.timed())
    }

    /// A cache that holds nothing.
    pub fn new() -> (r: HistoryCache)
        ensures
            r.wf(),
            r.timed() == Seq::<TimedChange>::empty(),
            r@ == Seq::<CacheChangeView>::empty(),
    {
        let r = HistoryCache { entries: Vec::new() };
        assert(r.timed() =~= Seq::<TimedChange>::empty());
        assert(r@ =~= Seq::<CacheChangeView>::empty());
        r
    }

    fn latest(&self) -> (r: Instant)
        ensures
            r == latest_instant(self.timed()),
    {
        let n = self.entries.len();
        if n == 0 {
            Instant { nanos: 0 }
        } else {
            self.entries[n - 1].instant
        }
    }

    /// Adds `change` behind the changes already held, under the instant of
    /// the last of them.
    pub fn add_change(&mut self, change: CacheChange)
        ensures
            final(self).timed() == old(self).timed().push(
                TimedChange { instant: latest_instant(old(self).timed()), change: change@ },
            ),
            final(self)@ == old(self)@.push(change@),
            old(self).wf() ==> final(self).wf(),
    {
        let instant = self.latest();
        self.entries.push(CacheEntry { instant, change });
        proof {
            assert(self.timed() =~= old(self).timed().push(
                TimedChange { instant, change: change@ },
            ));
            assert(self@ =~= old(self)@.push(change@));
        }
    }

    /// Adds `change` behind the changes already held, under `instant`, or
    /// under the instant of the last change where `instant` is before it.
    pub fn add_change_at(&mut self, change: CacheChange, instant: Instant)
        ensures
            final(self).timed() == old(self).timed().push(
                TimedChange { instant: filed_under(old(self).timed(), instant), change: change@ },
            ),
            final(self)@ == old(self)@.push(change@),
            old(self).wf() ==> final(self).wf(),
    {
        let last = self.latest();
        let filed = if instant.nanos < last.nanos {
            last
        } else {
            instant
        };
        self.entries.push(CacheEntry { instant: filed, change });
        proof {
            assert(self.timed() =~= old(self).timed().push(
                TimedChange { instant: filed, change: change@ },
            ));
            assert(self@ =~= old(self)@.push(change@));
        }
    }

    /// The first change held with sequence number `sequence_number`.
    pub fn get_change(&self, sequence_number: SequenceNumber) -> (r: Option<&CacheChange>)
        ensures
            r is Some <==> exists|i: int|
                0 <= i < self@.len() && #[trigger] self@[i].sequence_number == sequence_number,
            r matches Some(c) ==> first_index_of(self@, sequence_number) < self@.len() && c@
                == self@[first_index_of(self@, sequence_number)],
    {
        let mut i: usize = 0;
        while i < self.entries.len()
            invariant
                i <= self.entries.len(),
                self@.len() == self.entries@.len(),
                forall|j: int| 0 <= j < i ==> #[trigger] self@[j].sequence_number != sequence_number,
            decreases self.entries.len() - i,
        {
            assert(self@[i as int] == self.entries@[i as int].change@);
            if self.entries[i].change.sequence_number == sequence_number {
                proof {
                    lemma_first_index_of(self@, sequence_number);
                    let f = first_index_of(self@, sequence_number);
                    if f < i {
                        assert(self@[f].sequence_number != sequence_number);
                    }
                    assert(f == i);
                }
                return Some(&self.entries[i].change);
            }
            i += 1;
        }
        None
    }

    /// The first change held under the instant `instant`.
    pub fn get_by_instant(&self, instant: Instant) -> (r: Option<&CacheChange>)
        ensures
            r is Some <==> exists|i: int|
                0 <= i < self.timed().len() && (#[trigger] self.timed()[i]).instant == instant,
            r matches Some(c) ==> exists|i: int|
                0 <= i < self.timed().len() && (#[trigger] self.timed()[i]).instant == instant
                    && c@ == self.timed()[i].change && forall|j: int|
                    0 <= j < i ==> (#[trigger] self.timed()[j]).instant != instant,
    {
        let mut i: usize = 0;
        while i < self.entries.len()
            invariant
                i <= self.entries.len(),
                self.timed().len() == self.entries@.len(),
                forall|j: int| 0 <= j < i ==> (#[trigger] self.timed()[j]).instant != instant,
            decreases self.entries.len() - i,
        {
            assert(self.timed()[i as int] == self.entries@[i as int]@);
            if self.entries[i].instant.nanos == instant.nanos {
                return Some(&self.entries[i].change);
            }
            i += 1;
        }
        None
    }

    /// The first change held that the writer `writer_guid` made under the
    /// sequence number `sequence_number`.
    pub fn get_change_of(&self, writer_guid: GUID, sequence_number: SequenceNumber) -> (r: Option<
        &CacheChange,
    >)
        ensures
            r is Some <==> exists|i: int|
                0 <= i < self@.len() && made_by(#[trigger] self@[i], writer_guid, sequence_number),
            r matches Some(c) ==> exists|i: int|
                0 <= i < self@.len() && c@ == #[trigger] self@[i] && made_by(
                    self@[i],
                    writer_guid,
                    sequence_number,
                ) && forall|j: int|
                    0 <= j < i ==> !made_by(#[trigger] self@[j], writer_guid, sequence_number),
    {
        match self.position_of(writer_guid, sequence_number) {
            Some(i) => {
                assert(self@[i as int] == self.entries@[i as int].change@);
                Some(&self.entries[i].change)
            },
            None => None,
        }
    }

    fn position_of(&self, writer_guid: GUID, sequence_number: SequenceNumber) -> (r: Option<usize>)
        ensures
            r is None <==> forall|i: int|
                0 <= i < self@.len() ==> !made_by(#[trigger] self@[i], writer_guid, sequence_number),
            r matches Some(p) ==> p < self@.len() && made_by(
                self@[p as int],
                writer_guid,
                sequence_number,
            ) && forall|j: int|
                0 <= j < p ==> !made_by(#[trigger] self@[j], writer_guid, sequence_number),
            self@.len() == self.entries@.len(),
    {
        let mut i: usize = 0;
        while i < self.entries.len()
            invariant
                i <= self.entries.len(),
                self@.len() == self.entries@.len(),
                forall|j: int|
                    0 <= j < i ==> !made_by(#[trigger] self@[j], writer_guid, sequence_number),
            decreases self.entries.len() - i,
        {
            assert(self@[i as int] == self.entries@[i as int].change@);
            if self.entries[i].change.sequence_number == sequence_number
                && self.entries[i].change.writer_guid == writer_guid {
                return Some(i);
            }
            i += 1;
        }
        None
    }

    /// Keeps the changes that pass `pred`, which `keep` decides.
    fn retain_where(&mut self, Ghost(pred): Ghost<spec_fn(CacheChangeView) -> bool>, keep: Retained)
        requires
            forall|c: CacheChangeView| #[trigger] pred(c) == keep.keeps(c),
        ensures
            final(self).timed() == timed_filter(old(self).timed(), pred),
            final(self)@ == old(self)@.filter(pred),
            old(self).wf() ==> final(self).wf(),
    {
        let mut kept: Vec<CacheEntry> = Vec::new();
        let mut i: usize = 0;
        let n = self.entries.len();
        proof {
            reveal(Seq::filter);
            assert(self.entries@.subrange(0, 0) =~= Seq::<CacheEntry>::empty());
            assert(timed_of(kept@) =~= timed_filter(timed_of(self.entries@.subrange(0, 0)), pred));
        }
        while i < n
            invariant
                i <= n,
                n == self.entries.len(),
                self.entries == old(self).entries,
                forall|c: CacheChangeView| #[trigger] pred(c) == keep.keeps(c),
                timed_of(kept@) == timed_filter(
                    timed_of(self.entries@.subrange(0, i as int)),
                    pred,
                ),
            decreases n - i,
        {
            proof {
                lemma_filter_step(self.entries@, i as int, pred);
            }
            if keep.decide(&self.entries[i].change) {
                let e = CacheEntry {
                    instant: self.entries[i].instant,
                    change: self.entries[i].change.clone(),
                };
                let ghost before = kept@;
                kept.push(e);
                assert(timed_of(kept@) =~= timed_of(before).push(e@));
            }
            i += 1;
        }
        proof {
            assert(self.entries@.subrange(0, n as int) =~= self.entries@);
            lemma_timed_filter(old(self).timed(), pred);
        }
        self.entries = kept;
    }

    /// Removes every change with sequence number `sequence_number`.
    pub fn remove_change(&mut self, sequence_number: SequenceNumber)
        ensures
            final(self)@ == without_sequence_number(old(self)@, sequence_number),
            final(self).timed() == timed_filter(
                old(self).timed(),
                |c: CacheChangeView| c.sequence_number != sequence_number,
            ),
            old(self).wf() ==> final(self).wf(),
    {
        self.retain_where(
            Ghost(|c: CacheChangeView| c.sequence_number != sequence_number),
            Retained::Other(sequence_number),
        );
    }

    /// Removes the first change that the writer `writer_guid` made under the
    /// sequence number `sequence_number`, and hands it out.
    pub fn remove_change_of(&mut self, writer_guid: GUID, sequence_number: SequenceNumber) -> (r:
        Option<CacheChange>)
        ensures
            r is None <==> forall|i: int|
                0 <= i < old(self)@.len() ==> !made_by(
                    #[trigger] old(self)@[i],
                    writer_guid,
                    sequence_number,
                ),
            r is None ==> final(self).timed() == old(self).timed(),
            r matches Some(c) ==> exists|i: int|
                0 <= i < old(self)@.len() && c@ == #[trigger] old(self)@[i] && made_by(
                    old(self)@[i],
                    writer_guid,
                    sequence_number,
                ) && (forall|j: int|
                    0 <= j < i ==> !made_by(#[trigger] old(self)@[j], writer_guid, sequence_number))
                    && final(self).timed() == old(self).timed().remove(i)
                        && final(self)@ == old(self)@.remove(i),
            old(self).wf() ==> final(self).wf(),
    {
        match self.position_of(writer_guid, sequence_number) {
            Some(p) => {
                let e = self.entries.remove(p);
                proof {
                    let t0 = old(self).timed();
                    assert(self.timed() =~= t0.remove(p as int));
                    assert(self@ =~= old(self)@.remove(p as int));
                    assert(e.change@ == old(self)@[p as int]);
                    if old(self).wf() {
                        assert forall|i: int, j: int|
                            0 <= i <= j < self.timed().len() implies self.timed()[i].instant.nanos
                            <= self.timed()[j].instant.nanos by {
                            let ii = if i < p {
                                i
                            } else {
                                i + 1
                            };
                            let jj = if j < p {
                                j
                            } else {
                                j + 1
                            };
                            assert(self.timed()[i] == t0[ii]);
                            assert(self.timed()[j] == t0[jj]);
                        }
                    }
                }
                Some(e.change)
            },
            None => None,
        }
    }

    /// The least sequence number held.
    pub fn get_seq_num_min(&self) -> (r: Option<&SequenceNumber>)
        ensures
            r is None <==> self@.len() == 0,
            r matches Some(m) ==> sequence_numbers_of(self@).contains(*m) && forall|i: int|
                0 <= i < self@.len() ==> *m <= #[trigger] self@[i].sequence_number,
    {
        if self.entries.len() == 0 {
            return None;
        }
        let mut best: usize = 0;
        let mut i: usize = 1;
        while i < self.entries.len()
            invariant
                1 <= i <= self.entries.len(),
                best < i,
                self@.len() == self.entries@.len(),
                forall|j: int| 0 <= j < self@.len() ==> #[trigger] self@[j] == self.entries@[j].change@,
                forall|j: int|
                    0 <= j < i ==> self@[best as int].sequence_number
                        <= #[trigger] self@[j].sequence_number,
            decreases self.entries.len() - i,
        {
            if self.entries[i].change.sequence_number < self.entries[best].change.sequence_number {
                best = i;
            }
            i += 1;
        }
        proof {
            assert(sequence_numbers_of(self@)[best as int] == self@[best as int].sequence_number);
        }
        Some(&self.entries[best].change.sequence_number)
    }

    /// The greatest sequence number held.
    pub fn get_seq_num_max(&self) -> (r: Option<&SequenceNumber>)
        ensures
            r is None <==> self@.len() == 0,
            r matches Some(m) ==> sequence_numbers_of(self@).contains(*m) && forall|i: int|
                0 <= i < self@.len() ==> *m >= #[trigger] self@[i].sequence_number,
    {
        if self.entries.len() == 0 {
            return None;
        }
        let mut best: usize = 0;
        let mut i: usize = 1;
        while i < self.entries.len()
            invariant
                1 <= i <= self.entries.len(),
                best < i,
                self@.len() == self.entries@.len(),
                forall|j: int| 0 <= j < self@.len() ==> #[trigger] self@[j] == self.entries@[j].change@,
                forall|j: int|
                    0 <= j < i ==> self@[best as int].sequence_number
                        >= #[trigger] self@[j].sequence_number,
            decreases self.entries.len() - i,
        {
            if self.entries[i].change.sequence_number > self.entries[best].change.sequence_number {
                best = i;
            }
            i += 1;
        }
        proof {
            assert(sequence_numbers_of(self@)[best as int] == self@[best as int].sequence_number);
        }
        Some(&self.entries[best].change.sequence_number)
    }

    /// The least sequence number held of the writer `writer_guid`.
    pub fn get_seq_num_min_of(&self, writer_guid: GUID) -> (r: Option<SequenceNumber>)
        ensures
            r is None <==> forall|i: int|
                0 <= i < self@.len() ==> (#[trigger] self@[i]).writer_guid != writer_guid,
            r matches Some(m) ==> (exists|i: int|
                0 <= i < self@.len() && made_by(#[trigger] self@[i], writer_guid, m)) && forall|
                i: int,
            |
                0 <= i < self@.len() && (#[trigger] self@[i]).writer_guid == writer_guid ==> m
                    <= self@[i].sequence_number,
    {
        let mut best: Option<SequenceNumber> = None;
        let mut i: usize = 0;
        while i < self.entries.len()
            invariant
                i <= self.entries.len(),
                self@.len() == self.entries@.len(),
                best is None <==> forall|j: int|
                    0 <= j < i ==> (#[trigger] self@[j]).writer_guid != writer_guid,
                best matches Some(m) ==> (exists|j: int|
                    0 <= j < i && made_by(#[trigger] self@[j], writer_guid, m)) && forall|j: int|
                    0 <= j < i && (#[trigger] self@[j]).writer_guid == writer_guid ==> m
                        <= self@[j].sequence_number,
            decreases self.entries.len() - i,
        {
            assert(self@[i as int] == self.entries@[i as int].change@);
            if self.entries[i].change.writer_guid == writer_guid {
                let sn = self.entries[i].change.sequence_number;
                assert(made_by(self@[i as int], writer_guid, sn));
                match best {
                    None => {
                        best = Some(sn);
                    },
                    Some(m) => {
                        if sn < m {
                            best = Some(sn);
                        }
                    },
                }
            }
            i += 1;
        }
        best
    }

    /// The greatest sequence number held of the writer `writer_guid`.
    pub fn get_seq_num_max_of(&self, writer_guid: GUID) -> (r: Option<SequenceNumber>)
        ensures
            r is None <==> forall|i: int|
                0 <= i < self@.len() ==> (#[trigger] self@[i]).writer_guid != writer_guid,
            r matches Some(m) ==> (exists|i: int|
                0 <= i < self@.len() && made_by(#[trigger] self@[i], writer_guid, m)) && forall|
                i: int,
            |
                0 <= i < self@.len() && (#[trigger] self@[i]).writer_guid == writer_guid ==> m
                    >= self@[i].sequence_number,
    {
        let mut best: Option<SequenceNumber> = None;
        let mut i: usize = 0;
        while i < self.entries.len()
            invariant
                i <= self.entries.len(),
                self@.len() == self.entries@.len(),
                best is None <==> forall|j: int|
                    0 <= j < i ==> (#[trigger] self@[j]).writer_guid != writer_guid,
                best matches Some(m) ==> (exists|j: int|
                    0 <= j < i && made_by(#[trigger] self@[j], writer_guid, m)) && forall|j: int|
                    0 <= j < i && (#[trigger] self@[j]).writer_guid == writer_guid ==> m
                        >= self@[j].sequence_number,
            decreases self.entries.len() - i,
        {
            assert(self@[i as int] == self.entries@[i as int].change@);
            if self.entries[i].change.writer_guid == writer_guid {
                let sn = self.entries[i].change.sequence_number;
                assert(made_by(self@[i as int], writer_guid, sn));
                match best {
                    None => {
                        best = Some(sn);
                    },
                    Some(m) => {
                        if sn > m {
                            best = Some(sn);
                        }
                    },
                }
            }
            i += 1;
        }
        best
    }

    /// The sequence numbers of the changes that the writer `writer_guid`
    /// made, in ascending order, each as often as the cache holds a change of
    /// the writer under it.
    pub fn sequence_numbers_of_writer(&self, writer_guid: GUID) -> (r: Vec<SequenceNumber>)
        ensures
            ascending(r@),
            r@.to_multiset() == sequence_numbers_of(changes_by(self@, writer_guid)).to_multiset(),
    {
        let mut found: Vec<SequenceNumber> = Vec::new();
        let mut i: usize = 0;
        proof {
            reveal(Seq::filter);
            assert(self@.subrange(0, 0) =~= Seq::<CacheChangeView>::empty());
            assert(found@ =~= sequence_numbers_of(changes_by(self@.subrange(0, 0), writer_guid)));
        }
        while i < self.entries.len()
            invariant
                i <= self.entries.len(),
                self@.len() == self.entries@.len(),
                found@ == sequence_numbers_of(changes_by(self@.subrange(0, i as int), writer_guid)),
            decreases self.entries.len() - i,
        {
            proof {
                reveal(Seq::filter);
                let next = self@.subrange(0, i + 1);
                assert(next.drop_last() =~= self@.subrange(0, i as int));
                assert(next.last() == self@[i as int]);
                assert(self@[i as int] == self.entries@[i as int].change@);
            }
            if self.entries[i].change.writer_guid == writer_guid {
                let ghost before = changes_by(self@.subrange(0, i as int), writer_guid);
                found.push(self.entries[i].change.sequence_number);
                assert(found@ =~= sequence_numbers_of(before.push(self@[i as int])));
            }
            i += 1;
        }
        assert(self@.subrange(0, i as int) =~= self@);
        sorted(&found)
    }

    /// Removes every change whose sequence number is strictly less than
    /// `smallest_seqnum`.
    pub fn remove_changes_up_to(&mut self, smallest_seqnum: SequenceNumber)
        ensures
            final(self)@ == from_sequence_number(old(self)@, smallest_seqnum),
            final(self).timed() == timed_filter(
                old(self).timed(),
                |c: CacheChangeView| c.sequence_number >= smallest_seqnum,
            ),
            old(self).wf() ==> final(self).wf(),
    {
        self.retain_where(
            Ghost(|c: CacheChangeView| c.sequence_number >= smallest_seqnum),
            Retained::From(smallest_seqnum),
        );
    }

    /// Removes every change of the writer `writer_guid` whose sequence
    /// number is strictly less than `smallest_seqnum`. The changes of other
    /// writers stay.
    pub fn remove_changes_of_up_to(&mut self, writer_guid: GUID, smallest_seqnum: SequenceNumber)
        ensures
            final(self)@ == without_changes_of_below(old(self)@, writer_guid, smallest_seqnum),
            final(self).timed() == timed_filter(
                old(self).timed(),
                |c: CacheChangeView|
                    !(c.writer_guid == writer_guid && c.sequence_number < smallest_seqnum),
            ),
            old(self).wf() ==> final(self).wf(),
    {
        self.retain_where(
            Ghost(
                |c: CacheChangeView|
                    !(c.writer_guid == writer_guid && c.sequence_number < smallest_seqnum),
            ),
            Retained::NotOfBelow(writer_guid, smallest_seqnum),
        );
    }

    /// Turns every alive change of the instance `key` into a disposed one.
    /// No instant changes.
    pub fn mark_disposed(&mut self, key: u128)
        ensures
            final(self)@ == old(self)@.map_values(|c: CacheChangeView| disposed_if(c, key)),
            final(self).instants() == old(self).instants(),
            old(self).wf() ==> final(self).wf(),
    {
        let mut i: usize = 0;
        let n = self.entries.len();
        while i < n
            invariant
                i <= n,
                n == self.entries.len(),
                self.timed().len() == old(self).timed().len(),
                self.timed().len() == n,
                forall|j: int|
                    0 <= j < n ==> (#[trigger] self.timed()[j]).instant == old(self).timed()[j].instant,
                forall|j: int|
                    0 <= j < i ==> (#[trigger] self.timed()[j]).change == disposed_if(
                        old(self).timed()[j].change,
                        key,
                    ),
                forall|j: int| i <= j < n ==> #[trigger] self.timed()[j] == old(self).timed()[j],
            decreases n - i,
        {
            let ghost before = self.timed();
            assert(before[i as int] == self.entries@[i as int]@);
            if self.entries[i].change.instance_handle.key_hash == key && matches!(
                self.entries[i].change.kind,
                ChangeKind::ALIVE
            ) {
                let mut c = self.entries[i].change.clone();
                c.kind = ChangeKind::NOT_ALIVE_DISPOSED;
                assert(c@ == disposed_if(before[i as int].change, key));
                let e = CacheEntry { instant: self.entries[i].instant, change: c };
                self.entries.set(i, e);
                assert(self.timed()[i as int] == self.entries@[i as int]@);
            }
            proof {
                assert forall|j: int| 0 <= j < n && j != i implies #[trigger] self.timed()[j]
                    == before[j] by {
                    assert(self.timed()[j] == self.entries@[j]@);
                }
            }
            i += 1;
        }
        proof {
            assert(self@ =~= old(self)@.map_values(|c: CacheChangeView| disposed_if(c, key)));
            assert(self.instants() =~= old(self).instants());
        }
    }

    /// The number of changes held.
    pub fn len(&self) -> (r: usize)
        ensures
            r == self@.len(),
    {
        self.entries.len()
    }
}

/// A condition by which changes are kept.
enum Retained {
    /// Every change but those with this sequence number.
    Other(SequenceNumber),
    /// Every change from this sequence number on.
    From(SequenceNumber),
    /// Every change but those that this writer made below this sequence
    /// number.
    NotOfBelow(GUID, SequenceNumber),
}

impl Retained {
    spec fn keeps(&self, c: CacheChangeView) -> bool {
        match self {
            Retained::Other(sn) => c.sequence_number != *sn,
            Retained::From(sn) => c.sequence_number >= *sn,
            Retained::NotOfBelow(guid, sn) => !(c.writer_guid == *guid && c.sequence_number < *sn),
        }
    }

    fn decide(&self, c: &CacheChange) -> (r: bool)
        ensures
            r == self.keeps(c@),
    {
        match self {
            Retained::Other(sn) => c.sequence_number != *sn,
            Retained::From(sn) => c.sequence_number >= *sn,
            Retained::NotOfBelow(guid, sn) => !(c.writer_guid == *guid && c.sequence_number < *sn),
        }
    }
}

} // verus!
