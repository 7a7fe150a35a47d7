use vstd::prelude::*;
use crate::messages::wire::{
    Endianness,
    u32_at,
    u32_bytes,
    i32_at,
    i32_bytes,
    sn_at,
    sn_bytes,
    put_u32,
    put_i32,
    put_sn,
    put_bytes,
    read_u32,
    read_i32,
    lemma_u32_roundtrip,
    lemma_i32_roundtrip,
    lemma_sn_roundtrip,
};
use crate::structure::locator::Locator;
use crate::structure::sequence_number::{SequenceNumber, strictly_ascending};

verus! {

/// A run of 32-bit words on the wire.
pub open spec fn words_bytes(ws: Seq<u32>, e: Endianness) -> Seq<u8> {
    Seq::new(4 * ws.len(), |j: int| u32_bytes(ws[j / 4], e)[j % 4])
}

/// The `n` words that `s` holds from `off` on.
pub open spec fn words_at(s: Seq<u8>, off: int, n: int, e: Endianness) -> Seq<u32> {
    Seq::new(n as nat, |k: int| u32_at(s, off + 4 * k, e))
}

/// Where `s` holds the bytes of `x` at `off`, it reads `x` there.
pub proof fn lemma_u32_embedded(s: Seq<u8>, off: int, x: u32, e: Endianness)
    requires
        0 <= off,
        off + 4 <= s.len(),
        s.subrange(off, off + 4) == u32_bytes(x, e),
    ensures
        u32_at(s, off, e) == x,
{
    lemma_u32_roundtrip(x, e);
    let t = s.subrange(off, off + 4);
    assert(t[0] == s[off] && t[1] == s[off + 1] && t[2] == s[off + 2] && t[3] == s[off + 3]);
}

/// Where `s` holds the bytes of a signed 32-bit number at `off`, reading `s` at `off` gives
/// it back.
pub proof fn lemma_i32_embedded(s: Seq<u8>, off: int, x: i32, e: Endianness)
    requires
        0 <= off,
        off + 4 <= s.len(),
        s.subrange(off, off + 4) == i32_bytes(x, e),
    ensures
        i32_at(s, off, e) == x,
{
    lemma_i32_roundtrip(x, e);
    let t = s.subrange(off, off + 4);
    assert(t[0] == s[off] && t[1] == s[off + 1] && t[2] == s[off + 2] && t[3] == s[off + 3]);
}

/// Where `s` holds the bytes of a sequence number at `off`, reading `s` at `off` gives
/// it back.
pub proof fn lemma_sn_embedded(s: Seq<u8>, off: int, x: SequenceNumber, e: Endianness)
    requires
        0 <= off,
        off + 8 <= s.len(),
        s.subrange(off, off + 8) == sn_bytes(x, e),
    ensures
        sn_at(s, off, e) == x,
{
    lemma_sn_roundtrip(x, e);
    let t = s.subrange(off, off + 8);
    assert(t[0] == s[off] && t[1] == s[off + 1] && t[2] == s[off + 2] && t[3] == s[off + 3]);
    assert(t[4] == s[off + 4] && t[5] == s[off + 5] && t[6] == s[off + 6] && t[7] == s[off
        + 7]);
}

/// Where `s` holds the bytes of a run of 32-bit words at `off`, reading `s` at `off` gives
/// it back.
pub proof fn lemma_words_embedded(s: Seq<u8>, off: int, ws: Seq<u32>, e: Endianness)
    requires
        0 <= off,
        off + 4 * ws.len() <= s.len(),
        s.subrange(off, off + 4 * ws.len()) == words_bytes(ws, e),
    ensures
        words_at(s, off, ws.len() as int, e) == ws,
{
    let t = s.subrange(off, off + 4 * ws.len());
    assert forall|k: int| 0 <= k < ws.len() implies u32_at(s, off + 4 * k, e) == ws[k] by {
        lemma_u32_roundtrip(ws[k], e);
        assert(t[4 * k] == s[off + 4 * k]);
        assert(t[4 * k + 1] == s[off + 4 * k + 1]);
        assert(t[4 * k + 2] == s[off + 4 * k + 2]);
        assert(t[4 * k + 3] == s[off + 4 * k + 3]);
        assert((4 * k) / 4 == k && (4 * k) % 4 == 0);
        assert((4 * k + 1) / 4 == k && (4 * k + 1) % 4 == 1);
        assert((4 * k + 2) / 4 == k && (4 * k + 2) % 4 == 2);
        assert((4 * k + 3) / 4 == k && (4 * k + 3) % 4 == 3);
    }
    assert(words_at(s, off, ws.len() as int, e) =~= ws);
}

/// Appends a run of 32-bit words to `buf`, as the wire format has it.
pub fn put_words(buf: &mut Vec<u8>, ws: &Vec<u32>, e: Endianness)
    ensures
        final(buf)@ == old(buf)@ + words_bytes(ws@, e),
{
    let mut i: usize = 0;
    while i < ws.len()
        invariant
            i <= ws.len(),
            buf@ == old(buf)@ + words_bytes(ws@.subrange(0, i as int), e),
        decreases ws.len() - i,
    {
        let ghost before = buf@;
        put_u32(buf, ws[i], e);
        proof {
            let a = words_bytes(ws@.subrange(0, i as int), e);
            let b = words_bytes(ws@.subrange(0, i + 1), e);
            assert(b =~= a + u32_bytes(ws@[i as int], e)) by {
                lemma_u32_roundtrip(ws@[i as int], e);
                assert forall|j: int| 0 <= j < b.len() implies b[j] == (a + u32_bytes(
                    ws@[i as int],
                    e,
                ))[j] by {
                    if j < 4 * i {
                        assert(j / 4 < i);
                    } else {
                        assert(j / 4 == i);
                        assert(j % 4 == j - 4 * i);
                    }
                }
            }
            assert(buf@ =~= old(buf)@ + b);
        }
        i += 1;
    }
    assert(ws@.subrange(0, ws.len() as int) =~= ws@);
}

/// Reads a run of 32-bit words from `buf` at the given place.
pub fn read_words(buf: &[u8], off: usize, n: usize, e: Endianness) -> (r: Vec<u32>)
    requires
        off + 4 * n <= buf@.len(),
    ensures
        r@ == words_at(buf@, off as int, n as int, e),
{
    let len = buf.len();
    let mut out: Vec<u32> = Vec::new();
    let mut k: usize = 0;
    while k < n
        invariant
            k <= n,
            off + 4 * n <= len,
            len == buf@.len(),
            out@ == words_at(buf@, off as int, k as int, e),
        decreases n - k,
    {
        let w = read_u32(buf, off + 4 * k, e);
        out.push(w);
        assert(out@ =~= words_at(buf@, off as int, k + 1, e));
        k += 1;
    }
    out
}

/// The number of 32-bit words that hold `num_bits` bits.
pub open spec fn spec_words_for(num_bits: u32) -> nat {
    ((num_bits + 31) / 32) as nat
}

/// The number of 32-bit words that hold `num_bits` bits.
pub fn words_for(num_bits: u32) -> (r: usize)
    ensures
        r == spec_words_for(num_bits),
        r <= 0x800_0000,
{
    let q: u32 = num_bits / 32;
    if num_bits % 32 == 0 {
        q as usize
    } else {
        (q + 1) as usize
    }
}

/// Whether bit `j` of `word` is set; bit 0 is the lowest.
pub open spec fn spec_bit_of(word: u32, j: u32) -> bool {
    j < 32 && (word >> j) & 1 == 1
}

/// Whether bit `j` of `word` is set; bit 0 is the lowest.
#[verifier::when_used_as_spec(spec_bit_of)]
pub fn bit_of(word: u32, j: u32) -> (r: bool)
    ensures
        r == spec_bit_of(word, j),
{
    j < 32 && (word >> j) & 1 == 1
}

/// Whether `i` is below `num_bits` and bit `i` is set in `bitmap`, which
/// holds bit `i` as bit `i % 32` of word `i / 32`.
pub open spec fn bitmap_has(num_bits: u32, bitmap: Seq<u32>, i: int) -> bool {
    0 <= i < num_bits && i / 32 < bitmap.len() && spec_bit_of(bitmap[i / 32], (i % 32) as u32)
}

/// A set of sequence numbers as acknowledgements and gaps carry it: a base
/// and a bitmap in which bit `i` stands for `base + i`.
#[derive(Debug, PartialEq, Eq)]
pub struct SequenceNumberSet {
    pub base: SequenceNumber,
    pub num_bits: u32,
    pub bitmap: Vec<u32>,
}

/// A sequence number set as plain values.
pub struct SequenceNumberSetView {
    pub base: SequenceNumber,
    pub num_bits: u32,
    pub bitmap: Seq<u32>,
}

impl SequenceNumberSetView {
    /// The bitmap has as many words as its bits need.
    pub open spec fn wf(&self) -> bool {
        self.bitmap.len() == spec_words_for(self.num_bits)
    }

    /// The sequence numbers in the set.
    pub open spec fn members(&self) -> Set<SequenceNumber> {
        Set::new(|s: SequenceNumber| bitmap_has(self.num_bits, self.bitmap, s - self.base))
    }

    /// The set on the wire: base, number of bits, then the words of the bitmap.
    pub open spec fn bytes(&self, e: Endianness) -> Seq<u8> {
        sn_bytes(self.base, e) + u32_bytes(self.num_bits, e) + words_bytes(self.bitmap, e)
    }
}

/// The set that `s` holds at `off`, and where it ends; nothing where `s` is
/// too short for it.
pub open spec fn sn_set_at(s: Seq<u8>, off: int, e: Endianness) -> Option<
    (SequenceNumberSetView, int),
> {
    if off + 12 > s.len() {
        None
    } else {
        let num_bits = u32_at(s, off + 8, e);
        let n = spec_words_for(num_bits);
        if off + 12 + 4 * n > s.len() {
            None
        } else {
            Some(
                (
                    SequenceNumberSetView {
                        base: sn_at(s, off, e),
                        num_bits,
                        bitmap: words_at(s, off + 12, n as int, e),
                    },
                    off + 12 + 4 * n,
                ),
            )
        }
    }
}

/// Where `s` holds the bytes of a sequence number set at `off`, reading `s` at `off` gives
/// it back.
pub proof fn lemma_sn_set_embedded(s: Seq<u8>, off: int, v: SequenceNumberSetView, e: Endianness)
    requires
        0 <= off,
        v.wf(),
        off + v.bytes(e).len() <= s.len(),
        s.subrange(off, off + v.bytes(e).len()) == v.bytes(e),
    ensures
        v.bytes(e).len() == 12 + 4 * v.bitmap.len(),
        sn_set_at(s, off, e) == Some((v, off + 12 + 4 * v.bitmap.len())),
{
    lemma_sn_roundtrip(v.base, e);
    lemma_u32_roundtrip(v.num_bits, e);
    let b = v.bytes(e);
    let t = s.subrange(off, off + b.len());
    assert(s.subrange(off, off + 8) =~= sn_bytes(v.base, e)) by {
        assert(s.subrange(off, off + 8) =~= t.subrange(0, 8));
        assert(b.subrange(0, 8) =~= sn_bytes(v.base, e));
    }
    lemma_sn_embedded(s, off, v.base, e);
    assert(s.subrange(off + 8, off + 12) =~= u32_bytes(v.num_bits, e)) by {
        assert(s.subrange(off + 8, off + 12) =~= t.subrange(8, 12));
        assert(b.subrange(8, 12) =~= u32_bytes(v.num_bits, e));
    }
    lemma_u32_embedded(s, off + 8, v.num_bits, e);
    assert(s.subrange(off + 12, off + 12 + 4 * v.bitmap.len()) =~= words_bytes(v.bitmap, e)) by {
        assert(s.subrange(off + 12, off + 12 + 4 * v.bitmap.len()) =~= t.subrange(
            12,
            12 + 4 * (v.bitmap.len() as int),
        ));
        assert(b.subrange(12, 12 + 4 * (v.bitmap.len() as int)) =~= words_bytes(v.bitmap, e));
    }
    lemma_words_embedded(s, off + 12, v.bitmap, e);
}

impl View for SequenceNumberSet {
    type V = SequenceNumberSetView;

    open spec fn view(&self) -> SequenceNumberSetView {
        SequenceNumberSetView { base: self.base, num_bits: self.num_bits, bitmap: self.bitmap@ }
    }
}

impl SequenceNumberSet {
    /// The empty set with the given base.
    pub fn new(base: SequenceNumber) -> (r: SequenceNumberSet)
        ensures
            r@.wf(),
            r@ == (SequenceNumberSetView { base, num_bits: 0, bitmap: Seq::empty() }),
            r@.members() == Set::<SequenceNumber>::empty(),
    {
        let r = SequenceNumberSet { base, num_bits: 0, bitmap: Vec::new() };
        assert(r@.members() =~= Set::<SequenceNumber>::empty());
        r
    }

    /// The empty set with the given base and room for `num_bits` sequence
    /// numbers from the base on.
    pub fn with_bits(base: SequenceNumber, num_bits: u32) -> (r: SequenceNumberSet)
        ensures
            r@.wf(),
            r@.base == base,
            r@.num_bits == num_bits,
            r@.members() == Set::<SequenceNumber>::empty(),
    {
        let n = words_for(num_bits);
        let mut bitmap: Vec<u32> = Vec::new();
        let mut i: usize = 0;
        while i < n
            invariant
                i <= n,
                bitmap@.len() == i,
                forall|k: int| 0 <= k < i ==> bitmap@[k] == 0u32,
            decreases n - i,
        {
            bitmap.push(0u32);
            i += 1;
        }
        let r = SequenceNumberSet { base, num_bits, bitmap };
        proof {
            assert forall|s: SequenceNumber| !r@.members().contains(s) by {
                let d = s - base;
                if 0 <= d < num_bits && d / 32 < r@.bitmap.len() {
                    let j = (d % 32) as u32;
                    assert(r@.bitmap[d / 32] == 0u32);
                    assert(!(j < 32 && (0u32 >> j) & 1 == 1)) by (bit_vector);
                }
            }
            assert(r@.members() =~= Set::<SequenceNumber>::empty());
        }
        r
    }

    /// Puts `sn` into the set. It must lie in the room that the set has.
    pub fn insert(&mut self, sn: SequenceNumber)
        requires
            old(self)@.wf(),
            old(self)@.base <= sn < old(self)@.base + old(self)@.num_bits,
        ensures
            final(self)@.wf(),
            final(self)@.base == old(self)@.base,
            final(self)@.num_bits == old(self)@.num_bits,
            final(self)@.members() == old(self)@.members().insert(sn),
    {
        let d: i128 = sn as i128 - self.base as i128;
        let i: u32 = d as u32;
        let w: usize = (i / 32) as usize;
        let j: u32 = i % 32;
        let word = self.bitmap[w];
        let updated: u32 = word | (1u32 << j);
        self.bitmap.set(w, updated);
        proof {
            assert(forall|k: u32|
                k < 32 ==> (((#[trigger] (updated >> k)) & 1 == 1) <==> ((word >> k) & 1 == 1 || k
                    == j))) by (bit_vector)
                requires
                    j < 32,
                    updated == word | (1u32 << j),
            ;
            assert forall|s: SequenceNumber| self@.members().contains(s) <==>
                old(self)@.members().insert(sn).contains(s) by {
                let ds = s - self.base;
                if 0 <= ds < self.num_bits && ds / 32 < self@.bitmap.len() {
                    let k = (ds % 32) as u32;
                    if ds / 32 == w {
                        assert(self@.bitmap[ds / 32] == updated);
                        assert(old(self)@.bitmap[ds / 32] == word);
                        assert(((updated >> k) & 1 == 1) <==> ((word >> k) & 1 == 1 || k == j));
                        assert(k == j <==> s == sn);
                    } else {
                        assert(self@.bitmap[ds / 32] == old(self)@.bitmap[ds / 32]);
                        assert(s != sn);
                    }
                } else {
                    assert(s != sn);
                }
            }
            assert(self@.members() =~= old(self)@.members().insert(sn));
        }
    }

    /// Whether `sn` is in the set.
    pub fn contains(&self, sn: SequenceNumber) -> (r: bool)
        ensures
            r == self@.members().contains(sn),
    {
        if sn < self.base {
            return false;
        }
        let d: i128 = sn as i128 - self.base as i128;
        if d >= self.num_bits as i128 {
            return false;
        }
        let i: u32 = d as u32;
        let w: usize = (i / 32) as usize;
        if w >= self.bitmap.len() {
            return false;
        }
        bit_of(self.bitmap[w], i % 32)
    }

    /// The sequence numbers in the set, in ascending order.
    pub fn elements(&self) -> (r: Vec<SequenceNumber>)
        ensures
            strictly_ascending(r@),
            r@.to_set() == self@.members(),
    {
        let mut out: Vec<SequenceNumber> = Vec::new();
        let mut i: u32 = 0;
        while i < self.num_bits
            invariant
                i <= self.num_bits,
                strictly_ascending(out@),
                forall|k: int| 0 <= k < out@.len() ==> out@[k] < self.base + i,
                forall|x: SequenceNumber|
                    out@.contains(x) <==> (self@.members().contains(x) && x - self.base < i),
            decreases self.num_bits - i,
        {
            let ghost before = out@;
            let w: usize = (i / 32) as usize;
            let sum: i128 = self.base as i128 + i as i128;
            if w < self.bitmap.len() && bit_of(self.bitmap[w], i % 32) && sum <= i64::MAX as i128 {
                let sn: SequenceNumber = sum as i64;
                out.push(sn);
                assert(self@.members().contains(sn));
            }
            proof {
                assert forall|x: SequenceNumber| out@.contains(x) <==> (self@.members().contains(
                    x,
                ) && x - self.base < i + 1) by {
                    if out@.contains(x) {
                        let j = choose|j: int| 0 <= j < out@.len() && out@[j] == x;
                        if j < before.len() {
                            assert(before[j] == x);
                            assert(before.contains(x));
                        }
                    }
                    if self@.members().contains(x) && x - self.base < i + 1 {
                        if x - self.base < i {
                            assert(before.contains(x));
                            let j = choose|j: int| 0 <= j < before.len() && before[j] == x;
                            assert(out@[j] == x);
                        } else {
                            assert(x - self.base == i);
                            assert(out@[before.len() as int] == x);
                        }
                    }
                }
            }
            i += 1;
        }
        proof {
            assert forall|x: SequenceNumber| out@.to_set().contains(x) <==> self@.members().contains(
                x,
            ) by {}
            assert(out@.to_set() =~= self@.members());
        }
        out
    }

    /// Whether the set holds no sequence number.
    pub fn is_empty(&self) -> (r: bool)
        ensures
            r == (self@.members() =~= Set::<SequenceNumber>::empty()),
    {
        let v = self.elements();
        proof {
            if v@.len() == 0 {
                assert forall|x: SequenceNumber| !self@.members().contains(x) by {
                    if self@.members().contains(x) {
                        assert(v@.to_set().contains(x));
                        assert(v@.contains(x));
                    }
                }
            } else {
                assert(v@.to_set().contains(v@[0]));
            }
        }
        v.len() == 0
    }

    /// Appends the set to `buf` in byte order `e`.
    pub fn write_to(&self, buf: &mut Vec<u8>, e: Endianness)
        ensures
            final(buf)@ == old(buf)@ + self@.bytes(e),
    {
        put_sn(buf, self.base, e);
        put_u32(buf, self.num_bits, e);
        put_words(buf, &self.bitmap, e);
        assert(buf@ =~= old(buf)@ + self@.bytes(e));
    }

    /// Reads a set at `off`; returns it with the offset behind it.
    pub fn read_from(buf: &[u8], off: usize, e: Endianness) -> (r: Option<
        (SequenceNumberSet, usize),
    >)
        requires
            off <= buf@.len(),
        ensures
            match sn_set_at(buf@, off as int, e) {
                Some((v, end)) => r matches Some((x, n)) && x@ == v && n == end && x@.wf() && n
                    <= buf@.len(),
                None => r is None,
            },
    {
        let len = buf.len();
        if len - off < 12 {
            return None;
        }
        let base = crate::messages::wire::read_sn(buf, off, e);
        let num_bits = read_u32(buf, off + 8, e);
        let n = words_for(num_bits);
        if (len - off - 12) / 4 < n {
            return None;
        }
        let bitmap = read_words(buf, off + 12, n, e);
        Some((SequenceNumberSet { base, num_bits, bitmap }, off + 12 + 4 * n))
    }
}

/// A locator on the wire: kind, port, address.
pub open spec fn locator_bytes(l: Locator, e: Endianness) -> Seq<u8> {
    i32_bytes(l.kind, e) + u32_bytes(l.port, e) + l.address@
}

/// The locator that `s` holds at `off`: kind, port, then the 16 bytes of
/// the address.
pub open spec fn locator_at(s: Seq<u8>, off: int, e: Endianness) -> Locator {
    Locator {
        kind: i32_at(s, off, e),
        port: u32_at(s, off + 4, e),
        address: [
            s[off + 8],
            s[off + 9],
            s[off + 10],
            s[off + 11],
            s[off + 12],
            s[off + 13],
            s[off + 14],
            s[off + 15],
            s[off + 16],
            s[off + 17],
            s[off + 18],
            s[off + 19],
            s[off + 20],
            s[off + 21],
            s[off + 22],
            s[off + 23],
        ],
    }
}

/// Where `s` holds the bytes of a locator at `off`, reading `s` at `off` gives
/// it back.
pub proof fn lemma_locator_embedded(s: Seq<u8>, off: int, l: Locator, e: Endianness)
    requires
        0 <= off,
        off + 24 <= s.len(),
        s.subrange(off, off + 24) == locator_bytes(l, e),
    ensures
        locator_bytes(l, e).len() == 24,
        locator_at(s, off, e) == l,
{
    lemma_i32_roundtrip(l.kind, e);
    lemma_u32_roundtrip(l.port, e);
    let b = locator_bytes(l, e);
    let t = s.subrange(off, off + 24);
    assert(s.subrange(off, off + 4) =~= i32_bytes(l.kind, e)) by {
        assert(s.subrange(off, off + 4) =~= t.subrange(0, 4));
        assert(b.subrange(0, 4) =~= i32_bytes(l.kind, e));
    }
    lemma_i32_embedded(s, off, l.kind, e);
    assert(s.subrange(off + 4, off + 8) =~= u32_bytes(l.port, e)) by {
        assert(s.subrange(off + 4, off + 8) =~= t.subrange(4, 8));
        assert(b.subrange(4, 8) =~= u32_bytes(l.port, e));
    }
    lemma_u32_embedded(s, off + 4, l.port, e);
    let r = locator_at(s, off, e);
    assert forall|k: int| 0 <= k < 16 implies r.address[k] == l.address[k] by {
        assert(t[8 + k] == s[off + 8 + k]);
        assert(b[8 + k] == l.address@[k]);
    }
    assert(r.address =~= l.address);
}

/// A list of locators on the wire: their number, then each of them.
pub open spec fn locators_body(ls: Seq<Locator>, e: Endianness) -> Seq<u8>
    decreases ls.len(),
{
    if ls.len() == 0 {
        Seq::empty()
    } else {
        locators_body(ls.drop_last(), e) + locator_bytes(ls.last(), e)
    }
}

/// A locator list on the wire: the number of locators, then the locators.
pub open spec fn locator_list_bytes(ls: Seq<Locator>, e: Endianness) -> Seq<u8> {
    u32_bytes(ls.len() as u32, e) + locators_body(ls, e)
}

/// The `n` locators that `s` holds from `off` on.
pub open spec fn locators_at(s: Seq<u8>, off: int, n: int, e: Endianness) -> Seq<Locator> {
    Seq::new(n as nat, |k: int| locator_at(s, off + 24 * k, e))
}

/// The locator list that `s` holds at `off`, and where it ends.
pub open spec fn locator_list_at(s: Seq<u8>, off: int, e: Endianness) -> Option<
    (Seq<Locator>, int),
> {
    if off + 4 > s.len() {
        None
    } else {
        let n = u32_at(s, off, e);
        if off + 4 + 24 * n > s.len() {
            None
        } else {
            Some((locators_at(s, off + 4, n as int, e), off + 4 + 24 * n))
        }
    }
}

/// A locator takes 24 bytes.
pub proof fn lemma_locators_body_len(ls: Seq<Locator>, e: Endianness)
    ensures
        locators_body(ls, e).len() == 24 * ls.len(),
    decreases ls.len(),
{
    if ls.len() > 0 {
        lemma_locators_body_len(ls.drop_last(), e);
        lemma_i32_roundtrip(ls.last().kind, e);
        lemma_u32_roundtrip(ls.last().port, e);
    }
}

/// Where `s` holds the bytes of a run of locators at `off`, reading `s` at `off` gives
/// it back.
pub proof fn lemma_locators_embedded(s: Seq<u8>, off: int, ls: Seq<Locator>, e: Endianness)
    requires
        0 <= off,
        off + 24 * ls.len() <= s.len(),
        s.subrange(off, off + 24 * ls.len()) == locators_body(ls, e),
    ensures
        locators_at(s, off, ls.len() as int, e) == ls,
    decreases ls.len(),
{
    if ls.len() > 0 {
        let pre = ls.drop_last();
        let n = ls.len() as int;
        lemma_locators_body_len(pre, e);
        lemma_locators_body_len(ls, e);
        let t = s.subrange(off, off + 24 * n);
        assert(s.subrange(off, off + 24 * (n - 1)) =~= locators_body(pre, e)) by {
            assert(s.subrange(off, off + 24 * (n - 1)) =~= t.subrange(0, 24 * (n - 1)));
            assert(locators_body(ls, e).subrange(0, 24 * (n - 1)) =~= locators_body(pre, e));
        }
        lemma_locators_embedded(s, off, pre, e);
        assert(s.subrange(off + 24 * (n - 1), off + 24 * n) =~= locator_bytes(ls.last(), e)) by {
            assert(s.subrange(off + 24 * (n - 1), off + 24 * n) =~= t.subrange(
                24 * (n - 1),
                24 * n,
            ));
            assert(locators_body(ls, e).subrange(24 * (n - 1), 24 * n) =~= locator_bytes(
                ls.last(),
                e,
            ));
        }
        lemma_locator_embedded(s, off + 24 * (n - 1), ls.last(), e);
        let got = locators_at(s, off, n, e);
        assert forall|k: int| 0 <= k < n implies got[k] == ls[k] by {
            if k < n - 1 {
                assert(locators_at(s, off, n - 1, e)[k] == pre[k]);
            }
        }
        assert(got =~= ls);
    } else {
        assert(locators_at(s, off, 0, e) =~= ls);
    }
}

/// Where `s` holds the bytes of a locator list at `off`, reading `s` at `off` gives
/// it back.
pub proof fn lemma_locator_list_embedded(s: Seq<u8>, off: int, ls: Seq<Locator>, e: Endianness)
    requires
        0 <= off,
        ls.len() <= u32::MAX,
        off + locator_list_bytes(ls, e).len() <= s.len(),
        s.subrange(off, off + locator_list_bytes(ls, e).len()) == locator_list_bytes(ls, e),
    ensures
        locator_list_bytes(ls, e).len() == 4 + 24 * ls.len(),
        locator_list_at(s, off, e) == Some((ls, off + 4 + 24 * ls.len())),
{
    lemma_locators_body_len(ls, e);
    lemma_u32_roundtrip(ls.len() as u32, e);
    let b = locator_list_bytes(ls, e);
    let t = s.subrange(off, off + b.len());
    assert(s.subrange(off, off + 4) =~= u32_bytes(ls.len() as u32, e)) by {
        assert(s.subrange(off, off + 4) =~= t.subrange(0, 4));
        assert(b.subrange(0, 4) =~= u32_bytes(ls.len() as u32, e));
    }
    lemma_u32_embedded(s, off, ls.len() as u32, e);
    assert(s.subrange(off + 4, off + 4 + 24 * ls.len()) =~= locators_body(ls, e)) by {
        assert(s.subrange(off + 4, off + 4 + 24 * ls.len()) =~= t.subrange(
            4,
            4 + 24 * (ls.len() as int),
        ));
        assert(b.subrange(4, 4 + 24 * (ls.len() as int)) =~= locators_body(ls, e));
    }
    lemma_locators_embedded(s, off + 4, ls, e);
}

/// Appends a locator to `buf`, as the wire format has it.
pub fn put_locator(buf: &mut Vec<u8>, l: &Locator, e: Endianness)
    ensures
        final(buf)@ == old(buf)@ + locator_bytes(*l, e),
{
    put_i32(buf, l.kind, e);
    put_u32(buf, l.port, e);
    put_bytes(buf, &l.address);
    assert(buf@ =~= old(buf)@ + locator_bytes(*l, e));
}

/// Appends a locator list to `buf`, as the wire format has it.
pub fn put_locator_list(buf: &mut Vec<u8>, ls: &Vec<Locator>, e: Endianness)
    requires
        ls@.len() <= u32::MAX,
    ensures
        final(buf)@ == old(buf)@ + locator_list_bytes(ls@, e),
{
    put_u32(buf, ls.len() as u32, e);
    let mut i: usize = 0;
    while i < ls.len()
        invariant
            i <= ls.len(),
            ls@.len() <= u32::MAX,
            buf@ == old(buf)@ + u32_bytes(ls@.len() as u32, e) + locators_body(
                ls@.subrange(0, i as int),
                e,
            ),
        decreases ls.len() - i,
    {
        put_locator(buf, &ls[i], e);
        proof {
            let cur = ls@.subrange(0, i + 1);
            assert(cur.drop_last() =~= ls@.subrange(0, i as int));
            assert(cur.last() == ls@[i as int]);
            assert(buf@ =~= old(buf)@ + u32_bytes(ls@.len() as u32, e) + locators_body(cur, e));
        }
        i += 1;
    }
    proof {
        assert(ls@.subrange(0, ls.len() as int) =~= ls@);
        assert(buf@ =~= old(buf)@ + locator_list_bytes(ls@, e));
    }
}

/// Reads a locator from `buf` at the given place.
pub fn read_locator(buf: &[u8], off: usize, e: Endianness) -> (r: Locator)
    requires
        off + 24 <= buf@.len(),
    ensures
        r == locator_at(buf@, off as int, e),
{
    let len = buf.len();
    let kind = read_i32(buf, off, e);
    let port = read_u32(buf, off + 4, e);
    let r = Locator {
        kind,
        port,
        address: [
            buf[off + 8],
            buf[off + 9],
            buf[off + 10],
            buf[off + 11],
            buf[off + 12],
            buf[off + 13],
            buf[off + 14],
            buf[off + 15],
            buf[off + 16],
            buf[off + 17],
            buf[off + 18],
            buf[off + 19],
            buf[off + 20],
            buf[off + 21],
            buf[off + 22],
            buf[off + 23],
        ],
    };
    assert(r.address =~= locator_at(buf@, off as int, e).address);
    r
}

/// Reads a locator list at `off`; returns it with the offset behind it.
pub fn read_locator_list(buf: &[u8], off: usize, e: Endianness) -> (r: Option<
    (Vec<Locator>, usize),
>)
    requires
        off <= buf@.len(),
    ensures
        match locator_list_at(buf@, off as int, e) {
            Some((v, end)) => r matches Some((x, n)) && x@ == v && n == end && n <= buf@.len(),
            None => r is None,
        },
{
    let len = buf.len();
    if len - off < 4 {
        return None;
    }
    let n32 = read_u32(buf, off, e);
    let n: usize = n32 as usize;
    if (len - off - 4) / 24 < n {
        return None;
    }
    let mut out: Vec<Locator> = Vec::new();
    let mut k: usize = 0;
    while k < n
        invariant
            k <= n,
            off + 4 + 24 * n <= len,
            len == buf@.len(),
            out@ == locators_at(buf@, off + 4, k as int, e),
        decreases n - k,
    {
        let l = read_locator(buf, off + 4 + 24 * k, e);
        out.push(l);
        assert(out@ =~= locators_at(buf@, off + 4, k + 1, e));
        k += 1;
    }
    Some((out, off + 4 + 24 * n))
}

} // verus!
