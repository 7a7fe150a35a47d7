use vstd::prelude::*;
use bit_set::BitSet;
use crate::messages::elements::{
    SequenceNumberSet,
    lemma_u32_embedded,
    lemma_words_embedded,
    put_words,
    read_words,
    spec_bit_of,
    bit_of,
    words_at,
    words_bytes,
};
use crate::messages::wire::{Endianness, put_u32, read_u32, u32_at, u32_bytes, lemma_u32_roundtrip};
use crate::structure::sequence_number::SequenceNumber;

verus! {

/// A set of small natural numbers, kept as the bit set of the `bit-set`
/// crate. Verus does not look into it: what it holds is named by
/// `bit_set_bits`, and the wrappers below say what each operation of the
/// crate does to that.
#[verifier::external_body]
pub struct BitSetRef {
    set: BitSet,
}

/// The bits of a bit set, from bit 0 on: a number is in the set where its
/// bit is there and set.
pub uninterp spec fn bit_set_bits(s: BitSetRef) -> Seq<bool>;

/// The greatest number of bits that this crate lets a bit set have.
pub const BIT_SET_MAX_BITS: usize = 0xFFFF_FFFF;

impl View for BitSetRef {
    type V = Seq<bool>;

    open spec fn view(&self) -> Seq<bool> {
        bit_set_bits(*self)
    }
}

/// The numbers that a sequence of bits stands for.
pub open spec fn members_of(bits: Seq<bool>) -> Set<nat> {
    Set::new(|i: nat| i < bits.len() && bits[i as int])
}

/// `bits` made at least `n` long by bits that are not set.
pub open spec fn grown_to(bits: Seq<bool>, n: nat) -> Seq<bool> {
    if n <= bits.len() {
        bits
    } else {
        bits + Seq::new((n - bits.len()) as nat, |i: int| false)
    }
}

/// Word `k` of `bits` as far as its bits below `upto` go: bit `j` of the
/// word is bit `32 * k + j` of `bits`.
pub open spec fn word_of(bits: Seq<bool>, k: int, upto: int) -> u32
    decreases upto,
{
    if upto <= 0 {
        0u32
    } else {
        let w = word_of(bits, k, upto - 1);
        let i = 32 * k + upto - 1;
        if 0 <= i < bits.len() && bits[i] {
            w | (1u32 << ((upto - 1) as u32))
        } else {
            w
        }
    }
}

/// The words that hold `bits`, the last one filled up with bits that are not
/// set.
pub open spec fn words_of(bits: Seq<bool>) -> Seq<u32> {
    Seq::new(((bits.len() + 31) / 32) as nat, |k: int| word_of(bits, k, 32))
}

/// A bit set on the wire: the number of bits in its words, then its words.
pub open spec fn bit_set_bytes(bits: Seq<bool>, e: Endianness) -> Seq<u8> {
    u32_bytes((32 * words_of(bits).len()) as u32, e) + words_bytes(words_of(bits), e)
}

/// The bits that `n` words hold.
pub open spec fn bits_of_words(words: Seq<u32>, n: int) -> Seq<bool> {
    Seq::new(n as nat, |i: int| i / 32 < words.len() && spec_bit_of(words[i / 32], (i % 32) as u32))
}

/// The bits that `s` holds at `off`, and where they end: a number of bits,
/// then a word for every full 32 of them.
pub open spec fn bit_set_at(s: Seq<u8>, off: int, e: Endianness) -> Option<(Seq<bool>, int)> {
    if off + 4 > s.len() {
        None
    } else {
        let n = u32_at(s, off, e);
        let nw = n / 32;
        if off + 4 + 4 * nw > s.len() {
            None
        } else {
            Some((bits_of_words(words_at(s, off + 4, nw as int, e), n as int), off + 4 + 4 * nw))
        }
    }
}

/// Bit `j` of a word of `bits` is bit `32 * k + j` of `bits`, as far as the
/// word was filled and `bits` goes.
pub proof fn lemma_word_of(bits: Seq<bool>, k: int, upto: int)
    requires
        0 <= upto <= 32,
        0 <= k,
    ensures
        forall|j: u32|
            j < 32 ==> (spec_bit_of(word_of(bits, k, upto), j) <==> (j < upto && 32 * k + j
                < bits.len() && bits[32 * k + j])),
    decreases upto,
{
    if upto == 0 {
        assert forall|j: u32| j < 32 implies !spec_bit_of(word_of(bits, k, upto), j) by {
            assert(!((0u32 >> j) & 1 == 1)) by (bit_vector);
        }
    } else {
        lemma_word_of(bits, k, upto - 1);
        let w = word_of(bits, k, upto - 1);
        let b = (upto - 1) as u32;
        let i = 32 * k + upto - 1;
        assert forall|j: u32| j < 32 implies (spec_bit_of(word_of(bits, k, upto), j) <==> (j
            < upto && 32 * k + j < bits.len() && bits[32 * k + j])) by {
            assert(spec_bit_of(w, j) <==> (j < upto - 1 && 32 * k + j < bits.len() && bits[32 * k
                + j]));
            if 0 <= i < bits.len() && bits[i] {
                assert((((w | (1u32 << b)) >> j) & 1 == 1) <==> ((w >> j) & 1 == 1 || j == b))
                    by (bit_vector)
                    requires
                        b < 32,
                        j < 32,
                ;
            }
        }
    }
}

/// The bits of the words of `bits` are `bits`, filled up to a multiple of 32
/// with bits that are not set: so the numbers they stand for are the same.
pub proof fn lemma_words_of_bits(bits: Seq<bool>)
    ensures
        bits_of_words(words_of(bits), 32 * (words_of(bits).len() as int)) == grown_to(
            bits,
            32 * words_of(bits).len(),
        ),
        members_of(bits_of_words(words_of(bits), 32 * (words_of(bits).len() as int)))
            == members_of(bits),
{
    let ws = words_of(bits);
    let n = 32 * ws.len();
    let a = bits_of_words(ws, n as int);
    let b = grown_to(bits, n);
    assert(a.len() == b.len());
    assert forall|i: int| 0 <= i < a.len() implies a[i] == b[i] by {
        let k = i / 32;
        lemma_word_of(bits, k, 32);
        let j = (i % 32) as u32;
        assert(spec_bit_of(word_of(bits, k, 32), j) <==> (32 * k + j < bits.len() && bits[32 * k
            + j]));
    }
    assert(a =~= b);
    assert forall|i: nat| members_of(a).contains(i) <==> members_of(bits).contains(i) by {}
    assert(members_of(a) =~= members_of(bits));
}

/// A bit set reads back from the bytes it was written to with the numbers
/// it held.
pub proof fn lemma_bit_set_roundtrip(bits: Seq<bool>, e: Endianness, rest: Seq<u8>)
    requires
        bits.len() <= BIT_SET_MAX_BITS - 31,
    ensures
        bit_set_at(bit_set_bytes(bits, e) + rest, 0, e) matches Some((got, end)) && members_of(got)
            == members_of(bits) && end == bit_set_bytes(bits, e).len(),
{
    let ws = words_of(bits);
    let n = (32 * ws.len()) as u32;
    let s = bit_set_bytes(bits, e) + rest;
    lemma_u32_roundtrip(n, e);
    assert(s.subrange(0, 4) =~= u32_bytes(n, e));
    lemma_u32_embedded(s, 0, n, e);
    assert(words_bytes(ws, e).len() == 4 * ws.len());
    assert(s.subrange(4, 4 + 4 * (ws.len() as int)) =~= words_bytes(ws, e));
    lemma_words_embedded(s, 4, ws, e);
    assert(n / 32 == ws.len());
    lemma_words_of_bits(bits);
}

impl BitSetRef {
    /// The numbers in the set.
    pub open spec fn members(&self) -> Set<nat> {
        members_of(self@)
    }

    /// Trusted: `BitSet::with_capacity(0)`, which makes a bit set of a bit
    /// vector of no bits. Assumed here: the set has no bits.
    #[verifier::external_body]
    pub fn new() -> (r: BitSetRef)
        ensures
            bit_set_bits(r) == Seq::<bool>::empty(),
    {
        BitSetRef { set: BitSet::with_capacity(0) }
    }

    /// Trusted: `BitSet::with_capacity`, which makes a bit set of a bit
    /// vector of `nbits` bits, none of them set. Assumed here: the set has
    /// `nbits` bits and none is set.
    #[verifier::external_body]
    pub(crate) fn with_bits(nbits: usize) -> (r: BitSetRef)
        requires
            nbits <= BIT_SET_MAX_BITS,
        ensures
            bit_set_bits(r) == Seq::new(nbits as nat, |i: int| false),
    {
        BitSetRef { set: BitSet::with_capacity(nbits) }
    }

    /// Trusted: `BitSet::insert`. Where the value is in the set it returns
    /// false and changes nothing. Else it grows the bit vector, by bits that
    /// are not set, until it has a bit for the value, sets that bit and
    /// returns true. Assumed here: just that.
    #[verifier::external_body]
    pub(crate) fn insert_bit(&mut self, value: usize) -> (r: bool)
        requires
            value < BIT_SET_MAX_BITS,
        ensures
            r == !(value < bit_set_bits(*old(self)).len() && bit_set_bits(*old(self))[value as int]),
            !r ==> bit_set_bits(*final(self)) == bit_set_bits(*old(self)),
            r ==> bit_set_bits(*final(self)) == grown_to(
                bit_set_bits(*old(self)),
                (value + 1) as nat,
            ).update(value as int, true),
    {
        self.set.insert(value)
    }

    /// Trusted: `BitSet::contains`, which is true where the bit vector has
    /// a bit for the value and that bit is set. Assumed here: just that.
    #[verifier::external_body]
    pub(crate) fn contains_bit(&self, value: usize) -> (r: bool)
        ensures
            r == (value < bit_set_bits(*self).len() && bit_set_bits(*self)[value as int]),
    {
        self.set.contains(value)
    }

    /// Trusted: `BitVec::len` of the bit vector that `BitSet::get_ref`
    /// hands out. Assumed here: it is the number of bits of the set.
    #[verifier::external_body]
    pub(crate) fn bit_len(&self) -> (r: usize)
        ensures
            r == bit_set_bits(*self).len(),
    {
        self.set.get_ref().len()
    }

    /// Puts `value` into the set. Returns whether it was new. A value that
    /// the set has no room for is not taken up.
    pub fn insert(&mut self, value: usize) -> (r: bool)
        ensures
            value < BIT_SET_MAX_BITS ==> final(self).members() == old(self).members().insert(
                value as nat,
            ) && r == !old(self).members().contains(value as nat),
            value >= BIT_SET_MAX_BITS ==> final(self)@ == old(self)@ && !r,
    {
        if value >= BIT_SET_MAX_BITS {
            return false;
        }
        let r = self.insert_bit(value);
        proof {
            assert forall|i: nat| self.members().contains(i) <==> old(self).members().insert(
                value as nat,
            ).contains(i) by {}
            assert(self.members() =~= old(self).members().insert(value as nat));
        }
        r
    }

    /// Whether `value` is in the set.
    pub fn contains(&self, value: usize) -> (r: bool)
        ensures
            r == self.members().contains(value as nat),
    {
        self.contains_bit(value)
    }

    /// The numbers in the set, in ascending order.
    pub fn elements(&self) -> (r: Vec<usize>)
        ensures
            forall|i: int, j: int| 0 <= i < j < r@.len() ==> r@[i] < r@[j],
            forall|x: usize| r@.contains(x) <==> self.members().contains(x as nat),
    {
        let n = self.bit_len();
        let mut out: Vec<usize> = Vec::new();
        let mut i: usize = 0;
        while i < n
            invariant
                i <= n,
                n == self@.len(),
                forall|a: int, b: int| 0 <= a < b < out@.len() ==> out@[a] < out@[b],
                forall|a: int| 0 <= a < out@.len() ==> out@[a] < i,
                forall|x: usize| out@.contains(x) <==> (self.members().contains(x as nat) && x < i),
            decreases n - i,
        {
            let ghost before = out@;
            if self.contains_bit(i) {
                out.push(i);
            }
            proof {
                assert forall|x: usize| out@.contains(x) <==> (self.members().contains(x as nat)
                    && x < i + 1) by {
                    if out@.contains(x) {
                        let q = choose|q: int| 0 <= q < out@.len() && out@[q] == x;
                        if q < before.len() {
                            assert(before[q] == x);
                            assert(before.contains(x));
                        }
                    }
                    if self.members().contains(x as nat) && x < i + 1 {
                        if x < i {
                            assert(before.contains(x));
                            let q = choose|q: int| 0 <= q < before.len() && before[q] == x;
                            assert(out@[q] == x);
                        } else {
                            assert(out@[before.len() as int] == x);
                        }
                    }
                }
            }
            i += 1;
        }
        out
    }

    /// Whether the set holds no number.
    pub fn is_empty(&self) -> (r: bool)
        ensures
            r == (self.members() =~= Set::<nat>::empty()),
    {
        let v = self.elements();
        let n = self.bit_len();
        proof {
            if v@.len() == 0 {
                assert forall|i: nat| !self.members().contains(i) by {
                    if self.members().contains(i) {
                        assert(i < n);
                        let x = i as usize;
                        assert(self.members().contains(x as nat));
                        assert(v@.contains(x));
                    }
                }
            } else {
                assert(v@.contains(v@[0]));
                assert(self.members().contains(v@[0] as nat));
            }
        }
        v.len() == 0
    }

    /// Appends the set in its form on the wire: the number of bits in its
    /// words, then the words as they are.
    pub fn write_to(&self, buf: &mut Vec<u8>, e: Endianness)
        requires
            self@.len() <= BIT_SET_MAX_BITS - 31,
        ensures
            final(buf)@ == old(buf)@ + bit_set_bytes(self@, e),
    {
        let n = self.bit_len();
        let nw: usize = (n + 31) / 32;
        let mut words: Vec<u32> = Vec::new();
        let mut k: usize = 0;
        while k < nw
            invariant
                k <= nw,
                n == self@.len(),
                nw == (n + 31) / 32,
                n <= BIT_SET_MAX_BITS - 31,
                words@ == Seq::new(k as nat, |q: int| word_of(self@, q, 32)),
            decreases nw - k,
        {
            let mut w: u32 = 0;
            let mut j: u32 = 0;
            while j < 32
                invariant
                    j <= 32,
                    k < nw,
                    n == self@.len(),
                    nw == (n + 31) / 32,
                    n <= BIT_SET_MAX_BITS - 31,
                    w == word_of(self@, k as int, j as int),
                decreases 32 - j,
            {
                let i: usize = 32 * k + (j as usize);
                if self.contains_bit(i) {
                    w = w | (1u32 << j);
                }
                j += 1;
            }
            words.push(w);
            assert(words@ =~= Seq::new((k + 1) as nat, |q: int| word_of(self@, q, 32)));
            k += 1;
        }
        assert(words@ =~= words_of(self@));
        put_u32(buf, (32 * nw) as u32, e);
        put_words(buf, &words, e);
        assert(buf@ =~= old(buf)@ + bit_set_bytes(self@, e));
    }

    /// Reads a set at `off`; returns it with the offset behind it.
    pub fn read_from(buf: &[u8], off: usize, e: Endianness) -> (r: Option<(BitSetRef, usize)>)
        requires
            off <= buf@.len(),
        ensures
            match bit_set_at(buf@, off as int, e) {
                Some((bits, end)) => r matches Some((x, n)) && x.members() == members_of(bits)
                    && n == end && n <= buf@.len(),
                None => r is None,
            },
    {
        let len = buf.len();
        if len - off < 4 {
            return None;
        }
        let n = read_u32(buf, off, e);
        let nw: usize = (n / 32) as usize;
        if (len - off - 4) / 4 < nw {
            return None;
        }
        let words = read_words(buf, off + 4, nw, e);
        let ghost bits = bits_of_words(words@, n as int);
        let mut set = BitSetRef::with_bits(n as usize);
        let total: usize = 32 * nw;
        let mut i: usize = 0;
        while i < total
            invariant
                i <= total,
                total == 32 * nw,
                nw == n / 32,
                words@.len() == nw,
                bits == bits_of_words(words@, n as int),
                set@.len() == n,
                forall|q: int| 0 <= q < n ==> (#[trigger] set@[q] <==> (q < i && bits[q])),
            decreases total - i,
        {
            let ghost before = set@;
            assert(i < n);
            assert(!before[i as int]);
            if bit_of(words[i / 32], (i % 32) as u32) {
                let fresh = set.insert_bit(i);
                assert(fresh);
                assert(grown_to(before, (i + 1) as nat) == before);
                assert(set@ =~= before.update(i as int, true));
            }
            proof {
                assert forall|q: int| 0 <= q < n implies (#[trigger] set@[q] <==> (q < i + 1
                    && bits[q])) by {
                    if q != i {
                        assert(set@[q] == before[q]);
                    }
                }
            }
            i += 1;
        }
        proof {
            assert forall|q: nat| set.members().contains(q) <==> members_of(bits).contains(q) by {
                if q < n && q >= total {
                    assert((q as int) / 32 >= nw);
                }
            }
            assert(set.members() =~= members_of(bits));
        }
        Some((set, off + 4 + 4 * nw))
    }
}

impl SequenceNumberSet {
    /// The bit set in which bit `i` stands for the sequence number
    /// `base + i` of this set.
    pub fn to_bit_set(&self) -> (r: BitSetRef)
        ensures
            forall|i: nat|
                #[trigger] r.members().contains(i) <==> self.base + i <= i64::MAX
                    && self@.members().contains((self.base + i) as i64),
    {
        let mut out = BitSetRef::new();
        let mut i: u32 = 0;
        while i < self.num_bits
            invariant
                i <= self.num_bits,
                out@.len() <= i,
                forall|k: int|
                    0 <= k < out@.len() ==> (#[trigger] out@[k] <==> self.base + k <= i64::MAX
                        && self@.members().contains((self.base + k) as i64)),
                forall|k: int|
                    out@.len() <= k < i ==> !(self.base + k <= i64::MAX
                        && #[trigger] self@.members().contains((self.base + k) as i64)),
            decreases self.num_bits - i,
        {
            let ghost before = out@;
            let sum: i128 = self.base as i128 + i as i128;
            let member = sum <= i64::MAX as i128 && self.contains(sum as i64);
            if member {
                let fresh = out.insert_bit(i as usize);
                assert(fresh);
                assert(out@ == grown_to(before, (i + 1) as nat).update(i as int, true));
                assert forall|k: int| 0 <= k < out@.len() implies (#[trigger] out@[k]
                    <==> self.base + k <= i64::MAX && self@.members().contains(
                    (self.base + k) as i64,
                )) by {
                    if k < before.len() {
                        assert(out@[k] == before[k]);
                    } else if k < i {
                        assert(!out@[k]);
                    }
                }
            }
            i += 1;
        }
        proof {
            assert forall|k: nat| #[trigger]
                out.members().contains(k) <==> self.base + k <= i64::MAX
                    && self@.members().contains((self.base + k) as i64) by {
                if self.base + k <= i64::MAX && self@.members().contains((self.base + k) as i64) {
                    assert(k < self.num_bits);
                }
            }
        }
        out
    }

    /// The set of sequence numbers that `set` stands for with bit 0 as
    /// `base`, as far as an acknowledgement has room for it.
    pub fn from_bit_set(base: SequenceNumber, set: &BitSetRef) -> (r: SequenceNumberSet)
        ensures
            r@.wf(),
            r@.base == base,
            forall|s: SequenceNumber|
                r@.members().contains(s) <==> base <= s && s - base < 256
                    && set.members().contains((s - base) as nat),
    {
        let n = set.bit_len();
        let num_bits: u32 = if n > 256 {
            256
        } else {
            n as u32
        };
        let mut out = SequenceNumberSet::with_bits(base, num_bits);
        let mut i: u32 = 0;
        while i < num_bits
            invariant
                i <= num_bits <= 256,
                num_bits <= set@.len(),
                set@.len() > 256 ==> num_bits == 256,
                set@.len() <= 256 ==> num_bits == set@.len(),
                out@.wf(),
                out@.base == base,
                out@.num_bits == num_bits,
                forall|s: SequenceNumber|
                    out@.members().contains(s) <==> base <= s && s - base < i
                        && set.members().contains((s - base) as nat),
            decreases num_bits - i,
        {
            let sum: i128 = base as i128 + i as i128;
            if set.contains_bit(i as usize) && sum <= i64::MAX as i128 {
                out.insert(sum as i64);
            }
            i += 1;
        }
        out
    }
}

} // verus!
