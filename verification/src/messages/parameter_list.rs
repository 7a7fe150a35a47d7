use vstd::prelude::*;
use crate::messages::wire::{
    Endianness,
    u16_at,
    u16_bytes,
    put_u16,
    put_bytes,
    read_u16,
    copy_range,
    lemma_u16_roundtrip,
};
use crate::structure::cache_change::clone_bytes;

verus! {

/// The parameter id that ends a parameter list.
pub const PID_SENTINEL: u16 = 0x0001;

/// The parameter id of the key hash of an instance.
pub const PID_KEY_HASH: u16 = 0x0070;

/// The parameter id of the status of a disposed or unregistered instance.
pub const PID_STATUS_INFO: u16 = 0x0071;

/// One parameter of an in-line QoS list: an id and a value.
#[derive(Debug, PartialEq, Eq)]
pub struct Parameter {
    pub parameter_id: u16,
    pub value: Vec<u8>,
}

/// A parameter as plain values.
pub struct ParameterView {
    pub parameter_id: u16,
    pub value: Seq<u8>,
}

impl View for Parameter {
    type V = ParameterView;

    open spec fn view(&self) -> ParameterView {
        ParameterView { parameter_id: self.parameter_id, value: self.value@ }
    }
}

impl Clone for Parameter {
    fn clone(&self) -> (r: Parameter)
        ensures
            r@ == self@,
    {
        Parameter { parameter_id: self.parameter_id, value: clone_bytes(&self.value) }
    }
}

impl Parameter {
    /// The status parameter of a change that is no longer alive: four bytes,
    /// the last of which holds the disposed flag in bit 0, the unregistered
    /// flag in bit 1 and the filtered flag in bit 2.
    pub fn create_pid_status_info_parameter(
        disposed: bool,
        unregistered: bool,
        filtered: bool,
    ) -> (r: Parameter)
        ensures
            r@.parameter_id == PID_STATUS_INFO,
            r@.value == seq![
                0u8,
                0u8,
                0u8,
                ((if disposed {
                    1int
                } else {
                    0int
                }) + (if unregistered {
                    2int
                } else {
                    0int
                }) + (if filtered {
                    4int
                } else {
                    0int
                })) as u8,
            ],
    {
        let mut last: u8 = 0;
        if disposed {
            last = last + 1;
        }
        if unregistered {
            last = last + 2;
        }
        if filtered {
            last = last + 4;
        }
        let mut value: Vec<u8> = Vec::new();
        value.push(0);
        value.push(0);
        value.push(0);
        value.push(last);
        let r = Parameter { parameter_id: PID_STATUS_INFO, value };
        assert(r@.value =~= seq![0u8, 0u8, 0u8, last]);
        r
    }
}

/// A list of parameters, as a data submessage carries it in line.
#[derive(Debug, PartialEq, Eq)]
pub struct ParameterList {
    pub parameters: Vec<Parameter>,
}

/// The parameters of `v` as plain values.
pub open spec fn parameters_view(v: Seq<Parameter>) -> Seq<ParameterView> {
    v.map_values(|p: Parameter| p@)
}

impl View for ParameterList {
    type V = Seq<ParameterView>;

    open spec fn view(&self) -> Seq<ParameterView> {
        parameters_view(self.parameters@)
    }
}

impl ParameterList {
    /// A list without parameters.
    pub fn new() -> (r: ParameterList)
        ensures
            r@ == Seq::<ParameterView>::empty(),
    {
        let r = ParameterList { parameters: Vec::new() };
        assert(r@ =~= Seq::<ParameterView>::empty());
        r
    }

    /// Puts `p` at the end of the list.
    pub fn push(&mut self, p: Parameter)
        ensures
            final(self)@ == old(self)@.push(p@),
    {
        self.parameters.push(p);
        assert(self@ =~= old(self)@.push(p@));
    }
}

impl Clone for ParameterList {
    fn clone(&self) -> (r: ParameterList)
        ensures
            r@ == self@,
    {
        let mut out: Vec<Parameter> = Vec::new();
        let mut i: usize = 0;
        while i < self.parameters.len()
            invariant
                i <= self.parameters.len(),
                parameters_view(out@) == parameters_view(self.parameters@.subrange(0, i as int)),
            decreases self.parameters.len() - i,
        {
            let c = self.parameters[i].clone();
            let ghost before = out@;
            out.push(c);
            assert(parameters_view(out@) =~= parameters_view(
                self.parameters@.subrange(0, i + 1),
            )) by {
                assert(parameters_view(out@) =~= parameters_view(before).push(c@));
                assert(parameters_view(self.parameters@.subrange(0, i + 1)) =~= parameters_view(
                    self.parameters@.subrange(0, i as int),
                ).push(self.parameters@[i as int]@));
            }
            i += 1;
        }
        assert(self.parameters@.subrange(0, self.parameters.len() as int) =~= self.parameters@);
        ParameterList { parameters: out }
    }
}

/// The length of a value of `n` bytes on the wire: `n` rounded up to a
/// multiple of four.
pub open spec fn padded_len(n: int) -> int {
    (n + 3) / 4 * 4
}

/// `n` bytes of zero.
pub open spec fn zeros(n: int) -> Seq<u8> {
    Seq::new(n as nat, |i: int| 0u8)
}

/// One parameter on the wire: id, padded length, value, padding.
pub open spec fn parameter_bytes(p: ParameterView, e: Endianness) -> Seq<u8> {
    u16_bytes(p.parameter_id, e) + u16_bytes(padded_len(p.value.len() as int) as u16, e) + p.value
        + zeros(padded_len(p.value.len() as int) - p.value.len())
}

/// The sentinel that ends a parameter list on the wire.
pub open spec fn sentinel_bytes(e: Endianness) -> Seq<u8> {
    u16_bytes(PID_SENTINEL, e) + u16_bytes(0, e)
}

/// A parameter list on the wire: its parameters, then the sentinel.
pub open spec fn parameter_list_bytes(ps: Seq<ParameterView>, e: Endianness) -> Seq<u8>
    decreases ps.len(),
{
    if ps.len() == 0 {
        sentinel_bytes(e)
    } else {
        parameter_bytes(ps[0], e) + parameter_list_bytes(ps.drop_first(), e)
    }
}

/// Every value fits the 16-bit length field after padding.
pub open spec fn parameters_writable(ps: Seq<ParameterView>) -> bool {
    forall|i: int| 0 <= i < ps.len() ==> (#[trigger] ps[i]).value.len() <= 0xFFFC
}

/// Every value fits, needs no padding, and no parameter bears the sentinel's
/// id: such a list reads back as it was written.
pub open spec fn parameters_exact(ps: Seq<ParameterView>) -> bool {
    forall|i: int|
        0 <= i < ps.len() ==> {
            &&& (#[trigger] ps[i]).value.len() <= 0xFFFC
            &&& ps[i].value.len() % 4 == 0
            &&& ps[i].parameter_id != PID_SENTINEL
        }
}

/// The parameter list that `s` holds at `off`, and where it ends; nothing
/// where `s` ends before the sentinel.
pub open spec fn parameter_list_at(s: Seq<u8>, off: int, e: Endianness) -> Option<
    (Seq<ParameterView>, int),
>
    decreases s.len() - off,
{
    if off < 0 || off + 4 > s.len() {
        None
    } else {
        let pid = u16_at(s, off, e);
        let l = u16_at(s, off + 2, e);
        if pid == PID_SENTINEL {
            Some((Seq::empty(), off + 4))
        } else if off + 4 + l > s.len() {
            None
        } else {
            match parameter_list_at(s, off + 4 + l, e) {
                Some((rest, end)) => Some(
                    (
                        seq![
                            ParameterView {
                                parameter_id: pid,
                                value: s.subrange(off + 4, off + 4 + l),
                            },
                        ] + rest,
                        end,
                    ),
                ),
                None => None,
            }
        }
    }
}

/// A parameter list takes at least the four bytes of its sentinel.
pub proof fn lemma_parameter_list_len(ps: Seq<ParameterView>, e: Endianness)
    ensures
        parameter_list_bytes(ps, e).len() >= 4,
    decreases ps.len(),
{
    lemma_u16_roundtrip(PID_SENTINEL, e);
    lemma_u16_roundtrip(0, e);
    if ps.len() > 0 {
        lemma_parameter_list_len(ps.drop_first(), e);
    }
}

/// Where `s` holds the bytes of a 16-bit number at `off`, reading `s` at `off` gives
/// it back.
pub proof fn lemma_u16_embedded(s: Seq<u8>, off: int, x: u16, e: Endianness)
    requires
        0 <= off,
        off + 2 <= s.len(),
        s.subrange(off, off + 2) == u16_bytes(x, e),
    ensures
        u16_at(s, off, e) == x,
{
    lemma_u16_roundtrip(x, e);
    let t = s.subrange(off, off + 2);
    assert(t[0] == s[off] && t[1] == s[off + 1]);
}

/// Where `s` holds the bytes of an exact list at `off`, it reads that list
/// there.
pub proof fn lemma_parameter_list_embedded(
    s: Seq<u8>,
    off: int,
    ps: Seq<ParameterView>,
    e: Endianness,
)
    requires
        0 <= off,
        parameters_exact(ps),
        off + parameter_list_bytes(ps, e).len() <= s.len(),
        s.subrange(off, off + parameter_list_bytes(ps, e).len()) == parameter_list_bytes(ps, e),
    ensures
        parameter_list_at(s, off, e) == Some((ps, off + parameter_list_bytes(ps, e).len())),
    decreases ps.len(),
{
    let b = parameter_list_bytes(ps, e);
    let t = s.subrange(off, off + b.len());
    lemma_u16_roundtrip(PID_SENTINEL, e);
    lemma_u16_roundtrip(0, e);
    if ps.len() == 0 {
        assert(s.subrange(off, off + 2) =~= u16_bytes(PID_SENTINEL, e)) by {
            assert(s.subrange(off, off + 2) =~= t.subrange(0, 2));
            assert(b.subrange(0, 2) =~= u16_bytes(PID_SENTINEL, e));
        }
        lemma_u16_embedded(s, off, PID_SENTINEL, e);
        assert(ps =~= Seq::<ParameterView>::empty());
    } else {
        let p = ps[0];
        let rest = ps.drop_first();
        let l = p.value.len() as int;
        assert(padded_len(l) == l);
        lemma_u16_roundtrip(p.parameter_id, e);
        lemma_u16_roundtrip(l as u16, e);
        let pb = parameter_bytes(p, e);
        let rb = parameter_list_bytes(rest, e);
        lemma_parameter_list_len(rest, e);
        assert(pb.len() == 4 + l);
        assert(b == pb + rb);
        assert(s.subrange(off, off + 2) =~= u16_bytes(p.parameter_id, e)) by {
            assert(s.subrange(off, off + 2) =~= t.subrange(0, 2));
            assert(b.subrange(0, 2) =~= u16_bytes(p.parameter_id, e));
        }
        lemma_u16_embedded(s, off, p.parameter_id, e);
        assert(s.subrange(off + 2, off + 4) =~= u16_bytes(l as u16, e)) by {
            assert(s.subrange(off + 2, off + 4) =~= t.subrange(2, 4));
            assert(b.subrange(2, 4) =~= u16_bytes(l as u16, e));
        }
        lemma_u16_embedded(s, off + 2, l as u16, e);
        assert(s.subrange(off + 4, off + 4 + l) =~= p.value) by {
            assert(s.subrange(off + 4, off + 4 + l) =~= t.subrange(4, 4 + l));
            assert(b.subrange(4, 4 + l) =~= p.value);
        }
        assert(s.subrange(off + 4 + l, off + 4 + l + rb.len()) =~= rb) by {
            assert(s.subrange(off + 4 + l, off + 4 + l + rb.len()) =~= t.subrange(
                4 + l,
                4 + l + rb.len(),
            ));
            assert(b.subrange(4 + l, 4 + l + rb.len()) =~= rb);
        }
        assert(parameters_exact(rest)) by {
            assert forall|i: int| 0 <= i < rest.len() implies {
                &&& (#[trigger] rest[i]).value.len() <= 0xFFFC
                &&& rest[i].value.len() % 4 == 0
                &&& rest[i].parameter_id != PID_SENTINEL
            } by {
                assert(rest[i] == ps[i + 1]);
            }
        }
        lemma_parameter_list_embedded(s, off + 4 + l, rest, e);
        assert(seq![p] + rest =~= ps);
    }
}

/// Appends one parameter, padded to a multiple of four bytes.
pub fn put_parameter(buf: &mut Vec<u8>, p: &Parameter, e: Endianness)
    requires
        p@.value.len() <= 0xFFFC,
    ensures
        final(buf)@ == old(buf)@ + parameter_bytes(p@, e),
{
    let n: usize = p.value.len();
    let padded: usize = (n + 3) / 4 * 4;
    put_u16(buf, p.parameter_id, e);
    put_u16(buf, padded as u16, e);
    put_bytes(buf, p.value.as_slice());
    let ghost mid = buf@;
    let mut k: usize = n;
    while k < padded
        invariant
            n <= k <= padded,
            buf@ == mid + zeros(k - n),
        decreases padded - k,
    {
        buf.push(0u8);
        assert(buf@ =~= mid + zeros(k + 1 - n));
        k += 1;
    }
    assert(buf@ =~= old(buf)@ + parameter_bytes(p@, e));
}

/// Appends a parameter list and its sentinel.
pub fn put_parameter_list(buf: &mut Vec<u8>, list: &ParameterList, e: Endianness)
    requires
        parameters_writable(list@),
    ensures
        final(buf)@ == old(buf)@ + parameter_list_bytes(list@, e),
{
    let mut i: usize = 0;
    assert(list@.subrange(0, list@.len() as int) =~= list@);
    while i < list.parameters.len()
        invariant
            i <= list.parameters.len(),
            parameters_writable(list@),
            old(buf)@ + parameter_list_bytes(list@, e) == buf@ + parameter_list_bytes(
                list@.subrange(i as int, list@.len() as int),
                e,
            ),
        decreases list.parameters.len() - i,
    {
        let ghost before = buf@;
        let ghost cur = list@.subrange(i as int, list@.len() as int);
        assert(list@.subrange(0, list@.len() as int) =~= list@);
        assert(cur[0] == list@[i as int]);
        assert(list@[i as int] == list.parameters@[i as int]@);
        assert(cur.drop_first() =~= list@.subrange(i + 1, list@.len() as int));
        put_parameter(buf, &list.parameters[i], e);
        assert(buf@ + parameter_list_bytes(list@.subrange(i + 1, list@.len() as int), e)
            =~= before + parameter_list_bytes(cur, e));
        i += 1;
    }
    let ghost before = buf@;
    assert(list@.subrange(list@.len() as int, list@.len() as int) =~= Seq::<
        ParameterView,
    >::empty());
    put_u16(buf, PID_SENTINEL, e);
    put_u16(buf, 0, e);
    assert(buf@ =~= before + sentinel_bytes(e));
}

/// Reads a parameter list at `off`; returns it with the offset behind its
/// sentinel.
pub fn read_parameter_list(buf: &[u8], off: usize, e: Endianness) -> (r: Option<
    (ParameterList, usize),
>)
    requires
        off <= buf@.len(),
    ensures
        match parameter_list_at(buf@, off as int, e) {
            Some((v, end)) => r matches Some((x, n)) && x@ == v && n == end && n <= buf@.len(),
            None => r is None,
        },
{
    let len = buf.len();
    let mut out: Vec<Parameter> = Vec::new();
    let mut pos: usize = off;
    loop
        invariant
            off <= pos <= len,
            len == buf@.len(),
            parameter_list_at(buf@, off as int, e) == match parameter_list_at(
                buf@,
                pos as int,
                e,
            ) {
                Some((rest, end)) => Some((parameters_view(out@) + rest, end)),
                None => None::<(Seq<ParameterView>, int)>,
            },
        decreases len - pos,
    {
        if len - pos < 4 {
            return None;
        }
        let pid = read_u16(buf, pos, e);
        let l = read_u16(buf, pos + 2, e) as usize;
        if pid == PID_SENTINEL {
            proof {
                assert(parameters_view(out@) + Seq::<ParameterView>::empty() =~= parameters_view(
                    out@,
                ));
            }
            return Some((ParameterList { parameters: out }, pos + 4));
        }
        if len - pos - 4 < l {
            return None;
        }
        let value = copy_range(buf, pos + 4, pos + 4 + l);
        let p = Parameter { parameter_id: pid, value };
        let ghost before = out@;
        out.push(p);
        proof {
            assert(parameters_view(out@) =~= parameters_view(before).push(p@));
            match parameter_list_at(buf@, pos + 4 + l, e) {
                Some((rest, end)) => {
                    assert(parameters_view(before) + (seq![p@] + rest) =~= parameters_view(out@)
                        + rest);
                },
                None => {},
            }
        }
        pos = pos + 4 + l;
    }
}

} // verus!
