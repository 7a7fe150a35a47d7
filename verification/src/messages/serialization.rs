use vstd::prelude::*;
use crate::messages::body::{
    body_at,
    body_bytes,
    body_exact,
    body_kind,
    body_writable,
    lemma_body_roundtrip,
    lemma_part,
    spec_known_kind,
};
use crate::messages::body_io::{read_body, write_body};
use crate::messages::header::{Header, header_at, header_bytes, lemma_header_roundtrip};
use crate::messages::parameter_list::{ParameterList, lemma_u16_embedded, parameters_writable};
use crate::messages::submessages::{
    InterpreterSubmessage,
    Message,
    MessageView,
    Submessage,
    SubmessageBody,
    SubmessageHeader,
    SubmessageView,
    WriterSubmessage,
    qos_view,
    submessages_view,
    SUBMESSAGE_KIND_ACKNACK,
    SUBMESSAGE_KIND_DATA,
    SUBMESSAGE_KIND_DATA_FRAG,
    SUBMESSAGE_KIND_GAP,
    SUBMESSAGE_KIND_HEARTBEAT,
    SUBMESSAGE_KIND_HEARTBEAT_FRAG,
    SUBMESSAGE_KIND_INFO_DST,
    SUBMESSAGE_KIND_INFO_REPLY,
    SUBMESSAGE_KIND_INFO_SRC,
    SUBMESSAGE_KIND_INFO_TS,
    SUBMESSAGE_KIND_NACK_FRAG,
    SUBMESSAGE_KIND_SEC_BODY,
    SUBMESSAGE_KIND_SEC_POSTFIX,
    SUBMESSAGE_KIND_SEC_PREFIX,
    SUBMESSAGE_KIND_SRTPS_POSTFIX,
    SUBMESSAGE_KIND_SRTPS_PREFIX,
};
use crate::messages::wire::{
    Endianness,
    endianness_of,
    put_u16,
    read_u16,
    spec_endianness_of,
    u16_at,
    u16_bytes,
    lemma_u16_roundtrip,
};

verus! {

/// One submessage on the wire: kind, flags, the length of the body in the
/// byte order that the flags announce, and the body.
pub open spec fn submessage_bytes(sv: SubmessageView) -> Seq<u8> {
    seq![sv.header.kind, sv.header.flags] + u16_bytes(
        sv.header.content_length,
        spec_endianness_of(sv.header.flags),
    ) + body_bytes(sv.body, sv.flags)
}

/// The submessages `subs` on the wire, one after the other.
pub open spec fn submessages_bytes(subs: Seq<SubmessageView>) -> Seq<u8>
    decreases subs.len(),
{
    if subs.len() == 0 {
        Seq::empty()
    } else {
        submessage_bytes(subs[0]) + submessages_bytes(subs.drop_first())
    }
}

/// A message on the wire: its header, then its submessages.
pub open spec fn message_bytes(m: MessageView) -> Seq<u8> {
    header_bytes(m.header) + submessages_bytes(m.submessages)
}

/// The submessages that `s` holds from `off` to its end. A submessage of a
/// kind that is not known is passed over. There is no result where a
/// submessage header is cut short, where a submessage claims to be longer
/// than what is left, or where a body is not of the form of its kind.
pub open spec fn submessages_at(s: Seq<u8>, off: int) -> Option<Seq<SubmessageView>>
    decreases s.len() - off,
{
    if off < 0 || off > s.len() {
        None
    } else if off == s.len() {
        Some(Seq::empty())
    } else if off + 4 > s.len() {
        None
    } else {
        let kind = s[off];
        let flags = s[off + 1];
        let l = u16_at(s, off + 2, spec_endianness_of(flags));
        if off + 4 + l > s.len() {
            None
        } else if !spec_known_kind(kind) {
            submessages_at(s, off + 4 + l)
        } else {
            match body_at(kind, flags, s.subrange(off + 4, off + 4 + l)) {
                None => None,
                Some(b) => match submessages_at(s, off + 4 + l) {
                    None => None,
                    Some(rest) => Some(
                        seq![
                            SubmessageView {
                                header: SubmessageHeader { kind, flags, content_length: l },
                                flags,
                                body: b,
                            },
                        ] + rest,
                    ),
                },
            }
        }
    }
}

/// The message that the datagram `s` holds; none where `s` is shorter than a
/// header, does not start with the protocol id, or where its submessages
/// cannot be read.
pub open spec fn message_at(s: Seq<u8>) -> Option<MessageView> {
    match header_at(s) {
        None => None,
        Some(h) => match submessages_at(s, 20) {
            None => None,
            Some(subs) => Some(MessageView { header: h, submessages: subs }),
        },
    }
}

/// The header of `sv` names the kind of its body, bears the flags of its
/// body and the length of its body, and the body agrees with the flags.
pub open spec fn submessage_exact(sv: SubmessageView) -> bool {
    &&& sv.header.kind == body_kind(sv.body)
    &&& sv.header.flags == sv.flags
    &&& sv.header.content_length == body_bytes(sv.body, sv.flags).len()
    &&& body_exact(sv.body, sv.flags)
}

/// Every submessage of `m` is exact: its header says what its body is, and
/// how long.
pub open spec fn message_exact(m: MessageView) -> bool {
    forall|i: int| 0 <= i < m.submessages.len() ==> submessage_exact(#[trigger] m.submessages[i])
}

/// Every submessage of `m` announces the byte order `e`.
pub open spec fn message_in(m: MessageView, e: Endianness) -> bool {
    forall|i: int|
        0 <= i < m.submessages.len() ==> spec_endianness_of(
            (#[trigger] m.submessages[i]).header.flags,
        ) == e
}

/// Every submessage of `m` has a body that can be written.
pub open spec fn message_writable(m: MessageView) -> bool {
    forall|i: int|
        0 <= i < m.submessages.len() ==> body_writable((#[trigger] m.submessages[i]).body)
}

/// Where `s` holds, from `off` to its end, a submessage header, a body of
/// the length that the header states, and more, each is found in its place.
proof fn lemma_frame(
    s: Seq<u8>,
    off: int,
    kind: u8,
    flags: u8,
    content_length: u16,
    bb: Seq<u8>,
    rb: Seq<u8>,
)
    requires
        0 <= off <= s.len(),
        content_length == bb.len(),
        s.subrange(off, s.len() as int) == seq![kind, flags] + u16_bytes(
            content_length,
            spec_endianness_of(flags),
        ) + bb + rb,
    ensures
        off + 4 + bb.len() + rb.len() == s.len(),
        s[off] == kind,
        s[off + 1] == flags,
        u16_at(s, off + 2, spec_endianness_of(flags)) == content_length,
        s.subrange(off + 4, off + 4 + bb.len()) == bb,
        s.subrange(off + 4 + bb.len(), s.len() as int) == rb,
{
    let e = spec_endianness_of(flags);
    let head = seq![kind, flags];
    let lb = u16_bytes(content_length, e);
    let t = s.subrange(off, s.len() as int);
    let l = bb.len() as int;
    lemma_u16_roundtrip(content_length, e);
    assert(t.len() == 4 + l + rb.len());
    assert(t[0] == kind && t[1] == flags);
    assert(s[off] == t[0] && s[off + 1] == t[1]);
    assert(s.subrange(off + 2, off + 4) =~= lb) by {
        assert(s.subrange(off + 2, off + 4) =~= t.subrange(2, 4));
        assert(t =~= head + lb + (bb + rb));
        lemma_part(head, lb, bb + rb);
    }
    lemma_u16_embedded(s, off + 2, content_length, e);
    assert(s.subrange(off + 4, off + 4 + l) =~= bb) by {
        assert(s.subrange(off + 4, off + 4 + l) =~= t.subrange(4, 4 + l));
        lemma_part(head + lb, bb, rb);
    }
    assert(s.subrange(off + 4 + l, s.len() as int) =~= rb) by {
        assert(s.subrange(off + 4 + l, s.len() as int) =~= t.subrange(4 + l, t.len() as int));
        assert(t =~= head + lb + bb + rb + Seq::<u8>::empty());
        lemma_part(head + lb + bb, rb, Seq::<u8>::empty());
    }
}

proof fn lemma_submessages_embedded(s: Seq<u8>, off: int, subs: Seq<SubmessageView>)
    requires
        0 <= off <= s.len(),
        forall|i: int| 0 <= i < subs.len() ==> submessage_exact(#[trigger] subs[i]),
        s.subrange(off, s.len() as int) == submessages_bytes(subs),
    ensures
        submessages_at(s, off) == Some(subs),
    decreases subs.len(),
{
    if subs.len() == 0 {
        assert(subs =~= Seq::<SubmessageView>::empty());
        assert(s.subrange(off, s.len() as int).len() == 0);
        assert(off == s.len());
    } else {
        let sv = subs[0];
        let rest = subs.drop_first();
        let bb = body_bytes(sv.body, sv.flags);
        let rb = submessages_bytes(rest);
        let l = bb.len() as int;
        assert(submessage_exact(sv));
        assert(submessages_bytes(subs) == submessage_bytes(sv) + rb);
        lemma_frame(s, off, sv.header.kind, sv.header.flags, sv.header.content_length, bb, rb);
        lemma_body_roundtrip(sv.body, sv.flags);
        assert(spec_known_kind(s[off]));
        assert(u16_at(s, off + 2, spec_endianness_of(s[off + 1])) == l);
        assert(body_at(s[off], s[off + 1], s.subrange(off + 4, off + 4 + l)) == Some(sv.body));
        assert(SubmessageView {
            header: SubmessageHeader { kind: s[off], flags: s[off + 1], content_length: l as u16 },
            flags: s[off + 1],
            body: sv.body,
        } == sv);
        assert forall|i: int| 0 <= i < rest.len() implies submessage_exact(
            #[trigger] rest[i],
        ) by {
            assert(rest[i] == subs[i + 1]);
        }
        lemma_submessages_embedded(s, off + 4 + l, rest);
        assert(seq![sv] + rest =~= subs);
    }
}

/// A message whose submessages are exact reads back, from the bytes it was
/// written to, as it was: whatever byte order each submessage announces.
pub proof fn lemma_message_roundtrip(m: MessageView)
    requires
        message_exact(m),
    ensures
        message_at(message_bytes(m)) == Some(m),
{
    let s = message_bytes(m);
    let rb = submessages_bytes(m.submessages);
    lemma_header_roundtrip(m.header, rb);
    assert(s.subrange(20, s.len() as int) =~= rb);
    lemma_submessages_embedded(s, 20, m.submessages);
}

/// The same for a message written throughout in one byte order, be it
/// little-endian or big-endian.
pub proof fn lemma_message_roundtrip_in(m: MessageView, e: Endianness)
    requires
        message_exact(m),
        message_in(m, e),
    ensures
        message_at(message_bytes(m)) == Some(m),
        message_in(message_at(message_bytes(m)).unwrap(), e),
{
    lemma_message_roundtrip(m);
}

fn qos_is_writable(q: &Option<ParameterList>) -> (r: bool)
    ensures
        r == match qos_view(*q) {
            Some(ps) => parameters_writable(ps),
            None => true,
        },
{
    match q {
        None => true,
        Some(list) => {
            let mut i: usize = 0;
            while i < list.parameters.len()
                invariant
                    i <= list.parameters.len(),
                    qos_view(*q) == Some(list@),
                    forall|j: int| 0 <= j < i ==> (#[trigger] list@[j]).value.len() <= 0xFFFC,
                decreases list.parameters.len() - i,
            {
                assert(list@[i as int] == list.parameters@[i as int]@);
                if list.parameters[i].value.len() > 0xFFFC {
                    assert(list@[i as int].value.len() > 0xFFFC);
                    return false;
                }
                i += 1;
            }
            true
        },
    }
}

/// Whether the lengths in `body` fit the fields that carry them.
pub fn is_writable(body: &SubmessageBody) -> (r: bool)
    ensures
        r == body_writable(body.body()),
{
    match body {
        SubmessageBody::Interpreter(InterpreterSubmessage::InfoReply(x, _)) => {
            let u = x.unicast_locator_list.len() <= 0xFFFF_FFFF;
            let m = match &x.multicast_locator_list {
                Some(l) => l.len() <= 0xFFFF_FFFF,
                None => true,
            };
            u && m
        },
        SubmessageBody::Writer(WriterSubmessage::Data(x, _)) => qos_is_writable(&x.inline_qos),
        SubmessageBody::Writer(WriterSubmessage::DataFrag(x, _)) => qos_is_writable(
            &x.inline_qos,
        ),
        _ => true,
    }
}

/// The number of bytes of `body` on the wire.
pub fn body_len(body: &SubmessageBody) -> (r: usize)
    requires
        body_writable(body.body()),
    ensures
        r == body_bytes(body.body(), body.flags()).len(),
{
    let mut buf: Vec<u8> = Vec::new();
    write_body(&mut buf, body);
    assert(buf@ =~= body_bytes(body.body(), body.flags()));
    buf.len()
}

/// Whether `kind` is the kind octet of a submessage this crate reads.
pub fn known_kind(kind: u8) -> (r: bool)
    ensures
        r == spec_known_kind(kind),
{
    kind == SUBMESSAGE_KIND_INFO_TS || kind == SUBMESSAGE_KIND_INFO_SRC || kind
        == SUBMESSAGE_KIND_INFO_REPLY || kind == SUBMESSAGE_KIND_INFO_DST || kind
        == SUBMESSAGE_KIND_DATA || kind == SUBMESSAGE_KIND_DATA_FRAG || kind
        == SUBMESSAGE_KIND_GAP || kind == SUBMESSAGE_KIND_HEARTBEAT || kind
        == SUBMESSAGE_KIND_HEARTBEAT_FRAG || kind == SUBMESSAGE_KIND_ACKNACK || kind
        == SUBMESSAGE_KIND_NACK_FRAG || kind == SUBMESSAGE_KIND_SEC_BODY || kind
        == SUBMESSAGE_KIND_SEC_PREFIX || kind == SUBMESSAGE_KIND_SEC_POSTFIX || kind
        == SUBMESSAGE_KIND_SRTPS_PREFIX || kind == SUBMESSAGE_KIND_SRTPS_POSTFIX
}

impl Submessage {
    /// Appends the submessage: its header as it stands, then its body.
    pub fn write_to(&self, buf: &mut Vec<u8>)
        requires
            body_writable(self@.body),
        ensures
            final(buf)@ == old(buf)@ + submessage_bytes(self@),
    {
        buf.push(self.header.kind);
        buf.push(self.header.flags);
        put_u16(buf, self.header.content_length, endianness_of(self.header.flags));
        write_body(buf, &self.body);
        assert(buf@ =~= old(buf)@ + submessage_bytes(self@));
    }
}

impl Message {
    /// The bytes of the message in byte order `endianness`. There are none
    /// where a submessage announces another byte order, or where a length in
    /// the message does not fit the field that carries it.
    pub fn write_to_vec_with_ctx(&self, endianness: Endianness) -> (r: Option<Vec<u8>>)
        ensures
            r is Some <==> message_writable(self@) && message_in(self@, endianness),
            r matches Some(bytes) ==> bytes@ == message_bytes(self@),
    {
        let mut buf: Vec<u8> = Vec::new();
        self.header.write_to(&mut buf);
        assert(buf@ =~= header_bytes(self.header));
        let mut i: usize = 0;
        assert(self@.submessages.subrange(0, self@.submessages.len() as int)
            =~= self@.submessages);
        while i < self.submessages.len()
            invariant
                i <= self.submessages.len(),
                self@.submessages.len() == self.submessages.len(),
                forall|j: int|
                    0 <= j < i ==> body_writable((#[trigger] self@.submessages[j]).body)
                        && spec_endianness_of(self@.submessages[j].header.flags) == endianness,
                message_bytes(self@) == buf@ + submessages_bytes(
                    self@.submessages.subrange(i as int, self@.submessages.len() as int),
                ),
            decreases self.submessages.len() - i,
        {
            let ghost cur = self@.submessages.subrange(i as int, self@.submessages.len() as int);
            let ghost before = buf@;
            assert(cur[0] == self@.submessages[i as int]);
            assert(self@.submessages[i as int] == self.submessages@[i as int]@);
            assert(cur.drop_first() =~= self@.submessages.subrange(
                i + 1,
                self@.submessages.len() as int,
            ));
            let sub = &self.submessages[i];
            if !is_writable(&sub.body) {
                return None;
            }
            match (endianness_of(sub.header.flags), endianness) {
                (Endianness::LittleEndian, Endianness::LittleEndian) => {},
                (Endianness::BigEndian, Endianness::BigEndian) => {},
                _ => {
                    return None;
                },
            }
            sub.write_to(&mut buf);
            assert(buf@ + submessages_bytes(
                self@.submessages.subrange(i + 1, self@.submessages.len() as int),
            ) =~= before + submessages_bytes(cur));
            i += 1;
        }
        proof {
            assert(self@.submessages.subrange(
                self@.submessages.len() as int,
                self@.submessages.len() as int,
            ) =~= Seq::<SubmessageView>::empty());
            assert(buf@ =~= message_bytes(self@));
        }
        Some(buf)
    }

    /// Reads the message that the datagram `buf` holds.
    pub fn read_from_buffer(buf: &[u8]) -> (r: Option<Message>)
        ensures
            match message_at(buf@) {
                Some(v) => r matches Some(m) && m@ == v,
                None => r is None,
            },
    {
        let header = match Header::read_from_buffer(buf) {
            Some(h) => h,
            None => {
                return None;
            },
        };
        let len = buf.len();
        let mut subs: Vec<Submessage> = Vec::new();
        let mut pos: usize = 20;
        while pos < len
            invariant
                20 <= pos <= len,
                len == buf@.len(),
                submessages_at(buf@, 20) == match submessages_at(buf@, pos as int) {
                    Some(rest) => Some(submessages_view(subs@) + rest),
                    None => None::<Seq<SubmessageView>>,
                },
            decreases len - pos,
        {
            if len - pos < 4 {
                return None;
            }
            let kind = buf[pos];
            let flags = buf[pos + 1];
            let l = read_u16(buf, pos + 2, endianness_of(flags)) as usize;
            if len - pos - 4 < l {
                return None;
            }
            if known_kind(kind) {
                let body_slice = vstd::slice::slice_subrange(buf, pos + 4, pos + 4 + l);
                match read_body(kind, flags, body_slice) {
                    None => {
                        return None;
                    },
                    Some(body) => {
                        let sub = Submessage {
                            header: SubmessageHeader { kind, flags, content_length: l as u16 },
                            body,
                        };
                        let ghost before = subs@;
                        subs.push(sub);
                        proof {
                            assert(submessages_view(subs@) =~= submessages_view(before).push(
                                sub@,
                            ));
                            match submessages_at(buf@, pos + 4 + l) {
                                Some(rest) => {
                                    assert(submessages_view(before) + (seq![sub@] + rest)
                                        =~= submessages_view(subs@) + rest);
                                },
                                None => {},
                            }
                        }
                    },
                }
            }
            pos = pos + 4 + l;
        }
        proof {
            assert(submessages_view(subs@) + Seq::<SubmessageView>::empty() =~= submessages_view(
                subs@,
            ));
        }
        Some(Message { header, submessages: subs })
    }
}

} // verus!
