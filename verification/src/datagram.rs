use vstd::prelude::*;
use vstd::utf8::{decode_utf8, valid_utf8};

use crate::class::{spec_class_from_u16, spec_class_to_u16, Class};
use crate::data::{AData, AaaaData, CnameData, Data, MxData, NsData, SpecData, TxtData};
use crate::ip::{ipv6_segments, Ipv4Address, Ipv6Address};
use crate::label::{label_wf, lower_chars, spec_label_ok, Label};
use crate::message::{
    spec_opcode_from_u8, spec_opcode_to_u8, spec_response_code_from_u8, spec_response_code_to_u8,
    Message, OpCode, ResponseCode, SpecMessage,
};
use crate::name::{name_wf, spec_create, Name};
use crate::query_class::{spec_query_class_from_u16, spec_query_class_to_u16, QueryClass};
use crate::query_type::{spec_query_type_from_u16, spec_query_type_to_u16, QueryType};
use crate::question::{Question, SpecQuestion};
use crate::record::{Record, SpecRecord};
use crate::record_type::{spec_record_type_from_u16, spec_record_type_to_u16, RecordType};

verus! {

/// Messages carried by UDP are restricted to 512 bytes.
pub const UDP_LENGTH_LIMIT: usize = 512;

/// How many compression pointers one name may chase before the datagram is
/// rejected; together with the strictly-backward check this breaks pointer
/// cycles.
pub const MAX_POINTER_JUMPS: usize = 255;

// ---------------------------------------------------------------------
// What each wire form denotes: decoding as a function of the bytes.
// ---------------------------------------------------------------------
/// One byte at `pos`, and the next position.
pub open spec fn dec_u8(s: Seq<u8>, pos: int) -> Option<(u8, int)> {
    if 0 <= pos < s.len() {
        Some((s[pos], pos + 1))
    } else {
        None
    }
}

/// A 16-bit integer in network byte order.
pub open spec fn dec_u16(s: Seq<u8>, pos: int) -> Option<(u16, int)> {
    if 0 <= pos && pos + 2 <= s.len() {
        Some(((s[pos] as u16 * 256 + s[pos + 1] as u16) as u16, pos + 2))
    } else {
        None
    }
}

/// A 32-bit integer in network byte order.
pub open spec fn dec_u32(s: Seq<u8>, pos: int) -> Option<(u32, int)> {
    if 0 <= pos && pos + 4 <= s.len() {
        Some(
            (
                (s[pos] as u32 * 0x1000000 + s[pos + 1] as u32 * 0x10000 + s[pos + 2] as u32 * 0x100
                    + s[pos + 3] as u32) as u32,
                pos + 4,
            ),
        )
    } else {
        None
    }
}

/// One label: a length octet and that many octets, which must read as ASCII
/// text in the accepted label syntax; the result is folded to lowercase.
pub open spec fn dec_label(s: Seq<u8>, pos: int) -> Option<(Seq<char>, int)> {
    match dec_u8(s, pos) {
        None => None,
        Some((len_byte, p1)) => {
            if len_byte == 0 {
                Some((Seq::empty(), p1))
            } else if p1 + len_byte <= s.len() {
                let bytes = s.subrange(p1, p1 + len_byte);
                let chars = crate::ascii::chars_of_ascii(bytes);
                if crate::ascii::all_ascii(bytes) && spec_label_ok(chars) {
                    Some((lower_chars(chars), p1 + len_byte))
                } else {
                    None
                }
            } else {
                None
            }
        },
    }
}

/// A name: labels to a null octet, or a strictly backward compression
/// pointer (top bits 11); top bits 01 and 10 are reserved and rejected, and
/// at most `fuel` pointers are chased.
pub open spec fn dec_name(s: Seq<u8>, pos: int, fuel: nat) -> Option<(Seq<Seq<char>>, int)>
    decreases fuel, s.len() - pos,
{
    if !(0 <= pos < s.len()) {
        None
    } else {
        let flag = s[pos] & 0xc0;
        if flag == 0x80 || flag == 0x40 {
            None
        } else if flag == 0xc0 {
            if pos + 2 <= s.len() {
                let offset = (s[pos] & 0x3f) as int * 256 + s[pos + 1] as int;
                if offset >= pos || fuel == 0 {
                    None
                } else {
                    match dec_name(s, offset, (fuel - 1) as nat) {
                        None => None,
                        Some((name, _)) => Some((name, pos + 2)),
                    }
                }
            } else {
                None
            }
        } else {
            match dec_label(s, pos) {
                None => None,
                Some((label, p1)) => {
                    if label.len() == 0 {
                        Some((Seq::empty(), p1))
                    } else if p1 <= pos {
                        None
                    } else {
                        match dec_name(s, p1, fuel) {
                            None => None,
                            Some((rest, p2)) => {
                                let labels = seq![label].add(rest);
                                if spec_create(labels) is Ok {
                                    Some((labels, p2))
                                } else {
                                    None
                                }
                            },
                        }
                    }
                },
            }
        }
    }
}

/// A question: a name, a query type and a query class.
pub open spec fn dec_question(s: Seq<u8>, pos: int) -> Option<(SpecQuestion, int)> {
    match dec_name(s, pos, MAX_POINTER_JUMPS as nat) {
        None => None,
        Some((name, p1)) => match dec_u16(s, p1) {
            None => None,
            Some((qt, p2)) => match dec_u16(s, p2) {
                None => None,
                Some((qc, p3)) => Some(
                    (
                        SpecQuestion {
                            name,
                            query_type: spec_query_type_from_u16(qt),
                            query_class: spec_query_class_from_u16(qc),
                        },
                        p3,
                    ),
                ),
            },
        },
    }
}

/// Record data of one type: addresses as raw octets, names with possible
/// compression, text and unknown data as `rdlength` octets.
pub open spec fn dec_rdata(s: Seq<u8>, pos: int, t: RecordType, rdlength: u16) -> Option<
    (SpecData, int),
> {
    match t {
        RecordType::A => {
            if 0 <= pos && pos + 4 <= s.len() {
                Some(
                    (
                        SpecData::A(
                            Ipv4Address {
                                o0: s[pos],
                                o1: s[pos + 1],
                                o2: s[pos + 2],
                                o3: s[pos + 3],
                            },
                        ),
                        pos + 4,
                    ),
                )
            } else {
                None
            }
        },
        RecordType::Ns => match dec_name(s, pos, MAX_POINTER_JUMPS as nat) {
            None => None,
            Some((n, p)) => Some((SpecData::Ns(n), p)),
        },
        RecordType::Cname => match dec_name(s, pos, MAX_POINTER_JUMPS as nat) {
            None => None,
            Some((n, p)) => Some((SpecData::Cname(n), p)),
        },
        RecordType::Aaaa => {
            if 0 <= pos && pos + 16 <= s.len() {
                Some(
                    (
                        SpecData::Aaaa(
                            Ipv6Address {
                                s0: (s[pos] as u16 * 256 + s[pos + 1] as u16) as u16,
                                s1: (s[pos + 2] as u16 * 256 + s[pos + 3] as u16) as u16,
                                s2: (s[pos + 4] as u16 * 256 + s[pos + 5] as u16) as u16,
                                s3: (s[pos + 6] as u16 * 256 + s[pos + 7] as u16) as u16,
                                s4: (s[pos + 8] as u16 * 256 + s[pos + 9] as u16) as u16,
                                s5: (s[pos + 10] as u16 * 256 + s[pos + 11] as u16) as u16,
                                s6: (s[pos + 12] as u16 * 256 + s[pos + 13] as u16) as u16,
                                s7: (s[pos + 14] as u16 * 256 + s[pos + 15] as u16) as u16,
                            },
                        ),
                        pos + 16,
                    ),
                )
            } else {
                None
            }
        },
        RecordType::Mx => match dec_u16(s, pos) {
            None => None,
            Some((pref, p1)) => match dec_name(s, p1, MAX_POINTER_JUMPS as nat) {
                None => None,
                Some((n, p2)) => Some(
                    (
                        SpecData::Mx(crate::data::MxDataV { preference: pref, exchange: n }),
                        p2,
                    ),
                ),
            },
        },
        RecordType::Txt => {
            if 0 <= pos && pos + rdlength <= s.len() {
                let bytes = s.subrange(pos, pos + rdlength);
                if valid_utf8(bytes) {
                    Some((SpecData::Txt(decode_utf8(bytes)), pos + rdlength))
                } else {
                    None
                }
            } else {
                None
            }
        },
        RecordType::Unknown(code) => {
            if 0 <= pos && pos + rdlength <= s.len() {
                Some(
                    (
                        SpecData::Unknown(RecordType::Unknown(code), s.subrange(pos, pos + rdlength)),
                        pos + rdlength,
                    ),
                )
            } else {
                None
            }
        },
    }
}

/// A record: name, type, class, TTL, data length, data.
pub open spec fn dec_record(s: Seq<u8>, pos: int) -> Option<(SpecRecord, int)> {
    match dec_name(s, pos, MAX_POINTER_JUMPS as nat) {
        None => None,
        Some((name, p1)) => match dec_u16(s, p1) {
            None => None,
            Some((tv, p2)) => match dec_u16(s, p2) {
                None => None,
                Some((cv, p3)) => match dec_u32(s, p3) {
                    None => None,
                    Some((ttl, p4)) => match dec_u16(s, p4) {
                        None => None,
                        Some((rdlength, p5)) => match dec_rdata(
                            s,
                            p5,
                            spec_record_type_from_u16(tv),
                            rdlength,
                        ) {
                            None => None,
                            Some((data, p6)) => Some(
                                (
                                    SpecRecord {
                                        name,
                                        class: spec_class_from_u16(cv),
                                        ttl,
                                        data,
                                    },
                                    p6,
                                ),
                            ),
                        },
                    },
                },
            },
        },
    }
}

/// `count` questions in a row.
pub open spec fn dec_questions(s: Seq<u8>, pos: int, count: int) -> Option<
    (Seq<SpecQuestion>, int),
>
    decreases count,
{
    if count <= 0 {
        Some((Seq::empty(), pos))
    } else {
        match dec_question(s, pos) {
            None => None,
            Some((q, p1)) => match dec_questions(s, p1, count - 1) {
                None => None,
                Some((rest, p2)) => Some((seq![q].add(rest), p2)),
            },
        }
    }
}

/// `count` records in a row.
pub open spec fn dec_records(s: Seq<u8>, pos: int, count: int) -> Option<(Seq<SpecRecord>, int)>
    decreases count,
{
    if count <= 0 {
        Some((Seq::empty(), pos))
    } else {
        match dec_record(s, pos) {
            None => None,
            Some((r, p1)) => match dec_records(s, p1, count - 1) {
                None => None,
                Some((rest, p2)) => Some((seq![r].add(rest), p2)),
            },
        }
    }
}

/// A whole message: the 12-octet header, then the four sections; trailing
/// bytes are ignored.
pub open spec fn dec_message(s: Seq<u8>) -> Option<SpecMessage> {
    if s.len() < 12 {
        None
    } else {
        let id = (s[0] as u16 * 256 + s[1] as u16) as u16;
        let byte2 = s[2];
        let byte3 = s[3];
        let qd = s[4] as int * 256 + s[5] as int;
        let an = s[6] as int * 256 + s[7] as int;
        let ns = s[8] as int * 256 + s[9] as int;
        let ar = s[10] as int * 256 + s[11] as int;
        match dec_questions(s, 12, qd) {
            None => None,
            Some((questions, p1)) => match dec_records(s, p1, an) {
                None => None,
                Some((answers, p2)) => match dec_records(s, p2, ns) {
                    None => None,
                    Some((authorities, p3)) => match dec_records(s, p3, ar) {
                        None => None,
                        Some((additional, _)) => Some(
                            SpecMessage {
                                id,
                                is_response: byte2 & 0x80 != 0,
                                opcode: spec_opcode_from_u8((byte2 & 0x78) / 8),
                                is_authoritative_answer: byte2 & 0x04 != 0,
                                is_truncation: byte2 & 0x02 != 0,
                                recursion_desired: byte2 & 0x01 != 0,
                                recursion_available: byte3 & 0x80 != 0,
                                response_code: spec_response_code_from_u8(byte3 & 0x0f),
                                questions,
                                answers,
                                authorities,
                                additional,
                            },
                        ),
                    },
                },
            },
        }
    }
}

// ---------------------------------------------------------------------
// What the encoder emits, without compression pointers.
// ---------------------------------------------------------------------
pub open spec fn enc_u16(v: u16) -> Seq<u8> {
    seq![(v / 256) as u8, (v % 256) as u8]
}

pub open spec fn enc_u32(v: u32) -> Seq<u8> {
    seq![
        (v / 0x1000000) as u8,
        ((v / 0x10000) % 256) as u8,
        ((v / 0x100) % 256) as u8,
        (v % 256) as u8,
    ]
}

/// A label: its length octet and its octets.
pub open spec fn enc_label(l: Seq<char>) -> Seq<u8> {
    seq![l.len() as u8].add(l.map_values(|c: char| c as u8))
}

/// A name: each label in order, closed by the null octet.
pub open spec fn enc_name(n: Seq<Seq<char>>) -> Seq<u8>
    decreases n.len(),
{
    if n.len() == 0 {
        seq![0u8]
    } else {
        enc_label(n[0]).add(enc_name(n.drop_first()))
    }
}

pub open spec fn enc_question(q: SpecQuestion) -> Seq<u8> {
    enc_name(q.name).add(enc_u16(spec_query_type_to_u16(q.query_type))).add(
        enc_u16(spec_query_class_to_u16(q.query_class)),
    )
}

pub open spec fn enc_data(d: SpecData) -> Seq<u8> {
    match d {
        SpecData::A(a) => seq![a.o0, a.o1, a.o2, a.o3],
        SpecData::Ns(n) => enc_name(n),
        SpecData::Cname(n) => enc_name(n),
        SpecData::Aaaa(a) => enc_u16(a.s0) + enc_u16(a.s1) + enc_u16(a.s2) + enc_u16(a.s3)
            + enc_u16(a.s4) + enc_u16(a.s5) + enc_u16(a.s6) + enc_u16(a.s7),
        SpecData::Mx(m) => enc_u16(m.preference).add(enc_name(m.exchange)),
        SpecData::Txt(t) => vstd::utf8::encode_utf8(t),
        SpecData::Unknown(_, bytes) => bytes,
    }
}

pub open spec fn enc_record(r: SpecRecord) -> Seq<u8> {
    enc_name(r.name).add(
        enc_u16(spec_record_type_to_u16(crate::data::spec_data_record_type(r.data))),
    ).add(enc_u16(spec_class_to_u16(r.class))).add(enc_u32(r.ttl)).add(
        enc_u16(enc_data(r.data).len() as u16),
    ).add(enc_data(r.data))
}

pub open spec fn enc_questions(qs: Seq<SpecQuestion>) -> Seq<u8>
    decreases qs.len(),
{
    if qs.len() == 0 {
        Seq::empty()
    } else {
        enc_questions(qs.drop_last()).add(enc_question(qs.last()))
    }
}

pub open spec fn enc_records(rs: Seq<SpecRecord>) -> Seq<u8>
    decreases rs.len(),
{
    if rs.len() == 0 {
        Seq::empty()
    } else {
        enc_records(rs.drop_last()).add(enc_record(rs.last()))
    }
}

/// The first header flag byte.
pub open spec fn enc_byte2(m: SpecMessage) -> u8 {
    (((if m.is_response {
        0x80u8
    } else {
        0u8
    }) as u8) | ((spec_opcode_to_u8(m.opcode) * 8) as u8) | ((if m.is_authoritative_answer {
        0x04u8
    } else {
        0u8
    }) as u8) | ((if m.is_truncation {
        0x02u8
    } else {
        0u8
    }) as u8) | ((if m.recursion_desired {
        0x01u8
    } else {
        0u8
    }) as u8)) as u8
}

/// The second header flag byte.
pub open spec fn enc_byte3(m: SpecMessage) -> u8 {
    (((if m.recursion_available {
        0x80u8
    } else {
        0u8
    }) as u8) | spec_response_code_to_u8(m.response_code)) as u8
}

/// A whole message, with the section counts in the header.
pub open spec fn enc_message(m: SpecMessage) -> Seq<u8> {
    enc_u16(m.id).add(seq![enc_byte2(m), enc_byte3(m)]).add(
        enc_u16(m.questions.len() as u16),
    ).add(enc_u16(m.answers.len() as u16)).add(enc_u16(m.authorities.len() as u16)).add(
        enc_u16(m.additional.len() as u16),
    ).add(enc_questions(m.questions)).add(enc_records(m.answers)).add(
        enc_records(m.authorities),
    ).add(enc_records(m.additional))
}

/// Relies on `String::from_utf8`: it yields the decoded characters exactly
/// when the bytes are valid UTF-8.
#[verifier::external_body]
fn utf8_to_string(bytes: Vec<u8>) -> (r: Option<String>)
    ensures
        match r {
            Some(s) => valid_utf8(bytes@) && s@ == decode_utf8(bytes@),
            None => !valid_utf8(bytes@),
        },
{
    match String::from_utf8(bytes) {
        Ok(s) => Some(s),
        Err(_) => None,
    }
}

// ---------------------------------------------------------------------
// The codec round trip: decoding what the encoder emitted gives the
// message back.
// ---------------------------------------------------------------------
/// The message forms whose wire image decodes back to themselves: every
/// name well-formed, every enum field carrying its canonical code, data
/// lengths within the 16-bit length field, and section counts within the
/// 16-bit count fields.
pub open spec fn data_wf(d: SpecData) -> bool {
    match d {
        SpecData::A(_) => true,
        SpecData::Aaaa(_) => true,
        SpecData::Ns(n) => name_wf(n),
        SpecData::Cname(n) => name_wf(n),
        SpecData::Mx(m) => name_wf(m.exchange),
        SpecData::Txt(t) => vstd::utf8::encode_utf8(t).len() <= 0xffff,
        SpecData::Unknown(t, bytes) => bytes.len() <= 0xffff && (t matches RecordType::Unknown(_))
            && spec_record_type_from_u16(spec_record_type_to_u16(t)) == t,
    }
}

pub open spec fn record_wf(r: SpecRecord) -> bool {
    &&& name_wf(r.name)
    &&& spec_class_from_u16(spec_class_to_u16(r.class)) == r.class
    &&& data_wf(r.data)
}

pub open spec fn question_wf(q: SpecQuestion) -> bool {
    &&& name_wf(q.name)
    &&& spec_query_type_from_u16(spec_query_type_to_u16(q.query_type)) == q.query_type
    &&& spec_query_class_from_u16(spec_query_class_to_u16(q.query_class)) == q.query_class
}

pub open spec fn message_wf(m: SpecMessage) -> bool {
    &&& spec_opcode_to_u8(m.opcode) < 16 && spec_opcode_from_u8(spec_opcode_to_u8(m.opcode))
        == m.opcode
    &&& spec_response_code_to_u8(m.response_code) < 16 && spec_response_code_from_u8(
        spec_response_code_to_u8(m.response_code),
    ) == m.response_code
    &&& m.questions.len() <= 0xffff && m.answers.len() <= 0xffff && m.authorities.len() <= 0xffff
        && m.additional.len() <= 0xffff
    &&& forall|i: int| 0 <= i < m.questions.len() ==> question_wf(#[trigger] m.questions[i])
    &&& forall|i: int| 0 <= i < m.answers.len() ==> record_wf(#[trigger] m.answers[i])
    &&& forall|i: int| 0 <= i < m.authorities.len() ==> record_wf(#[trigger] m.authorities[i])
    &&& forall|i: int| 0 <= i < m.additional.len() ==> record_wf(#[trigger] m.additional[i])
}

/// Splits knowledge of a concatenation at `pos` into its two parts.
proof fn lemma_carve(s: Seq<u8>, pos: int, a: Seq<u8>, b: Seq<u8>)
    requires
        0 <= pos,
        pos + a.len() + b.len() <= s.len(),
        s.subrange(pos, pos + a.len() + b.len()) == a.add(b),
    ensures
        s.subrange(pos, pos + a.len()) == a,
        s.subrange(pos + a.len(), pos + a.len() + b.len()) == b,
{
    assert(s.subrange(pos, pos + a.len()) =~= a) by {
        assert forall|k: int| 0 <= k < a.len() implies s.subrange(pos, pos + a.len())[k]
            == a[k] by {
            assert(s.subrange(pos, pos + a.len() + b.len())[k] == a.add(b)[k]);
        }
    }
    assert(s.subrange(pos + a.len(), pos + a.len() + b.len()) =~= b) by {
        assert forall|k: int|
            0 <= k < b.len() implies s.subrange(pos + a.len(), pos + a.len() + b.len())[k]
            == b[k] by {
            assert(s.subrange(pos, pos + a.len() + b.len())[a.len() + k] == a.add(b)[a.len() + k]);
            assert(s.subrange(pos, pos + a.len() + b.len())[a.len() + k] == s[pos + a.len() + k]);
            assert(a.add(b)[a.len() + k] == b[k]);
            assert(s.subrange(pos + a.len(), pos + a.len() + b.len())[k] == s[pos + a.len() + k]);
        }
    }
}

/// One encoded label reads back as itself.
proof fn lemma_dec_label_enc(s: Seq<u8>, pos: int, l: Seq<char>)
    requires
        label_wf(l),
        l.len() > 0,
        0 <= pos,
        pos + enc_label(l).len() <= s.len(),
        s.subrange(pos, pos + enc_label(l).len()) == enc_label(l),
    ensures
        dec_label(s, pos) == Some((l, pos + 1 + l.len())),
{
    let bytes = l.map_values(|c: char| c as u8);
    assert(s[pos] == l.len() as u8) by {
        assert(s.subrange(pos, pos + enc_label(l).len())[0] == enc_label(l)[0]);
    }
    assert(s.subrange(pos + 1, pos + 1 + l.len()) =~= bytes) by {
        assert forall|k: int| 0 <= k < l.len() implies s.subrange(pos + 1, pos + 1 + l.len())[k]
            == bytes[k] by {
            assert(s.subrange(pos, pos + enc_label(l).len())[1 + k] == enc_label(l)[1 + k]);
        }
    }
    assert(crate::ascii::all_ascii(bytes)) by {
        assert forall|k: int| 0 <= k < bytes.len() implies bytes[k] < 128 by {
            assert(crate::label::is_lower_letter(l[k]) || crate::label::is_digit(l[k]) || l[k]
                == '-');
        }
    }
    let chars = crate::ascii::chars_of_ascii(bytes);
    assert(chars =~= l) by {
        assert forall|k: int| 0 <= k < l.len() implies chars[k] == l[k] by {
            assert(crate::label::is_lower_letter(l[k]) || crate::label::is_digit(l[k]) || l[k]
                == '-');
            assert(bytes[k] == l[k] as u8);
        }
    }
    assert(crate::label::label_text_accepted(l)) by {
        assert(crate::label::is_lower_letter(l[0]) || crate::label::is_digit(l[0]) || l[0] == '-');
        assert(crate::label::is_lower_letter(l[l.len() - 1]) || crate::label::is_digit(
            l[l.len() - 1],
        ) || l[l.len() - 1] == '-');
        assert forall|k: int| 0 <= k < l.len() implies crate::label::is_label_char(
            #[trigger] l[k],
        ) by {
            assert(crate::label::is_lower_letter(l[k]) || crate::label::is_digit(l[k]) || l[k]
                == '-');
        }
    }
    assert(spec_label_ok(l));
    assert(lower_chars(l) =~= l) by {
        assert forall|k: int| 0 <= k < l.len() implies lower_chars(l)[k] == l[k] by {
            assert(crate::label::is_lower_letter(l[k]) || crate::label::is_digit(l[k]) || l[k]
                == '-');
        }
    }
}

/// One encoded name reads back as itself, whatever the fuel.
proof fn lemma_dec_name_enc(s: Seq<u8>, pos: int, n: Seq<Seq<char>>, fuel: nat)
    requires
        name_wf(n),
        0 <= pos,
        pos + enc_name(n).len() <= s.len(),
        s.subrange(pos, pos + enc_name(n).len()) == enc_name(n),
    ensures
        dec_name(s, pos, fuel) == Some((n, pos + enc_name(n).len())),
    decreases n.len(),
{
    if n.len() == 0 {
        assert(s[pos] == 0) by {
            assert(s.subrange(pos, pos + 1)[0] == enc_name(n)[0]);
        }
        let b0 = s[pos];
        assert(b0 & 0xc0 == 0) by (bit_vector)
            requires
                b0 == 0,
        ;
    } else {
        let l = n[0];
        let rest = n.drop_first();
        assert(name_wf(rest)) by {
            assert(forall|i: int|
                0 <= i < rest.len() ==> label_wf(#[trigger] rest[i]) && rest[i].len() > 0);
            crate::name::lemma_wire_len_skip(n, 1);
            assert(rest =~~= n.skip(1));
        }
        assert(enc_name(n) == enc_label(l).add(enc_name(rest)));
        lemma_carve(s, pos, enc_label(l), enc_name(rest));
        assert(label_wf(l) && l.len() > 0);
        assert(l.len() <= 63);
        assert(s[pos] == l.len() as u8) by {
            assert(s.subrange(pos, pos + enc_label(l).len())[0] == enc_label(l)[0]);
        }
        let b0 = s[pos];
        assert(b0 & 0xc0 == 0) by (bit_vector)
            requires
                b0 < 64,
        ;
        lemma_dec_label_enc(s, pos, l);
        let p1 = pos + 1 + l.len();
        lemma_dec_name_enc(s, p1, rest, fuel);
        assert(spec_create(n) is Ok) by {
            assert(!(exists|i: int| 0 <= i < n.len() && n[i].len() == 0));
        }
        assert(seq![l].add(rest) =~~= n);
    }
}

/// One encoded 16-bit integer reads back as itself.
proof fn lemma_dec_u16_enc(s: Seq<u8>, pos: int, v: u16)
    requires
        0 <= pos,
        pos + 2 <= s.len(),
        s.subrange(pos, pos + 2) == enc_u16(v),
    ensures
        dec_u16(s, pos) == Some((v, pos + 2)),
{
    assert(s[pos] == (v / 256) as u8 && s[pos + 1] == (v % 256) as u8) by {
        assert(s.subrange(pos, pos + 2)[0] == enc_u16(v)[0]);
        assert(s.subrange(pos, pos + 2)[1] == enc_u16(v)[1]);
    }
}

/// One encoded 32-bit integer reads back as itself.
proof fn lemma_dec_u32_enc(s: Seq<u8>, pos: int, v: u32)
    requires
        0 <= pos,
        pos + 4 <= s.len(),
        s.subrange(pos, pos + 4) == enc_u32(v),
    ensures
        dec_u32(s, pos) == Some((v, pos + 4)),
{
    assert(s[pos] == (v / 0x1000000) as u8 && s[pos + 1] == ((v / 0x10000) % 256) as u8 && s[pos
        + 2] == ((v / 0x100) % 256) as u8 && s[pos + 3] == (v % 256) as u8) by {
        assert(s.subrange(pos, pos + 4)[0] == enc_u32(v)[0]);
        assert(s.subrange(pos, pos + 4)[1] == enc_u32(v)[1]);
        assert(s.subrange(pos, pos + 4)[2] == enc_u32(v)[2]);
        assert(s.subrange(pos, pos + 4)[3] == enc_u32(v)[3]);
    }
}

/// One encoded question reads back as itself.
proof fn lemma_dec_question_enc(s: Seq<u8>, pos: int, q: SpecQuestion)
    requires
        question_wf(q),
        0 <= pos,
        pos + enc_question(q).len() <= s.len(),
        s.subrange(pos, pos + enc_question(q).len()) == enc_question(q),
    ensures
        dec_question(s, pos) == Some((q, pos + enc_question(q).len())),
{
    let nb = enc_name(q.name);
    let tb = enc_u16(spec_query_type_to_u16(q.query_type));
    let cb = enc_u16(spec_query_class_to_u16(q.query_class));
    assert(enc_question(q) =~= nb.add(tb.add(cb)));
    lemma_carve(s, pos, nb, tb.add(cb));
    lemma_carve(s, pos + nb.len(), tb, cb);
    lemma_dec_name_enc(s, pos, q.name, MAX_POINTER_JUMPS as nat);
    lemma_dec_u16_enc(s, pos + nb.len(), spec_query_type_to_u16(q.query_type));
    lemma_dec_u16_enc(s, pos + nb.len() + 2, spec_query_class_to_u16(q.query_class));
}

/// Encoded record data reads back as itself under its own type and length.
proof fn lemma_dec_rdata_enc(s: Seq<u8>, pos: int, d: SpecData)
    requires
        data_wf(d),
        0 <= pos,
        pos + enc_data(d).len() <= s.len(),
        s.subrange(pos, pos + enc_data(d).len()) == enc_data(d),
    ensures
        dec_rdata(s, pos, crate::data::spec_data_record_type(d), enc_data(d).len() as u16) == Some(
            (d, pos + enc_data(d).len()),
        ),
{
    let bytes = enc_data(d);
    match d {
        SpecData::A(a) => {
            assert(s[pos] == a.o0 && s[pos + 1] == a.o1 && s[pos + 2] == a.o2 && s[pos + 3]
                == a.o3) by {
                assert(s.subrange(pos, pos + 4)[0] == bytes[0]);
                assert(s.subrange(pos, pos + 4)[1] == bytes[1]);
                assert(s.subrange(pos, pos + 4)[2] == bytes[2]);
                assert(s.subrange(pos, pos + 4)[3] == bytes[3]);
            }
        },
        SpecData::Ns(n) => {
            lemma_dec_name_enc(s, pos, n, MAX_POINTER_JUMPS as nat);
        },
        SpecData::Cname(n) => {
            lemma_dec_name_enc(s, pos, n, MAX_POINTER_JUMPS as nat);
        },
        SpecData::Aaaa(a) => {
            assert forall|k: int| 0 <= k < 16 implies s[pos + k] == bytes[k] by {
                assert(s.subrange(pos, pos + 16)[k] == bytes[k]);
            }
            assert(bytes[0] == (a.s0 / 256) as u8 && bytes[1] == (a.s0 % 256) as u8);
            assert(bytes[2] == (a.s1 / 256) as u8 && bytes[3] == (a.s1 % 256) as u8);
            assert(bytes[4] == (a.s2 / 256) as u8 && bytes[5] == (a.s2 % 256) as u8);
            assert(bytes[6] == (a.s3 / 256) as u8 && bytes[7] == (a.s3 % 256) as u8);
            assert(bytes[8] == (a.s4 / 256) as u8 && bytes[9] == (a.s4 % 256) as u8);
            assert(bytes[10] == (a.s5 / 256) as u8 && bytes[11] == (a.s5 % 256) as u8);
            assert(bytes[12] == (a.s6 / 256) as u8 && bytes[13] == (a.s6 % 256) as u8);
            assert(bytes[14] == (a.s7 / 256) as u8 && bytes[15] == (a.s7 % 256) as u8);
            assert(dec_rdata(s, pos, RecordType::Aaaa, bytes.len() as u16) matches Some((dv, p))
                && dv == d && p == pos + 16) by {
                assert((s[pos] as u16 * 256 + s[pos + 1] as u16) as u16 == a.s0);
                assert((s[pos + 2] as u16 * 256 + s[pos + 3] as u16) as u16 == a.s1);
                assert((s[pos + 4] as u16 * 256 + s[pos + 5] as u16) as u16 == a.s2);
                assert((s[pos + 6] as u16 * 256 + s[pos + 7] as u16) as u16 == a.s3);
                assert((s[pos + 8] as u16 * 256 + s[pos + 9] as u16) as u16 == a.s4);
                assert((s[pos + 10] as u16 * 256 + s[pos + 11] as u16) as u16 == a.s5);
                assert((s[pos + 12] as u16 * 256 + s[pos + 13] as u16) as u16 == a.s6);
                assert((s[pos + 14] as u16 * 256 + s[pos + 15] as u16) as u16 == a.s7);
            }
        },
        SpecData::Mx(m) => {
            assert(bytes =~= enc_u16(m.preference).add(enc_name(m.exchange)));
            lemma_carve(s, pos, enc_u16(m.preference), enc_name(m.exchange));
            lemma_dec_u16_enc(s, pos, m.preference);
            lemma_dec_name_enc(s, pos + 2, m.exchange, MAX_POINTER_JUMPS as nat);
        },
        SpecData::Txt(t) => {
            let rd = bytes.len() as u16;
            assert(rd as int == bytes.len());
            assert(s.subrange(pos, pos + rd) == vstd::utf8::encode_utf8(t));
            broadcast use vstd::utf8::encode_utf8_valid_utf8, vstd::utf8::encode_utf8_decode_utf8;

            assert(valid_utf8(s.subrange(pos, pos + rd)));
            assert(decode_utf8(s.subrange(pos, pos + rd)) == t);
        },
        SpecData::Unknown(t, data_bytes) => {
            let rd = bytes.len() as u16;
            assert(rd as int == data_bytes.len());
            assert(s.subrange(pos, pos + rd) == data_bytes);
        },
    }
}

/// One encoded record reads back as itself.
proof fn lemma_dec_record_enc(s: Seq<u8>, pos: int, r: SpecRecord)
    requires
        record_wf(r),
        0 <= pos,
        pos + enc_record(r).len() <= s.len(),
        s.subrange(pos, pos + enc_record(r).len()) == enc_record(r),
    ensures
        dec_record(s, pos) == Some((r, pos + enc_record(r).len())),
{
    let t = crate::data::spec_data_record_type(r.data);
    let nb = enc_name(r.name);
    let tb = enc_u16(spec_record_type_to_u16(t));
    let cb = enc_u16(spec_class_to_u16(r.class));
    let lb = enc_u32(r.ttl);
    let rb = enc_u16(enc_data(r.data).len() as u16);
    let db = enc_data(r.data);
    assert(enc_record(r) =~= nb.add(tb.add(cb.add(lb.add(rb.add(db))))));
    lemma_carve(s, pos, nb, tb.add(cb.add(lb.add(rb.add(db)))));
    let p1 = pos + nb.len();
    lemma_carve(s, p1, tb, cb.add(lb.add(rb.add(db))));
    let p2 = p1 + 2;
    lemma_carve(s, p2, cb, lb.add(rb.add(db)));
    let p3 = p2 + 2;
    lemma_carve(s, p3, lb, rb.add(db));
    let p4 = p3 + 4;
    lemma_carve(s, p4, rb, db);
    let p5 = p4 + 2;
    lemma_dec_name_enc(s, pos, r.name, MAX_POINTER_JUMPS as nat);
    lemma_dec_u16_enc(s, p1, spec_record_type_to_u16(t));
    lemma_dec_u16_enc(s, p2, spec_class_to_u16(r.class));
    lemma_dec_u32_enc(s, p3, r.ttl);
    lemma_dec_u16_enc(s, p4, enc_data(r.data).len() as u16);
    assert(data_wf(r.data));
    assert(spec_record_type_from_u16(spec_record_type_to_u16(t)) == t) by {
        if !(r.data is Unknown) {
        }
    }
    lemma_dec_rdata_enc(s, p5, r.data);
}

/// `enc_questions` unrolled from the front.
proof fn lemma_enc_questions_first(qs: Seq<SpecQuestion>)
    requires
        qs.len() > 0,
    ensures
        enc_questions(qs) == enc_question(qs[0]).add(enc_questions(qs.drop_first())),
    decreases qs.len(),
{
    if qs.len() == 1 {
        assert(qs.drop_last() =~~= Seq::<SpecQuestion>::empty());
        assert(qs.drop_first() =~~= Seq::<SpecQuestion>::empty());
        assert(qs.last() == qs[0]);
        assert(enc_questions(qs) =~= enc_question(qs[0]).add(enc_questions(qs.drop_first())));
    } else {
        let dl = qs.drop_last();
        lemma_enc_questions_first(dl);
        assert(dl[0] == qs[0]);
        assert(qs.drop_first().drop_last() =~~= dl.drop_first());
        assert(qs.drop_first().last() == qs.last());
        assert(enc_questions(qs.drop_first()) == enc_questions(dl.drop_first()).add(
            enc_question(qs.last()),
        ));
        assert(enc_questions(qs) =~= enc_question(qs[0]).add(enc_questions(qs.drop_first())));
    }
}

proof fn lemma_enc_records_first(rs: Seq<SpecRecord>)
    requires
        rs.len() > 0,
    ensures
        enc_records(rs) == enc_record(rs[0]).add(enc_records(rs.drop_first())),
    decreases rs.len(),
{
    if rs.len() == 1 {
        assert(rs.drop_last() =~~= Seq::<SpecRecord>::empty());
        assert(rs.drop_first() =~~= Seq::<SpecRecord>::empty());
        assert(rs.last() == rs[0]);
        assert(enc_records(rs) =~= enc_record(rs[0]).add(enc_records(rs.drop_first())));
    } else {
        let dl = rs.drop_last();
        lemma_enc_records_first(dl);
        assert(dl[0] == rs[0]);
        assert(rs.drop_first().drop_last() =~~= dl.drop_first());
        assert(rs.drop_first().last() == rs.last());
        assert(enc_records(rs.drop_first()) == enc_records(dl.drop_first()).add(
            enc_record(rs.last()),
        ));
        assert(enc_records(rs) =~= enc_record(rs[0]).add(enc_records(rs.drop_first())));
    }
}

/// An encoded run of questions reads back as itself.
proof fn lemma_dec_questions_enc(s: Seq<u8>, pos: int, qs: Seq<SpecQuestion>)
    requires
        forall|i: int| 0 <= i < qs.len() ==> question_wf(#[trigger] qs[i]),
        0 <= pos,
        pos + enc_questions(qs).len() <= s.len(),
        s.subrange(pos, pos + enc_questions(qs).len()) == enc_questions(qs),
    ensures
        dec_questions(s, pos, qs.len() as int) == Some((qs, pos + enc_questions(qs).len())),
    decreases qs.len(),
{
    if qs.len() == 0 {
        assert(qs =~~= Seq::<SpecQuestion>::empty());
    } else {
        lemma_enc_questions_first(qs);
        lemma_carve(s, pos, enc_question(qs[0]), enc_questions(qs.drop_first()));
        lemma_dec_question_enc(s, pos, qs[0]);
        lemma_dec_questions_enc(s, pos + enc_question(qs[0]).len(), qs.drop_first());
        assert(seq![qs[0]].add(qs.drop_first()) =~~= qs);
    }
}

/// An encoded run of records reads back as itself.
proof fn lemma_dec_records_enc(s: Seq<u8>, pos: int, rs: Seq<SpecRecord>)
    requires
        forall|i: int| 0 <= i < rs.len() ==> record_wf(#[trigger] rs[i]),
        0 <= pos,
        pos + enc_records(rs).len() <= s.len(),
        s.subrange(pos, pos + enc_records(rs).len()) == enc_records(rs),
    ensures
        dec_records(s, pos, rs.len() as int) == Some((rs, pos + enc_records(rs).len())),
    decreases rs.len(),
{
    if rs.len() == 0 {
        assert(rs =~~= Seq::<SpecRecord>::empty());
    } else {
        lemma_enc_records_first(rs);
        lemma_carve(s, pos, enc_record(rs[0]), enc_records(rs.drop_first()));
        lemma_dec_record_enc(s, pos, rs[0]);
        lemma_dec_records_enc(s, pos + enc_record(rs[0]).len(), rs.drop_first());
        assert(seq![rs[0]].add(rs.drop_first()) =~~= rs);
    }
}

/// The flag bytes decompose back into the message's flags.
proof fn lemma_flag_bytes(m: SpecMessage)
    requires
        spec_opcode_to_u8(m.opcode) < 16,
        spec_response_code_to_u8(m.response_code) < 16,
    ensures
        (enc_byte2(m) & 0x80 != 0) == m.is_response,
        (enc_byte2(m) & 0x78) / 8 == spec_opcode_to_u8(m.opcode),
        (enc_byte2(m) & 0x04 != 0) == m.is_authoritative_answer,
        (enc_byte2(m) & 0x02 != 0) == m.is_truncation,
        (enc_byte2(m) & 0x01 != 0) == m.recursion_desired,
        (enc_byte3(m) & 0x80 != 0) == m.recursion_available,
        enc_byte3(m) & 0x0f == spec_response_code_to_u8(m.response_code),
{
    let a: u8 = if m.is_response {
        0x80
    } else {
        0
    };
    let o: u8 = spec_opcode_to_u8(m.opcode);
    let c: u8 = if m.is_authoritative_answer {
        0x04
    } else {
        0
    };
    let tt: u8 = if m.is_truncation {
        0x02
    } else {
        0
    };
    let d: u8 = if m.recursion_desired {
        0x01
    } else {
        0
    };
    let ra: u8 = if m.recursion_available {
        0x80
    } else {
        0
    };
    let rc: u8 = spec_response_code_to_u8(m.response_code);
    assert(((a | ((o * 8) as u8) | c | tt | d) & 0x80 != 0) == (a == 0x80) && ((a | ((o * 8) as u8)
        | c | tt | d) & 0x78) / 8 == o && ((a | ((o * 8) as u8) | c | tt | d) & 0x04 != 0) == (c
        == 0x04) && ((a | ((o * 8) as u8) | c | tt | d) & 0x02 != 0) == (tt == 0x02) && ((a | ((o
        * 8) as u8) | c | tt | d) & 0x01 != 0) == (d == 0x01)) by (bit_vector)
        requires
            (a == 0 || a == 0x80) && o < 16 && (c == 0 || c == 0x04) && (tt == 0 || tt == 0x02) && (
            d == 0 || d == 0x01),
    ;
    assert(((ra | rc) & 0x80 != 0) == (ra == 0x80) && (ra | rc) & 0x0f == rc) by (bit_vector)
        requires
            (ra == 0 || ra == 0x80) && rc < 16,
    ;
}

/// Codec round trip: for any well-formed message the encoder emits,
/// decoding the bytes yields the message back, the order of records within
/// each section preserved.
#[verifier::rlimit(100)]
pub proof fn lemma_codec_round_trip(m: SpecMessage)
    requires
        message_wf(m),
    ensures
        dec_message(enc_message(m)) == Some(m),
{
    let s = enc_message(m);
    let hd = enc_u16(m.id).add(seq![enc_byte2(m), enc_byte3(m)]).add(
        enc_u16(m.questions.len() as u16),
    ).add(enc_u16(m.answers.len() as u16)).add(enc_u16(m.authorities.len() as u16)).add(
        enc_u16(m.additional.len() as u16),
    );
    let qb = enc_questions(m.questions);
    let ab = enc_records(m.answers);
    let ub = enc_records(m.authorities);
    let db = enc_records(m.additional);
    assert(s =~= hd.add(qb.add(ab.add(ub.add(db)))));
    assert(hd.len() == 12);
    assert(s.len() >= 12);
    assert(s.subrange(0, s.len() as int) =~= s);
    lemma_carve(s, 0, hd, qb.add(ab.add(ub.add(db))));
    lemma_carve(s, 12, qb, ab.add(ub.add(db)));
    let pa: int = 12 + qb.len() as int;
    lemma_carve(s, pa, ab, ub.add(db));
    let pu: int = pa + ab.len() as int;
    lemma_carve(s, pu, ub, db);
    let pd: int = pu + ub.len() as int;
    assert forall|k: int| 0 <= k < 12 implies s[k] == hd[k] by {
        assert(s.subrange(0, 12)[k] == hd[k]);
    }
    assert(hd[0] == (m.id / 256) as u8 && hd[1] == (m.id % 256) as u8);
    assert(hd[2] == enc_byte2(m) && hd[3] == enc_byte3(m));
    assert(hd[4] == (m.questions.len() as u16 / 256) as u8 && hd[5] == (m.questions.len() as u16
        % 256) as u8);
    assert(hd[6] == (m.answers.len() as u16 / 256) as u8 && hd[7] == (m.answers.len() as u16
        % 256) as u8);
    assert(hd[8] == (m.authorities.len() as u16 / 256) as u8 && hd[9] == (m.authorities.len()
        as u16 % 256) as u8);
    assert(hd[10] == (m.additional.len() as u16 / 256) as u8 && hd[11] == (m.additional.len()
        as u16 % 256) as u8);
    assert(s[0] as int * 256 + s[1] as int == m.id);
    assert(s[4] as int * 256 + s[5] as int == m.questions.len());
    assert(s[6] as int * 256 + s[7] as int == m.answers.len());
    assert(s[8] as int * 256 + s[9] as int == m.authorities.len());
    assert(s[10] as int * 256 + s[11] as int == m.additional.len());
    lemma_dec_questions_enc(s, 12, m.questions);
    lemma_dec_records_enc(s, pa, m.answers);
    lemma_dec_records_enc(s, pu, m.authorities);
    lemma_dec_records_enc(s, pd, m.additional);
    lemma_flag_bytes(m);
    assert((s[0] as u16 * 256 + s[1] as u16) as u16 == m.id);
}

/// Name compression safety: a pointer that does not lead strictly backward
/// is rejected, whatever else the datagram holds; every resolved pointer
/// therefore strictly decreases the cursor offset.
pub proof fn lemma_forward_pointer_rejected(s: Seq<u8>, pos: int, fuel: nat)
    requires
        0 <= pos < s.len(),
        s[pos] & 0xc0 == 0xc0,
        pos + 2 <= s.len(),
        (s[pos] & 0x3f) as int * 256 + s[pos + 1] as int >= pos,
    ensures
        dec_name(s, pos, fuel) is None,
{
}

/// Reads one message from a received datagram.
pub struct DatagramReader<'a> {
    datagram: &'a [u8],
    pos: usize,
}

impl<'a> DatagramReader<'a> {
    pub closed spec fn data_spec(&self) -> Seq<u8> {
        self.datagram@
    }

    pub closed spec fn pos_spec(&self) -> int {
        self.pos as int
    }

    pub fn new(datagram: &'a [u8]) -> (r: DatagramReader<'a>)
        ensures
            r.data_spec() == datagram@,
            r.pos_spec() == 0,
    {
        DatagramReader { datagram, pos: 0 }
    }

    pub fn position(&self) -> (r: usize)
        ensures
            r == self.pos_spec(),
    {
        self.pos
    }

    /// Decodes the whole datagram as a message.
    pub fn read_message(self) -> (r: Option<Message>)
        requires
            self.pos_spec() == 0,
        ensures
            match dec_message(self.data_spec()) {
                Some(mv) => r matches Some(m) && m@ == mv,
                None => r is None,
            },
    {
        let mut reader = self;
        reader.read_message_inner()
    }

    fn read_message_inner(&mut self) -> (r: Option<Message>)
        requires
            old(self).pos_spec() == 0,
        ensures
            final(self).data_spec() == old(self).data_spec(),
            match dec_message(old(self).data_spec()) {
                Some(mv) => r matches Some(m) && m@ == mv,
                None => r is None,
            },
    {
        let id = match self.read_u16() {
            None => {
                return None;
            },
            Some(v) => v,
        };
        let byte2 = match self.read_u8() {
            None => {
                return None;
            },
            Some(v) => v,
        };
        let byte3 = match self.read_u8() {
            None => {
                return None;
            },
            Some(v) => v,
        };
        let qd = match self.read_u16() {
            None => {
                return None;
            },
            Some(v) => v,
        };
        let an = match self.read_u16() {
            None => {
                return None;
            },
            Some(v) => v,
        };
        let ns = match self.read_u16() {
            None => {
                return None;
            },
            Some(v) => v,
        };
        let ar = match self.read_u16() {
            None => {
                return None;
            },
            Some(v) => v,
        };
        proof {
            let s = self.data_spec();
            assert(s.len() >= 12);
            assert(id == s[0] as u16 * 256 + s[1] as u16);
            assert(byte2 == s[2] && byte3 == s[3]);
            assert(qd == s[4] as int * 256 + s[5] as int);
            assert(an == s[6] as int * 256 + s[7] as int);
            assert(ns == s[8] as int * 256 + s[9] as int);
            assert(ar == s[10] as int * 256 + s[11] as int);
        }
        let questions = match self.read_questions(qd) {
            None => {
                return None;
            },
            Some(v) => v,
        };
        let answers = match self.read_records(an) {
            None => {
                return None;
            },
            Some(v) => v,
        };
        let authorities = match self.read_records(ns) {
            None => {
                return None;
            },
            Some(v) => v,
        };
        let additional = match self.read_records(ar) {
            None => {
                return None;
            },
            Some(v) => v,
        };
        let message = Message::new(id).set_is_response(byte2 & 0x80 != 0).set_opcode(
            OpCode::from_u8((byte2 & 0x78) / 8),
        ).set_is_authoritative_answer(byte2 & 0x04 != 0).set_is_truncation(
            byte2 & 0x02 != 0,
        ).set_recursion_desired(byte2 & 0x01 != 0).set_recursion_available(
            byte3 & 0x80 != 0,
        ).set_response_code(ResponseCode::from_u8(byte3 & 0x0f)).set_questions(
            questions,
        ).set_answers(answers).set_authorities(authorities).set_additional(additional);
        Some(message)
    }

    fn read_u8(&mut self) -> (r: Option<u8>)
        ensures
            final(self).data_spec() == old(self).data_spec(),
            match dec_u8(old(self).data_spec(), old(self).pos_spec()) {
                Some((v, p)) => r == Some(v) && final(self).pos_spec() == p,
                None => r is None && final(self).pos_spec() == old(self).pos_spec(),
            },
    {
        if self.pos < self.datagram.len() {
            let v = self.datagram[self.pos];
            self.pos = self.pos + 1;
            Some(v)
        } else {
            None
        }
    }

    fn read_u16(&mut self) -> (r: Option<u16>)
        ensures
            final(self).data_spec() == old(self).data_spec(),
            match dec_u16(old(self).data_spec(), old(self).pos_spec()) {
                Some((v, p)) => r == Some(v) && final(self).pos_spec() == p,
                None => r is None,
            },
    {
        let hi = match self.read_u8() {
            None => {
                return None;
            },
            Some(v) => v,
        };
        let lo = match self.read_u8() {
            None => {
                return None;
            },
            Some(v) => v,
        };
        Some((hi as u16) * 256 + (lo as u16))
    }

    fn read_u32(&mut self) -> (r: Option<u32>)
        ensures
            final(self).data_spec() == old(self).data_spec(),
            match dec_u32(old(self).data_spec(), old(self).pos_spec()) {
                Some((v, p)) => r == Some(v) && final(self).pos_spec() == p,
                None => r is None,
            },
    {
        let b0 = match self.read_u8() {
            None => {
                return None;
            },
            Some(v) => v,
        };
        let b1 = match self.read_u8() {
            None => {
                return None;
            },
            Some(v) => v,
        };
        let b2 = match self.read_u8() {
            None => {
                return None;
            },
            Some(v) => v,
        };
        let b3 = match self.read_u8() {
            None => {
                return None;
            },
            Some(v) => v,
        };
        Some((b0 as u32) * 0x1000000 + (b1 as u32) * 0x10000 + (b2 as u32) * 0x100 + (b3 as u32))
    }

    /// Reads one length-prefixed label, folded to lowercase.
    pub fn read_label(&mut self) -> (r: Option<Label>)
        ensures
            final(self).data_spec() == old(self).data_spec(),
            match dec_label(old(self).data_spec(), old(self).pos_spec()) {
                Some((lv, p)) => r matches Some(l) && l@ == lv && final(self).pos_spec() == p,
                None => r is None,
            },
    {
        let ghost s = self.data_spec();
        let ghost pos0 = self.pos_spec();
        let len_byte = match self.read_u8() {
            None => {
                return None;
            },
            Some(v) => v,
        };
        if len_byte == 0 {
            return Some(Label::null());
        }
        let count = len_byte as usize;
        let mut chars: Vec<char> = Vec::new();
        let mut i: usize = 0;
        while i < count
            invariant
                i <= count,
                s == old(self).data_spec(),
                pos0 == old(self).pos_spec(),
                0 <= pos0 < s.len(),
                s[pos0] == len_byte,
                count == len_byte as int,
                len_byte != 0,
                self.data_spec() == s,
                self.pos_spec() == pos0 + 1 + i,
                pos0 + 1 + i <= s.len(),
                chars@.len() == i,
                forall|j: int| 0 <= j < i ==> #[trigger] s[pos0 + 1 + j] < 128,
                forall|j: int| 0 <= j < i ==> #[trigger] chars@[j] == (s[pos0 + 1 + j] as char),
            decreases count - i,
        {
            let b = match self.read_u8() {
                None => {
                    return None;
                },
                Some(v) => v,
            };
            if b >= 128 {
                proof {
                    let bytes = s.subrange(pos0 + 1, pos0 + 1 + len_byte);
                    if pos0 + 1 + len_byte <= s.len() {
                        assert(bytes[i as int] == b);
                        assert(!crate::ascii::all_ascii(bytes));
                    }
                }
                return None;
            }
            chars.push(b as char);
            i = i + 1;
        }
        proof {
            let bytes = s.subrange(pos0 + 1, pos0 + 1 + len_byte);
            assert forall|j: int| 0 <= j < bytes.len() implies bytes[j] < 128 by {
                assert(s[pos0 + 1 + j] < 128);
            }
            assert(crate::ascii::all_ascii(bytes));
            assert(chars@ =~= crate::ascii::chars_of_ascii(bytes));
        }
        match Label::parse_label_chars(&chars) {
            Ok(l) => Some(l),
            Err(_) => None,
        }
    }

    /// Reads a name, chasing at most `fuel` strictly backward compression
    /// pointers.
    fn read_name_fuel(&mut self, fuel: usize) -> (r: Option<Name>)
        ensures
            final(self).data_spec() == old(self).data_spec(),
            match dec_name(old(self).data_spec(), old(self).pos_spec(), fuel as nat) {
                Some((nv, p)) => r matches Some(n) && n@ == nv && final(self).pos_spec() == p,
                None => r is None,
            },
        decreases fuel, old(self).data_spec().len() - old(self).pos_spec(),
    {
        let ghost s = self.data_spec();
        let ghost pos0 = self.pos_spec();
        if self.pos >= self.datagram.len() {
            return None;
        }
        let b0 = self.datagram[self.pos];
        let flag = b0 & 0xc0;
        if flag == 0x80 || flag == 0x40 {
            return None;
        }
        if flag == 0xc0 {
            if self.datagram.len() - self.pos < 2 {
                return None;
            }
            let b1 = self.datagram[self.pos + 1];
            let offset = ((b0 & 0x3f) as usize) * 256 + (b1 as usize);
            if offset >= self.pos || fuel == 0 {
                return None;
            }
            let saved = self.pos + 2;
            self.pos = offset;
            match self.read_name_fuel(fuel - 1) {
                None => None,
                Some(n) => {
                    self.pos = saved;
                    Some(n)
                },
            }
        } else {
            let label = match self.read_label() {
                None => {
                    return None;
                },
                Some(l) => l,
            };
            if label.is_null() {
                return Some(Name::root());
            }
            proof {
                assert(self.pos_spec() > pos0);
            }
            let rest = match self.read_name_fuel(fuel) {
                None => {
                    return None;
                },
                Some(n) => n,
            };
            let mut labels: Vec<Label> = Vec::new();
            labels.push(label);
            let rest_labels = rest.labels();
            let rn = rest_labels.len();
            let mut i: usize = 0;
            while i < rn
                invariant
                    i <= rn,
                    rn == rest_labels@.len(),
                    rest_labels.deep_view() == rest@,
                    labels@.len() == i + 1,
                    labels@[0]@ == dec_label(s, pos0)->Some_0.0,
                    forall|j: int| 0 <= j < i ==> #[trigger] labels@[j + 1]@ == rest@[j],
                decreases rn - i,
            {
                proof {
                    assert(rest_labels.deep_view()[i as int] == rest_labels@[i as int]@);
                }
                labels.push(rest_labels[i].clone());
                i = i + 1;
            }
            proof {
                let lv = dec_label(s, pos0)->Some_0.0;
                assert forall|j: int|
                    0 <= j < rn + 1 implies labels.deep_view()[j] == seq![lv].add(rest@)[j] by {
                    assert(labels.deep_view()[j] == labels@[j]@);
                    if j > 0 {
                        assert(labels@[(j - 1) + 1]@ == rest@[j - 1]);
                    }
                }
                assert(labels.deep_view() =~~= seq![lv].add(rest@));
            }
            match Name::create(labels) {
                Ok(n) => Some(n),
                Err(_) => None,
            }
        }
    }

    /// Reads a name.
    pub fn read_name(&mut self) -> (r: Option<Name>)
        ensures
            final(self).data_spec() == old(self).data_spec(),
            match dec_name(old(self).data_spec(), old(self).pos_spec(), MAX_POINTER_JUMPS as nat) {
                Some((nv, p)) => r matches Some(n) && n@ == nv && final(self).pos_spec() == p,
                None => r is None,
            },
    {
        self.read_name_fuel(MAX_POINTER_JUMPS)
    }

    /// Reads one question.
    pub fn read_question(&mut self) -> (r: Option<Question>)
        ensures
            final(self).data_spec() == old(self).data_spec(),
            match dec_question(old(self).data_spec(), old(self).pos_spec()) {
                Some((qv, p)) => r matches Some(q) && q@ == qv && final(self).pos_spec() == p,
                None => r is None,
            },
    {
        let name = match self.read_name() {
            None => {
                return None;
            },
            Some(n) => n,
        };
        let qt = match self.read_u16() {
            None => {
                return None;
            },
            Some(v) => v,
        };
        let qc = match self.read_u16() {
            None => {
                return None;
            },
            Some(v) => v,
        };
        Some(Question::new(name, QueryType::from_u16(qt), QueryClass::from_u16(qc)))
    }

    /// Reads one record.
    pub fn read_record(&mut self) -> (r: Option<Record>)
        ensures
            final(self).data_spec() == old(self).data_spec(),
            match dec_record(old(self).data_spec(), old(self).pos_spec()) {
                Some((rv, p)) => r matches Some(rec) && rec@ == rv && final(self).pos_spec() == p,
                None => r is None,
            },
    {
        let name = match self.read_name() {
            None => {
                return None;
            },
            Some(n) => n,
        };
        let tv = match self.read_u16() {
            None => {
                return None;
            },
            Some(v) => v,
        };
        let cv = match self.read_u16() {
            None => {
                return None;
            },
            Some(v) => v,
        };
        let ttl = match self.read_u32() {
            None => {
                return None;
            },
            Some(v) => v,
        };
        let rdlength = match self.read_u16() {
            None => {
                return None;
            },
            Some(v) => v,
        };
        let record_type = RecordType::from_u16(tv);
        let data = match self.read_rdata(record_type, rdlength) {
            None => {
                return None;
            },
            Some(d) => d,
        };
        Some(Record::new(name, Class::from_u16(cv), ttl, data))
    }

    fn read_rdata(&mut self, record_type: RecordType, rdlength: u16) -> (r: Option<Data>)
        ensures
            final(self).data_spec() == old(self).data_spec(),
            match dec_rdata(old(self).data_spec(), old(self).pos_spec(), record_type, rdlength) {
                Some((dv, p)) => r matches Some(d) && d@ == dv && final(self).pos_spec() == p,
                None => r is None,
            },
    {
        match record_type {
            RecordType::A => {
                let o0 = match self.read_u8() {
                    None => {
                        return None;
                    },
                    Some(v) => v,
                };
                let o1 = match self.read_u8() {
                    None => {
                        return None;
                    },
                    Some(v) => v,
                };
                let o2 = match self.read_u8() {
                    None => {
                        return None;
                    },
                    Some(v) => v,
                };
                let o3 = match self.read_u8() {
                    None => {
                        return None;
                    },
                    Some(v) => v,
                };
                Some(Data::A(AData::new(Ipv4Address::new(o0, o1, o2, o3))))
            },
            RecordType::Ns => match self.read_name() {
                None => None,
                Some(n) => Some(Data::Ns(NsData::new(n))),
            },
            RecordType::Cname => match self.read_name() {
                None => None,
                Some(n) => Some(Data::Cname(CnameData::new(n))),
            },
            RecordType::Aaaa => {
                let mut segs: Vec<u16> = Vec::new();
                let ghost s = self.data_spec();
                let ghost pos0 = self.pos_spec();
                let mut i: usize = 0;
                while i < 8
                    invariant
                        i <= 8,
                        s == old(self).data_spec(),
                        pos0 == old(self).pos_spec(),
                        record_type == RecordType::Aaaa,
                        self.data_spec() == s,
                        pos0 >= 0,
                        i > 0 ==> pos0 + 2 * i <= s.len(),
                        self.pos_spec() == pos0 + 2 * i,
                        segs@.len() == i,
                        forall|j: int|
                            0 <= j < i ==> #[trigger] segs@[j] == (s[pos0 + 2 * j] as u16 * 256 + s[
                                pos0 + 2 * j + 1
                            ] as u16) as u16,
                    decreases 8 - i,
                {
                    let v = match self.read_u16() {
                        None => {
                            return None;
                        },
                        Some(v) => v,
                    };
                    segs.push(v);
                    i = i + 1;
                }
                let a = Ipv6Address::from_segments(&segs);
                proof {
                    assert(dec_rdata(s, pos0, record_type, rdlength) matches Some((dv, p))
                        && dv == SpecData::Aaaa(a) && p == pos0 + 16) by {
                        assert(ipv6_segments(a) == segs@);
                        assert(segs@[0] == (s[pos0] as u16 * 256 + s[pos0 + 1] as u16) as u16);
                        assert(segs@[1] == (s[pos0 + 2] as u16 * 256 + s[pos0 + 3] as u16) as u16);
                        assert(segs@[2] == (s[pos0 + 4] as u16 * 256 + s[pos0 + 5] as u16) as u16);
                        assert(segs@[3] == (s[pos0 + 6] as u16 * 256 + s[pos0 + 7] as u16) as u16);
                        assert(segs@[4] == (s[pos0 + 8] as u16 * 256 + s[pos0 + 9] as u16) as u16);
                        assert(segs@[5] == (s[pos0 + 10] as u16 * 256 + s[pos0 + 11] as u16)
                            as u16);
                        assert(segs@[6] == (s[pos0 + 12] as u16 * 256 + s[pos0 + 13] as u16)
                            as u16);
                        assert(segs@[7] == (s[pos0 + 14] as u16 * 256 + s[pos0 + 15] as u16)
                            as u16);
                    }
                }
                Some(Data::Aaaa(AaaaData::new(a)))
            },
            RecordType::Mx => {
                let pref = match self.read_u16() {
                    None => {
                        return None;
                    },
                    Some(v) => v,
                };
                let exchange = match self.read_name() {
                    None => {
                        return None;
                    },
                    Some(n) => n,
                };
                Some(Data::Mx(MxData::new(pref, exchange)))
            },
            RecordType::Txt => {
                let bytes = match self.read_bytes(rdlength) {
                    None => {
                        return None;
                    },
                    Some(b) => b,
                };
                match utf8_to_string(bytes) {
                    None => None,
                    Some(text) => Some(Data::Txt(TxtData::new(text))),
                }
            },
            RecordType::Unknown(code) => {
                let bytes = match self.read_bytes(rdlength) {
                    None => {
                        return None;
                    },
                    Some(b) => b,
                };
                Some(Data::Unknown(RecordType::Unknown(code), bytes))
            },
        }
    }

    fn read_bytes(&mut self, count: u16) -> (r: Option<Vec<u8>>)
        ensures
            final(self).data_spec() == old(self).data_spec(),
            ({
                let s = old(self).data_spec();
                let pos = old(self).pos_spec();
                if pos + count <= s.len() {
                    let fpos = final(self).pos_spec();
                    r matches Some(b) && b@ == s.subrange(pos, pos + count) && fpos == pos + count
                } else {
                    r is None
                }
            }),
    {
        let ghost s = self.data_spec();
        let ghost pos0 = self.pos_spec();
        let n = count as usize;
        if n > self.datagram.len() || self.pos > self.datagram.len() - n {
            return None;
        }
        let mut out: Vec<u8> = Vec::new();
        let mut i: usize = 0;
        while i < n
            invariant
                i <= n,
                s == old(self).data_spec(),
                pos0 == old(self).pos_spec(),
                0 <= pos0,
                self.data_spec() == s,
                pos0 + n <= s.len(),
                self.pos_spec() == pos0 + i,
                out@ =~= s.subrange(pos0, pos0 + i),
            decreases n - i,
        {
            let b = match self.read_u8() {
                None => {
                    return None;
                },
                Some(v) => v,
            };
            out.push(b);
            i = i + 1;
            proof {
                assert(out@ =~= s.subrange(pos0, pos0 + i));
            }
        }
        Some(out)
    }

    fn read_questions(&mut self, count: u16) -> (r: Option<Vec<Question>>)
        ensures
            final(self).data_spec() == old(self).data_spec(),
            match dec_questions(old(self).data_spec(), old(self).pos_spec(), count as int) {
                Some((qs, p)) => r matches Some(v) && v.deep_view() == qs && final(self).pos_spec()
                    == p,
                None => r is None,
            },
        decreases count,
    {
        if count == 0 {
            let v: Vec<Question> = Vec::new();
            proof {
                assert(v.deep_view() =~~= Seq::<SpecQuestion>::empty());
            }
            return Some(v);
        }
        let q = match self.read_question() {
            None => {
                return None;
            },
            Some(q) => q,
        };
        let rest = match self.read_questions(count - 1) {
            None => {
                return None;
            },
            Some(v) => v,
        };
        let ghost rest_view = rest.deep_view();
        let mut out = rest;
        out.insert(0, q);
        proof {
            assert forall|j: int|
                0 <= j < out@.len() implies out.deep_view()[j] == seq![q@].add(rest_view)[j] by {
                assert(out.deep_view()[j] == out@[j]@);
                if j > 0 {
                    assert(out@[j]@ == rest_view[j - 1]);
                }
            }
            assert(out.deep_view() =~~= seq![q@].add(rest_view));
        }
        Some(out)
    }

    fn read_records(&mut self, count: u16) -> (r: Option<Vec<Record>>)
        ensures
            final(self).data_spec() == old(self).data_spec(),
            match dec_records(old(self).data_spec(), old(self).pos_spec(), count as int) {
                Some((rs, p)) => r matches Some(v) && v.deep_view() == rs && final(self).pos_spec()
                    == p,
                None => r is None,
            },
        decreases count,
    {
        if count == 0 {
            let v: Vec<Record> = Vec::new();
            proof {
                assert(v.deep_view() =~~= Seq::<SpecRecord>::empty());
            }
            return Some(v);
        }
        let rec = match self.read_record() {
            None => {
                return None;
            },
            Some(rec) => rec,
        };
        let rest = match self.read_records(count - 1) {
            None => {
                return None;
            },
            Some(v) => v,
        };
        let ghost rest_view = rest.deep_view();
        let mut out = rest;
        out.insert(0, rec);
        proof {
            assert forall|j: int|
                0 <= j < out@.len() implies out.deep_view()[j] == seq![rec@].add(rest_view)[j] by {
                assert(out.deep_view()[j] == out@[j]@);
                if j > 0 {
                    assert(out@[j]@ == rest_view[j - 1]);
                }
            }
            assert(out.deep_view() =~~= seq![rec@].add(rest_view));
        }
        Some(out)
    }
}

// ---------------------------------------------------------------------
// The writer.
// ---------------------------------------------------------------------
/// The new buffer extends the old one at `pre_pos` with exactly `bytes`,
/// leaving everything else in place.
pub open spec fn wrote(
    pre_buf: Seq<u8>,
    pre_pos: int,
    post_buf: Seq<u8>,
    post_pos: int,
    bytes: Seq<u8>,
) -> bool {
    &&& 0 <= pre_pos
    &&& post_buf.len() == pre_buf.len()
    &&& post_pos == pre_pos + bytes.len()
    &&& post_pos <= post_buf.len()
    &&& post_buf.subrange(0, pre_pos) == pre_buf.subrange(0, pre_pos)
    &&& post_buf.subrange(pre_pos, post_pos) == bytes
    &&& post_buf.subrange(post_pos, post_buf.len() as int) == pre_buf.subrange(
        post_pos,
        pre_buf.len() as int,
    )
}

/// A failed write may have scribbled at or after `pre_pos`, but nothing
/// before it.
pub open spec fn partial_write(
    pre_buf: Seq<u8>,
    pre_pos: int,
    post_buf: Seq<u8>,
    post_pos: int,
) -> bool {
    &&& 0 <= pre_pos <= pre_buf.len()
    &&& post_pos <= post_buf.len()
    &&& post_buf.len() == pre_buf.len()
    &&& post_pos >= pre_pos
    &&& post_buf.subrange(0, pre_pos) == pre_buf.subrange(0, pre_pos)
}

/// The message with each section cut to a prefix and the truncation flag
/// set.
pub open spec fn spec_truncated(
    m: SpecMessage,
    qn: int,
    an: int,
    un: int,
    dn: int,
) -> SpecMessage {
    SpecMessage {
        is_truncation: true,
        questions: m.questions.take(qn),
        answers: m.answers.take(an),
        authorities: m.authorities.take(un),
        additional: m.additional.take(dn),
        ..m
    }
}

/// Writes one message into a fixed 512-octet datagram buffer.
pub struct DatagramWriter {
    buffer: Vec<u8>,
    pos: usize,
}

impl DatagramWriter {
    pub closed spec fn buf_spec(&self) -> Seq<u8> {
        self.buffer@
    }

    pub closed spec fn pos_spec(&self) -> int {
        self.pos as int
    }

    pub open spec fn wf(&self) -> bool {
        self.buf_spec().len() == 512 && 0 <= self.pos_spec() <= 512
    }

    pub fn new() -> (r: DatagramWriter)
        ensures
            r.wf(),
            r.pos_spec() == 0,
    {
        let mut buffer: Vec<u8> = Vec::new();
        let mut i: usize = 0;
        while i < 512
            invariant
                i <= 512,
                buffer@.len() == i,
            decreases 512 - i,
        {
            buffer.push(0);
            i = i + 1;
        }
        DatagramWriter { buffer, pos: 0 }
    }

    pub fn position(&self) -> (r: usize)
        ensures
            r == self.pos_spec(),
    {
        self.pos
    }

    pub fn buffer(&self) -> (r: &Vec<u8>)
        ensures
            r@ == self.buf_spec(),
    {
        &self.buffer
    }

    fn set_position(&mut self, p: usize)
        requires
            old(self).wf(),
            p <= 512,
        ensures
            final(self).wf(),
            final(self).pos_spec() == p,
            final(self).buf_spec() == old(self).buf_spec(),
    {
        self.pos = p;
    }

    fn write_u8(&mut self, v: u8) -> (ok: bool)
        requires
            old(self).wf(),
        ensures
            final(self).wf(),
            ok == (old(self).pos_spec() < 512),
            ok ==> wrote(
                old(self).buf_spec(),
                old(self).pos_spec(),
                final(self).buf_spec(),
                final(self).pos_spec(),
                seq![v],
            ),
            !ok ==> final(self).buf_spec() == old(self).buf_spec() && final(self).pos_spec()
                == old(self).pos_spec(),
    {
        if self.pos < 512 {
            self.buffer[self.pos] = v;
            self.pos = self.pos + 1;
            proof {
                assert(self.buf_spec().subrange(0, old(self).pos_spec()) =~= old(
                    self,
                ).buf_spec().subrange(0, old(self).pos_spec()));
                assert(self.buf_spec().subrange(old(self).pos_spec(), self.pos_spec())
                    =~= seq![v]);
                assert(self.buf_spec().subrange(self.pos_spec(), 512) =~= old(
                    self,
                ).buf_spec().subrange(self.pos_spec(), 512));
            }
            true
        } else {
            false
        }
    }

    /// Overwrites the octet at `at`.
    fn patch_u8(&mut self, at: usize, v: u8)
        requires
            old(self).wf(),
            at < 512,
        ensures
            final(self).wf(),
            final(self).pos_spec() == old(self).pos_spec(),
            final(self).buf_spec() == old(self).buf_spec().update(at as int, v),
    {
        self.buffer[at] = v;
    }

    /// Overwrites the two octets at `at` with `v` in network byte order.
    fn patch_u16(&mut self, at: usize, v: u16)
        requires
            old(self).wf(),
            at + 2 <= 512,
        ensures
            final(self).wf(),
            final(self).pos_spec() == old(self).pos_spec(),
            final(self).buf_spec() == old(self).buf_spec().update(at as int, (v / 256) as u8).update(
                at + 1,
                (v % 256) as u8,
            ),
    {
        self.buffer[at] = (v / 256) as u8;
        self.buffer[at + 1] = (v % 256) as u8;
    }

    /// Reads the octet at `at`.
    fn peek_u8(&self, at: usize) -> (r: u8)
        requires
            self.wf(),
            at < 512,
        ensures
            r == self.buf_spec()[at as int],
    {
        self.buffer[at]
    }

    fn write_u16(&mut self, v: u16) -> (ok: bool)
        requires
            old(self).wf(),
        ensures
            final(self).wf(),
            ok ==> wrote(
                old(self).buf_spec(),
                old(self).pos_spec(),
                final(self).buf_spec(),
                final(self).pos_spec(),
                enc_u16(v),
            ),
            old(self).pos_spec() + 2 <= 512 ==> ok,
            !ok ==> partial_write(
                old(self).buf_spec(),
                old(self).pos_spec(),
                final(self).buf_spec(),
                final(self).pos_spec(),
            ),
    {
        let hi: u8 = (v / 256) as u8;
        let lo: u8 = (v % 256) as u8;
        if !self.write_u8(hi) {
            return false;
        }
        let ghost mid_buf = self.buf_spec();
        let ghost mid_pos = self.pos_spec();
        if !self.write_u8(lo) {
            proof {
                lemma_partial_after_wrote(old(self).buf_spec(), old(self).pos_spec(), mid_buf,
                    mid_pos, self.buf_spec(), self.pos_spec());
            }
            return false;
        }
        proof {
            lemma_wrote_concat(old(self).buf_spec(), old(self).pos_spec(), self.buf_spec(),
                self.pos_spec(), seq![hi], seq![lo]);
            assert(seq![hi].add(seq![lo]) =~= enc_u16(v));
        }
        true
    }

    fn write_u32(&mut self, v: u32) -> (ok: bool)
        requires
            old(self).wf(),
        ensures
            final(self).wf(),
            ok ==> wrote(
                old(self).buf_spec(),
                old(self).pos_spec(),
                final(self).buf_spec(),
                final(self).pos_spec(),
                enc_u32(v),
            ),
            old(self).pos_spec() + 4 <= 512 ==> ok,
            !ok ==> partial_write(
                old(self).buf_spec(),
                old(self).pos_spec(),
                final(self).buf_spec(),
                final(self).pos_spec(),
            ),
    {
        let hi: u16 = (v / 0x10000) as u16;
        let lo: u16 = (v % 0x10000) as u16;
        if !self.write_u16(hi) {
            return false;
        }
        let ghost mid_buf = self.buf_spec();
        let ghost mid_pos = self.pos_spec();
        if !self.write_u16(lo) {
            proof {
                lemma_partial_after_wrote(old(self).buf_spec(), old(self).pos_spec(), mid_buf,
                    mid_pos, self.buf_spec(), self.pos_spec());
            }
            return false;
        }
        proof {
            lemma_wrote_concat(old(self).buf_spec(), old(self).pos_spec(), self.buf_spec(),
                self.pos_spec(), enc_u16(hi), enc_u16(lo));
            assert(enc_u16(hi).add(enc_u16(lo)) =~= enc_u32(v));
        }
        true
    }

    /// Writes one label as its length octet and its octets.
    pub fn write_label(&mut self, label: &Label) -> (ok: bool)
        requires
            old(self).wf(),
        ensures
            final(self).wf(),
            ok ==> wrote(
                old(self).buf_spec(),
                old(self).pos_spec(),
                final(self).buf_spec(),
                final(self).pos_spec(),
                enc_label(label@),
            ),
            old(self).pos_spec() + enc_label(label@).len() <= 512 ==> ok,
            !ok ==> partial_write(
                old(self).buf_spec(),
                old(self).pos_spec(),
                final(self).buf_spec(),
                final(self).pos_spec(),
            ),
    {
        proof {
            use_type_invariant(label);
        }
        let chars = crate::ascii::str_to_chars(label.as_str());
        let n = chars.len();
        if !self.write_u8(n as u8) {
            return false;
        }
        let ghost mid_buf = self.buf_spec();
        let ghost mid_pos = self.pos_spec();
        proof {
            assert(self.buf_spec().subrange(mid_pos, mid_pos) =~= label@.map_values(
                |c: char| c as u8,
            ).take(0));
        }
        let mut i: usize = 0;
        while i < n
            invariant
                i <= n,
                self.wf(),
                n == label@.len() <= 63,
                chars@ == label@,
                label_wf(label@),
                wrote(
                    mid_buf,
                    mid_pos,
                    self.buf_spec(),
                    self.pos_spec(),
                    label@.map_values(|c: char| c as u8).take(i as int),
                ),
                wrote(
                    old(self).buf_spec(),
                    old(self).pos_spec(),
                    mid_buf,
                    mid_pos,
                    seq![n as u8],
                ),
            decreases n - i,
        {
            let c = chars[i];
            proof {
                assert(label_wf(label@));
                assert(crate::label::is_lower_letter(label@[i as int]) || crate::label::is_digit(
                    label@[i as int],
                ) || label@[i as int] == '-');
            }
            let b: u8 = c as u8;
            let ghost pre_buf = self.buf_spec();
            let ghost pre_pos = self.pos_spec();
            if !self.write_u8(b) {
                proof {
                    lemma_partial_after_wrote(
                        mid_buf,
                        mid_pos,
                        pre_buf,
                        pre_pos,
                        self.buf_spec(),
                        self.pos_spec(),
                    );
                    lemma_partial_after_wrote(
                        old(self).buf_spec(),
                        old(self).pos_spec(),
                        mid_buf,
                        mid_pos,
                        self.buf_spec(),
                        self.pos_spec(),
                    );
                    assert(partial_write(old(self).buf_spec(), old(self).pos_spec(),
                        self.buf_spec(), self.pos_spec()));
                }
                return false;
            }
            proof {
                lemma_wrote_concat(
                    mid_buf,
                    mid_pos,
                    self.buf_spec(),
                    self.pos_spec(),
                    label@.map_values(|c: char| c as u8).take(i as int),
                    seq![b],
                );
                assert(label@.map_values(|c: char| c as u8).take(i + 1)
                    =~= label@.map_values(|c: char| c as u8).take(i as int).add(seq![b]));
            }
            i = i + 1;
        }
        proof {
            assert(label@.map_values(|c: char| c as u8).take(n as int) =~= label@.map_values(
                |c: char| c as u8,
            ));
            lemma_wrote_concat_front(
                old(self).buf_spec(),
                old(self).pos_spec(),
                mid_buf,
                mid_pos,
                self.buf_spec(),
                self.pos_spec(),
                seq![n as u8],
                label@.map_values(|c: char| c as u8),
            );
            assert(seq![n as u8].add(label@.map_values(|c: char| c as u8)) =~= enc_label(label@));
        }
        true
    }
}

/// The labels of a name, each in its wire form, without the closing null
/// octet.
pub open spec fn enc_labels(ls: Seq<Seq<char>>) -> Seq<u8>
    decreases ls.len(),
{
    if ls.len() == 0 {
        Seq::empty()
    } else {
        enc_labels(ls.drop_last()).add(enc_label(ls.last()))
    }
}

/// `enc_labels` unrolled from the front.
pub proof fn lemma_enc_labels_first(ls: Seq<Seq<char>>)
    requires
        ls.len() > 0,
    ensures
        enc_labels(ls) == enc_label(ls[0]).add(enc_labels(ls.drop_first())),
    decreases ls.len(),
{
    if ls.len() == 1 {
        assert(ls.drop_last() =~~= Seq::<Seq<char>>::empty());
        assert(ls.drop_first() =~~= Seq::<Seq<char>>::empty());
        assert(ls.last() == ls[0]);
        assert(enc_labels(ls) =~= enc_label(ls[0]).add(enc_labels(ls.drop_first())));
    } else {
        let dl = ls.drop_last();
        lemma_enc_labels_first(dl);
        assert(dl[0] == ls[0]);
        assert(ls.drop_first().drop_last() =~~= dl.drop_first());
        assert(ls.drop_first().last() == ls.last());
        assert(enc_labels(ls.drop_first()) == enc_labels(dl.drop_first()).add(
            enc_label(ls.last()),
        ));
        assert(enc_labels(ls) =~= enc_label(ls[0]).add(enc_labels(ls.drop_first())));
    }
}

/// A name's wire form is its labels and the null octet.
pub proof fn lemma_enc_name_labels(ls: Seq<Seq<char>>)
    ensures
        enc_name(ls) == enc_labels(ls).add(seq![0u8]),
    decreases ls.len(),
{
    if ls.len() == 0 {
        assert(enc_name(ls) =~= enc_labels(ls).add(seq![0u8]));
    } else {
        lemma_enc_name_labels(ls.drop_first());
        lemma_enc_labels_first(ls);
        assert(enc_name(ls) =~= enc_labels(ls).add(seq![0u8]));
    }
}


/// A written prefix of the labels, with the next label, never exceeds the
/// whole.
pub proof fn lemma_enc_labels_take_le(ls: Seq<Seq<char>>, i: int)
    requires
        0 <= i < ls.len(),
    ensures
        enc_labels(ls.take(i)).len() + enc_label(ls[i]).len() <= enc_labels(ls).len(),
    decreases ls.len(),
{
    if i == ls.len() - 1 {
        assert(ls.take(i) =~~= ls.drop_last());
        assert(ls.last() == ls[i]);
    } else {
        lemma_enc_labels_take_le(ls.drop_last(), i);
        assert(ls.drop_last().take(i) =~~= ls.take(i));
        assert(ls.drop_last()[i] == ls[i]);
    }
}

impl DatagramWriter {
    /// Writes raw octets.
    fn write_bytes(&mut self, bytes: &[u8]) -> (ok: bool)
        requires
            old(self).wf(),
        ensures
            final(self).wf(),
            ok ==> wrote(
                old(self).buf_spec(),
                old(self).pos_spec(),
                final(self).buf_spec(),
                final(self).pos_spec(),
                bytes@,
            ),
            old(self).pos_spec() + bytes@.len() <= 512 ==> ok,
            !ok ==> partial_write(
                old(self).buf_spec(),
                old(self).pos_spec(),
                final(self).buf_spec(),
                final(self).pos_spec(),
            ),
    {
        let n = bytes.len();
        proof {
            assert(self.buf_spec().subrange(self.pos_spec(), self.pos_spec()) =~= bytes@.take(0));
        }
        let mut i: usize = 0;
        while i < n
            invariant
                i <= n,
                n == bytes@.len(),
                self.wf(),
                wrote(
                    old(self).buf_spec(),
                    old(self).pos_spec(),
                    self.buf_spec(),
                    self.pos_spec(),
                    bytes@.take(i as int),
                ),
            decreases n - i,
        {
            let ghost pre_buf = self.buf_spec();
            let ghost pre_pos = self.pos_spec();
            if !self.write_u8(bytes[i]) {
                proof {
                    lemma_partial_after_wrote(
                        old(self).buf_spec(),
                        old(self).pos_spec(),
                        pre_buf,
                        pre_pos,
                        self.buf_spec(),
                        self.pos_spec(),
                    );
                }
                return false;
            }
            proof {
                lemma_wrote_concat(
                    old(self).buf_spec(),
                    old(self).pos_spec(),
                    self.buf_spec(),
                    self.pos_spec(),
                    bytes@.take(i as int),
                    seq![bytes@[i as int]],
                );
                assert(bytes@.take(i + 1) =~= bytes@.take(i as int).add(seq![bytes@[i as int]]));
            }
            i = i + 1;
        }
        proof {
            assert(bytes@.take(n as int) =~= bytes@);
        }
        true
    }

    /// Writes a name as its labels, closed by the null octet; no
    /// compression pointers are emitted.
    pub fn write_name(&mut self, name: &Name) -> (ok: bool)
        requires
            old(self).wf(),
        ensures
            final(self).wf(),
            ok ==> wrote(
                old(self).buf_spec(),
                old(self).pos_spec(),
                final(self).buf_spec(),
                final(self).pos_spec(),
                enc_name(name@),
            ),
            old(self).pos_spec() + enc_name(name@).len() <= 512 ==> ok,
            !ok ==> partial_write(
                old(self).buf_spec(),
                old(self).pos_spec(),
                final(self).buf_spec(),
                final(self).pos_spec(),
            ),
    {
        let labels = name.labels();
        let n = labels.len();
        proof {
            assert(self.buf_spec().subrange(self.pos_spec(), self.pos_spec()) =~= enc_labels(
                name@.take(0),
            ));
        }
        let mut i: usize = 0;
        while i < n
            invariant
                i <= n,
                n == labels@.len(),
                labels.deep_view() == name@,
                self.wf(),
                wrote(
                    old(self).buf_spec(),
                    old(self).pos_spec(),
                    self.buf_spec(),
                    self.pos_spec(),
                    enc_labels(name@.take(i as int)),
                ),
            decreases n - i,
        {
            let ghost pre_buf = self.buf_spec();
            let ghost pre_pos = self.pos_spec();
            proof {
                assert(labels.deep_view()[i as int] == labels@[i as int]@);
            }
            if !self.write_label(&labels[i]) {
                proof {
                    lemma_partial_after_wrote(
                        old(self).buf_spec(),
                        old(self).pos_spec(),
                        pre_buf,
                        pre_pos,
                        self.buf_spec(),
                        self.pos_spec(),
                    );
                    lemma_enc_name_labels(name@);
                    lemma_enc_labels_take_le(name@, i as int);
                }
                return false;
            }
            proof {
                lemma_wrote_concat(
                    old(self).buf_spec(),
                    old(self).pos_spec(),
                    self.buf_spec(),
                    self.pos_spec(),
                    enc_labels(name@.take(i as int)),
                    enc_label(name@[i as int]),
                );
                assert(name@.take(i + 1).drop_last() =~~= name@.take(i as int));
                assert(name@.take(i + 1).last() == name@[i as int]);
                assert(enc_labels(name@.take(i + 1)) == enc_labels(name@.take(i as int)).add(
                    enc_label(name@[i as int]),
                ));
            }
            i = i + 1;
        }
        let ghost pre_buf = self.buf_spec();
        let ghost pre_pos = self.pos_spec();
        if !self.write_u8(0) {
            proof {
                lemma_partial_after_wrote(
                    old(self).buf_spec(),
                    old(self).pos_spec(),
                    pre_buf,
                    pre_pos,
                    self.buf_spec(),
                    self.pos_spec(),
                );
                lemma_enc_name_labels(name@);
                assert(name@.take(n as int) =~~= name@);
            }
            return false;
        }
        proof {
            assert(name@.take(n as int) =~~= name@);
            lemma_wrote_concat(
                old(self).buf_spec(),
                old(self).pos_spec(),
                self.buf_spec(),
                self.pos_spec(),
                enc_labels(name@),
                seq![0u8],
            );
            lemma_enc_name_labels(name@);
        }
        true
    }

    /// Writes one question.
    pub fn write_question(&mut self, question: &Question) -> (ok: bool)
        requires
            old(self).wf(),
        ensures
            final(self).wf(),
            ok ==> wrote(
                old(self).buf_spec(),
                old(self).pos_spec(),
                final(self).buf_spec(),
                final(self).pos_spec(),
                enc_question(question@),
            ),
            old(self).pos_spec() + enc_question(question@).len() <= 512 ==> ok,
            !ok ==> partial_write(
                old(self).buf_spec(),
                old(self).pos_spec(),
                final(self).buf_spec(),
                final(self).pos_spec(),
            ),
    {
        if !self.write_name(question.name()) {
            return false;
        }
        let ghost b1 = self.buf_spec();
        let ghost p1 = self.pos_spec();
        if !self.write_u16(question.query_type().to_u16()) {
            proof {
                lemma_partial_after_wrote(old(self).buf_spec(), old(self).pos_spec(), b1, p1,
                    self.buf_spec(), self.pos_spec());
            }
            return false;
        }
        proof {
            lemma_wrote_concat(old(self).buf_spec(), old(self).pos_spec(), self.buf_spec(),
                self.pos_spec(), enc_name(question@.name),
                enc_u16(spec_query_type_to_u16(question@.query_type)));
        }
        let ghost b2 = self.buf_spec();
        let ghost p2 = self.pos_spec();
        if !self.write_u16(question.query_class().to_u16()) {
            proof {
                lemma_partial_after_wrote(old(self).buf_spec(), old(self).pos_spec(), b2, p2,
                    self.buf_spec(), self.pos_spec());
            }
            return false;
        }
        proof {
            lemma_wrote_concat(old(self).buf_spec(), old(self).pos_spec(), self.buf_spec(),
                self.pos_spec(),
                enc_name(question@.name).add(enc_u16(spec_query_type_to_u16(question@.query_type))),
                enc_u16(spec_query_class_to_u16(question@.query_class)));
        }
        true
    }

    /// Writes record data in its wire form.
    fn write_data(&mut self, data: &Data) -> (ok: bool)
        requires
            old(self).wf(),
        ensures
            final(self).wf(),
            ok ==> wrote(
                old(self).buf_spec(),
                old(self).pos_spec(),
                final(self).buf_spec(),
                final(self).pos_spec(),
                enc_data(data@),
            ),
            old(self).pos_spec() + enc_data(data@).len() <= 512 ==> ok,
            !ok ==> partial_write(
                old(self).buf_spec(),
                old(self).pos_spec(),
                final(self).buf_spec(),
                final(self).pos_spec(),
            ),
    {
        match data {
            Data::A(d) => {
                let a = d.address();
                let mut v: Vec<u8> = Vec::new();
                v.push(a.o0);
                v.push(a.o1);
                v.push(a.o2);
                v.push(a.o3);
                proof {
                    assert(v@ =~= enc_data(data@));
                }
                self.write_bytes(v.as_slice())
            },
            Data::Ns(d) => self.write_name(d.name_server()),
            Data::Cname(d) => self.write_name(d.cname()),
            Data::Aaaa(d) => {
                let a = d.address();
                let mut v: Vec<u8> = Vec::new();
                v.push((a.s0 / 256) as u8);
                v.push((a.s0 % 256) as u8);
                v.push((a.s1 / 256) as u8);
                v.push((a.s1 % 256) as u8);
                v.push((a.s2 / 256) as u8);
                v.push((a.s2 % 256) as u8);
                v.push((a.s3 / 256) as u8);
                v.push((a.s3 % 256) as u8);
                v.push((a.s4 / 256) as u8);
                v.push((a.s4 % 256) as u8);
                v.push((a.s5 / 256) as u8);
                v.push((a.s5 % 256) as u8);
                v.push((a.s6 / 256) as u8);
                v.push((a.s6 % 256) as u8);
                v.push((a.s7 / 256) as u8);
                v.push((a.s7 % 256) as u8);
                proof {
                    assert(v@ =~= enc_data(data@));
                }
                self.write_bytes(v.as_slice())
            },
            Data::Mx(d) => {
                if !self.write_u16(d.preference()) {
                    return false;
                }
                let ghost b1 = self.buf_spec();
                let ghost p1 = self.pos_spec();
                if !self.write_name(d.exchange()) {
                    proof {
                        lemma_partial_after_wrote(old(self).buf_spec(), old(self).pos_spec(), b1,
                            p1, self.buf_spec(), self.pos_spec());
                    }
                    return false;
                }
                proof {
                    lemma_wrote_concat(old(self).buf_spec(), old(self).pos_spec(), self.buf_spec(),
                        self.pos_spec(), enc_u16(data@->Mx_0.preference),
                        enc_name(data@->Mx_0.exchange));
                }
                true
            },
            Data::Txt(d) => {
                let bytes = d.text().as_bytes();
                proof {
                    assert(bytes@ == enc_data(data@));
                }
                self.write_bytes(bytes)
            },
            Data::Unknown(_, bytes) => self.write_bytes(bytes.as_slice()),
        }
    }

    /// Writes one record, back-patching the data length.
    pub fn write_record(&mut self, record: &Record) -> (ok: bool)
        requires
            old(self).wf(),
        ensures
            final(self).wf(),
            ok ==> wrote(
                old(self).buf_spec(),
                old(self).pos_spec(),
                final(self).buf_spec(),
                final(self).pos_spec(),
                enc_record(record@),
            ),
            old(self).pos_spec() + enc_record(record@).len() <= 512 ==> ok,
            !ok ==> partial_write(
                old(self).buf_spec(),
                old(self).pos_spec(),
                final(self).buf_spec(),
                final(self).pos_spec(),
            ),
    {
        let ghost front = enc_name(record@.name).add(
            enc_u16(spec_record_type_to_u16(crate::data::spec_data_record_type(record@.data))),
        ).add(enc_u16(spec_class_to_u16(record@.class))).add(enc_u32(record@.ttl));
        if !self.write_name(record.name()) {
            return false;
        }
        let ghost b1 = self.buf_spec();
        let ghost p1 = self.pos_spec();
        if !self.write_u16(record.record_type().to_u16()) {
            proof {
                lemma_partial_after_wrote(old(self).buf_spec(), old(self).pos_spec(), b1, p1,
                    self.buf_spec(), self.pos_spec());
            }
            return false;
        }
        proof {
            lemma_wrote_concat(old(self).buf_spec(), old(self).pos_spec(), self.buf_spec(),
                self.pos_spec(), enc_name(record@.name),
                enc_u16(spec_record_type_to_u16(crate::data::spec_data_record_type(record@.data))));
        }
        let ghost b2 = self.buf_spec();
        let ghost p2 = self.pos_spec();
        if !self.write_u16(record.class().to_u16()) {
            proof {
                lemma_partial_after_wrote(old(self).buf_spec(), old(self).pos_spec(), b2, p2,
                    self.buf_spec(), self.pos_spec());
            }
            return false;
        }
        proof {
            lemma_wrote_concat(old(self).buf_spec(), old(self).pos_spec(), self.buf_spec(),
                self.pos_spec(),
                enc_name(record@.name).add(
                    enc_u16(
                        spec_record_type_to_u16(crate::data::spec_data_record_type(record@.data)),
                    ),
                ), enc_u16(spec_class_to_u16(record@.class)));
        }
        let ghost b3 = self.buf_spec();
        let ghost p3 = self.pos_spec();
        if !self.write_u32(record.ttl()) {
            proof {
                lemma_partial_after_wrote(old(self).buf_spec(), old(self).pos_spec(), b3, p3,
                    self.buf_spec(), self.pos_spec());
            }
            return false;
        }
        proof {
            lemma_wrote_concat(old(self).buf_spec(), old(self).pos_spec(), self.buf_spec(),
                self.pos_spec(),
                enc_name(record@.name).add(
                    enc_u16(
                        spec_record_type_to_u16(crate::data::spec_data_record_type(record@.data)),
                    ),
                ).add(enc_u16(spec_class_to_u16(record@.class))), enc_u32(record@.ttl));
            assert(wrote(old(self).buf_spec(), old(self).pos_spec(), self.buf_spec(),
                self.pos_spec(), front));
        }
        let len_pos = self.position();
        let ghost b4 = self.buf_spec();
        if !self.write_u16(0) {
            proof {
                lemma_partial_after_wrote(old(self).buf_spec(), old(self).pos_spec(), b4,
                    len_pos as int, self.buf_spec(), self.pos_spec());
            }
            return false;
        }
        let data_start = self.position();
        let ghost b5 = self.buf_spec();
        if !self.write_data(record.data()) {
            proof {
                lemma_partial_after_wrote(b4, len_pos as int, b5, data_start as int,
                    self.buf_spec(), self.pos_spec());
                lemma_partial_after_wrote(old(self).buf_spec(), old(self).pos_spec(), b4,
                    len_pos as int, self.buf_spec(), self.pos_spec());
            }
            return false;
        }
        let data_end = self.position();
        let ghost b6 = self.buf_spec();
        let rdlength: u16 = ((data_end - data_start) as u16);
        self.patch_u16(len_pos, rdlength);
        proof {
            let pre = old(self).buf_spec();
            let pos0 = old(self).pos_spec();
            let cur = self.buf_spec();
            let target = enc_record(record@);
            let data_bytes = enc_data(record@.data);
            let lp = len_pos as int;
            let ds = data_start as int;
            let de = data_end as int;
            assert(rdlength as int == data_bytes.len());
            assert(target =~= front.add(enc_u16(data_bytes.len() as u16)).add(data_bytes));
            assert(cur == b6.update(lp, (rdlength / 256) as u8).update(
                lp + 1,
                (rdlength % 256) as u8,
            ));
            assert(cur.subrange(0, pos0) =~= pre.subrange(0, pos0)) by {
                assert forall|k: int| 0 <= k < pos0 implies cur[k] == pre[k] by {
                    assert(cur[k] == b6[k]);
                    assert(b6.subrange(0, ds)[k] == b5.subrange(0, ds)[k]);
                    assert(b5.subrange(0, lp)[k] == b4.subrange(0, lp)[k]);
                    assert(b4.subrange(0, pos0)[k] == pre.subrange(0, pos0)[k]);
                }
            }
            assert(cur.subrange(pos0, de) =~= target) by {
                assert forall|k: int| 0 <= k < de - pos0 implies cur.subrange(pos0, de)[k]
                    == target[k] by {
                    if k < front.len() {
                        assert(cur[pos0 + k] == b6[pos0 + k]);
                        assert(b6.subrange(0, ds)[pos0 + k] == b5.subrange(0, ds)[pos0 + k]);
                        assert(b5.subrange(0, lp)[pos0 + k] == b4.subrange(0, lp)[pos0 + k]);
                        assert(b4.subrange(pos0, lp)[k] == front[k]);
                    } else if k < front.len() + 2 {
                        if k == front.len() {
                            assert(cur[pos0 + k] == (rdlength / 256) as u8);
                        } else {
                            assert(cur[pos0 + k] == (rdlength % 256) as u8);
                        }
                        assert(target[k] == enc_u16(data_bytes.len() as u16)[k - front.len()]);
                    } else {
                        assert(cur[pos0 + k] == b6[pos0 + k]);
                        assert(b6.subrange(ds, de)[k - front.len() - 2] == data_bytes[k
                            - front.len() - 2]);
                    }
                }
            }
            assert(cur.subrange(de, cur.len() as int) =~= pre.subrange(de, pre.len() as int)) by {
                assert forall|k: int| de <= k < cur.len() implies cur[k] == pre[k] by {
                    assert(cur[k] == b6[k]);
                    assert(b6.subrange(de, 512)[k - de] == b5.subrange(de, 512)[k - de]);
                    assert(b5.subrange(ds, 512)[k - ds] == b4.subrange(ds, 512)[k - ds]);
                    assert(b4.subrange(lp, 512)[k - lp] == pre.subrange(lp, 512)[k - lp]);
                }
            }
            assert(wrote(pre, pos0, cur, self.pos_spec(), target));
        }
        true
    }
}

impl DatagramWriter {
    /// Writes a whole message. Every record write that would overflow the
    /// 512-octet datagram is undone; the truncation bit is then set and the
    /// section counts are patched to the records actually written, so the
    /// datagram always holds a well-formed message.
    #[verifier::rlimit(100)]
    pub fn write_message(&mut self, message: &Message) -> (r: usize)
        requires
            old(self).wf(),
            old(self).pos_spec() == 0,
            message@.questions.len() <= 0xffff,
            message@.answers.len() <= 0xffff,
            message@.authorities.len() <= 0xffff,
            message@.additional.len() <= 0xffff,
        ensures
            final(self).wf(),
            r == final(self).pos_spec(),
            enc_message(message@).len() <= 512 ==> prefix_is(
                final(self).buf_spec(),
                r as int,
                enc_message(message@),
            ),
            enc_message(message@).len() > 512 ==> (exists|qn: int, an: int, un: int, dn: int|
                {
                    &&& 0 <= qn <= message@.questions.len()
                    &&& 0 <= an <= message@.answers.len()
                    &&& 0 <= un <= message@.authorities.len()
                    &&& 0 <= dn <= message@.additional.len()
                    &&& #[trigger] enc_message(spec_truncated(message@, qn, an, un, dn)).len()
                        == r
                    &&& prefix_is(
                        final(self).buf_spec(),
                        r as int,
                        enc_message(spec_truncated(message@, qn, an, un, dn)),
                    )
                }),
    {
        let ghost m = message@;
        proof {
            assert(self.buf_spec().subrange(0, 0) =~= Seq::<u8>::empty());
        }
        let ghost g0_buf = self.buf_spec();
        self.write_u16(message.id());
        proof {
            lemma_prefix_extend(g0_buf, 0, self.buf_spec(), self.pos_spec(),
                Seq::<u8>::empty(), enc_u16(m.id));
            assert(Seq::<u8>::empty().add(enc_u16(m.id)) =~= enc_u16(m.id));
        }
        let byte2: u8 = (if message.is_response() {
            0x80u8
        } else {
            0u8
        }) | ((message.opcode().to_u8() as u16 * 8) as u8) | (if message.is_authoritative_answer() {
            0x04u8
        } else {
            0u8
        }) | (if message.is_truncation() {
            0x02u8
        } else {
            0u8
        }) | (if message.recursion_desired() {
            0x01u8
        } else {
            0u8
        });
        let byte3: u8 = (if message.recursion_available() {
            0x80u8
        } else {
            0u8
        }) | message.response_code().to_u8();
        let ghost g1_buf = self.buf_spec();
        let ghost g1_pos = self.pos_spec();
        self.write_u8(byte2);
        proof {
            lemma_prefix_extend(g1_buf, g1_pos, self.buf_spec(), self.pos_spec(), enc_u16(m.id),
                seq![byte2]);
        }
        let ghost g2_buf = self.buf_spec();
        let ghost g2_pos = self.pos_spec();
        self.write_u8(byte3);
        proof {
            lemma_prefix_extend(g2_buf, g2_pos, self.buf_spec(), self.pos_spec(),
                enc_u16(m.id).add(seq![byte2]), seq![byte3]);
        }
        let qs = message.questions();
        let ans = message.answers();
        let auth = message.authorities();
        let addl = message.additional();
        let qtotal = qs.len();
        let atotal = ans.len();
        let utotal = auth.len();
        let dtotal = addl.len();
        let ghost g3_buf = self.buf_spec();
        let ghost g3_pos = self.pos_spec();
        self.write_u16(qtotal as u16);
        proof {
            lemma_prefix_extend(g3_buf, g3_pos, self.buf_spec(), self.pos_spec(),
                enc_u16(m.id).add(seq![byte2]).add(seq![byte3]),
                enc_u16(m.questions.len() as u16));
        }
        let ghost g4_buf = self.buf_spec();
        let ghost g4_pos = self.pos_spec();
        self.write_u16(atotal as u16);
        proof {
            lemma_prefix_extend(g4_buf, g4_pos, self.buf_spec(), self.pos_spec(),
                enc_u16(m.id).add(seq![byte2]).add(seq![byte3]).add(
                    enc_u16(m.questions.len() as u16),
                ), enc_u16(m.answers.len() as u16));
        }
        let ghost g5_buf = self.buf_spec();
        let ghost g5_pos = self.pos_spec();
        self.write_u16(utotal as u16);
        proof {
            lemma_prefix_extend(g5_buf, g5_pos, self.buf_spec(), self.pos_spec(),
                enc_u16(m.id).add(seq![byte2]).add(seq![byte3]).add(
                    enc_u16(m.questions.len() as u16),
                ).add(enc_u16(m.answers.len() as u16)), enc_u16(m.authorities.len() as u16));
        }
        let ghost g6_buf = self.buf_spec();
        let ghost g6_pos = self.pos_spec();
        self.write_u16(dtotal as u16);
        proof {
            lemma_prefix_extend(g6_buf, g6_pos, self.buf_spec(), self.pos_spec(),
                enc_u16(m.id).add(seq![byte2]).add(seq![byte3]).add(
                    enc_u16(m.questions.len() as u16),
                ).add(enc_u16(m.answers.len() as u16)).add(enc_u16(m.authorities.len() as u16)),
                enc_u16(m.additional.len() as u16));
        }
        let ghost header = enc_u16(m.id).add(seq![enc_byte2(m), enc_byte3(m)]).add(
            enc_u16(m.questions.len() as u16),
        ).add(enc_u16(m.answers.len() as u16)).add(enc_u16(m.authorities.len() as u16)).add(
            enc_u16(m.additional.len() as u16),
        );
        proof {
            assert(byte2 == enc_byte2(m));
            assert(byte3 == enc_byte3(m));
            assert(enc_u16(m.id).add(seq![byte2]).add(seq![byte3]).add(
                enc_u16(m.questions.len() as u16),
            ).add(enc_u16(m.answers.len() as u16)).add(enc_u16(m.authorities.len() as u16)).add(
                enc_u16(m.additional.len() as u16),
            ) =~= header);
            assert(prefix_is(self.buf_spec(), self.pos_spec(), header));
        }
        let mut truncated = false;
        let mut qn: usize = 0;
        while qn < qtotal && !truncated
            invariant
                self.wf(),
                qn <= qtotal,
                qtotal == m.questions.len() <= 0xffff,
                qs.deep_view() == m.questions,
                m == message@,
                header.len() == 12,
                prefix_is(
                    self.buf_spec(),
                    self.pos_spec(),
                    header.add(enc_questions(m.questions.take(qn as int))),
                ),
                truncated ==> enc_message(m).len() > 512,
            decreases qtotal - qn + (if truncated { 0int } else { 1int }),
        {
            proof {
                assert(qs.deep_view()[qn as int] == qs@[qn as int]@);
            }
            let save = self.position();
            let ghost pre_buf = self.buf_spec();
            if self.write_question(&qs[qn]) {
                proof {
                    lemma_prefix_extend(
                        pre_buf,
                        save as int,
                        self.buf_spec(),
                        self.pos_spec(),
                        header.add(enc_questions(m.questions.take(qn as int))),
                        enc_question(m.questions[qn as int]),
                    );
                    lemma_enc_questions_take(m.questions, qn as int);
                    assert(header.add(enc_questions(m.questions.take(qn as int))).add(
                        enc_question(m.questions[qn as int]),
                    ) =~= header.add(enc_questions(m.questions.take(qn + 1))));
                }
                qn = qn + 1;
            } else {
                proof {
                    lemma_prefix_after_partial(
                        pre_buf,
                        save as int,
                        self.buf_spec(),
                        self.pos_spec(),
                        header.add(enc_questions(m.questions.take(qn as int))),
                    );
                    lemma_enc_questions_take_le(m.questions, qn as int);
                    lemma_message_len_parts(m);
                    assert(header.len() == 12);
                    assert(self.pos_spec() + enc_question(m.questions[qn as int]).len() > 512);
                    assert(enc_message(m).len() >= 12 + enc_questions(
                        m.questions.take(qn as int),
                    ).len() + enc_question(m.questions[qn as int]).len());
                    assert(enc_message(m).len() > 512);
                }
                self.set_position(save);
                truncated = true;
            }
        }
        let mut an: usize = 0;
        while an < atotal && !truncated
            invariant
                self.wf(),
                qn <= qtotal,
                an <= atotal,
                qtotal == m.questions.len() <= 0xffff,
                atotal == m.answers.len() <= 0xffff,
                ans.deep_view() == m.answers,
                m == message@,
                header.len() == 12,
                !truncated ==> qn == qtotal,
                prefix_is(
                    self.buf_spec(),
                    self.pos_spec(),
                    header.add(enc_questions(m.questions.take(qn as int))).add(
                        enc_records(m.answers.take(an as int)),
                    ),
                ),
                truncated ==> enc_message(m).len() > 512,
            decreases atotal - an + (if truncated { 0int } else { 1int }),
        {
            proof {
                assert(ans.deep_view()[an as int] == ans@[an as int]@);
            }
            let save = self.position();
            let ghost pre_buf = self.buf_spec();
            if self.write_record(&ans[an]) {
                proof {
                    lemma_prefix_extend(
                        pre_buf,
                        save as int,
                        self.buf_spec(),
                        self.pos_spec(),
                        header.add(enc_questions(m.questions.take(qn as int))).add(
                            enc_records(m.answers.take(an as int)),
                        ),
                        enc_record(m.answers[an as int]),
                    );
                    lemma_enc_records_take(m.answers, an as int);
                    assert(header.add(enc_questions(m.questions.take(qn as int))).add(
                        enc_records(m.answers.take(an as int)),
                    ).add(enc_record(m.answers[an as int])) =~= header.add(
                        enc_questions(m.questions.take(qn as int)),
                    ).add(enc_records(m.answers.take(an + 1))));
                }
                an = an + 1;
            } else {
                proof {
                    lemma_prefix_after_partial(
                        pre_buf,
                        save as int,
                        self.buf_spec(),
                        self.pos_spec(),
                        header.add(enc_questions(m.questions.take(qn as int))).add(
                            enc_records(m.answers.take(an as int)),
                        ),
                    );
                    lemma_enc_records_take_le(m.answers, an as int);
                    lemma_message_len_parts(m);
                    assert(m.questions.take(qn as int) =~~= m.questions);
                    assert(header.len() == 12);
                    assert(self.pos_spec() + enc_record(m.answers[an as int]).len() > 512);
                    assert(enc_message(m).len() >= 12 + enc_questions(m.questions).len()
                        + enc_records(m.answers.take(an as int)).len() + enc_record(
                        m.answers[an as int],
                    ).len());
                    assert(enc_message(m).len() > 512);
                }
                self.set_position(save);
                truncated = true;
            }
        }
        let mut un: usize = 0;
        while un < utotal && !truncated
            invariant
                self.wf(),
                qn <= qtotal,
                an <= atotal,
                un <= utotal,
                qtotal == m.questions.len() <= 0xffff,
                atotal == m.answers.len() <= 0xffff,
                utotal == m.authorities.len() <= 0xffff,
                auth.deep_view() == m.authorities,
                m == message@,
                header.len() == 12,
                !truncated ==> qn == qtotal && an == atotal,
                prefix_is(
                    self.buf_spec(),
                    self.pos_spec(),
                    header.add(enc_questions(m.questions.take(qn as int))).add(
                        enc_records(m.answers.take(an as int)),
                    ).add(enc_records(m.authorities.take(un as int))),
                ),
                truncated ==> enc_message(m).len() > 512,
            decreases utotal - un + (if truncated { 0int } else { 1int }),
        {
            proof {
                assert(auth.deep_view()[un as int] == auth@[un as int]@);
            }
            let save = self.position();
            let ghost pre_buf = self.buf_spec();
            if self.write_record(&auth[un]) {
                proof {
                    lemma_prefix_extend(
                        pre_buf,
                        save as int,
                        self.buf_spec(),
                        self.pos_spec(),
                        header.add(enc_questions(m.questions.take(qn as int))).add(
                            enc_records(m.answers.take(an as int)),
                        ).add(enc_records(m.authorities.take(un as int))),
                        enc_record(m.authorities[un as int]),
                    );
                    lemma_enc_records_take(m.authorities, un as int);
                    assert(header.add(enc_questions(m.questions.take(qn as int))).add(
                        enc_records(m.answers.take(an as int)),
                    ).add(enc_records(m.authorities.take(un as int))).add(
                        enc_record(m.authorities[un as int]),
                    ) =~= header.add(enc_questions(m.questions.take(qn as int))).add(
                        enc_records(m.answers.take(an as int)),
                    ).add(enc_records(m.authorities.take(un + 1))));
                }
                un = un + 1;
            } else {
                proof {
                    lemma_prefix_after_partial(
                        pre_buf,
                        save as int,
                        self.buf_spec(),
                        self.pos_spec(),
                        header.add(enc_questions(m.questions.take(qn as int))).add(
                            enc_records(m.answers.take(an as int)),
                        ).add(enc_records(m.authorities.take(un as int))),
                    );
                    lemma_enc_records_take_le(m.authorities, un as int);
                    lemma_message_len_parts(m);
                    assert(m.questions.take(qn as int) =~~= m.questions);
                    assert(m.answers.take(an as int) =~~= m.answers);
                    assert(header.len() == 12);
                    assert(self.pos_spec() + enc_record(m.authorities[un as int]).len() > 512);
                    assert(enc_message(m).len() >= 12 + enc_questions(m.questions).len()
                        + enc_records(m.answers).len() + enc_records(
                        m.authorities.take(un as int),
                    ).len() + enc_record(m.authorities[un as int]).len());
                    assert(enc_message(m).len() > 512);
                }
                self.set_position(save);
                truncated = true;
            }
        }
        let mut dn: usize = 0;
        while dn < dtotal && !truncated
            invariant
                self.wf(),
                qn <= qtotal,
                an <= atotal,
                un <= utotal,
                dn <= dtotal,
                qtotal == m.questions.len() <= 0xffff,
                atotal == m.answers.len() <= 0xffff,
                utotal == m.authorities.len() <= 0xffff,
                dtotal == m.additional.len() <= 0xffff,
                addl.deep_view() == m.additional,
                m == message@,
                header.len() == 12,
                !truncated ==> qn == qtotal && an == atotal && un == utotal,
                prefix_is(
                    self.buf_spec(),
                    self.pos_spec(),
                    header.add(enc_questions(m.questions.take(qn as int))).add(
                        enc_records(m.answers.take(an as int)),
                    ).add(enc_records(m.authorities.take(un as int))).add(
                        enc_records(m.additional.take(dn as int)),
                    ),
                ),
                truncated ==> enc_message(m).len() > 512,
            decreases dtotal - dn + (if truncated { 0int } else { 1int }),
        {
            proof {
                assert(addl.deep_view()[dn as int] == addl@[dn as int]@);
            }
            let save = self.position();
            let ghost pre_buf = self.buf_spec();
            if self.write_record(&addl[dn]) {
                proof {
                    lemma_prefix_extend(
                        pre_buf,
                        save as int,
                        self.buf_spec(),
                        self.pos_spec(),
                        header.add(enc_questions(m.questions.take(qn as int))).add(
                            enc_records(m.answers.take(an as int)),
                        ).add(enc_records(m.authorities.take(un as int))).add(
                            enc_records(m.additional.take(dn as int)),
                        ),
                        enc_record(m.additional[dn as int]),
                    );
                    lemma_enc_records_take(m.additional, dn as int);
                    assert(header.add(enc_questions(m.questions.take(qn as int))).add(
                        enc_records(m.answers.take(an as int)),
                    ).add(enc_records(m.authorities.take(un as int))).add(
                        enc_records(m.additional.take(dn as int)),
                    ).add(enc_record(m.additional[dn as int])) =~= header.add(
                        enc_questions(m.questions.take(qn as int)),
                    ).add(enc_records(m.answers.take(an as int))).add(
                        enc_records(m.authorities.take(un as int)),
                    ).add(enc_records(m.additional.take(dn + 1))));
                }
                dn = dn + 1;
            } else {
                proof {
                    lemma_prefix_after_partial(
                        pre_buf,
                        save as int,
                        self.buf_spec(),
                        self.pos_spec(),
                        header.add(enc_questions(m.questions.take(qn as int))).add(
                            enc_records(m.answers.take(an as int)),
                        ).add(enc_records(m.authorities.take(un as int))).add(
                            enc_records(m.additional.take(dn as int)),
                        ),
                    );
                    lemma_enc_records_take_le(m.additional, dn as int);
                    lemma_message_len_parts(m);
                    assert(m.questions.take(qn as int) =~~= m.questions);
                    assert(m.answers.take(an as int) =~~= m.answers);
                    assert(m.authorities.take(un as int) =~~= m.authorities);
                    assert(header.len() == 12);
                    assert(self.pos_spec() + enc_record(m.additional[dn as int]).len() > 512);
                    assert(enc_message(m).len() >= 12 + enc_questions(m.questions).len()
                        + enc_records(m.answers).len() + enc_records(m.authorities).len()
                        + enc_records(m.additional.take(dn as int)).len() + enc_record(
                        m.additional[dn as int],
                    ).len());
                    assert(enc_message(m).len() > 512);
                }
                self.set_position(save);
                truncated = true;
            }
        }
        if !truncated {
            proof {
                assert(m.questions.take(qtotal as int) =~~= m.questions);
                assert(m.answers.take(atotal as int) =~~= m.answers);
                assert(m.authorities.take(utotal as int) =~~= m.authorities);
                assert(m.additional.take(dtotal as int) =~~= m.additional);
                lemma_message_len_parts(m);
                assert(header.add(enc_questions(m.questions)).add(enc_records(m.answers)).add(
                    enc_records(m.authorities),
                ).add(enc_records(m.additional)) =~= enc_message(m));
            }
            return self.position();
        }
        let ghost pre_patch = self.buf_spec();
        let ghost body = header.add(enc_questions(m.questions.take(qn as int))).add(
            enc_records(m.answers.take(an as int)),
        ).add(enc_records(m.authorities.take(un as int))).add(
            enc_records(m.additional.take(dn as int)),
        );
        let old_byte2 = self.peek_u8(2);
        self.patch_u8(2, old_byte2 | 0x02);
        self.patch_u16(4, qn as u16);
        self.patch_u16(6, an as u16);
        self.patch_u16(8, un as u16);
        self.patch_u16(10, dn as u16);
        proof {
            assert(header[2] == enc_byte2(m)) by {
                assert(enc_u16(m.id).add(seq![enc_byte2(m), enc_byte3(m)])[2] == enc_byte2(m));
            }
            assert(pre_patch.subrange(0, self.pos_spec())[2] == body[2]);
            assert(body[2] == header[2]);
            assert(old_byte2 == enc_byte2(m));
            assert(self.buf_spec() == pre_patch.update(2, (old_byte2 | 0x02)).update(
                4,
                ((qn as u16) / 256) as u8,
            ).update(5, ((qn as u16) % 256) as u8).update(6, ((an as u16) / 256) as u8).update(
                7,
                ((an as u16) % 256) as u8,
            ).update(8, ((un as u16) / 256) as u8).update(9, ((un as u16) % 256) as u8).update(
                10,
                ((dn as u16) / 256) as u8,
            ).update(11, ((dn as u16) % 256) as u8));
            lemma_truncation_stitch(
                m,
                qn as int,
                an as int,
                un as int,
                dn as int,
                header,
                body,
                pre_patch,
                self.buf_spec(),
                self.pos_spec(),
                old_byte2,
            );
        }
        self.position()
    }
}

/// The length of a message's wire form is the sum of its parts.
pub proof fn lemma_message_len_parts(m: SpecMessage)
    ensures
        enc_message(m).len() == 12 + enc_questions(m.questions).len() + enc_records(
            m.answers,
        ).len() + enc_records(m.authorities).len() + enc_records(m.additional).len(),
{
}

/// Setting the truncation flag in the first flag byte.
pub proof fn lemma_enc_byte2_tc(m: SpecMessage, tm: SpecMessage)
    requires
        tm.is_response == m.is_response,
        tm.opcode == m.opcode,
        tm.is_authoritative_answer == m.is_authoritative_answer,
        tm.is_truncation == true,
        tm.recursion_desired == m.recursion_desired,
    ensures
        enc_byte2(tm) == (enc_byte2(m) | 0x02),
{
    let a: u8 = if m.is_response {
        0x80
    } else {
        0
    };
    let o: u8 = (spec_opcode_to_u8(m.opcode) * 8) as u8;
    let c: u8 = if m.is_authoritative_answer {
        0x04
    } else {
        0
    };
    let tt: u8 = if m.is_truncation {
        0x02
    } else {
        0
    };
    let d: u8 = if m.recursion_desired {
        0x01
    } else {
        0
    };
    assert((a | o | c | tt | d) | 0x02 == (a | o | c | 0x02 | d)) by (bit_vector)
        requires
            tt == 0x02 || tt == 0,
    ;
}

/// `enc_questions` extended by one question.
pub proof fn lemma_enc_questions_take(qs: Seq<SpecQuestion>, i: int)
    requires
        0 <= i < qs.len(),
    ensures
        enc_questions(qs.take(i + 1)) == enc_questions(qs.take(i)).add(enc_question(qs[i])),
{
    assert(qs.take(i + 1).drop_last() =~~= qs.take(i));
    assert(qs.take(i + 1).last() == qs[i]);
}

pub proof fn lemma_enc_records_take(rs: Seq<SpecRecord>, i: int)
    requires
        0 <= i < rs.len(),
    ensures
        enc_records(rs.take(i + 1)) == enc_records(rs.take(i)).add(enc_record(rs[i])),
{
    assert(rs.take(i + 1).drop_last() =~~= rs.take(i));
    assert(rs.take(i + 1).last() == rs[i]);
}

/// A written prefix of the questions, with the next question, never exceeds
/// the whole.
pub proof fn lemma_enc_questions_take_le(qs: Seq<SpecQuestion>, i: int)
    requires
        0 <= i < qs.len(),
    ensures
        enc_questions(qs.take(i)).len() + enc_question(qs[i]).len() <= enc_questions(qs).len(),
    decreases qs.len(),
{
    if i == qs.len() - 1 {
        assert(qs.take(i) =~~= qs.drop_last());
        assert(qs.last() == qs[i]);
    } else {
        lemma_enc_questions_take_le(qs.drop_last(), i);
        assert(qs.drop_last().take(i) =~~= qs.take(i));
        assert(qs.drop_last()[i] == qs[i]);
    }
}

pub proof fn lemma_enc_records_take_le(rs: Seq<SpecRecord>, i: int)
    requires
        0 <= i < rs.len(),
    ensures
        enc_records(rs.take(i)).len() + enc_record(rs[i]).len() <= enc_records(rs).len(),
    decreases rs.len(),
{
    if i == rs.len() - 1 {
        assert(rs.take(i) =~~= rs.drop_last());
        assert(rs.last() == rs[i]);
    } else {
        lemma_enc_records_take_le(rs.drop_last(), i);
        assert(rs.drop_last().take(i) =~~= rs.take(i));
        assert(rs.drop_last()[i] == rs[i]);
    }
}

/// Everything written so far stands as the first `n` octets of the buffer.
pub open spec fn prefix_is(buf: Seq<u8>, n: int, bytes: Seq<u8>) -> bool {
    &&& buf.len() == 512
    &&& 0 <= n <= 512
    &&& n == bytes.len()
    &&& buf.subrange(0, n) == bytes
}

/// A successful write extends the prefix.
pub proof fn lemma_prefix_extend(
    pre_buf: Seq<u8>,
    pre_pos: int,
    post_buf: Seq<u8>,
    post_pos: int,
    head: Seq<u8>,
    bytes: Seq<u8>,
)
    requires
        prefix_is(pre_buf, pre_pos, head),
        wrote(pre_buf, pre_pos, post_buf, post_pos, bytes),
    ensures
        prefix_is(post_buf, post_pos, head.add(bytes)),
{
    assert(post_buf.subrange(0, post_pos) =~= head.add(bytes)) by {
        assert forall|k: int| 0 <= k < post_pos implies post_buf[k] == head.add(bytes)[k] by {
            if k < pre_pos {
                assert(post_buf.subrange(0, pre_pos)[k] == pre_buf.subrange(0, pre_pos)[k]);
                assert(pre_buf.subrange(0, pre_pos)[k] == head[k]);
            } else {
                assert(post_buf.subrange(pre_pos, post_pos)[k - pre_pos] == bytes[k - pre_pos]);
            }
        }
    }
}

/// A failed write followed by a rollback leaves the prefix standing.
pub proof fn lemma_prefix_after_partial(
    pre_buf: Seq<u8>,
    pre_pos: int,
    post_buf: Seq<u8>,
    post_pos: int,
    head: Seq<u8>,
)
    requires
        prefix_is(pre_buf, pre_pos, head),
        partial_write(pre_buf, pre_pos, post_buf, post_pos),
    ensures
        prefix_is(post_buf, pre_pos, head),
{
    assert(post_buf.subrange(0, pre_pos) =~= head);
}

/// Writing `a` and then `b` from one position writes `a + b`.
pub proof fn lemma_wrote_concat(
    buf0: Seq<u8>,
    pos0: int,
    buf2: Seq<u8>,
    pos2: int,
    a: Seq<u8>,
    b: Seq<u8>,
)
    requires
        exists|buf1: Seq<u8>, pos1: int|
            wrote(buf0, pos0, buf1, pos1, a) && #[trigger] wrote(buf1, pos1, buf2, pos2, b),
    ensures
        wrote(buf0, pos0, buf2, pos2, a.add(b)),
{
    let (buf1, pos1) = choose|buf1: Seq<u8>, pos1: int|
        wrote(buf0, pos0, buf1, pos1, a) && #[trigger] wrote(buf1, pos1, buf2, pos2, b);
    assert(buf2.subrange(0, pos0) =~= buf0.subrange(0, pos0)) by {
        assert forall|k: int| 0 <= k < pos0 implies buf2[k] == buf0[k] by {
            assert(buf2.subrange(0, pos1)[k] == buf1.subrange(0, pos1)[k]);
            assert(buf1.subrange(0, pos0)[k] == buf0.subrange(0, pos0)[k]);
        }
    }
    assert(buf2.subrange(pos0, pos2) =~= a.add(b)) by {
        assert forall|k: int| 0 <= k < pos2 - pos0 implies buf2.subrange(pos0, pos2)[k] == a.add(
            b,
        )[k] by {
            if k < a.len() {
                assert(buf2.subrange(0, pos1)[pos0 + k] == buf1.subrange(0, pos1)[pos0 + k]);
                assert(buf1.subrange(pos0, pos1)[k] == a[k]);
            } else {
                assert(buf2.subrange(pos1, pos2)[k - a.len()] == b[k - a.len()]);
            }
        }
    }
    assert(buf2.subrange(pos2, buf2.len() as int) =~= buf0.subrange(pos2, buf0.len() as int)) by {
        assert forall|k: int| pos2 <= k < buf2.len() implies buf2[k] == buf0[k] by {
            assert(buf2.subrange(pos2, buf2.len() as int)[k - pos2] == buf1.subrange(
                pos2,
                buf1.len() as int,
            )[k - pos2]);
            assert(buf1.subrange(pos1, buf1.len() as int)[k - pos1] == buf0.subrange(
                pos1,
                buf0.len() as int,
            )[k - pos1]);
        }
    }
}

/// As `lemma_wrote_concat`, with the intermediate state given.
pub proof fn lemma_wrote_concat_front(
    buf0: Seq<u8>,
    pos0: int,
    buf1: Seq<u8>,
    pos1: int,
    buf2: Seq<u8>,
    pos2: int,
    a: Seq<u8>,
    b: Seq<u8>,
)
    requires
        wrote(buf0, pos0, buf1, pos1, a),
        wrote(buf1, pos1, buf2, pos2, b),
    ensures
        wrote(buf0, pos0, buf2, pos2, a.add(b)),
{
    lemma_wrote_concat(buf0, pos0, buf2, pos2, a, b);
}

/// A failure after a successful write still leaves the original prefix in
/// place.
pub proof fn lemma_partial_after_wrote(
    buf0: Seq<u8>,
    pos0: int,
    buf1: Seq<u8>,
    pos1: int,
    buf2: Seq<u8>,
    pos2: int,
)
    requires
        0 <= pos0 <= pos1 <= buf1.len(),
        buf1.len() == buf0.len(),
        buf1.subrange(0, pos0) == buf0.subrange(0, pos0),
        partial_write(buf1, pos1, buf2, pos2),
    ensures
        partial_write(buf0, pos0, buf2, pos2),
{
    assert(buf2.subrange(0, pos0) =~= buf0.subrange(0, pos0)) by {
        assert forall|k: int| 0 <= k < pos0 implies buf2[k] == buf0[k] by {
            assert(buf2.subrange(0, pos1)[k] == buf1.subrange(0, pos1)[k]);
            assert(buf1.subrange(0, pos0)[k] == buf0.subrange(0, pos0)[k]);
        }
    }
}

/// Patching the truncation bit and the section counts into a written
/// message prefix yields exactly the wire form of the truncated message.
#[verifier::rlimit(100)]
pub proof fn lemma_truncation_stitch(
    m: SpecMessage,
    qn: int,
    an: int,
    un: int,
    dn: int,
    header: Seq<u8>,
    body: Seq<u8>,
    pre_patch: Seq<u8>,
    cur: Seq<u8>,
    pos: int,
    ob2: u8,
)
    requires
        0 <= qn <= m.questions.len() <= 0xffff,
        0 <= an <= m.answers.len() <= 0xffff,
        0 <= un <= m.authorities.len() <= 0xffff,
        0 <= dn <= m.additional.len() <= 0xffff,
        header == enc_u16(m.id).add(seq![enc_byte2(m), enc_byte3(m)]).add(
            enc_u16(m.questions.len() as u16),
        ).add(enc_u16(m.answers.len() as u16)).add(enc_u16(m.authorities.len() as u16)).add(
            enc_u16(m.additional.len() as u16),
        ),
        body == header.add(enc_questions(m.questions.take(qn))).add(
            enc_records(m.answers.take(an)),
        ).add(enc_records(m.authorities.take(un))).add(enc_records(m.additional.take(dn))),
        prefix_is(pre_patch, pos, body),
        ob2 == enc_byte2(m),
        cur == pre_patch.update(2, (ob2 | 0x02)).update(4, ((qn as u16) / 256) as u8).update(
            5,
            ((qn as u16) % 256) as u8,
        ).update(6, ((an as u16) / 256) as u8).update(7, ((an as u16) % 256) as u8).update(
            8,
            ((un as u16) / 256) as u8,
        ).update(9, ((un as u16) % 256) as u8).update(10, ((dn as u16) / 256) as u8).update(
            11,
            ((dn as u16) % 256) as u8,
        ),
    ensures
        prefix_is(cur, pos, enc_message(spec_truncated(m, qn, an, un, dn))),
        enc_message(spec_truncated(m, qn, an, un, dn)).len() == pos,
{
    let tm = spec_truncated(m, qn, an, un, dn);
    let target = enc_message(tm);
    lemma_enc_byte2_tc(m, tm);
    assert(tm.questions =~~= m.questions.take(qn));
    assert(tm.answers =~~= m.answers.take(an));
    assert(tm.authorities =~~= m.authorities.take(un));
    assert(tm.additional =~~= m.additional.take(dn));
    let tail = enc_questions(m.questions.take(qn)).add(enc_records(m.answers.take(an))).add(
        enc_records(m.authorities.take(un)),
    ).add(enc_records(m.additional.take(dn)));
    let theader = enc_u16(tm.id).add(seq![enc_byte2(tm), enc_byte3(tm)]).add(
        enc_u16(tm.questions.len() as u16),
    ).add(enc_u16(tm.answers.len() as u16)).add(enc_u16(tm.authorities.len() as u16)).add(
        enc_u16(tm.additional.len() as u16),
    );
    assert(header.len() == 12 && theader.len() == 12);
    assert(body =~= header.add(tail));
    assert(target =~= theader.add(tail));
    assert(target.len() == body.len() == pos);
    assert(cur.len() == pre_patch.len());
    assert(cur.subrange(0, pos) =~= target) by {
        assert forall|k: int| 0 <= k < pos implies cur[k] == target[k] by {
            if k == 2 {
                assert(cur[2] == (ob2 | 0x02));
                assert(theader[2] == enc_byte2(tm));
                assert(target[2] == theader[2]);
            } else if k == 4 {
                assert(cur[4] == ((qn as u16) / 256) as u8);
                assert(theader[4] == (spec_truncated(m, qn, an, un, dn).questions.len() as u16
                    / 256) as u8);
                assert(target[4] == theader[4]);
            } else if k == 5 {
                assert(cur[5] == ((qn as u16) % 256) as u8);
                assert(target[5] == theader[5]);
            } else if k == 6 {
                assert(cur[6] == ((an as u16) / 256) as u8);
                assert(target[6] == theader[6]);
            } else if k == 7 {
                assert(cur[7] == ((an as u16) % 256) as u8);
                assert(target[7] == theader[7]);
            } else if k == 8 {
                assert(cur[8] == ((un as u16) / 256) as u8);
                assert(target[8] == theader[8]);
            } else if k == 9 {
                assert(cur[9] == ((un as u16) % 256) as u8);
                assert(target[9] == theader[9]);
            } else if k == 10 {
                assert(cur[10] == ((dn as u16) / 256) as u8);
                assert(target[10] == theader[10]);
            } else if k == 11 {
                assert(cur[11] == ((dn as u16) % 256) as u8);
                assert(target[11] == theader[11]);
            } else {
                assert(cur[k] == pre_patch[k]);
                assert(pre_patch.subrange(0, pos)[k] == body[k]);
                if k < 2 || k == 3 {
                    assert(body[k] == header[k]);
                    assert(target[k] == theader[k]);
                    assert(theader[k] == header[k]);
                } else {
                    assert(body[k] == header.add(tail)[k]);
                    assert(header.add(tail)[k] == tail[k - 12]);
                    assert(target[k] == theader.add(tail)[k]);
                    assert(theader.add(tail)[k] == tail[k - 12]);
                }
            }
        }
    }
    assert(prefix_is(cur, pos, target));
}


} // verus!
