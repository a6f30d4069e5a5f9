use vstd::prelude::*;
use crate::byte_packet_buffer::{
    BytePacketBuffer, NameRead, encode_fits, lemma_name_decodes_at, lower_chars, spec_encode_from,
    spec_name_at, splice,
};
use crate::dns_error::DnsError;
use crate::dns::header::{be16, be16_bytes};

verus! {

/// A DNS record type: the fixed subset this resolver understands, plus an
/// opaque numeric fallback. Round-trips preserve the numeric value of the
/// known types.
#[derive(Clone, Copy, Debug, PartialEq, Eq, Structural)]
pub enum QueryType {
    UNKNOWN(u16),
    A,
    NS,
    CNAME,
    MX,
    AAAA,
}

impl QueryType {
    pub open spec fn spec_to_num(self) -> u16 {
        match self {
            QueryType::UNKNOWN(x) => x,
            QueryType::A => 1,
            QueryType::NS => 2,
            QueryType::CNAME => 5,
            QueryType::MX => 15,
            QueryType::AAAA => 28,
        }
    }

    pub open spec fn spec_from_num(num: u16) -> QueryType {
        if num == 1 {
            QueryType::A
        } else if num == 2 {
            QueryType::NS
        } else if num == 5 {
            QueryType::CNAME
        } else if num == 15 {
            QueryType::MX
        } else if num == 28 {
            QueryType::AAAA
        } else {
            QueryType::UNKNOWN(num)
        }
    }

    pub fn to_num(self) -> (r: u16)
        ensures
            r == self.spec_to_num(),
    {
        match self {
            QueryType::UNKNOWN(x) => x,
            QueryType::A => 1,
            QueryType::NS => 2,
            QueryType::CNAME => 5,
            QueryType::MX => 15,
            QueryType::AAAA => 28,
        }
    }

    pub fn from_num(num: u16) -> (r: QueryType)
        ensures
            r == QueryType::spec_from_num(num),
    {
        match num {
            1 => QueryType::A,
            2 => QueryType::NS,
            5 => QueryType::CNAME,
            15 => QueryType::MX,
            28 => QueryType::AAAA,
            _ => QueryType::UNKNOWN(num),
        }
    }

    /// The numeric value of a query type survives a trip onto the wire
    /// and back.
    pub proof fn lemma_num_roundtrip(num: u16)
        ensures
            QueryType::spec_from_num(num).spec_to_num() == num,
    {
    }
}

/// The mathematical value of a question: its name as a character
/// sequence, and its type.
pub ghost struct QuestionView {
    pub name: Seq<char>,
    pub qtype: QueryType,
}

/// A question entry: a domain name and a record type. On the wire the
/// name is followed by the 2-byte type and the 2-byte class (always 1).
#[derive(Clone, Debug, PartialEq, Eq)]
pub struct DnsQuestion {
    pub name: String,
    pub qtype: QueryType,
}

impl View for DnsQuestion {
    type V = QuestionView;

    open spec fn view(&self) -> QuestionView {
        QuestionView { name: self.name@, qtype: self.qtype }
    }
}

/// The outcome of decoding a question at a packet position.
pub ghost enum QuestionRead {
    Done { q: QuestionView, end: int },
    Fail { err: DnsError },
}

/// The question decoded at position `p` of `b`: a name, then the type
/// and the (ignored) class.
pub open spec fn spec_read_question(b: Seq<u8>, p: int) -> QuestionRead {
    match spec_name_at(b, p) {
        NameRead::Done { name, end } => {
            if end + 4 <= 512 {
                QuestionRead::Done {
                    q: QuestionView { name, qtype: QueryType::spec_from_num(be16(b, end)) },
                    end: end + 4,
                }
            } else {
                QuestionRead::Fail { err: DnsError::BufferOverflow }
            }
        },
        NameRead::TooManyJumps => QuestionRead::Fail { err: DnsError::MalformedName },
        NameRead::OutOfBounds => QuestionRead::Fail { err: DnsError::BufferOverflow },
    }
}

/// The wire form of a question: encoded name, type, class 1.
pub open spec fn spec_question_bytes(q: QuestionView) -> Option<Seq<u8>> {
    match spec_encode_from(q.name, 0) {
        Some(w) => Some(w + be16_bytes(q.qtype.spec_to_num()) + be16_bytes(1)),
        None => None,
    }
}

impl DnsQuestion {
    pub fn new(name: String, qtype: QueryType) -> (r: DnsQuestion)
        ensures
            r@.name == name@,
            r@.qtype == qtype,
    {
        DnsQuestion { name, qtype }
    }

    /// Decode one question at the cursor.
    pub fn read(buffer: &mut BytePacketBuffer) -> (r: Result<DnsQuestion, DnsError>)
        requires
            old(buffer).wf(),
        ensures
            final(buffer).wf(),
            final(buffer).buf@ == old(buffer).buf@,
            match r {
                Ok(q) => (spec_read_question(old(buffer).buf@, old(buffer).pos as int)
                    matches QuestionRead::Done { q: qv, end } && q@ == qv && final(buffer).pos
                    == end),
                Err(e) => spec_read_question(old(buffer).buf@, old(buffer).pos as int)
                    == (QuestionRead::Fail { err: e }),
            },
    {
        let mut name = String::new();
        match buffer.read_qname(&mut name) {
            Ok(()) => (),
            Err(e) => {
                return Err(e);
            },
        }
        let qnum = buffer.read_u16()?;
        let _class = buffer.read_u16()?;
        Ok(DnsQuestion { name, qtype: QueryType::from_num(qnum) })
    }

    /// Encode this question at the cursor.
    pub fn write(&self, buffer: &mut BytePacketBuffer) -> (r: Result<(), DnsError>)
        requires
            old(buffer).wf(),
        ensures
            final(buffer).wf(),
            match r {
                Ok(()) => (spec_question_bytes(self@) matches Some(w) && old(buffer).pos + w.len()
                    <= 512 && final(buffer).pos == old(buffer).pos + w.len() && final(buffer).buf@
                    == splice(old(buffer).buf@, old(buffer).pos as int, w)),
                Err(e) => {
                    &&& !(spec_question_bytes(self@) matches Some(w) && old(buffer).pos + w.len()
                        <= 512)
                    &&& (e == DnsError::BufferOverflow || e == DnsError::LabelTooLong || e
                        == DnsError::MalformedName)
                    &&& e != DnsError::BufferOverflow ==> spec_question_bytes(self@) is None
                },
            },
    {
        let ghost b0 = buffer.buf@;
        let ghost p0 = buffer.pos as int;
        match buffer.write_qname(self.name.as_str()) {
            Ok(()) => (),
            Err(e) => {
                proof {
                    match spec_question_bytes(self@) {
                        Some(w) => {
                            assert(!encode_fits(p0, self.name@));
                            assert(w.len() >= spec_encode_from(self.name@, 0).unwrap().len());
                        },
                        None => {},
                    }
                }
                return Err(e);
            },
        }
        let ghost w1 = spec_encode_from(self.name@, 0).unwrap();
        match buffer.write_u16(self.qtype.to_num()) {
            Ok(()) => (),
            Err(_) => {
                return Err(DnsError::BufferOverflow);
            },
        }
        match buffer.write_u16(1) {
            Ok(()) => (),
            Err(_) => {
                return Err(DnsError::BufferOverflow);
            },
        }
        proof {
            let w = spec_question_bytes(self@).unwrap();
            assert(buffer.buf@ =~= splice(b0, p0, w));
        }
        Ok(())
    }
}


/// The question half of the codec round-trip: decoding an encoded
/// question gives it back, for the shapes the decoder itself produces —
/// a name already in lowercase and a type that is not a numeric alias of
/// a known type.
pub proof fn lemma_question_roundtrip(b0: Seq<u8>, p: int, q: QuestionView)
    requires
        b0.len() == 512,
        0 <= p,
        spec_question_bytes(q) is Some,
        p + spec_question_bytes(q).unwrap().len() <= 512,
        q.name == lower_chars(q.name),
        QueryType::spec_from_num(q.qtype.spec_to_num()) == q.qtype,
    ensures
        spec_read_question(splice(b0, p, spec_question_bytes(q).unwrap()), p)
            == (QuestionRead::Done { q, end: p + spec_question_bytes(q).unwrap().len() }),
{
    let nw = spec_encode_from(q.name, 0).unwrap();
    let w = spec_question_bytes(q).unwrap();
    let b = splice(b0, p, w);
    assert(b.len() == 512);
    assert(b.subrange(p, p + w.len()) =~= w);
    assert(b.subrange(p, p + nw.len()) =~= nw) by {
        assert(forall|t: int|
            0 <= t < nw.len() ==> b.subrange(p, p + nw.len())[t] == b[p + t] && b[p + t] == w[t]
                && w[t] == nw[t]);
    }
    lemma_name_decodes_at(b, p, q.name);
    let e1 = p + nw.len();
    let num = q.qtype.spec_to_num();
    assert(b[e1] == w[nw.len() as int]);
    assert(b[e1 + 1] == w[nw.len() as int + 1]);
    assert(w[nw.len() as int] == (num / 256) as u8);
    assert(w[nw.len() as int + 1] == (num % 256) as u8);
    assert(be16(b, e1) == num);
}

} // verus!
