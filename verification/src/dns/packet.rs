use vstd::prelude::*;
use crate::byte_packet_buffer::{BytePacketBuffer, lower_char, lower_chars, splice};
use crate::dns_error::DnsError;
use crate::dns::header::DnsHeader;
use crate::dns::question::{
    DnsQuestion, QuestionRead, QuestionView, spec_question_bytes, spec_read_question,
};
use crate::dns::record::{
    DnsRecord, Ipv4Address, RecordRead, RecordView, spec_read_record, spec_record_bytes,
};

verus! {

/// The mathematical value of a whole DNS message.
pub ghost struct PacketView {
    pub header: DnsHeader,
    pub questions: Seq<QuestionView>,
    pub answers: Seq<RecordView>,
    pub authorities: Seq<RecordView>,
    pub resources: Seq<RecordView>,
}

/// A DNS message: the header and the four record sections. The header
/// counts drive decoding; encoding rewrites them from the section
/// lengths.
#[derive(Clone, Debug, PartialEq, Eq)]
pub struct DnsPacket {
    pub header: DnsHeader,
    pub questions: Vec<DnsQuestion>,
    pub answers: Vec<DnsRecord>,
    pub authorities: Vec<DnsRecord>,
    pub resources: Vec<DnsRecord>,
}

pub open spec fn question_views(v: Seq<DnsQuestion>) -> Seq<QuestionView> {
    v.map_values(|q: DnsQuestion| q@)
}

pub open spec fn record_views(v: Seq<DnsRecord>) -> Seq<RecordView> {
    v.map_values(|x: DnsRecord| x@)
}

impl View for DnsPacket {
    type V = PacketView;

    open spec fn view(&self) -> PacketView {
        PacketView {
            header: self.header,
            questions: question_views(self.questions@),
            answers: record_views(self.answers@),
            authorities: record_views(self.authorities@),
            resources: record_views(self.resources@),
        }
    }
}

/// The outcome of decoding a run of questions.
pub ghost enum QuestionsRead {
    Done { qs: Seq<QuestionView>, end: int },
    Fail { err: DnsError },
}

/// The outcome of decoding a run of records.
pub ghost enum RecordsRead {
    Done { rs: Seq<RecordView>, end: int },
    Fail { err: DnsError },
}

/// The outcome of decoding a whole packet.
pub ghost enum PacketRead {
    Done { pv: PacketView, end: int },
    Fail { err: DnsError },
}

/// `n` questions decoded one after another from position `p`.
pub open spec fn spec_read_questions(b: Seq<u8>, p: int, n: nat) -> QuestionsRead
    decreases n,
{
    if n == 0 {
        QuestionsRead::Done { qs: Seq::<QuestionView>::empty(), end: p }
    } else {
        match spec_read_question(b, p) {
            QuestionRead::Done { q, end } => match spec_read_questions(b, end, (n - 1) as nat) {
                QuestionsRead::Done { qs, end: e2 } => QuestionsRead::Done {
                    qs: seq![q] + qs,
                    end: e2,
                },
                f => f,
            },
            QuestionRead::Fail { err } => QuestionsRead::Fail { err },
        }
    }
}

/// `n` records decoded one after another from position `p`.
pub open spec fn spec_read_records(b: Seq<u8>, p: int, n: nat) -> RecordsRead
    decreases n,
{
    if n == 0 {
        RecordsRead::Done { rs: Seq::<RecordView>::empty(), end: p }
    } else {
        match spec_read_record(b, p) {
            RecordRead::Done { rec, end } => match spec_read_records(b, end, (n - 1) as nat) {
                RecordsRead::Done { rs, end: e2 } => RecordsRead::Done {
                    rs: seq![rec] + rs,
                    end: e2,
                },
                f => f,
            },
            RecordRead::Fail { err } => RecordsRead::Fail { err },
        }
    }
}

/// The packet decoded at position `p` of `b`: the header, then as many
/// questions and records as its four counts say.
pub open spec fn spec_read_packet(b: Seq<u8>, p: int) -> PacketRead {
    if p + 12 <= 512 {
        let h = DnsHeader::spec_at(b, p);
        match spec_read_questions(b, p + 12, h.questions as nat) {
            QuestionsRead::Done { qs, end: e1 } => match spec_read_records(
                b,
                e1,
                h.answers as nat,
            ) {
                RecordsRead::Done { rs: ans, end: e2 } => match spec_read_records(
                    b,
                    e2,
                    h.authoritative_entries as nat,
                ) {
                    RecordsRead::Done { rs: auth, end: e3 } => match spec_read_records(
                        b,
                        e3,
                        h.resource_entries as nat,
                    ) {
                        RecordsRead::Done { rs: res, end: e4 } => PacketRead::Done {
                            pv: PacketView {
                                header: h,
                                questions: qs,
                                answers: ans,
                                authorities: auth,
                                resources: res,
                            },
                            end: e4,
                        },
                        RecordsRead::Fail { err } => PacketRead::Fail { err },
                    },
                    RecordsRead::Fail { err } => PacketRead::Fail { err },
                },
                RecordsRead::Fail { err } => PacketRead::Fail { err },
            },
            QuestionsRead::Fail { err } => PacketRead::Fail { err },
        }
    } else {
        PacketRead::Fail { err: DnsError::BufferOverflow }
    }
}

impl DnsPacket {
    /// An empty packet: a fresh header and four empty sections.
    pub fn new() -> (r: DnsPacket)
        ensures
            r.header == DnsHeader::spec_default(),
            r@.questions == Seq::<QuestionView>::empty(),
            r@.answers == Seq::<RecordView>::empty(),
            r@.authorities == Seq::<RecordView>::empty(),
            r@.resources == Seq::<RecordView>::empty(),
    {
        let r = DnsPacket {
            header: DnsHeader::new(),
            questions: Vec::new(),
            answers: Vec::new(),
            authorities: Vec::new(),
            resources: Vec::new(),
        };
        proof {
            assert(r@.questions =~= Seq::<QuestionView>::empty());
            assert(r@.answers =~= Seq::<RecordView>::empty());
            assert(r@.authorities =~= Seq::<RecordView>::empty());
            assert(r@.resources =~= Seq::<RecordView>::empty());
        }
        r
    }

    /// Decode a run of `count` questions at the cursor.
    #[verifier::loop_isolation(false)]
    fn read_questions(buffer: &mut BytePacketBuffer, count: u16) -> (r: Result<
        Vec<DnsQuestion>,
        DnsError,
    >)
        requires
            old(buffer).wf(),
        ensures
            final(buffer).wf(),
            final(buffer).buf@ == old(buffer).buf@,
            match r {
                Ok(v) => (spec_read_questions(old(buffer).buf@, old(buffer).pos as int, count as nat)
                    matches QuestionsRead::Done { qs, end } && question_views(v@) == qs && final(buffer).pos == end),
                Err(e) => spec_read_questions(old(buffer).buf@, old(buffer).pos as int, count as nat)
                    == (QuestionsRead::Fail { err: e }),
            },
    {
        let ghost b = buffer.buf@;
        let ghost p0 = buffer.pos as int;
        let mut out: Vec<DnsQuestion> = Vec::new();
        let mut i: u16 = 0;
        proof {
            assert(question_views(out@) =~= Seq::<QuestionView>::empty());
        }
        while i < count
            invariant
                i <= count,
                buffer.wf(),
                buffer.buf@ == b,
                match spec_read_questions(b, buffer.pos as int, (count - i) as nat) {
                    QuestionsRead::Done { qs, end } => spec_read_questions(b, p0, count as nat)
                        == (QuestionsRead::Done { qs: question_views(out@) + qs, end }),
                    QuestionsRead::Fail { err } => spec_read_questions(b, p0, count as nat)
                        == (QuestionsRead::Fail { err }),
                },
            decreases count - i,
        {
            let ghost qs_pre = question_views(out@);
            match DnsQuestion::read(buffer) {
                Ok(q) => {
                    out.push(q);
                    proof {
                        assert(question_views(out@) =~= qs_pre.push(q@));
                        assert(forall|tail: Seq<QuestionView>|
                            (qs_pre + (seq![q@] + tail)) =~= (qs_pre.push(q@) + tail));
                    }
                },
                Err(e) => {
                    return Err(e);
                },
            }
            i += 1;
        }
        proof {
            assert(question_views(out@) + Seq::<QuestionView>::empty() =~= question_views(out@));
        }
        Ok(out)
    }

    /// Decode a run of `count` records at the cursor.
    #[verifier::loop_isolation(false)]
    fn read_records(buffer: &mut BytePacketBuffer, count: u16) -> (r: Result<
        Vec<DnsRecord>,
        DnsError,
    >)
        requires
            old(buffer).wf(),
        ensures
            final(buffer).wf(),
            final(buffer).buf@ == old(buffer).buf@,
            match r {
                Ok(v) => (spec_read_records(old(buffer).buf@, old(buffer).pos as int, count as nat)
                    matches RecordsRead::Done { rs, end } && record_views(v@) == rs && final(buffer).pos == end),
                Err(e) => spec_read_records(old(buffer).buf@, old(buffer).pos as int, count as nat)
                    == (RecordsRead::Fail { err: e }),
            },
    {
        let ghost b = buffer.buf@;
        let ghost p0 = buffer.pos as int;
        let mut out: Vec<DnsRecord> = Vec::new();
        let mut i: u16 = 0;
        proof {
            assert(record_views(out@) =~= Seq::<RecordView>::empty());
        }
        while i < count
            invariant
                i <= count,
                buffer.wf(),
                buffer.buf@ == b,
                match spec_read_records(b, buffer.pos as int, (count - i) as nat) {
                    RecordsRead::Done { rs, end } => spec_read_records(b, p0, count as nat)
                        == (RecordsRead::Done { rs: record_views(out@) + rs, end }),
                    RecordsRead::Fail { err } => spec_read_records(b, p0, count as nat)
                        == (RecordsRead::Fail { err }),
                },
            decreases count - i,
        {
            let ghost rs_pre = record_views(out@);
            match DnsRecord::read(buffer) {
                Ok(rec) => {
                    let ghost rv = rec@;
                    out.push(rec);
                    proof {
                        assert(record_views(out@) =~= rs_pre.push(rv));
                        assert(forall|tail: Seq<RecordView>|
                            (rs_pre + (seq![rv] + tail)) =~= (rs_pre.push(rv) + tail));
                    }
                },
                Err(e) => {
                    return Err(e);
                },
            }
            i += 1;
        }
        proof {
            assert(record_views(out@) + Seq::<RecordView>::empty() =~= record_views(out@));
        }
        Ok(out)
    }

    /// Decode a whole packet at the cursor: the 12-byte header, then the
    /// four sections, as many entries each as the header counts say. Any
    /// codec failure propagates.
    pub fn from_buffer(buffer: &mut BytePacketBuffer) -> (r: Result<DnsPacket, DnsError>)
        requires
            old(buffer).wf(),
        ensures
            final(buffer).wf(),
            final(buffer).buf@ == old(buffer).buf@,
            match r {
                Ok(p) => (spec_read_packet(old(buffer).buf@, old(buffer).pos as int)
                    matches PacketRead::Done { pv, end } && p@ == pv && final(buffer).pos == end
                    && p.header.wf()),
                Err(e) => spec_read_packet(old(buffer).buf@, old(buffer).pos as int)
                    == (PacketRead::Fail { err: e }),
            },
    {
        let header = DnsHeader::read(buffer)?;
        let questions = Self::read_questions(buffer, header.questions)?;
        let answers = Self::read_records(buffer, header.answers)?;
        let authorities = Self::read_records(buffer, header.authoritative_entries)?;
        let resources = Self::read_records(buffer, header.resource_entries)?;
        Ok(DnsPacket { header, questions, answers, authorities, resources })
    }
}


/// The concatenated wire forms of a run of questions.
pub open spec fn spec_questions_bytes(qs: Seq<QuestionView>) -> Option<Seq<u8>>
    decreases qs.len(),
{
    if qs.len() == 0 {
        Some(Seq::<u8>::empty())
    } else {
        match (spec_question_bytes(qs[0]), spec_questions_bytes(qs.skip(1))) {
            (Some(w), Some(rest)) => Some(w + rest),
            _ => None,
        }
    }
}

/// The concatenated wire forms of a run of records.
pub open spec fn spec_records_bytes(rs: Seq<RecordView>) -> Option<Seq<u8>>
    decreases rs.len(),
{
    if rs.len() == 0 {
        Some(Seq::<u8>::empty())
    } else {
        match (spec_record_bytes(rs[0]), spec_records_bytes(rs.skip(1))) {
            (Some(w), Some(rest)) => Some(w + rest),
            _ => None,
        }
    }
}

/// `h` with its four section counts replaced.
pub open spec fn with_counts(h: DnsHeader, nq: u16, na: u16, nu: u16, nr: u16) -> DnsHeader {
    DnsHeader {
        questions: nq,
        answers: na,
        authoritative_entries: nu,
        resource_entries: nr,
        ..h
    }
}

/// The wire form of a whole packet: the header, its counts taken from
/// the section lengths, followed by the four encoded sections.
pub open spec fn spec_packet_bytes(pv: PacketView) -> Option<Seq<u8>> {
    let h = with_counts(
        pv.header,
        pv.questions.len() as u16,
        pv.answers.len() as u16,
        pv.authorities.len() as u16,
        pv.resources.len() as u16,
    );
    match (
        spec_questions_bytes(pv.questions),
        spec_records_bytes(pv.answers),
        spec_records_bytes(pv.authorities),
        spec_records_bytes(pv.resources),
    ) {
        (Some(qb), Some(ab), Some(ub), Some(rb)) => Some(
            h.spec_bytes() + qb + ab + ub + rb,
        ),
        _ => None,
    }
}

impl DnsPacket {
    /// Write a run of questions at the cursor.
    #[verifier::loop_isolation(false)]
    fn write_questions(buffer: &mut BytePacketBuffer, questions: &Vec<DnsQuestion>) -> (r: Result<
        (),
        DnsError,
    >)
        requires
            old(buffer).wf(),
        ensures
            final(buffer).wf(),
            match r {
                Ok(()) => (spec_questions_bytes(question_views(questions@)) matches Some(w) && old(buffer).pos + w.len() <= 512 && final(buffer).pos == old(buffer).pos + w.len() && final(buffer).buf@ == splice(old(buffer).buf@, old(buffer).pos as int, w)),
                Err(e) => !(spec_questions_bytes(question_views(questions@)) matches Some(w) && old(buffer).pos + w.len() <= 512),
            },
    {
        let ghost b0 = buffer.buf@;
        let ghost p0 = buffer.pos as int;
        let ghost qs = question_views(questions@);
        let ghost mut wsofar: Seq<u8> = Seq::<u8>::empty();
        proof {
            crate::byte_packet_buffer::lemma_splice_empty(b0, p0);
            assert(qs.skip(0) =~= qs);
        }
        let mut i: usize = 0;
        while i < questions.len()
            invariant
                i <= questions.len(),
                buffer.wf(),
                buffer.pos == p0 + wsofar.len(),
                buffer.buf@ == splice(b0, p0, wsofar),
                match spec_questions_bytes(qs.skip(i as int)) {
                    Some(rest) => spec_questions_bytes(qs) == Some(wsofar + rest),
                    None => spec_questions_bytes(qs) is None,
                },
            decreases questions.len() - i,
        {
            proof {
                assert(qs.skip(i as int)[0] == qs[i as int]);
                assert(qs.skip(i as int).skip(1) =~= qs.skip(i + 1));
            }
            let q = &questions[i];
            match q.write(buffer) {
                Ok(()) => {
                    proof {
                        let wq = spec_question_bytes(qs[i as int]).unwrap();
                        crate::byte_packet_buffer::lemma_splice_concat(b0, p0, wsofar, wq);
                        wsofar = wsofar + wq;
                    }
                },
                Err(e) => {
                    proof {
                        match spec_questions_bytes(qs) {
                            Some(w) => {
                                match spec_questions_bytes(qs.skip(i as int)) {
                                    Some(rest) => {
                                        let wq = spec_question_bytes(qs[i as int]).unwrap();
                                        assert(rest.len() >= wq.len());
                                        assert(p0 + wsofar.len() + wq.len() > 512);
                                    },
                                    None => {},
                                }
                            },
                            None => {},
                        }
                    }
                    return Err(e);
                },
            }
            i += 1;
        }
        proof {
            assert(qs.skip(questions@.len() as int).len() == 0);
            assert(wsofar + Seq::<u8>::empty() =~= wsofar);
        }
        Ok(())
    }

    /// Write a run of records at the cursor.
    #[verifier::loop_isolation(false)]
    fn write_records(buffer: &mut BytePacketBuffer, records: &Vec<DnsRecord>) -> (r: Result<
        (),
        DnsError,
    >)
        requires
            old(buffer).wf(),
        ensures
            final(buffer).wf(),
            match r {
                Ok(()) => (spec_records_bytes(record_views(records@)) matches Some(w) && old(buffer).pos + w.len() <= 512 && final(buffer).pos == old(buffer).pos + w.len() && final(buffer).buf@ == splice(old(buffer).buf@, old(buffer).pos as int, w)),
                Err(e) => !(spec_records_bytes(record_views(records@)) matches Some(w) && old(buffer).pos + w.len() <= 512),
            },
    {
        let ghost b0 = buffer.buf@;
        let ghost p0 = buffer.pos as int;
        let ghost rs = record_views(records@);
        let ghost mut wsofar: Seq<u8> = Seq::<u8>::empty();
        proof {
            crate::byte_packet_buffer::lemma_splice_empty(b0, p0);
            assert(rs.skip(0) =~= rs);
        }
        let mut i: usize = 0;
        while i < records.len()
            invariant
                i <= records.len(),
                buffer.wf(),
                buffer.pos == p0 + wsofar.len(),
                buffer.buf@ == splice(b0, p0, wsofar),
                match spec_records_bytes(rs.skip(i as int)) {
                    Some(rest) => spec_records_bytes(rs) == Some(wsofar + rest),
                    None => spec_records_bytes(rs) is None,
                },
            decreases records.len() - i,
        {
            proof {
                assert(rs.skip(i as int)[0] == rs[i as int]);
                assert(rs.skip(i as int).skip(1) =~= rs.skip(i + 1));
            }
            let rec = &records[i];
            match rec.write(buffer) {
                Ok(()) => {
                    proof {
                        let wr = spec_record_bytes(rs[i as int]).unwrap();
                        crate::byte_packet_buffer::lemma_splice_concat(b0, p0, wsofar, wr);
                        wsofar = wsofar + wr;
                    }
                },
                Err(e) => {
                    proof {
                        match spec_records_bytes(rs) {
                            Some(w) => {
                                match spec_records_bytes(rs.skip(i as int)) {
                                    Some(rest) => {
                                        let wr = spec_record_bytes(rs[i as int]).unwrap();
                                        assert(rest.len() >= wr.len());
                                        assert(p0 + wsofar.len() + wr.len() > 512);
                                    },
                                    None => {},
                                }
                            },
                            None => {},
                        }
                    }
                    return Err(e);
                },
            }
            i += 1;
        }
        proof {
            assert(rs.skip(records@.len() as int).len() == 0);
            assert(wsofar + Seq::<u8>::empty() =~= wsofar);
        }
        Ok(())
    }

    /// The four encoded sections, concatenated.
    pub open spec fn spec_sections_bytes(
        qs: Seq<QuestionView>,
        ans: Seq<RecordView>,
        auth: Seq<RecordView>,
        res: Seq<RecordView>,
    ) -> Option<Seq<u8>> {
        match (
            spec_questions_bytes(qs),
            spec_records_bytes(ans),
            spec_records_bytes(auth),
            spec_records_bytes(res),
        ) {
            (Some(qb), Some(ab), Some(ub), Some(rb)) => Some(qb + ab + ub + rb),
            _ => None,
        }
    }

    /// Write the four sections in order at the cursor.
    #[verifier::rlimit(100)]
    #[verifier::spinoff_prover]
    fn write_body(
        buffer: &mut BytePacketBuffer,
        questions: &Vec<DnsQuestion>,
        answers: &Vec<DnsRecord>,
        authorities: &Vec<DnsRecord>,
        resources: &Vec<DnsRecord>,
    ) -> (r: Result<(), DnsError>)
        requires
            old(buffer).wf(),
        ensures
            final(buffer).wf(),
            match r {
                Ok(()) => (Self::spec_sections_bytes(
                    question_views(questions@),
                    record_views(answers@),
                    record_views(authorities@),
                    record_views(resources@),
                ) matches Some(w) && old(buffer).pos + w.len() <= 512 && final(buffer).pos == old(
                    buffer,
                ).pos + w.len() && final(buffer).buf@ == splice(
                    old(buffer).buf@,
                    old(buffer).pos as int,
                    w,
                )),
                Err(e) => !(Self::spec_sections_bytes(
                    question_views(questions@),
                    record_views(answers@),
                    record_views(authorities@),
                    record_views(resources@),
                ) matches Some(w) && old(buffer).pos + w.len() <= 512),
            },
    {
        let ghost b0 = buffer.buf@;
        let ghost p0 = buffer.pos as int;
        match Self::write_questions(buffer, questions) {
            Ok(()) => (),
            Err(e) => {
                return Err(e);
            },
        }
        let ghost w_q = spec_questions_bytes(question_views(questions@)).unwrap();
        match Self::write_records(buffer, answers) {
            Ok(()) => (),
            Err(e) => {
                return Err(e);
            },
        }
        let ghost w_a = spec_records_bytes(record_views(answers@)).unwrap();
        proof {
            crate::byte_packet_buffer::lemma_splice_concat(b0, p0, w_q, w_a);
        }
        match Self::write_records(buffer, authorities) {
            Ok(()) => (),
            Err(e) => {
                return Err(e);
            },
        }
        let ghost w_u = spec_records_bytes(record_views(authorities@)).unwrap();
        proof {
            crate::byte_packet_buffer::lemma_splice_concat(b0, p0, w_q + w_a, w_u);
        }
        match Self::write_records(buffer, resources) {
            Ok(()) => (),
            Err(e) => {
                return Err(e);
            },
        }
        let ghost w_r = spec_records_bytes(record_views(resources@)).unwrap();
        proof {
            crate::byte_packet_buffer::lemma_splice_concat(b0, p0, w_q + w_a + w_u, w_r);
        }
        Ok(())
    }

    /// The wire form of a packet is its header bytes followed by its
    /// encoded sections.
    pub proof fn lemma_packet_bytes_shape(pv: PacketView)
        ensures
            match spec_packet_bytes(pv) {
                Some(w) => (Self::spec_sections_bytes(
                    pv.questions,
                    pv.answers,
                    pv.authorities,
                    pv.resources,
                ) matches Some(ws) && w == with_counts(
                    pv.header,
                    pv.questions.len() as u16,
                    pv.answers.len() as u16,
                    pv.authorities.len() as u16,
                    pv.resources.len() as u16,
                ).spec_bytes() + ws && w.len() == 12 + ws.len()),
                None => Self::spec_sections_bytes(
                    pv.questions,
                    pv.answers,
                    pv.authorities,
                    pv.resources,
                ) is None,
            },
    {
        match spec_packet_bytes(pv) {
            Some(w) => {
                let h = with_counts(
                    pv.header,
                    pv.questions.len() as u16,
                    pv.answers.len() as u16,
                    pv.authorities.len() as u16,
                    pv.resources.len() as u16,
                );
                let qb = spec_questions_bytes(pv.questions).unwrap();
                let ab = spec_records_bytes(pv.answers).unwrap();
                let ub = spec_records_bytes(pv.authorities).unwrap();
                let rb = spec_records_bytes(pv.resources).unwrap();
                assert(h.spec_bytes().len() == 12);
                assert(h.spec_bytes() + qb + ab + ub + rb =~= h.spec_bytes() + (qb + ab + ub
                    + rb));
            },
            None => {},
        }
    }

    /// Encode this packet at the cursor: the header, with its counts set
    /// to the section lengths, then every section in order. The caller
    /// can take the bytes up to the final cursor as the datagram.
    #[verifier::rlimit(100)]
    #[verifier::spinoff_prover]
    pub fn write(&mut self, buffer: &mut BytePacketBuffer) -> (r: Result<(), DnsError>)
        requires
            old(buffer).wf(),
            old(self).header.wf(),
            old(self).questions@.len() <= 0xFFFF,
            old(self).answers@.len() <= 0xFFFF,
            old(self).authorities@.len() <= 0xFFFF,
            old(self).resources@.len() <= 0xFFFF,
        ensures
            final(buffer).wf(),
            final(self).questions@ == old(self).questions@,
            final(self).answers@ == old(self).answers@,
            final(self).authorities@ == old(self).authorities@,
            final(self).resources@ == old(self).resources@,
            final(self).header == with_counts(
                old(self).header,
                old(self).questions@.len() as u16,
                old(self).answers@.len() as u16,
                old(self).authorities@.len() as u16,
                old(self).resources@.len() as u16,
            ),
            match r {
                Ok(()) => (spec_packet_bytes(old(self)@) matches Some(w) && old(buffer).pos
                    + w.len() <= 512 && final(buffer).pos == old(buffer).pos + w.len()
                    && final(buffer).buf@ == splice(old(buffer).buf@, old(buffer).pos as int, w)),
                Err(e) => !(spec_packet_bytes(old(self)@) matches Some(w) && old(buffer).pos
                    + w.len() <= 512),
            },
    {
        let ghost b0 = buffer.buf@;
        let ghost p0 = buffer.pos as int;
        let ghost pv = self@;
        proof {
            Self::lemma_packet_bytes_shape(pv);
        }
        self.header.questions = self.questions.len() as u16;
        self.header.answers = self.answers.len() as u16;
        self.header.authoritative_entries = self.authorities.len() as u16;
        self.header.resource_entries = self.resources.len() as u16;
        let ghost h = self.header;
        match self.header.write(buffer) {
            Ok(()) => (),
            Err(e) => {
                return Err(DnsError::BufferOverflow);
            },
        }
        let ghost w_h = h.spec_bytes();
        match Self::write_body(
            buffer,
            &self.questions,
            &self.answers,
            &self.authorities,
            &self.resources,
        ) {
            Ok(()) => (),
            Err(e) => {
                return Err(e);
            },
        }
        let ghost w_s = Self::spec_sections_bytes(
            pv.questions,
            pv.answers,
            pv.authorities,
            pv.resources,
        ).unwrap();
        proof {
            crate::byte_packet_buffer::lemma_splice_concat(b0, p0, w_h, w_s);
        }
        Ok(())
    }
}



/// Whether `domain` is a label-aligned, case-insensitive suffix of
/// `qname`: the empty name matches everything, a name matches itself,
/// and otherwise the suffix must begin just after a dot.
pub open spec fn spec_name_suffix(domain: Seq<char>, qname: Seq<char>) -> bool {
    let d = lower_chars(domain);
    let q = lower_chars(qname);
    ||| d.len() == 0
    ||| d == q
    ||| (d.len() < q.len() && q.skip(q.len() - d.len()) == d && q[q.len() - d.len() - 1] == '.')
}

/// Lowercase one character, byte-wise.
fn lower_char_exec(c: char) -> (r: char)
    ensures
        r == lower_char(c),
{
    let u = c as u32;
    if 65 <= u && u <= 90 {
        ((u + 32) as u8) as char
    } else {
        c
    }
}

/// Whether `domain` is a label-aligned, case-insensitive suffix of
/// `qname`.
#[verifier::loop_isolation(false)]
pub fn name_suffix(domain: &str, qname: &str) -> (r: bool)
    ensures
        r == spec_name_suffix(domain@, qname@),
{
    let dl = domain.unicode_len();
    let ql = qname.unicode_len();
    if dl == 0 {
        return true;
    }
    if dl > ql {
        proof {
            assert(lower_chars(domain@).len() == domain@.len());
            assert(lower_chars(qname@).len() == qname@.len());
        }
        return false;
    }
    if dl < ql {
        let c = qname.get_char(ql - dl - 1);
        if !(c == '.') {
            proof {
                let d = lower_chars(domain@);
                let q = lower_chars(qname@);
                assert(lower_char('.') == '.');
                assert(q[ql - dl - 1] == lower_char(qname@[ql - dl - 1]));
            }
            return false;
        }
    }
    let mut k: usize = 0;
    while k < dl
        invariant
            k <= dl,
            dl == domain@.len(),
            ql == qname@.len(),
            dl <= ql,
            dl < ql ==> lower_chars(qname@)[ql - dl - 1] == '.' || qname@[ql - dl - 1] == '.',
            qname@[ql - dl - 1] == '.' ==> dl >= ql || lower_chars(qname@)[ql - dl - 1] == '.',
            forall|t: int|
                0 <= t < k ==> lower_char(domain@[t]) == lower_char(qname@[ql - dl + t]),
        decreases dl - k,
    {
        let cd = lower_char_exec(domain.get_char(k));
        let cq = lower_char_exec(qname.get_char(ql - dl + k));
        if !(cd == cq) {
            proof {
                let d = lower_chars(domain@);
                let q = lower_chars(qname@);
                assert(d[k as int] == lower_char(domain@[k as int]));
                assert(q[ql - dl + k] == lower_char(qname@[ql - dl + k]));
                if dl == ql {
                    assert(d != q) by {
                        assert(d[k as int] != q[k as int]);
                    }
                } else {
                    assert(q.skip(ql - dl)[k as int] == q[ql - dl + k]);
                    assert(q.skip(ql - dl) != d) by {
                        assert(q.skip(ql - dl)[k as int] != d[k as int]);
                    }
                }
            }
            return false;
        }
        k += 1;
    }
    proof {
        let d = lower_chars(domain@);
        let q = lower_chars(qname@);
        if dl == ql {
            assert(d =~= q);
        } else {
            assert(q.skip(ql - dl) =~= d);
            assert(q[ql - dl - 1] == lower_char(qname@[ql - dl - 1]));
        }
    }
    true
}

/// The address of the first `A` record in `rs` (from index `i` on)
/// whose name equals `host`.
pub open spec fn spec_find_a(rs: Seq<RecordView>, host: Seq<char>, i: int) -> Option<Ipv4Address>
    decreases rs.len() - i,
{
    if i < 0 || i >= rs.len() {
        None
    } else {
        match rs[i] {
            RecordView::A { domain, addr, .. } => if domain == host {
                Some(addr)
            } else {
                spec_find_a(rs, host, i + 1)
            },
            _ => spec_find_a(rs, host, i + 1),
        }
    }
}

/// The result of scanning the authority section from index `i` on for an
/// `NS` record whose name covers `qname` and whose host has a glue `A`
/// record in `res`: the first such glue address.
pub open spec fn spec_resolved_ns(
    auth: Seq<RecordView>,
    res: Seq<RecordView>,
    qname: Seq<char>,
    i: int,
) -> Option<Ipv4Address>
    decreases auth.len() - i,
{
    if i < 0 || i >= auth.len() {
        None
    } else {
        match auth[i] {
            RecordView::Ns { domain, host, .. } => if spec_name_suffix(domain, qname) {
                match spec_find_a(res, host, 0) {
                    Some(ip) => Some(ip),
                    None => spec_resolved_ns(auth, res, qname, i + 1),
                }
            } else {
                spec_resolved_ns(auth, res, qname, i + 1)
            },
            _ => spec_resolved_ns(auth, res, qname, i + 1),
        }
    }
}

/// The host of the first `NS` record (from index `i` on) whose name
/// covers `qname` and for which `res` holds no glue `A` record.
pub open spec fn spec_unresolved_ns(
    auth: Seq<RecordView>,
    res: Seq<RecordView>,
    qname: Seq<char>,
    i: int,
) -> Option<Seq<char>>
    decreases auth.len() - i,
{
    if i < 0 || i >= auth.len() {
        None
    } else {
        match auth[i] {
            RecordView::Ns { domain, host, .. } => if spec_name_suffix(domain, qname)
                && spec_find_a(res, host, 0) is None {
                Some(host)
            } else {
                spec_unresolved_ns(auth, res, qname, i + 1)
            },
            _ => spec_unresolved_ns(auth, res, qname, i + 1),
        }
    }
}

/// The address of the first `A` record in `answers` from index `i` on.
pub open spec fn spec_first_a(answers: Seq<RecordView>, i: int) -> Option<Ipv4Address>
    decreases answers.len() - i,
{
    if i < 0 || i >= answers.len() {
        None
    } else {
        match answers[i] {
            RecordView::A { addr, .. } => Some(addr),
            _ => spec_first_a(answers, i + 1),
        }
    }
}

impl DnsPacket {
    /// The first `A` record of the answer section, if any: an arbitrary
    /// but deterministic pick.
    #[verifier::loop_isolation(false)]
    pub fn get_random_a(&self) -> (r: Option<Ipv4Address>)
        ensures
            r == spec_first_a(self@.answers, 0),
    {
        let mut i: usize = 0;
        while i < self.answers.len()
            invariant
                i <= self.answers@.len(),
                spec_first_a(self@.answers, i as int) == spec_first_a(self@.answers, 0),
            decreases self.answers@.len() - i,
        {
            match &self.answers[i] {
                DnsRecord::A { addr, .. } => {
                    return Some(*addr);
                },
                _ => (),
            }
            i += 1;
        }
        None
    }

    /// Search `resources` for an `A` record whose name equals `host`.
    #[verifier::loop_isolation(false)]
    fn find_glue(&self, host: &String) -> (r: Option<Ipv4Address>)
        ensures
            r == spec_find_a(self@.resources, host@, 0),
    {
        let mut j: usize = 0;
        while j < self.resources.len()
            invariant
                j <= self.resources@.len(),
                spec_find_a(self@.resources, host@, j as int) == spec_find_a(
                    self@.resources,
                    host@,
                    0,
                ),
            decreases self.resources@.len() - j,
        {
            proof {
                assert(self@.resources[j as int] == self.resources@[j as int]@);
            }
            match &self.resources[j] {
                DnsRecord::A { domain, addr, .. } => {
                    if *domain == *host {
                        return Some(*addr);
                    }
                },
                _ => (),
            }
            j += 1;
        }
        None
    }

    /// The glue address of the first authority `NS` record covering
    /// `qname` whose host has an `A` record in the additional section.
    #[verifier::loop_isolation(false)]
    pub fn get_resolved_ns(&self, qname: &str) -> (r: Option<Ipv4Address>)
        ensures
            r == spec_resolved_ns(self@.authorities, self@.resources, qname@, 0),
    {
        let mut i: usize = 0;
        while i < self.authorities.len()
            invariant
                i <= self.authorities@.len(),
                spec_resolved_ns(self@.authorities, self@.resources, qname@, i as int)
                    == spec_resolved_ns(self@.authorities, self@.resources, qname@, 0),
            decreases self.authorities@.len() - i,
        {
            match &self.authorities[i] {
                DnsRecord::NS { domain, host, .. } => {
                    if name_suffix(domain.as_str(), qname) {
                        match self.find_glue(host) {
                            Some(ip) => {
                                return Some(ip);
                            },
                            None => (),
                        }
                    }
                },
                _ => (),
            }
            i += 1;
        }
        None
    }

    /// The host of the first authority `NS` record covering `qname` that
    /// has no glue `A` record in the additional section.
    #[verifier::loop_isolation(false)]
    pub fn get_unresolved_ns(&self, qname: &str) -> (r: Option<String>)
        ensures
            match r {
                Some(h) => spec_unresolved_ns(self@.authorities, self@.resources, qname@, 0)
                    == Some(h@),
                None => spec_unresolved_ns(self@.authorities, self@.resources, qname@, 0) is None,
            },
    {
        let mut i: usize = 0;
        while i < self.authorities.len()
            invariant
                i <= self.authorities@.len(),
                spec_unresolved_ns(self@.authorities, self@.resources, qname@, i as int)
                    == spec_unresolved_ns(self@.authorities, self@.resources, qname@, 0),
            decreases self.authorities@.len() - i,
        {
            match &self.authorities[i] {
                DnsRecord::NS { domain, host, .. } => {
                    if name_suffix(domain.as_str(), qname) {
                        match self.find_glue(host) {
                            Some(_) => (),
                            None => {
                                return Some(host.clone());
                            },
                        }
                    }
                },
                _ => (),
            }
            i += 1;
        }
        None
    }
}

} // verus!
