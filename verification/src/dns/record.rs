use vstd::prelude::*;
use crate::byte_packet_buffer::{
    BytePacketBuffer, NameRead, lemma_name_decodes_at, lower_chars, spec_encode_from, spec_name_at,
    splice,
};
use crate::dns_error::DnsError;
use crate::dns::header::{be16, be16_bytes, be32, be32_bytes};

verus! {

/// An IPv4 address as four plain octets.
#[derive(Clone, Copy, Debug, PartialEq, Eq, Structural)]
pub struct Ipv4Address {
    pub a: u8,
    pub b: u8,
    pub c: u8,
    pub d: u8,
}

/// An IPv6 address as eight plain 16-bit groups.
#[derive(Clone, Copy, Debug, PartialEq, Eq, Structural)]
pub struct Ipv6Address {
    pub g0: u16,
    pub g1: u16,
    pub g2: u16,
    pub g3: u16,
    pub g4: u16,
    pub g5: u16,
    pub g6: u16,
    pub g7: u16,
}

/// The mathematical value of a resource record.
pub ghost enum RecordView {
    Unknown { domain: Seq<char>, qtype: u16, data_len: u16, ttl: u32 },
    A { domain: Seq<char>, addr: Ipv4Address, ttl: u32 },
    Ns { domain: Seq<char>, host: Seq<char>, ttl: u32 },
    Cname { domain: Seq<char>, host: Seq<char>, ttl: u32 },
    Mx { domain: Seq<char>, priority: u16, host: Seq<char>, ttl: u32 },
    Aaaa { domain: Seq<char>, addr: Ipv6Address, ttl: u32 },
}

/// A resource record of one of the supported types; anything else is
/// carried as `UNKNOWN` with its rdata skipped.
#[derive(Clone, Debug, PartialEq, Eq)]
pub enum DnsRecord {
    UNKNOWN { domain: String, qtype: u16, data_len: u16, ttl: u32 },
    A { domain: String, addr: Ipv4Address, ttl: u32 },
    NS { domain: String, host: String, ttl: u32 },
    CNAME { domain: String, host: String, ttl: u32 },
    MX { domain: String, priority: u16, host: String, ttl: u32 },
    AAAA { domain: String, addr: Ipv6Address, ttl: u32 },
}

impl View for DnsRecord {
    type V = RecordView;

    open spec fn view(&self) -> RecordView {
        match self {
            DnsRecord::UNKNOWN { domain, qtype, data_len, ttl } => RecordView::Unknown {
                domain: domain@,
                qtype: *qtype,
                data_len: *data_len,
                ttl: *ttl,
            },
            DnsRecord::A { domain, addr, ttl } => RecordView::A {
                domain: domain@,
                addr: *addr,
                ttl: *ttl,
            },
            DnsRecord::NS { domain, host, ttl } => RecordView::Ns {
                domain: domain@,
                host: host@,
                ttl: *ttl,
            },
            DnsRecord::CNAME { domain, host, ttl } => RecordView::Cname {
                domain: domain@,
                host: host@,
                ttl: *ttl,
            },
            DnsRecord::MX { domain, priority, host, ttl } => RecordView::Mx {
                domain: domain@,
                priority: *priority,
                host: host@,
                ttl: *ttl,
            },
            DnsRecord::AAAA { domain, addr, ttl } => RecordView::Aaaa {
                domain: domain@,
                addr: *addr,
                ttl: *ttl,
            },
        }
    }
}

/// The outcome of decoding a record at a packet position.
pub ghost enum RecordRead {
    Done { rec: RecordView, end: int },
    Fail { err: DnsError },
}

/// Map a failed name decode to the record-level error.
pub open spec fn name_fail(n: NameRead) -> DnsError {
    match n {
        NameRead::TooManyJumps => DnsError::MalformedName,
        _ => DnsError::BufferOverflow,
    }
}

/// The record decoded at position `p` of `b`: a name, the type, the
/// (ignored) class, the TTL and the rdata length, then the rdata of the
/// types this resolver understands; other rdata is skipped.
pub open spec fn spec_read_record(b: Seq<u8>, p: int) -> RecordRead {
    match spec_name_at(b, p) {
        NameRead::Done { name: domain, end: e1 } => {
            if e1 + 10 <= 512 {
                let qt = be16(b, e1);
                let ttl = be32(b, e1 + 4);
                let rdlen = be16(b, e1 + 8);
                let e2 = e1 + 10;
                if qt == 1 {
                    if rdlen != 4 {
                        RecordRead::Fail { err: DnsError::MalformedName }
                    } else if e2 + 4 <= 512 {
                        RecordRead::Done {
                            rec: RecordView::A {
                                domain,
                                addr: Ipv4Address {
                                    a: b[e2],
                                    b: b[e2 + 1],
                                    c: b[e2 + 2],
                                    d: b[e2 + 3],
                                },
                                ttl,
                            },
                            end: e2 + 4,
                        }
                    } else {
                        RecordRead::Fail { err: DnsError::BufferOverflow }
                    }
                } else if qt == 28 {
                    if rdlen != 16 {
                        RecordRead::Fail { err: DnsError::MalformedName }
                    } else if e2 + 16 <= 512 {
                        RecordRead::Done {
                            rec: RecordView::Aaaa {
                                domain,
                                addr: Ipv6Address {
                                    g0: be16(b, e2),
                                    g1: be16(b, e2 + 2),
                                    g2: be16(b, e2 + 4),
                                    g3: be16(b, e2 + 6),
                                    g4: be16(b, e2 + 8),
                                    g5: be16(b, e2 + 10),
                                    g6: be16(b, e2 + 12),
                                    g7: be16(b, e2 + 14),
                                },
                                ttl,
                            },
                            end: e2 + 16,
                        }
                    } else {
                        RecordRead::Fail { err: DnsError::BufferOverflow }
                    }
                } else if qt == 2 || qt == 5 {
                    match spec_name_at(b, e2) {
                        NameRead::Done { name: host, end: e3 } => RecordRead::Done {
                            rec: if qt == 2 {
                                RecordView::Ns { domain, host, ttl }
                            } else {
                                RecordView::Cname { domain, host, ttl }
                            },
                            end: e3,
                        },
                        n => RecordRead::Fail { err: name_fail(n) },
                    }
                } else if qt == 15 {
                    if e2 + 2 <= 512 {
                        match spec_name_at(b, e2 + 2) {
                            NameRead::Done { name: host, end: e3 } => RecordRead::Done {
                                rec: RecordView::Mx {
                                    domain,
                                    priority: be16(b, e2),
                                    host,
                                    ttl,
                                },
                                end: e3,
                            },
                            n => RecordRead::Fail { err: name_fail(n) },
                        }
                    } else {
                        RecordRead::Fail { err: DnsError::BufferOverflow }
                    }
                } else {
                    if e2 + rdlen <= 512 {
                        RecordRead::Done {
                            rec: RecordView::Unknown { domain, qtype: qt, data_len: rdlen, ttl },
                            end: e2 + rdlen,
                        }
                    } else {
                        RecordRead::Fail { err: DnsError::BufferOverflow }
                    }
                }
            } else {
                RecordRead::Fail { err: DnsError::BufferOverflow }
            }
        },
        n => RecordRead::Fail { err: name_fail(n) },
    }
}

/// The wire form of a record: encoded name, type, class 1, TTL, rdata
/// length, rdata. `None` when a name cannot be encoded or for `Unknown`,
/// which is not writable.
pub open spec fn spec_record_bytes(rv: RecordView) -> Option<Seq<u8>> {
    match rv {
        RecordView::Unknown { .. } => None,
        RecordView::A { domain, addr, ttl } => match spec_encode_from(domain, 0) {
            Some(nw) => Some(
                nw + be16_bytes(1) + be16_bytes(1) + be32_bytes(ttl) + be16_bytes(4) + seq![
                    addr.a,
                    addr.b,
                    addr.c,
                    addr.d,
                ],
            ),
            None => None,
        },
        RecordView::Ns { domain, host, ttl } => match (
            spec_encode_from(domain, 0),
            spec_encode_from(host, 0),
        ) {
            (Some(nw), Some(hw)) => Some(
                nw + be16_bytes(2) + be16_bytes(1) + be32_bytes(ttl) + be16_bytes(
                    hw.len() as u16,
                ) + hw,
            ),
            _ => None,
        },
        RecordView::Cname { domain, host, ttl } => match (
            spec_encode_from(domain, 0),
            spec_encode_from(host, 0),
        ) {
            (Some(nw), Some(hw)) => Some(
                nw + be16_bytes(5) + be16_bytes(1) + be32_bytes(ttl) + be16_bytes(
                    hw.len() as u16,
                ) + hw,
            ),
            _ => None,
        },
        RecordView::Mx { domain, priority, host, ttl } => match (
            spec_encode_from(domain, 0),
            spec_encode_from(host, 0),
        ) {
            (Some(nw), Some(hw)) => Some(
                nw + be16_bytes(15) + be16_bytes(1) + be32_bytes(ttl) + be16_bytes(
                    (hw.len() + 2) as u16,
                ) + be16_bytes(priority) + hw,
            ),
            _ => None,
        },
        RecordView::Aaaa { domain, addr, ttl } => match spec_encode_from(domain, 0) {
            Some(nw) => Some(
                nw + be16_bytes(28) + be16_bytes(1) + be32_bytes(ttl) + be16_bytes(16)
                    + be16_bytes(addr.g0) + be16_bytes(addr.g1) + be16_bytes(addr.g2) + be16_bytes(
                    addr.g3,
                ) + be16_bytes(addr.g4) + be16_bytes(addr.g5) + be16_bytes(addr.g6) + be16_bytes(
                    addr.g7,
                ),
            ),
            None => None,
        },
    }
}

impl DnsRecord {
    /// Decode one resource record at the cursor.
    pub fn read(buffer: &mut BytePacketBuffer) -> (r: Result<DnsRecord, DnsError>)
        requires
            old(buffer).wf(),
        ensures
            final(buffer).wf(),
            final(buffer).buf@ == old(buffer).buf@,
            match r {
                Ok(rec) => (spec_read_record(old(buffer).buf@, old(buffer).pos as int)
                    matches RecordRead::Done { rec: rv, end } && rec@ == rv && final(buffer).pos
                    == end),
                Err(e) => spec_read_record(old(buffer).buf@, old(buffer).pos as int)
                    == (RecordRead::Fail { err: e }),
            },
    {
        let mut domain = String::new();
        match buffer.read_qname(&mut domain) {
            Ok(()) => (),
            Err(e) => {
                return Err(e);
            },
        }
        let qt = buffer.read_u16()?;
        let _class = buffer.read_u16()?;
        let ttl = buffer.read_u32()?;
        let rdlen = buffer.read_u16()?;
        if qt == 1 {
            if rdlen != 4 {
                return Err(DnsError::MalformedName);
            }
            let a = buffer.read()?;
            let b = buffer.read()?;
            let c = buffer.read()?;
            let d = buffer.read()?;
            Ok(DnsRecord::A { domain, addr: Ipv4Address { a, b, c, d }, ttl })
        } else if qt == 28 {
            if rdlen != 16 {
                return Err(DnsError::MalformedName);
            }
            let g0 = buffer.read_u16()?;
            let g1 = buffer.read_u16()?;
            let g2 = buffer.read_u16()?;
            let g3 = buffer.read_u16()?;
            let g4 = buffer.read_u16()?;
            let g5 = buffer.read_u16()?;
            let g6 = buffer.read_u16()?;
            let g7 = buffer.read_u16()?;
            Ok(
                DnsRecord::AAAA {
                    domain,
                    addr: Ipv6Address { g0, g1, g2, g3, g4, g5, g6, g7 },
                    ttl,
                },
            )
        } else if qt == 2 || qt == 5 {
            let mut host = String::new();
            match buffer.read_qname(&mut host) {
                Ok(()) => (),
                Err(e) => {
                    return Err(e);
                },
            }
            if qt == 2 {
                Ok(DnsRecord::NS { domain, host, ttl })
            } else {
                Ok(DnsRecord::CNAME { domain, host, ttl })
            }
        } else if qt == 15 {
            let priority = buffer.read_u16()?;
            let mut host = String::new();
            match buffer.read_qname(&mut host) {
                Ok(()) => (),
                Err(e) => {
                    return Err(e);
                },
            }
            Ok(DnsRecord::MX { domain, priority, host, ttl })
        } else {
            buffer.step(rdlen as usize)?;
            Ok(DnsRecord::UNKNOWN { domain, qtype: qt, data_len: rdlen, ttl })
        }
    }
}


/// The name, type, class and TTL bytes common to every written record.
pub open spec fn spec_preamble_bytes(domain: Seq<char>, qt: u16, ttl: u32) -> Option<Seq<u8>> {
    match spec_encode_from(domain, 0) {
        Some(nw) => Some(nw + be16_bytes(qt) + be16_bytes(1) + be32_bytes(ttl)),
        None => None,
    }
}

impl DnsRecord {
    /// Write the name, type, class-1 and TTL fields that open every
    /// record.
    fn write_preamble(buffer: &mut BytePacketBuffer, domain: &str, qt: u16, ttl: u32) -> (r:
        Result<(), DnsError>)
        requires
            old(buffer).wf(),
        ensures
            final(buffer).wf(),
            match r {
                Ok(()) => (spec_preamble_bytes(domain@, qt, ttl) matches Some(w) && old(buffer).pos + w.len() <= 512 && final(buffer).pos == old(buffer).pos + w.len() && final(buffer).buf@ == splice(old(buffer).buf@, old(buffer).pos as int, w)),
                Err(e) => {
                    &&& !(spec_preamble_bytes(domain@, qt, ttl) matches Some(w) && old(buffer).pos
                        + w.len() <= 512)
                    &&& (e == DnsError::BufferOverflow || e == DnsError::LabelTooLong || e
                        == DnsError::MalformedName)
                    &&& e != DnsError::BufferOverflow ==> spec_preamble_bytes(domain@, qt, ttl)
                        is None
                },
            },
    {
        let ghost b0 = buffer.buf@;
        let ghost p0 = buffer.pos as int;
        match buffer.write_qname(domain) {
            Ok(()) => (),
            Err(e) => {
                return Err(e);
            },
        }
        let ghost nw = spec_encode_from(domain@, 0).unwrap();
        match buffer.write_u16(qt) {
            Ok(()) => (),
            Err(_) => {
                return Err(DnsError::BufferOverflow);
            },
        }
        match buffer.write_u16(1) {
            Ok(()) => (),
            Err(_) => {
                return Err(DnsError::BufferOverflow);
            },
        }
        match buffer.write_u32(ttl) {
            Ok(()) => (),
            Err(_) => {
                return Err(DnsError::BufferOverflow);
            },
        }
        proof {
            assert(buffer.buf@ =~= splice(b0, p0, spec_preamble_bytes(domain@, qt, ttl).unwrap()));
        }
        Ok(())
    }

    /// Encode this record at the cursor. Rdata of variable length is
    /// written after a reserved length field, which is then back-patched.
    /// `UNKNOWN` records are not writable and fail with
    /// `UnsupportedRecord`.
    #[verifier::rlimit(100)]
    pub fn write(&self, buffer: &mut BytePacketBuffer) -> (r: Result<(), DnsError>)
        requires
            old(buffer).wf(),
        ensures
            final(buffer).wf(),
            match r {
                Ok(()) => (spec_record_bytes(self@) matches Some(w) && old(buffer).pos + w.len()
                    <= 512 && final(buffer).pos == old(buffer).pos + w.len() && final(buffer).buf@
                    == splice(old(buffer).buf@, old(buffer).pos as int, w)),
                Err(e) => {
                    &&& !(spec_record_bytes(self@) matches Some(w) && old(buffer).pos + w.len()
                        <= 512)
                    &&& (e == DnsError::UnsupportedRecord) == (self is UNKNOWN)
                },
            },
    {
        let ghost b0 = buffer.buf@;
        let ghost p0 = buffer.pos as int;
        match self {
            DnsRecord::UNKNOWN { .. } => Err(DnsError::UnsupportedRecord),
            DnsRecord::A { domain, addr, ttl } => {
                Self::write_preamble(buffer, domain.as_str(), 1, *ttl)?;
                let ghost pw = spec_preamble_bytes(domain@, 1, *ttl).unwrap();
                buffer.write_u16(4)?;
                buffer.write_u8(addr.a)?;
                buffer.write_u8(addr.b)?;
                buffer.write_u8(addr.c)?;
                buffer.write_u8(addr.d)?;
                proof {
                    assert(buffer.buf@ =~= splice(b0, p0, spec_record_bytes(self@).unwrap()));
                }
                Ok(())
            },
            DnsRecord::AAAA { domain, addr, ttl } => {
                Self::write_preamble(buffer, domain.as_str(), 28, *ttl)?;
                let ghost pw = spec_preamble_bytes(domain@, 28, *ttl).unwrap();
                buffer.write_u16(16)?;
                buffer.write_u16(addr.g0)?;
                buffer.write_u16(addr.g1)?;
                buffer.write_u16(addr.g2)?;
                buffer.write_u16(addr.g3)?;
                buffer.write_u16(addr.g4)?;
                buffer.write_u16(addr.g5)?;
                buffer.write_u16(addr.g6)?;
                buffer.write_u16(addr.g7)?;
                proof {
                    assert(buffer.buf@ =~= splice(b0, p0, spec_record_bytes(self@).unwrap()));
                }
                Ok(())
            },
            DnsRecord::NS { domain, host, ttl } => Self::write_host_record(
                buffer,
                domain.as_str(),
                2,
                *ttl,
                None,
                host.as_str(),
                Ghost(self@),
            ),
            DnsRecord::CNAME { domain, host, ttl } => Self::write_host_record(
                buffer,
                domain.as_str(),
                5,
                *ttl,
                None,
                host.as_str(),
                Ghost(self@),
            ),
            DnsRecord::MX { domain, priority, host, ttl } => Self::write_host_record(
                buffer,
                domain.as_str(),
                15,
                *ttl,
                Some(*priority),
                host.as_str(),
                Ghost(self@),
            ),
        }
    }

    /// Write a record whose rdata is a host name (with an optional
    /// leading preference field): the rdata length is reserved, the body
    /// written, and the length patched in.
    #[verifier::rlimit(100)]
    fn write_host_record(
        buffer: &mut BytePacketBuffer,
        domain: &str,
        qt: u16,
        ttl: u32,
        priority: Option<u16>,
        host: &str,
        Ghost(rv): Ghost<RecordView>,
    ) -> (r: Result<(), DnsError>)
        requires
            old(buffer).wf(),
            qt == 2 || qt == 5 || qt == 15,
            (qt == 15) == (priority is Some),
            rv == (match rv {
                RecordView::Ns { .. } => RecordView::Ns { domain: domain@, host: host@, ttl },
                RecordView::Cname { .. } => RecordView::Cname {
                    domain: domain@,
                    host: host@,
                    ttl,
                },
                _ => RecordView::Mx {
                    domain: domain@,
                    priority: priority.unwrap(),
                    host: host@,
                    ttl,
                },
            }),
            qt == 2 ==> rv is Ns,
            qt == 5 ==> rv is Cname,
            qt == 15 ==> rv is Mx,
        ensures
            final(buffer).wf(),
            match r {
                Ok(()) => (spec_record_bytes(rv) matches Some(w) && old(buffer).pos + w.len()
                    <= 512 && final(buffer).pos == old(buffer).pos + w.len() && final(buffer).buf@
                    == splice(old(buffer).buf@, old(buffer).pos as int, w)),
                Err(e) => {
                    &&& !(spec_record_bytes(rv) matches Some(w) && old(buffer).pos + w.len()
                        <= 512)
                    &&& e != DnsError::UnsupportedRecord
                },
            },
    {
        let ghost b0 = buffer.buf@;
        let ghost p0 = buffer.pos as int;
        match Self::write_preamble(buffer, domain, qt, ttl) {
            Ok(()) => (),
            Err(e) => {
                return Err(e);
            },
        }
        let ghost pw = spec_preamble_bytes(domain@, qt, ttl).unwrap();
        let pos_rd = buffer.pos();
        buffer.write_u16(0)?;
        if let Some(pri) = priority {
            buffer.write_u16(pri)?;
        }
        let ghost bmid = buffer.buf@;
        let ghost pmid = buffer.pos as int;
        match buffer.write_qname(host) {
            Ok(()) => (),
            Err(e) => {
                proof {
                    match spec_encode_from(host@, 0) {
                        Some(hw) => {
                            assert(pmid + hw.len() > 512);
                        },
                        None => {},
                    }
                }
                return Err(e);
            },
        }
        let ghost hw = spec_encode_from(host@, 0).unwrap();
        let size = buffer.pos() - (pos_rd + 2);
        match buffer.set_u16(pos_rd, size as u16) {
            Ok(()) => (),
            Err(_) => {
                // the length field lies inside bytes already written, so
                // the patch cannot run out of room
                proof {
                    assert(false);
                }
                return Err(DnsError::BufferOverflow);
            },
        }
        proof {
            assert(buffer.buf@ =~= splice(b0, p0, spec_record_bytes(rv).unwrap()));
        }
        Ok(())
    }
}


/// The record half of the codec round-trip, shown for address records:
/// decoding an encoded `A` record gives it back, for the shapes the
/// decoder itself produces (a name already in lowercase).
pub proof fn lemma_a_record_roundtrip(
    b0: Seq<u8>,
    p: int,
    domain: Seq<char>,
    addr: Ipv4Address,
    ttl: u32,
)
    requires
        b0.len() == 512,
        0 <= p,
        domain == lower_chars(domain),
        spec_record_bytes(RecordView::A { domain, addr, ttl }) is Some,
        p + spec_record_bytes(RecordView::A { domain, addr, ttl }).unwrap().len() <= 512,
    ensures
        spec_read_record(
            splice(b0, p, spec_record_bytes(RecordView::A { domain, addr, ttl }).unwrap()),
            p,
        ) == (RecordRead::Done {
            rec: RecordView::A { domain, addr, ttl },
            end: p + spec_record_bytes(RecordView::A { domain, addr, ttl }).unwrap().len(),
        }),
{
    let nw = spec_encode_from(domain, 0).unwrap();
    let w = spec_record_bytes(RecordView::A { domain, addr, ttl }).unwrap();
    let b = splice(b0, p, w);
    assert(b.len() == 512);
    assert(w.len() == nw.len() + 14);
    assert(b.subrange(p, p + w.len()) =~= w);
    assert(forall|t: int| 0 <= t < w.len() ==> b[p + t] == w[t]);
    assert(b.subrange(p, p + nw.len()) =~= nw) by {
        assert(forall|t: int|
            0 <= t < nw.len() ==> b.subrange(p, p + nw.len())[t] == b[p + t] && b[p + t] == w[t]
                && w[t] == nw[t]);
    }
    lemma_name_decodes_at(b, p, domain);
    let e1 = p + nw.len();
    let n = nw.len() as int;
    assert(w[n] == 0 && w[n + 1] == 1);
    assert(be16(b, e1) == 1);
    assert(w[n + 2] == 0 && w[n + 3] == 1);
    assert(w[n + 4] == (ttl / 0x1000000) as u8);
    assert(w[n + 5] == ((ttl / 0x10000) % 256) as u8);
    assert(w[n + 6] == ((ttl / 0x100) % 256) as u8);
    assert(w[n + 7] == (ttl % 256) as u8);
    assert(be32(b, e1 + 4) == ttl);
    assert(w[n + 8] == 0 && w[n + 9] == 4);
    assert(be16(b, e1 + 8) == 4);
    assert(w[n + 10] == addr.a && w[n + 11] == addr.b && w[n + 12] == addr.c && w[n + 13]
        == addr.d);
}

} // verus!
