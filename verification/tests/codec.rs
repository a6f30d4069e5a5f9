use dns_resolver::byte_packet_buffer::BytePacketBuffer;
use dns_resolver::dns_error::DnsError;
use dns_resolver::dns::header::DnsHeader;
use dns_resolver::dns::packet::DnsPacket;
use dns_resolver::dns::question::{DnsQuestion, QueryType};
use dns_resolver::dns::record::{DnsRecord, Ipv4Address, Ipv6Address};
use dns_resolver::result_code::ResultCode;

fn put(buf: &mut BytePacketBuffer, at: usize, bytes: &[u8]) {
    for (k, b) in bytes.iter().enumerate() {
        buf.buf[at + k] = *b;
    }
}

#[test]
fn buffer_read_write_round() {
    let mut b = BytePacketBuffer::new();
    assert_eq!(b.pos(), 0);
    b.write_u8(0xAB).unwrap();
    b.write_u16(0x1234).unwrap();
    b.write_u32(0xDEADBEEF).unwrap();
    assert_eq!(b.pos(), 7);
    b.seek(0).unwrap();
    assert_eq!(b.read().unwrap(), 0xAB);
    assert_eq!(b.read_u16().unwrap(), 0x1234);
    assert_eq!(b.read_u32().unwrap(), 0xDEADBEEF);
    assert_eq!(b.get(0).unwrap(), 0xAB);
    let r = b.get_range(1, 2).unwrap();
    assert_eq!(r, &[0x12, 0x34]);
}

#[test]
fn buffer_bounds() {
    let mut b = BytePacketBuffer::new();
    assert_eq!(b.seek(513), Err(DnsError::BufferOverflow));
    b.seek(512).unwrap();
    assert_eq!(b.read(), Err(DnsError::BufferOverflow));
    assert_eq!(b.write_u8(1), Err(DnsError::BufferOverflow));
    b.seek(511).unwrap();
    assert_eq!(b.read_u16(), Err(DnsError::BufferOverflow));
    assert_eq!(b.write_u32(7), Err(DnsError::BufferOverflow));
    assert_eq!(b.get(512), Err(DnsError::BufferOverflow));
    assert!(b.get_range(510, 2).is_ok());
    assert_eq!(b.get_range(510, 3), Err(DnsError::BufferOverflow));
    b.seek(0).unwrap();
    assert_eq!(b.step(512), Ok(()));
    assert_eq!(b.step(1), Err(DnsError::BufferOverflow));
}

#[test]
fn buffer_set_patch() {
    let mut b = BytePacketBuffer::new();
    b.write_u32(0).unwrap();
    b.set_u8(1, 0x7F).unwrap();
    b.set_u16(2, 0x0102).unwrap();
    assert_eq!(b.get(1).unwrap(), 0x7F);
    assert_eq!(b.get(2).unwrap(), 0x01);
    assert_eq!(b.get(3).unwrap(), 0x02);
    assert_eq!(b.set_u16(511, 1), Err(DnsError::BufferOverflow));
}

#[test]
fn qname_plain_decode() {
    let mut b = BytePacketBuffer::new();
    put(
        &mut b,
        12,
        &[
            3, b'w', b'w', b'w', 6, b'g', b'o', b'o', b'g', b'l', b'e', 3, b'c', b'o', b'm', 0,
        ],
    );
    b.seek(12).unwrap();
    let mut out = String::new();
    b.read_qname(&mut out).unwrap();
    assert_eq!(out, "www.google.com");
    assert_eq!(b.pos(), 28);
}

#[test]
fn qname_decode_lowercases() {
    let mut b = BytePacketBuffer::new();
    put(&mut b, 0, &[3, b'W', b'w', b'W', 2, b'D', b'E', 0]);
    let mut out = String::new();
    b.read_qname(&mut out).unwrap();
    assert_eq!(out, "www.de");
}

#[test]
fn qname_compressed_decode() {
    let mut b = BytePacketBuffer::new();
    put(
        &mut b,
        12,
        &[
            3, b'w', b'w', b'w', 6, b'g', b'o', b'o', b'g', b'l', b'e', 3, b'c', b'o', b'm', 0,
        ],
    );
    put(&mut b, 40, &[0xC0, 0x0C]);
    b.seek(40).unwrap();
    let mut out = String::new();
    b.read_qname(&mut out).unwrap();
    assert_eq!(out, "www.google.com");
    assert_eq!(b.pos(), 42);
}

#[test]
fn qname_pointer_loop_rejected() {
    let mut b = BytePacketBuffer::new();
    put(&mut b, 12, &[0xC0, 0x0C]);
    b.seek(12).unwrap();
    let mut out = String::new();
    assert_eq!(b.read_qname(&mut out), Err(DnsError::MalformedName));
}

#[test]
fn qname_two_step_pointer_cycle_rejected() {
    let mut b = BytePacketBuffer::new();
    put(&mut b, 12, &[0xC0, 14]);
    put(&mut b, 14, &[0xC0, 12]);
    b.seek(12).unwrap();
    let mut out = String::new();
    assert_eq!(b.read_qname(&mut out), Err(DnsError::MalformedName));
}

#[test]
fn qname_truncated_label_rejected() {
    let mut b = BytePacketBuffer::new();
    put(&mut b, 508, &[5, b'a', b'b', b'c']);
    b.seek(508).unwrap();
    let mut out = String::new();
    assert_eq!(b.read_qname(&mut out), Err(DnsError::BufferOverflow));
}

#[test]
fn qname_encode_bytes() {
    let mut b = BytePacketBuffer::new();
    b.write_qname("www.google.com").unwrap();
    let want = [
        3u8, b'w', b'w', b'w', 6, b'g', b'o', b'o', b'g', b'l', b'e', 3, b'c', b'o', b'm', 0,
    ];
    assert_eq!(&b.buf[0..16], &want);
    assert_eq!(b.pos(), 16);
}

#[test]
fn qname_encode_root_is_terminator() {
    let mut b = BytePacketBuffer::new();
    b.write_qname("").unwrap();
    assert_eq!(b.buf[0], 0);
    assert_eq!(b.pos(), 1);
}

#[test]
fn qname_encode_rejects_long_label() {
    let mut b = BytePacketBuffer::new();
    let long = "a".repeat(64);
    assert_eq!(b.write_qname(&long), Err(DnsError::LabelTooLong));
    let fine = "a".repeat(63);
    let mut b2 = BytePacketBuffer::new();
    assert!(b2.write_qname(&fine).is_ok());
}

#[test]
fn qname_encode_rejects_empty_label() {
    let mut b = BytePacketBuffer::new();
    assert_eq!(b.write_qname("a..b"), Err(DnsError::MalformedName));
    let mut b2 = BytePacketBuffer::new();
    assert_eq!(b2.write_qname("a.b."), Err(DnsError::MalformedName));
}

#[test]
fn qname_encode_rejects_wide_char() {
    let mut b = BytePacketBuffer::new();
    assert_eq!(b.write_qname("π.com"), Err(DnsError::MalformedName));
}

#[test]
fn header_bytes_and_back() {
    let mut h = DnsHeader::new();
    h.id = 0xABCD;
    h.recursion_desired = true;
    h.authoritative_answer = true;
    h.opcode = 5;
    h.response = true;
    h.rescode = ResultCode::REFUSED;
    h.checking_disabled = true;
    h.z = true;
    h.recursion_available = true;
    h.questions = 2;
    h.answers = 0x0102;
    let mut b = BytePacketBuffer::new();
    h.write(&mut b).unwrap();
    assert_eq!(b.pos(), 12);
    assert_eq!(b.buf[0], 0xAB);
    assert_eq!(b.buf[1], 0xCD);
    // RD | AA | opcode 5 | QR
    assert_eq!(b.buf[2], 0x01 | 0x04 | (5 << 3) | 0x80);
    // REFUSED | CD | Z | RA
    assert_eq!(b.buf[3], 5 | 16 | 64 | 128);
    assert_eq!(b.buf[4], 0);
    assert_eq!(b.buf[5], 2);
    assert_eq!(b.buf[6], 1);
    assert_eq!(b.buf[7], 2);
    b.seek(0).unwrap();
    let h2 = DnsHeader::read(&mut b).unwrap();
    assert_eq!(h2, h);
}

#[test]
fn query_type_numbers_round() {
    for n in [0u16, 1, 2, 5, 15, 28, 257] {
        assert_eq!(QueryType::from_num(n).to_num(), n);
    }
    assert_eq!(QueryType::from_num(1), QueryType::A);
    assert_eq!(QueryType::from_num(2), QueryType::NS);
    assert_eq!(QueryType::from_num(5), QueryType::CNAME);
    assert_eq!(QueryType::from_num(15), QueryType::MX);
    assert_eq!(QueryType::from_num(28), QueryType::AAAA);
    assert_eq!(QueryType::from_num(99), QueryType::UNKNOWN(99));
}

#[test]
fn result_code_numbers() {
    assert_eq!(ResultCode::from_num(0), ResultCode::NOERROR);
    assert_eq!(ResultCode::from_num(1), ResultCode::FORMERR);
    assert_eq!(ResultCode::from_num(2), ResultCode::SERVFAIL);
    assert_eq!(ResultCode::from_num(3), ResultCode::NXDOMAIN);
    assert_eq!(ResultCode::from_num(4), ResultCode::NOTIMP);
    assert_eq!(ResultCode::from_num(5), ResultCode::REFUSED);
    // unknown values fold to NOERROR
    assert_eq!(ResultCode::from_num(9), ResultCode::NOERROR);
    for c in [
        ResultCode::NOERROR,
        ResultCode::FORMERR,
        ResultCode::SERVFAIL,
        ResultCode::NXDOMAIN,
        ResultCode::NOTIMP,
        ResultCode::REFUSED,
    ] {
        assert_eq!(ResultCode::from_num(c.to_num()), c);
    }
}

#[test]
fn query_packet_wire_form() {
    let mut packet = DnsPacket::new();
    packet.header.id = 0x1234;
    packet.header.recursion_desired = true;
    packet.questions.push(DnsQuestion::new(
        String::from("www.google.com"),
        QueryType::A,
    ));
    let mut b = BytePacketBuffer::new();
    packet.write(&mut b).unwrap();
    let head = [
        0x12u8, 0x34, 0x01, 0x00, 0x00, 0x01, 0x00, 0x00, 0x00, 0x00, 0x00, 0x00,
    ];
    assert_eq!(&b.buf[0..12], &head);
    let q = [
        3u8, b'w', b'w', b'w', 6, b'g', b'o', b'o', b'g', b'l', b'e', 3, b'c', b'o', b'm', 0, 0,
        1, 0, 1,
    ];
    assert_eq!(&b.buf[12..32], &q);
    assert_eq!(b.pos(), 32);
    b.seek(0).unwrap();
    let decoded = DnsPacket::from_buffer(&mut b).unwrap();
    assert_eq!(decoded, packet);
}

#[test]
fn record_sections_round_trip() {
    let mut packet = DnsPacket::new();
    packet.header.id = 7;
    packet.header.response = true;
    packet.questions.push(DnsQuestion::new(
        String::from("example.com"),
        QueryType::MX,
    ));
    packet.answers.push(DnsRecord::A {
        domain: String::from("example.com"),
        addr: Ipv4Address { a: 93, b: 184, c: 216, d: 34 },
        ttl: 3600,
    });
    packet.answers.push(DnsRecord::MX {
        domain: String::from("example.com"),
        priority: 10,
        host: String::from("mail.example.com"),
        ttl: 60,
    });
    packet.authorities.push(DnsRecord::NS {
        domain: String::from("example.com"),
        host: String::from("ns1.example.com"),
        ttl: 86400,
    });
    packet.authorities.push(DnsRecord::CNAME {
        domain: String::from("alias.example.com"),
        host: String::from("example.com"),
        ttl: 30,
    });
    packet.resources.push(DnsRecord::AAAA {
        domain: String::from("ns1.example.com"),
        addr: Ipv6Address {
            g0: 0x2001,
            g1: 0x0db8,
            g2: 0,
            g3: 0,
            g4: 0,
            g5: 0,
            g6: 0,
            g7: 1,
        },
        ttl: 120,
    });
    let mut b = BytePacketBuffer::new();
    packet.write(&mut b).unwrap();
    assert_eq!(packet.header.questions, 1);
    assert_eq!(packet.header.answers, 2);
    assert_eq!(packet.header.authoritative_entries, 2);
    assert_eq!(packet.header.resource_entries, 1);
    b.seek(0).unwrap();
    let decoded = DnsPacket::from_buffer(&mut b).unwrap();
    assert_eq!(decoded, packet);
}

#[test]
fn unknown_record_skipped_on_read() {
    let mut b = BytePacketBuffer::new();
    // name "x", type 99, class 1, ttl 17, rdlen 3, three rdata bytes
    put(
        &mut b,
        0,
        &[
            1, b'x', 0, 0, 99, 0, 1, 0, 0, 0, 17, 0, 3, 0xAA, 0xBB, 0xCC, 0xFF,
        ],
    );
    let rec = DnsRecord::read(&mut b).unwrap();
    assert_eq!(
        rec,
        DnsRecord::UNKNOWN { domain: String::from("x"), qtype: 99, data_len: 3, ttl: 17 }
    );
    assert_eq!(b.pos(), 16);
}

#[test]
fn unknown_record_not_writable() {
    let rec = DnsRecord::UNKNOWN { domain: String::from("x"), qtype: 99, data_len: 3, ttl: 17 };
    let mut b = BytePacketBuffer::new();
    assert_eq!(rec.write(&mut b), Err(DnsError::UnsupportedRecord));
}

#[test]
fn a_record_with_wrong_length_rejected() {
    let mut b = BytePacketBuffer::new();
    // name "x", type 1 (A), class 1, ttl 0, rdlen 5
    put(&mut b, 0, &[1, b'x', 0, 0, 1, 0, 1, 0, 0, 0, 0, 0, 5, 1, 2, 3, 4, 5]);
    assert_eq!(DnsRecord::read(&mut b), Err(DnsError::MalformedName));
}

#[test]
fn error_descriptions() {
    assert_eq!(DnsError::BufferOverflow.describe(), "end of buffer");
    assert_eq!(DnsError::MalformedName.describe(), "malformed name");
    assert_eq!(DnsError::LabelTooLong.describe(), "label exceeds 63 characters");
    assert_eq!(DnsError::UnsupportedRecord.describe(), "unsupported record type");
    assert_eq!(DnsError::NetworkError.describe(), "network error");
}

#[test]
fn compressed_packet_survives_reencoding() {
    let mut b = BytePacketBuffer::new();
    // a response: one question, one answer whose name is a pointer back
    // to the question name
    put(&mut b, 0, &[0x00, 0x01, 0x80, 0x80, 0, 1, 0, 1, 0, 0, 0, 0]);
    put(
        &mut b,
        12,
        &[
            6, b'g', b'o', b'o', b'g', b'l', b'e', 3, b'c', b'o', b'm', 0, 0, 1, 0, 1,
        ],
    );
    put(
        &mut b,
        28,
        &[
            0xC0, 0x0C, 0, 1, 0, 1, 0, 0, 0, 60, 0, 4, 93, 184, 216, 34,
        ],
    );
    let packet = DnsPacket::from_buffer(&mut b).unwrap();
    assert_eq!(packet.questions[0].name, "google.com");
    assert_eq!(
        packet.answers[0],
        DnsRecord::A {
            domain: String::from("google.com"),
            addr: Ipv4Address { a: 93, b: 184, c: 216, d: 34 },
            ttl: 60,
        }
    );
    // the encoder emits no pointers, yet the decoded value is the same
    let mut again = packet.clone();
    let mut out = BytePacketBuffer::new();
    again.write(&mut out).unwrap();
    out.seek(0).unwrap();
    let redecoded = DnsPacket::from_buffer(&mut out).unwrap();
    assert_eq!(redecoded, again);
    assert_eq!(redecoded.questions, packet.questions);
    assert_eq!(redecoded.answers, packet.answers);
}
