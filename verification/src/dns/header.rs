use vstd::prelude::*;
use crate::byte_packet_buffer::{BytePacketBuffer, splice};
use crate::dns_error::DnsError;
use crate::result_code::ResultCode;

verus! {

/// The 12-byte DNS message header.
///
/// Byte 2 packs, from least to most significant bit: `recursion_desired`,
/// `truncated_message`, `authoritative_answer`, the four opcode bits, and
/// `response`. Byte 3 packs the four `rescode` bits, `checking_disabled`,
/// `authed_data`, `z` and `recursion_available`.
#[derive(Clone, Copy, Debug, PartialEq, Eq, Structural)]
pub struct DnsHeader {
    pub id: u16,
    pub recursion_desired: bool,
    pub truncated_message: bool,
    pub authoritative_answer: bool,
    pub opcode: u8,
    pub response: bool,
    pub rescode: ResultCode,
    pub checking_disabled: bool,
    pub authed_data: bool,
    pub z: bool,
    pub recursion_available: bool,
    pub questions: u16,
    pub answers: u16,
    pub authoritative_entries: u16,
    pub resource_entries: u16,
}

/// The big-endian `u16` at position `p` of `b`.
pub open spec fn be16(b: Seq<u8>, p: int) -> u16 {
    (b[p] * 256 + b[p + 1]) as u16
}

/// The big-endian `u32` at position `p` of `b`.
pub open spec fn be32(b: Seq<u8>, p: int) -> u32 {
    (b[p] * 0x1000000 + b[p + 1] * 0x10000 + b[p + 2] * 0x100 + b[p + 3]) as u32
}

/// The two big-endian bytes of `v`.
pub open spec fn be16_bytes(v: u16) -> Seq<u8> {
    seq![(v / 256) as u8, (v % 256) as u8]
}

/// The four big-endian bytes of `v`.
pub open spec fn be32_bytes(v: u32) -> Seq<u8> {
    seq![
        (v / 0x1000000) as u8,
        ((v / 0x10000) % 256) as u8,
        ((v / 0x100) % 256) as u8,
        (v % 256) as u8,
    ]
}

pub open spec fn bool_bit(f: bool) -> u8 {
    if f {
        1
    } else {
        0
    }
}

impl DnsHeader {
    /// The opcode is a four-bit field.
    pub open spec fn wf(&self) -> bool {
        self.opcode < 16
    }

    /// The header decoded from the 12 bytes at position `p` of `b`.
    pub open spec fn spec_at(b: Seq<u8>, p: int) -> DnsHeader {
        let fa = b[p + 2];
        let fb = b[p + 3];
        DnsHeader {
            id: be16(b, p),
            recursion_desired: fa % 2 == 1,
            truncated_message: (fa / 2) % 2 == 1,
            authoritative_answer: (fa / 4) % 2 == 1,
            opcode: ((fa / 8) % 16) as u8,
            response: fa / 128 == 1,
            rescode: ResultCode::spec_from_num((fb % 16) as u8),
            checking_disabled: (fb / 16) % 2 == 1,
            authed_data: (fb / 32) % 2 == 1,
            z: (fb / 64) % 2 == 1,
            recursion_available: fb / 128 == 1,
            questions: be16(b, p + 4),
            answers: be16(b, p + 6),
            authoritative_entries: be16(b, p + 8),
            resource_entries: be16(b, p + 10),
        }
    }

    /// The flag byte holding recursion-desired, truncation, authority,
    /// opcode and the query/response bit.
    pub open spec fn spec_flags_a(&self) -> u8 {
        (bool_bit(self.recursion_desired) + 2 * bool_bit(self.truncated_message) + 4 * bool_bit(
            self.authoritative_answer,
        ) + 8 * (self.opcode % 16) + 128 * bool_bit(self.response)) as u8
    }

    /// The flag byte holding the result code, the DNSSEC bits and
    /// recursion-available.
    pub open spec fn spec_flags_b(&self) -> u8 {
        (self.rescode.spec_to_num() + 16 * bool_bit(self.checking_disabled) + 32 * bool_bit(
            self.authed_data,
        ) + 64 * bool_bit(self.z) + 128 * bool_bit(self.recursion_available)) as u8
    }

    /// The 12 wire bytes of the header.
    pub open spec fn spec_bytes(&self) -> Seq<u8> {
        be16_bytes(self.id) + seq![self.spec_flags_a(), self.spec_flags_b()] + be16_bytes(
            self.questions,
        ) + be16_bytes(self.answers) + be16_bytes(self.authoritative_entries) + be16_bytes(
            self.resource_entries,
        )
    }

    /// The all-zero header value: id 0, every flag clear, `NOERROR`,
    /// all counts 0.
    pub open spec fn spec_default() -> DnsHeader {
        DnsHeader {
            id: 0,
            recursion_desired: false,
            truncated_message: false,
            authoritative_answer: false,
            opcode: 0,
            response: false,
            rescode: ResultCode::NOERROR,
            checking_disabled: false,
            authed_data: false,
            z: false,
            recursion_available: false,
            questions: 0,
            answers: 0,
            authoritative_entries: 0,
            resource_entries: 0,
        }
    }

    /// An all-zero header: id 0, every flag clear, `NOERROR`, all counts 0.
    pub fn new() -> (r: DnsHeader)
        ensures
            r.wf(),
            r == DnsHeader::spec_default(),
            r == (DnsHeader {
                id: 0,
                recursion_desired: false,
                truncated_message: false,
                authoritative_answer: false,
                opcode: 0,
                response: false,
                rescode: ResultCode::NOERROR,
                checking_disabled: false,
                authed_data: false,
                z: false,
                recursion_available: false,
                questions: 0,
                answers: 0,
                authoritative_entries: 0,
                resource_entries: 0,
            }),
    {
        DnsHeader {
            id: 0,
            recursion_desired: false,
            truncated_message: false,
            authoritative_answer: false,
            opcode: 0,
            response: false,
            rescode: ResultCode::NOERROR,
            checking_disabled: false,
            authed_data: false,
            z: false,
            recursion_available: false,
            questions: 0,
            answers: 0,
            authoritative_entries: 0,
            resource_entries: 0,
        }
    }

    /// Decode the 12 header bytes at the cursor.
    pub fn read(buffer: &mut BytePacketBuffer) -> (r: Result<DnsHeader, DnsError>)
        requires
            old(buffer).wf(),
        ensures
            final(buffer).wf(),
            final(buffer).buf@ == old(buffer).buf@,
            match r {
                Ok(h) => {
                    &&& old(buffer).pos + 12 <= 512
                    &&& final(buffer).pos == old(buffer).pos + 12
                    &&& h == DnsHeader::spec_at(old(buffer).buf@, old(buffer).pos as int)
                    &&& h.wf()
                },
                Err(e) => e == DnsError::BufferOverflow && old(buffer).pos + 12 > 512,
            },
    {
        let id = buffer.read_u16()?;
        let fa = buffer.read()?;
        let fb = buffer.read()?;
        let questions = buffer.read_u16()?;
        let answers = buffer.read_u16()?;
        let authoritative_entries = buffer.read_u16()?;
        let resource_entries = buffer.read_u16()?;
        Ok(
            DnsHeader {
                id,
                recursion_desired: fa % 2 == 1,
                truncated_message: (fa / 2) % 2 == 1,
                authoritative_answer: (fa / 4) % 2 == 1,
                opcode: (fa / 8) % 16,
                response: fa / 128 == 1,
                rescode: ResultCode::from_num(fb % 16),
                checking_disabled: (fb / 16) % 2 == 1,
                authed_data: (fb / 32) % 2 == 1,
                z: (fb / 64) % 2 == 1,
                recursion_available: fb / 128 == 1,
                questions,
                answers,
                authoritative_entries,
                resource_entries,
            },
        )
    }

    /// Encode the header's 12 bytes at the cursor.
    #[verifier::rlimit(100)]
    pub fn write(&self, buffer: &mut BytePacketBuffer) -> (r: Result<(), DnsError>)
        requires
            old(buffer).wf(),
        ensures
            final(buffer).wf(),
            match r {
                Ok(()) => {
                    &&& old(buffer).pos + 12 <= 512
                    &&& final(buffer).pos == old(buffer).pos + 12
                    &&& final(buffer).buf@ == splice(
                        old(buffer).buf@,
                        old(buffer).pos as int,
                        self.spec_bytes(),
                    )
                },
                Err(e) => e == DnsError::BufferOverflow && old(buffer).pos + 12 > 512,
            },
    {
        if buffer.pos > 500 {
            return Err(DnsError::BufferOverflow);
        }
        let ghost b0 = buffer.buf@;
        let ghost p0 = buffer.pos as int;
        buffer.write_u16(self.id)?;
        let fa: u8 = (if self.recursion_desired {
            1u8
        } else {
            0u8
        }) + 2 * (if self.truncated_message {
            1u8
        } else {
            0u8
        }) + 4 * (if self.authoritative_answer {
            1u8
        } else {
            0u8
        }) + 8 * (self.opcode % 16) + 128 * (if self.response {
            1u8
        } else {
            0u8
        });
        buffer.write_u8(fa)?;
        let fb: u8 = self.rescode.to_num() + 16 * (if self.checking_disabled {
            1u8
        } else {
            0u8
        }) + 32 * (if self.authed_data {
            1u8
        } else {
            0u8
        }) + 64 * (if self.z {
            1u8
        } else {
            0u8
        }) + 128 * (if self.recursion_available {
            1u8
        } else {
            0u8
        });
        buffer.write_u8(fb)?;
        buffer.write_u16(self.questions)?;
        buffer.write_u16(self.answers)?;
        buffer.write_u16(self.authoritative_entries)?;
        buffer.write_u16(self.resource_entries)?;
        proof {
            assert(buffer.buf@ =~= splice(b0, p0, self.spec_bytes()));
        }
        Ok(())
    }

    /// Decoding the encoded bytes of a well-formed header gives the header
    /// back: the header part of the codec round-trip.
    pub proof fn lemma_roundtrip(h: DnsHeader, b: Seq<u8>, p: int)
        requires
            h.wf(),
            0 <= p,
            p + 12 <= b.len(),
        ensures
            DnsHeader::spec_at(splice(b, p, h.spec_bytes()), p) == h,
    {
        let s = splice(b, p, h.spec_bytes());
        assert(s[p] == (h.id / 256) as u8);
        assert(s[p + 1] == (h.id % 256) as u8);
        assert(s[p + 2] == h.spec_flags_a());
        assert(s[p + 3] == h.spec_flags_b());
        assert(s[p + 4] == (h.questions / 256) as u8);
        assert(s[p + 5] == (h.questions % 256) as u8);
        assert(s[p + 6] == (h.answers / 256) as u8);
        assert(s[p + 7] == (h.answers % 256) as u8);
        assert(s[p + 8] == (h.authoritative_entries / 256) as u8);
        assert(s[p + 9] == (h.authoritative_entries % 256) as u8);
        assert(s[p + 10] == (h.resource_entries / 256) as u8);
        assert(s[p + 11] == (h.resource_entries % 256) as u8);
        h.rescode.lemma_roundtrip();
        let fa = h.spec_flags_a();
        let ra = bool_bit(h.recursion_desired);
        let ta = bool_bit(h.truncated_message);
        let aa = bool_bit(h.authoritative_answer);
        let op = h.opcode as int;
        let rp = bool_bit(h.response);
        assert(fa == ra + 2 * ta + 4 * aa + 8 * op + 128 * rp);
        assert(fa % 2 == ra && (fa / 2) % 2 == ta && (fa / 4) % 2 == aa && (fa / 8) % 16 == op
            && fa / 128 == rp) by (nonlinear_arith)
            requires
                fa == ra + 2 * ta + 4 * aa + 8 * op + 128 * rp,
                ra <= 1,
                ta <= 1,
                aa <= 1,
                rp <= 1,
                0 <= ra,
                0 <= ta,
                0 <= aa,
                0 <= rp,
                0 <= op < 16,
        ;
        let fb = h.spec_flags_b();
        let rc = h.rescode.spec_to_num() as int;
        let cd = bool_bit(h.checking_disabled);
        let ad = bool_bit(h.authed_data);
        let z = bool_bit(h.z);
        let rv = bool_bit(h.recursion_available);
        assert(fb == rc + 16 * cd + 32 * ad + 64 * z + 128 * rv);
        assert(fb % 16 == rc && (fb / 16) % 2 == cd && (fb / 32) % 2 == ad && (fb / 64) % 2 == z
            && fb / 128 == rv) by (nonlinear_arith)
            requires
                fb == rc + 16 * cd + 32 * ad + 64 * z + 128 * rv,
                cd <= 1,
                ad <= 1,
                z <= 1,
                rv <= 1,
                0 <= cd,
                0 <= ad,
                0 <= z,
                0 <= rv,
                0 <= rc < 16,
        ;
    }
}

} // verus!
