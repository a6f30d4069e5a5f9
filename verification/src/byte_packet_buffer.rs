use vstd::prelude::*;
use crate::dns_error::DnsError;

verus! {

/// A fixed 512-byte packet buffer with a cursor.
///
/// Every positioned operation that would touch an index at or past 512
/// fails with `DnsError::BufferOverflow`; the cursor always stays in
/// `0 ..= 512`.
pub struct BytePacketBuffer {
    pub buf: Vec<u8>,
    pub pos: usize,
}

impl BytePacketBuffer {
    /// Well-formedness: exactly 512 bytes of storage, cursor inside it.
    pub open spec fn wf(&self) -> bool {
        &&& self.buf@.len() == 512
        &&& self.pos <= 512
    }

    /// A fresh all-zero buffer with the cursor at the start.
    pub fn new() -> (r: BytePacketBuffer)
        ensures
            r.wf(),
            r.pos == 0,
            r.buf@ =~= Seq::new(512, |i: int| 0u8),
    {
        let mut buf: Vec<u8> = Vec::new();
        let mut i: usize = 0;
        while i < 512
            invariant
                i <= 512,
                buf@ =~= Seq::new(i as nat, |j: int| 0u8),
            decreases 512 - i,
        {
            buf.push(0u8);
            i += 1;
        }
        BytePacketBuffer { buf, pos: 0 }
    }

    /// The current cursor position.
    pub fn pos(&self) -> (r: usize)
        ensures
            r == self.pos,
    {
        self.pos
    }

    /// Move the cursor forward `steps` bytes; fails if that would pass 512.
    pub fn step(&mut self, steps: usize) -> (r: Result<(), DnsError>)
        requires
            old(self).wf(),
        ensures
            final(self).wf(),
            final(self).buf@ == old(self).buf@,
            match r {
                Ok(()) => old(self).pos + steps <= 512 && final(self).pos == old(self).pos
                    + steps,
                Err(e) => e == DnsError::BufferOverflow && old(self).pos + steps > 512 && *final(self) == *old(self),
            },
    {
        if steps <= 512 - self.pos {
            self.pos += steps;
            Ok(())
        } else {
            Err(DnsError::BufferOverflow)
        }
    }

    /// Place the cursor at `pos`; fails if `pos` is past 512.
    pub fn seek(&mut self, pos: usize) -> (r: Result<(), DnsError>)
        requires
            old(self).wf(),
        ensures
            final(self).wf(),
            final(self).buf@ == old(self).buf@,
            match r {
                Ok(()) => pos <= 512 && final(self).pos == pos,
                Err(e) => e == DnsError::BufferOverflow && pos > 512 && *final(self) == *old(self),
            },
    {
        if pos <= 512 {
            self.pos = pos;
            Ok(())
        } else {
            Err(DnsError::BufferOverflow)
        }
    }

    /// Read the byte under the cursor and step past it.
    pub fn read(&mut self) -> (r: Result<u8, DnsError>)
        requires
            old(self).wf(),
        ensures
            final(self).wf(),
            final(self).buf@ == old(self).buf@,
            match r {
                Ok(b) => old(self).pos < 512 && b == old(self).buf@[old(self).pos as int] && final(self).pos == old(self).pos + 1,
                Err(e) => e == DnsError::BufferOverflow && old(self).pos >= 512 && *final(self) == *old(self),
            },
    {
        if self.pos >= 512 {
            return Err(DnsError::BufferOverflow);
        }
        let res: u8 = self.buf[self.pos];
        self.pos += 1;
        Ok(res)
    }

    /// Peek the byte at `pos` without moving the cursor.
    pub fn get(&self, pos: usize) -> (r: Result<u8, DnsError>)
        requires
            self.wf(),
        ensures
            match r {
                Ok(b) => pos < 512 && b == self.buf@[pos as int],
                Err(e) => e == DnsError::BufferOverflow && pos >= 512,
            },
    {
        if pos >= 512 {
            return Err(DnsError::BufferOverflow);
        }
        Ok(self.buf[pos])
    }

    /// Borrow the bytes `start .. start + len`; succeeds iff the range
    /// lies inside the buffer.
    pub fn get_range(&self, start: usize, len: usize) -> (r: Result<&[u8], DnsError>)
        requires
            self.wf(),
        ensures
            match r {
                Ok(s) => start + len <= 512 && s@ == self.buf@.subrange(
                    start as int,
                    start + len,
                ),
                Err(e) => e == DnsError::BufferOverflow && start + len > 512,
            },
    {
        if len <= 512 && start <= 512 - len {
            Ok(vstd::slice::slice_subrange(self.buf.as_slice(), start, start + len))
        } else {
            Err(DnsError::BufferOverflow)
        }
    }

    /// Read two bytes under the cursor as a big-endian `u16`.
    pub fn read_u16(&mut self) -> (r: Result<u16, DnsError>)
        requires
            old(self).wf(),
        ensures
            final(self).wf(),
            final(self).buf@ == old(self).buf@,
            match r {
                Ok(v) => {
                    &&& old(self).pos + 2 <= 512
                    &&& final(self).pos == old(self).pos + 2
                    &&& v == old(self).buf@[old(self).pos as int] * 256 + old(self).buf@[old(self).pos + 1]
                },
                Err(e) => e == DnsError::BufferOverflow && old(self).pos + 2 > 512 && *final(self) == *old(self),
            },
    {
        if self.pos + 2 > 512 {
            return Err(DnsError::BufferOverflow);
        }
        let hi = self.buf[self.pos];
        let lo = self.buf[self.pos + 1];
        self.pos += 2;
        Ok((hi as u16) * 256 + (lo as u16))
    }

    /// Read four bytes under the cursor as a big-endian `u32`.
    pub fn read_u32(&mut self) -> (r: Result<u32, DnsError>)
        requires
            old(self).wf(),
        ensures
            final(self).wf(),
            final(self).buf@ == old(self).buf@,
            match r {
                Ok(v) => {
                    &&& old(self).pos + 4 <= 512
                    &&& final(self).pos == old(self).pos + 4
                    &&& v == ((old(self).buf@[old(self).pos as int] * 0x1000000) + (old(self).buf@[old(self).pos + 1] * 0x10000) + (old(self).buf@[old(self).pos + 2]
                        * 0x100) + old(self).buf@[old(self).pos + 3])
                },
                Err(e) => e == DnsError::BufferOverflow && old(self).pos + 4 > 512 && *final(self) == *old(self),
            },
    {
        if self.pos + 4 > 512 {
            return Err(DnsError::BufferOverflow);
        }
        let b0 = self.buf[self.pos];
        let b1 = self.buf[self.pos + 1];
        let b2 = self.buf[self.pos + 2];
        let b3 = self.buf[self.pos + 3];
        self.pos += 4;
        Ok((b0 as u32) * 0x1000000 + (b1 as u32) * 0x10000 + (b2 as u32) * 0x100 + (b3 as u32))
    }

    /// Write one byte at the cursor and step past it.
    pub fn write_u8(&mut self, val: u8) -> (r: Result<(), DnsError>)
        requires
            old(self).wf(),
        ensures
            final(self).wf(),
            match r {
                Ok(()) => {
                    &&& old(self).pos < 512
                    &&& final(self).pos == old(self).pos + 1
                    &&& final(self).buf@ == splice(old(self).buf@, old(self).pos as int, seq![val])
                },
                Err(e) => e == DnsError::BufferOverflow && old(self).pos >= 512 && *final(self) == *old(self),
            },
    {
        if self.pos >= 512 {
            return Err(DnsError::BufferOverflow);
        }
        proof {
            assert(splice(self.buf@, self.pos as int, seq![val]) =~= self.buf@.update(
                self.pos as int,
                val,
            ));
        }
        self.buf[self.pos] = val;
        self.pos += 1;
        Ok(())
    }

    /// Write a big-endian `u16` at the cursor.
    pub fn write_u16(&mut self, val: u16) -> (r: Result<(), DnsError>)
        requires
            old(self).wf(),
        ensures
            final(self).wf(),
            match r {
                Ok(()) => {
                    &&& old(self).pos + 2 <= 512
                    &&& final(self).pos == old(self).pos + 2
                    &&& final(self).buf@ == splice(
                        old(self).buf@,
                        old(self).pos as int,
                        seq![(val / 256) as u8, (val % 256) as u8],
                    )
                },
                Err(e) => e == DnsError::BufferOverflow && old(self).pos + 2 > 512 && *final(self) == *old(self),
            },
    {
        if self.pos + 2 > 512 {
            return Err(DnsError::BufferOverflow);
        }
        proof {
            assert(splice(self.buf@, self.pos as int, seq![(val / 256) as u8, (val % 256) as u8])
                =~= self.buf@.update(self.pos as int, (val / 256) as u8).update(
                self.pos + 1,
                (val % 256) as u8,
            ));
        }
        self.buf[self.pos] = (val / 256) as u8;
        self.buf[self.pos + 1] = (val % 256) as u8;
        self.pos += 2;
        Ok(())
    }

    /// Write a big-endian `u32` at the cursor.
    pub fn write_u32(&mut self, val: u32) -> (r: Result<(), DnsError>)
        requires
            old(self).wf(),
        ensures
            final(self).wf(),
            match r {
                Ok(()) => {
                    &&& old(self).pos + 4 <= 512
                    &&& final(self).pos == old(self).pos + 4
                    &&& final(self).buf@ == splice(
                        old(self).buf@,
                        old(self).pos as int,
                        seq![
                            (val / 0x1000000) as u8,
                            ((val / 0x10000) % 256) as u8,
                            ((val / 0x100) % 256) as u8,
                            (val % 256) as u8,
                        ],
                    )
                },
                Err(e) => e == DnsError::BufferOverflow && old(self).pos + 4 > 512 && *final(self) == *old(self),
            },
    {
        if self.pos + 4 > 512 {
            return Err(DnsError::BufferOverflow);
        }
        proof {
            assert(splice(
                self.buf@,
                self.pos as int,
                seq![
                    (val / 0x1000000) as u8,
                    ((val / 0x10000) % 256) as u8,
                    ((val / 0x100) % 256) as u8,
                    (val % 256) as u8,
                ],
            ) =~= self.buf@.update(self.pos as int, (val / 0x1000000) as u8).update(
                self.pos + 1,
                ((val / 0x10000) % 256) as u8,
            ).update(self.pos + 2, ((val / 0x100) % 256) as u8).update(
                self.pos + 3,
                (val % 256) as u8,
            ));
        }
        self.buf[self.pos] = (val / 0x1000000) as u8;
        self.buf[self.pos + 1] = ((val / 0x10000) % 256) as u8;
        self.buf[self.pos + 2] = ((val / 0x100) % 256) as u8;
        self.buf[self.pos + 3] = (val % 256) as u8;
        self.pos += 4;
        Ok(())
    }

    /// Overwrite the byte at `pos` without moving the cursor; used to
    /// back-patch lengths after a section was emitted.
    pub fn set_u8(&mut self, pos: usize, val: u8) -> (r: Result<(), DnsError>)
        requires
            old(self).wf(),
        ensures
            final(self).wf(),
            final(self).pos == old(self).pos,
            match r {
                Ok(()) => pos < 512 && final(self).buf@ == old(self).buf@.update(pos as int, val),
                Err(e) => e == DnsError::BufferOverflow && pos >= 512 && *final(self) == *old(self),
            },
    {
        if pos >= 512 {
            return Err(DnsError::BufferOverflow);
        }
        self.buf[pos] = val;
        Ok(())
    }

    /// Overwrite two bytes at `pos` with a big-endian `u16` without moving
    /// the cursor.
    pub fn set_u16(&mut self, pos: usize, val: u16) -> (r: Result<(), DnsError>)
        requires
            old(self).wf(),
        ensures
            final(self).wf(),
            final(self).pos == old(self).pos,
            match r {
                Ok(()) => pos + 2 <= 512 && final(self).buf@ == old(self).buf@.update(
                    pos as int,
                    (val / 256) as u8,
                ).update(pos + 1, (val % 256) as u8),
                Err(e) => e == DnsError::BufferOverflow && pos + 2 > 512 && *final(self) == *old(self),
            },
    {
        if pos > 510 {
            return Err(DnsError::BufferOverflow);
        }
        self.buf[pos] = (val / 256) as u8;
        self.buf[pos + 1] = (val % 256) as u8;
        Ok(())
    }
}


/// Lowercase an ASCII byte; other bytes pass through unchanged.
pub open spec fn lower_byte(b: u8) -> u8 {
    if 65 <= b && b <= 90 {
        (b + 32) as u8
    } else {
        b
    }
}

/// The character a name byte decodes to: lowercased, one byte per character.
pub open spec fn byte_char(b: u8) -> char {
    lower_byte(b) as char
}

/// The outcome of decoding a domain name from a packet.
pub ghost enum NameRead {
    /// The decoded name and the position just past the first label chain
    /// (the position the shared cursor is left at).
    Done { name: Seq<char>, end: int },
    /// More than `MAX_JUMPS` compression pointers were chased.
    TooManyJumps,
    /// A length byte, pointer byte or label ran past the 512-byte buffer.
    OutOfBounds,
}

/// Measure for termination of `spec_read_name`: walking labels moves the
/// local position strictly towards the end of the buffer.
pub open spec fn pos_measure(pos: int) -> int {
    if 0 <= pos && pos <= 513 {
        513 - pos
    } else {
        0
    }
}

/// One name decoded from buffer contents `b`, reading at local position
/// `pos`, after `jumps` pointer dereferences; `jumped` and `first_end`
/// record whether a pointer was taken and where the first chain ended;
/// `acc` holds the labels read so far, dot-separated.
///
/// This is the reference meaning of `BytePacketBuffer::read_qname`.
pub open spec fn spec_read_name(
    b: Seq<u8>,
    pos: int,
    jumps: int,
    jumped: bool,
    first_end: int,
    acc: Seq<char>,
) -> NameRead
    decreases 6 - jumps, pos_measure(pos),
{
    if jumps > 5 {
        NameRead::TooManyJumps
    } else if pos < 0 || pos >= 512 {
        NameRead::OutOfBounds
    } else {
        let len = b[pos];
        if len & 0xC0 == 0xC0 {
            if pos + 1 >= 512 {
                NameRead::OutOfBounds
            } else {
                let target = ((len & 0x3F) as int) * 256 + b[pos + 1];
                spec_read_name(
                    b,
                    target,
                    jumps + 1,
                    true,
                    if jumped {
                        first_end
                    } else {
                        pos + 2
                    },
                    acc,
                )
            }
        } else if len == 0 {
            NameRead::Done {
                name: acc,
                end: if jumped {
                    first_end
                } else {
                    pos + 1
                },
            }
        } else {
            if pos + 1 + len > 512 {
                NameRead::OutOfBounds
            } else {
                let label = Seq::new(len as nat, |i: int| byte_char(b[pos + 1 + i]));
                spec_read_name(
                    b,
                    pos + 1 + len,
                    jumps,
                    jumped,
                    first_end,
                    if acc.len() == 0 {
                        label
                    } else {
                        acc.push('.') + label
                    },
                )
            }
        }
    }
}

/// The name decoded at position `pos` of buffer contents `b`, with a fresh
/// cursor and an empty output.
pub open spec fn spec_name_at(b: Seq<u8>, pos: int) -> NameRead {
    spec_read_name(b, pos, 0, false, 0, Seq::<char>::empty())
}

/// Relies on `String::push`: appends exactly one character to the string.
#[verifier::external_body]
fn push_char(s: &mut String, c: char)
    ensures
        final(s)@ == old(s)@.push(c),
{
    s.push(c);
}

impl BytePacketBuffer {
    /// Decode a domain name at the cursor, appending it to `outstr`,
    /// lowercased and with labels separated by dots.
    ///
    /// RFC 1035 compression pointers are followed with a local position, so
    /// the shared cursor moves only past the first label chain; at most
    /// five pointer dereferences are allowed, a sixth fails with
    /// `MalformedName`. A length byte or label running past the buffer
    /// fails with `BufferOverflow`.
    #[verifier::loop_isolation(false)]
    pub fn read_qname(&mut self, outstr: &mut String) -> (r: Result<(), DnsError>)
        requires
            old(self).wf(),
        ensures
            final(self).wf(),
            final(self).buf@ == old(self).buf@,
            match spec_name_at(old(self).buf@, old(self).pos as int) {
                NameRead::Done { name, end } => r is Ok && final(outstr)@ == old(outstr)@ + name
                    && final(self).pos == end,
                NameRead::TooManyJumps => r == Err::<(), DnsError>(DnsError::MalformedName),
                NameRead::OutOfBounds => r == Err::<(), DnsError>(DnsError::BufferOverflow),
            },
    {
        let ghost b = self.buf@;
        let ghost target = spec_name_at(b, self.pos as int);
        let mut pos = self.pos();
        let mut jumped = false;
        let mut jumps_performed: usize = 0;
        let mut first = true;
        let ghost mut acc: Seq<char> = Seq::<char>::empty();
        loop
            invariant
                self.wf(),
                self.buf@ == b,
                outstr@ == old(outstr)@ + acc,
                first == (acc.len() == 0),
                jumps_performed <= 6,
                pos <= 16383,
                spec_read_name(
                    b,
                    pos as int,
                    jumps_performed as int,
                    jumped,
                    if jumped {
                        self.pos as int
                    } else {
                        0
                    },
                    acc,
                ) == target,
            decreases 6 - jumps_performed, pos_measure(pos as int),
        {
            if jumps_performed > 5 {
                return Err(DnsError::MalformedName);
            }
            let len = match self.get(pos) {
                Ok(v) => v,
                Err(e) => {
                    return Err(e);
                },
            };
            if len & 0xC0 == 0xC0 {
                if !jumped {
                    match self.seek(pos + 2) {
                        Ok(()) => (),
                        Err(e) => {
                            return Err(e);
                        },
                    }
                }
                let b2 = match self.get(pos + 1) {
                    Ok(v) => v,
                    Err(e) => {
                        return Err(e);
                    },
                };
                proof {
                    assert(len & 0x3F <= 0x3F) by (bit_vector);
                }
                let offset: u16 = ((len & 0x3F) as u16) * 256 + (b2 as u16);
                pos = offset as usize;
                jumped = true;
                jumps_performed += 1;
            } else {
                pos += 1;
                if len == 0 {
                    break;
                }
                let len_us = len as usize;
                if pos + len_us > 512 {
                    return Err(DnsError::BufferOverflow);
                }
                let ghost accdot = if acc.len() == 0 {
                    acc
                } else {
                    acc.push('.')
                };
                let ghost label = Seq::new(len_us as nat, |i: int| byte_char(b[pos + i]));
                if !first {
                    push_char(outstr, '.');
                }
                let mut k: usize = 0;
                while k < len_us
                    invariant
                        k <= len_us,
                        pos + len_us <= 512,
                        self.wf(),
                        self.buf@ == b,
                        label == Seq::new(len_us as nat, |i: int| byte_char(b[pos + i])),
                        outstr@ == old(outstr)@ + accdot + label.take(k as int),
                    decreases len_us - k,
                {
                    let byte = self.buf[pos + k];
                    let lb = if 65 <= byte && byte <= 90 {
                        byte + 32
                    } else {
                        byte
                    };
                    push_char(outstr, lb as char);
                    proof {
                        assert(label.take((k + 1) as int) =~= label.take(k as int).push(
                            byte_char(byte),
                        ));
                    }
                    k += 1;
                }
                proof {
                    assert(label.take(len_us as int) =~= label);
                    acc = accdot + label;
                    if first {
                        assert(acc =~= label);
                    }
                }
                first = false;
                pos += len_us;
            }
        }
        if !jumped {
            match self.seek(pos) {
                Ok(()) => (),
                Err(e) => {
                    return Err(e);
                },
            }
        }
        Ok(())
    }
}


/// A character lowercased, byte-wise: ASCII letters fold, all else is
/// unchanged.
pub open spec fn lower_char(c: char) -> char {
    if 65 <= c as u32 <= 90 {
        (((c as u32 + 32) as u8) as char)
    } else {
        c
    }
}

pub open spec fn lower_chars(s: Seq<char>) -> Seq<char> {
    s.map_values(|c: char| lower_char(c))
}

/// The low byte of a character; name encoding is byte-oriented, and the
/// encoder rejects characters above 255 before this is relied on.
pub open spec fn char_to_byte(c: char) -> u8 {
    (c as u32) as u8
}

/// Index of the first dot at or after `i` in `name`, or the length of
/// `name` when no dot follows.
pub open spec fn label_end(name: Seq<char>, i: int) -> int
    decreases name.len() - i,
{
    if i < 0 || i >= name.len() {
        name.len() as int
    } else if name[i] == '.' {
        i
    } else {
        label_end(name, i + 1)
    }
}

pub proof fn lemma_label_end_bounds(name: Seq<char>, i: int)
    requires
        0 <= i <= name.len(),
    ensures
        i <= label_end(name, i) <= name.len(),
        forall|k: int| i <= k < label_end(name, i) ==> name[k] != '.',
        label_end(name, i) < name.len() ==> name[label_end(name, i)] == '.',
    decreases name.len() - i,
{
    if i < name.len() && name[i] != '.' {
        lemma_label_end_bounds(name, i + 1);
    }
}

/// A scan that saw no dot in `i .. j` and a dot (or the end) at `j` has
/// found exactly `label_end`.
pub proof fn lemma_label_end_of(name: Seq<char>, i: int, j: int)
    requires
        0 <= i <= j <= name.len(),
        forall|k: int| i <= k < j ==> name[k] != '.',
        j == name.len() || name[j] == '.',
    ensures
        label_end(name, i) == j,
    decreases j - i,
{
    if i < j {
        lemma_label_end_of(name, i + 1, j);
    }
}

/// The wire form of the labels of `name` from position `i` on: each label
/// as a length byte followed by its bytes, the whole terminated by a zero
/// byte. `None` when a label is empty or longer than 63 bytes, when the
/// name ends in a dot, or when a character is not byte-valued.
///
/// This is the reference meaning of `BytePacketBuffer::write_qname`, which
/// emits no compression pointers.
pub open spec fn spec_encode_from(name: Seq<char>, i: int) -> Option<Seq<u8>>
    decreases name.len() - i,
    via spec_encode_from_decreases
{
    if i < 0 || i >= name.len() {
        Some(seq![0u8])
    } else {
        let j = label_end(name, i);
        if j == i {
            None
        } else if j - i > 63 {
            None
        } else if exists|k: int| i <= k < j && name[k] as u32 > 255 {
            None
        } else {
            let lbl = seq![(j - i) as u8] + Seq::new((j - i) as nat, |t: int| char_to_byte(name[i + t]));
            if j == name.len() {
                Some(lbl + seq![0u8])
            } else if j == name.len() - 1 {
                None
            } else {
                match spec_encode_from(name, j + 1) {
                    Some(rest) => Some(lbl + rest),
                    None => None,
                }
            }
        }
    }
}

#[via_fn]
proof fn spec_encode_from_decreases(name: Seq<char>, i: int) {
    if 0 <= i && i < name.len() {
        lemma_label_end_bounds(name, i);
    }
}

/// An encoded name is never empty: it at least holds the terminator.
pub proof fn lemma_encode_nonempty(name: Seq<char>, i: int)
    ensures
        spec_encode_from(name, i) matches Some(w) ==> w.len() >= 1,
{
}

/// `b` with `w` written over its bytes from `at` on.
pub open spec fn splice(b: Seq<u8>, at: int, w: Seq<u8>) -> Seq<u8> {
    b.take(at) + w + b.skip(at + w.len())
}

pub proof fn lemma_splice_empty(b: Seq<u8>, at: int)
    requires
        0 <= at <= b.len(),
    ensures
        splice(b, at, Seq::<u8>::empty()) == b,
{
    assert(splice(b, at, Seq::<u8>::empty()) =~= b);
}

pub proof fn lemma_splice_push(b: Seq<u8>, at: int, w: Seq<u8>, v: u8)
    requires
        0 <= at,
        at + w.len() < b.len(),
    ensures
        splice(b, at, w).update(at + w.len(), v) == splice(b, at, w.push(v)),
{
    assert(splice(b, at, w).update(at + w.len(), v) =~= splice(b, at, w.push(v)));
}

pub proof fn lemma_splice_concat(b: Seq<u8>, at: int, w1: Seq<u8>, w2: Seq<u8>)
    requires
        0 <= at,
        at + w1.len() + w2.len() <= b.len(),
    ensures
        splice(splice(b, at, w1), at + w1.len(), w2) == splice(b, at, w1 + w2),
{
    assert(splice(splice(b, at, w1), at + w1.len(), w2) =~= splice(b, at, w1 + w2));
}

/// Whether the wire form of `name` exists and fits in the buffer when
/// written at `pos`.
pub open spec fn encode_fits(pos: int, name: Seq<char>) -> bool {
    match spec_encode_from(name, 0) {
        Some(w) => pos + w.len() <= 512,
        None => false,
    }
}

impl BytePacketBuffer {
    /// Encode a domain name at the cursor as plain length-prefixed labels
    /// with a zero terminator; no compression pointers are emitted.
    ///
    /// Fails with `LabelTooLong` on a label of more than 63 bytes, with
    /// `MalformedName` on an empty label or a character above 255, and
    /// with `BufferOverflow` when the encoding does not fit.
    #[verifier::loop_isolation(false)]
    #[verifier::rlimit(100)]
    #[verifier::spinoff_prover]
    pub fn write_qname(&mut self, qname: &str) -> (r: Result<(), DnsError>)
        requires
            old(self).wf(),
        ensures
            final(self).wf(),
            match r {
                Ok(()) => encode_fits(old(self).pos as int, qname@) && (
                match spec_encode_from(qname@, 0) {
                    Some(w) => final(self).pos == old(self).pos + w.len() && final(self).buf@
                        == splice(old(self).buf@, old(self).pos as int, w),
                    None => false,
                }),
                Err(e) => {
                    &&& !encode_fits(old(self).pos as int, qname@)
                    &&& (e == DnsError::BufferOverflow || e == DnsError::LabelTooLong || e
                        == DnsError::MalformedName)
                    &&& e != DnsError::BufferOverflow ==> spec_encode_from(qname@, 0) is None
                },
            },
    {
        let ghost nm = qname@;
        let ghost wire_opt = spec_encode_from(nm, 0);
        let ghost b0 = self.buf@;
        let ghost pos0 = self.pos as int;
        let ghost mut written: Seq<u8> = Seq::<u8>::empty();
        proof {
            lemma_splice_empty(b0, pos0);
        }
        let n = qname.unicode_len();
        if n == 0 {
            match self.write_u8(0) {
                Ok(()) => {
                    proof {
                        assert(splice(b0, pos0, seq![0u8]) =~= b0.update(pos0, 0u8));
                    }
                    return Ok(());
                },
                Err(_) => {
                    return Err(DnsError::BufferOverflow);
                },
            }
        }
        let mut i: usize = 0;
        loop
            invariant
                self.wf(),
                0 <= i < n,
                n == nm.len(),
                nm == qname@,
                self.pos == pos0 + written.len(),
                self.buf@ == splice(b0, pos0, written),
                match spec_encode_from(nm, i as int) {
                    Some(rest) => wire_opt == Some(written + rest),
                    None => wire_opt is None,
                },
            decreases n - i,
        {
            let ghost w0 = written;
            // scan the current label: stop at the first dot or the end,
            // and remember whether a character above 255 was seen
            let mut j: usize = i;
            let mut bad = false;
            let ghost mut bad_at: int = 0;
            loop
                invariant
                    i <= j <= n,
                    n == nm.len(),
                    forall|k: int| i <= k < j ==> nm[k] != '.',
                    !bad ==> forall|k: int| i <= k < j ==> nm[k] as u32 <= 255,
                    bad ==> i <= bad_at < j && nm[bad_at] as u32 > 255,
                decreases n - j,
            {
                if j >= n {
                    break;
                }
                let c = qname.get_char(j);
                if c == '.' {
                    break;
                }
                if c as u32 > 255 {
                    bad = true;
                    proof {
                        bad_at = j as int;
                    }
                }
                j += 1;
            }
            proof {
                lemma_label_end_of(nm, i as int, j as int);
            }
            let llen = j - i;
            if llen == 0 {
                return Err(DnsError::MalformedName);
            }
            if llen > 63 {
                return Err(DnsError::LabelTooLong);
            }
            if bad {
                return Err(DnsError::MalformedName);
            }
            if j < n && j + 1 == n {
                // the name ends in a dot: the final label would be empty
                return Err(DnsError::MalformedName);
            }
            let ghost lblbytes = Seq::new(llen as nat, |t: int| char_to_byte(nm[i + t]));
            let ghost lbl = seq![llen as u8] + lblbytes;
            proof {
                lemma_encode_nonempty(nm, (j + 1) as int);
                assert(spec_encode_from(nm, i as int) matches Some(rest) ==> rest == lbl + (
                if j == n {
                    seq![0u8]
                } else {
                    spec_encode_from(nm, (j + 1) as int).unwrap()
                }));
            }
            match self.write_u8(llen as u8) {
                Ok(()) => {
                    proof {
                        lemma_splice_push(b0, pos0, written, llen as u8);
                        written = written.push(llen as u8);
                    }
                },
                Err(_) => {
                    return Err(DnsError::BufferOverflow);
                },
            }
            let mut k: usize = i;
            while k < j
                invariant
                    i <= k <= j <= n,
                    n == nm.len(),
                    nm == qname@,
                    llen == j - i,
                    self.wf(),
                    self.pos == pos0 + written.len(),
                    self.buf@ == splice(b0, pos0, written),
                    forall|t: int| i <= t < j ==> nm[t] as u32 <= 255,
                    lblbytes == Seq::new(llen as nat, |t: int| char_to_byte(nm[i + t])),
                    written == w0 + seq![llen as u8] + lblbytes.take(k - i),
                    match spec_encode_from(nm, i as int) {
                        Some(rest) => wire_opt == Some(w0 + rest) && rest == (seq![llen as u8]
                            + lblbytes) + (if j == n {
                            seq![0u8]
                        } else {
                            spec_encode_from(nm, (j + 1) as int).unwrap()
                        }) && rest.len() >= llen + 2,
                        None => wire_opt is None,
                    },
                decreases j - k,
            {
                let c = qname.get_char(k);
                let byte = (c as u32) as u8;
                match self.write_u8(byte) {
                    Ok(()) => {
                        proof {
                            lemma_splice_push(b0, pos0, written, byte);
                            written = written.push(byte);
                            assert(lblbytes.take(k + 1 - i) =~= lblbytes.take(k - i).push(
                                char_to_byte(nm[k as int]),
                            ));
                            assert(written =~= w0 + seq![llen as u8] + lblbytes.take(k + 1 - i));
                        }
                    },
                    Err(_) => {
                        return Err(DnsError::BufferOverflow);
                    },
                }
                k += 1;
            }
            proof {
                assert(lblbytes.take(llen as int) =~= lblbytes);
            }
            if j == n {
                match self.write_u8(0) {
                    Ok(()) => {
                        proof {
                            lemma_splice_push(b0, pos0, written, 0u8);
                            written = written.push(0u8);
                            assert(written =~= w0 + ((seq![llen as u8] + lblbytes) + seq![0u8]));
                        }
                        return Ok(());
                    },
                    Err(_) => {
                        return Err(DnsError::BufferOverflow);
                    },
                }
            }
            proof {
                written = w0 + seq![llen as u8] + lblbytes;
                assert(match spec_encode_from(nm, (j + 1) as int) {
                    Some(rest2) => wire_opt == Some(written + rest2),
                    None => wire_opt is None,
                }) by {
                    match spec_encode_from(nm, (j + 1) as int) {
                        Some(rest2) => {
                            assert((w0 + ((seq![llen as u8] + lblbytes) + rest2)) =~= (w0 + seq![
                                llen as u8,
                            ] + lblbytes) + rest2);
                        },
                        None => {},
                    }
                }
            }
            i = j + 1;
        }
    }
}


/// The jump budget stops every cyclic compression chain: from any
/// position inside a set of pointers that only point at one another, the
/// decoder runs out of jumps and fails, so `read_qname` returns
/// `MalformedName` on such a packet.
pub proof fn lemma_pointer_cycle_rejected(
    b: Seq<u8>,
    cycle: Set<int>,
    pos: int,
    jumps: int,
    jumped: bool,
    first_end: int,
    acc: Seq<char>,
)
    requires
        cycle.contains(pos),
        forall|q: int| #[trigger]
            cycle.contains(q) ==> 0 <= q < 511 && b[q] & 0xC0 == 0xC0 && cycle.contains(
                ((b[q] & 0x3F) as int) * 256 + b[q + 1],
            ),
        0 <= jumps,
    ensures
        spec_read_name(b, pos, jumps, jumped, first_end, acc) == NameRead::TooManyJumps,
    decreases
            if jumps > 5 {
                0int
            } else {
                6 - jumps
            },
{
    if jumps > 5 {
    } else {
        let target = ((b[pos] & 0x3F) as int) * 256 + b[pos + 1];
        lemma_pointer_cycle_rejected(
            b,
            cycle,
            target,
            jumps + 1,
            true,
            if jumped {
                first_end
            } else {
                pos + 2
            },
            acc,
        );
    }
}

/// A pointer that names its own position is the smallest cycle; decoding
/// a name there fails within the jump budget.
pub proof fn lemma_self_pointer_rejected(b: Seq<u8>, pos: int)
    requires
        0 <= pos < 511,
        b[pos] & 0xC0 == 0xC0,
        ((b[pos] & 0x3F) as int) * 256 + b[pos + 1] == pos,
    ensures
        spec_name_at(b, pos) == NameRead::TooManyJumps,
{
    let cycle = Set::<int>::empty().insert(pos);
    lemma_pointer_cycle_rejected(b, cycle, pos, 0, false, 0, Seq::<char>::empty());
}

/// A decoded name cannot outgrow the packet: each of the at most six
/// label chains is drawn from the 512-byte buffer, so the name never
/// exceeds six times the buffer size, whatever the pointers do.
pub proof fn lemma_name_bounded(
    b: Seq<u8>,
    pos: int,
    jumps: int,
    jumped: bool,
    first_end: int,
    acc: Seq<char>,
)
    requires
        0 <= jumps,
    ensures
        spec_read_name(b, pos, jumps, jumped, first_end, acc) matches NameRead::Done { name, .. }
            ==> name.len() <= acc.len() + if jumps <= 5 {
            (5 - jumps) * 512 + (if 0 <= pos <= 512 {
                512 - pos
            } else {
                512
            })
        } else {
            0
        },
    decreases 6 - jumps, pos_measure(pos),
{
    if jumps > 5 {
    } else if pos < 0 || pos >= 512 {
    } else {
        let len = b[pos];
        if len & 0xC0 == 0xC0 {
            if pos + 1 < 512 {
                let target = ((len & 0x3F) as int) * 256 + b[pos + 1];
                lemma_name_bounded(
                    b,
                    target,
                    jumps + 1,
                    true,
                    if jumped {
                        first_end
                    } else {
                        pos + 2
                    },
                    acc,
                );
            }
        } else if len == 0 {
        } else {
            if pos + 1 + len <= 512 {
                let label = Seq::new(len as nat, |i: int| byte_char(b[pos + 1 + i]));
                let acc2 = if acc.len() == 0 {
                    label
                } else {
                    acc.push('.') + label
                };
                lemma_name_bounded(b, pos + 1 + len, jumps, jumped, first_end, acc2);
            }
        }
    }
}

/// Whatever a name decode returns, the name holds at most 3072
/// characters: the form of the bound above a fresh decode.
pub proof fn lemma_decoded_name_bounded(b: Seq<u8>, pos: int)
    ensures
        spec_name_at(b, pos) matches NameRead::Done { name, .. } ==> name.len() <= 6 * 512,
{
    lemma_name_bounded(b, pos, 0, false, 0, Seq::<char>::empty());
}


/// `a` and `x` joined with a dot, unless one of them is empty.
pub open spec fn dot_join(a: Seq<char>, x: Seq<char>) -> Seq<char> {
    if a.len() == 0 {
        x
    } else if x.len() == 0 {
        a
    } else {
        a + seq!['.'] + x
    }
}

proof fn lemma_name_roundtrip_from(
    b: Seq<u8>,
    p: int,
    nm: Seq<char>,
    i: int,
    jumps: int,
    jumped: bool,
    fe: int,
    acc: Seq<char>,
)
    requires
        b.len() == 512,
        0 <= p,
        0 <= i <= nm.len(),
        spec_encode_from(nm, i) is Some,
        p + spec_encode_from(nm, i).unwrap().len() <= 512,
        b.subrange(p, p + spec_encode_from(nm, i).unwrap().len()) == spec_encode_from(
            nm,
            i,
        ).unwrap(),
        0 <= jumps <= 5,
    ensures
        spec_read_name(b, p, jumps, jumped, fe, acc) == (NameRead::Done {
            name: dot_join(acc, lower_chars(nm.skip(i))),
            end: if jumped {
                fe
            } else {
                p + spec_encode_from(nm, i).unwrap().len()
            },
        }),
    decreases nm.len() - i,
{
    let w = spec_encode_from(nm, i).unwrap();
    assert((0u8 & 0xC0) == 0) by (bit_vector);
    if i >= nm.len() {
        assert(w =~= seq![0u8]);
        assert(b[p] == b.subrange(p, p + w.len())[0]);
        assert(b[p] == 0);
        assert(nm.skip(i) =~= Seq::<char>::empty());
        assert(lower_chars(nm.skip(i)) =~= Seq::<char>::empty());
        assert(dot_join(acc, lower_chars(nm.skip(i))) == acc);
        assert(spec_read_name(b, p, jumps, jumped, fe, acc) == (NameRead::Done {
            name: acc,
            end: if jumped {
                fe
            } else {
                p + 1
            },
        }));
        assert(p + 1 == p + w.len());
    } else {
        let j = label_end(nm, i);
        lemma_label_end_bounds(nm, i);
        let llen = j - i;
        let lblbytes = Seq::new(llen as nat, |t: int| char_to_byte(nm[i + t]));
        let lbl = seq![llen as u8] + lblbytes;
        let label = Seq::new(llen as nat, |t: int| byte_char(b[p + 1 + t]));
        assert(b[p] == w[0]);
        assert(w[0] == llen as u8);
        assert(1 <= llen <= 63);
        let lb = llen as u8;
        assert(lb & 0xC0 == 0) by (bit_vector)
            requires
                lb <= 63,
        ;
        assert(forall|k: int| i <= k < j ==> nm[k] as u32 <= 255);
        assert forall|t: int| 0 <= t < llen implies label[t] == lower_char(nm[i + t]) by {
            assert(b[p + 1 + t] == w[1 + t]);
            assert(w[1 + t] == lblbytes[t]);
            let c = nm[i + t];
            let u = c as u32;
            assert(u <= 255);
            let x = char_to_byte(c);
            assert(x == u as u8);
            assert(x as u32 == u);
            if 65 <= u && u <= 90 {
                assert(lower_byte(x) == (x + 32) as u8);
                assert((x + 32) as u8 == (u + 32) as u8);
                assert(byte_char(x) == lower_char(c));
            } else {
                assert(lower_byte(x) == x);
                vstd::utf8::char_u32_cast(c, u);
                assert((x as char) == c);
                assert(byte_char(x) == lower_char(c));
            }
        }
        assert(label =~= lower_chars(nm.subrange(i, j)));
        let acc2 = if acc.len() == 0 {
            label
        } else {
            acc.push('.') + label
        };
        if j == nm.len() {
            assert(w =~= lbl + seq![0u8]);
            assert(b[p + 1 + llen] == w[1 + llen]);
            assert(w[1 + llen] == 0);
            assert(nm.skip(i) =~= nm.subrange(i, j));
            assert(dot_join(acc, lower_chars(nm.skip(i))) =~= acc2);
            assert(spec_read_name(b, p, jumps, jumped, fe, acc) == spec_read_name(
                b,
                p + 1 + llen,
                jumps,
                jumped,
                fe,
                acc2,
            ));
            assert(0 <= p + 1 + llen < 512);
            assert(spec_read_name(b, p + 1 + llen, jumps, jumped, fe, acc2) == (NameRead::Done {
                name: acc2,
                end: if jumped {
                    fe
                } else {
                    p + 2 + llen
                },
            }));
            assert(p + 2 + llen == p + w.len());
        } else {
            assert(j < nm.len() - 1);
            let tail = spec_encode_from(nm, j + 1).unwrap();
            assert(w =~= lbl + tail);
            assert(spec_read_name(b, p, jumps, jumped, fe, acc) == spec_read_name(
                b,
                p + 1 + llen,
                jumps,
                jumped,
                fe,
                acc2,
            ));
            assert(b.subrange(p + 1 + llen, p + 1 + llen + tail.len()) =~= tail) by {
                assert(forall|t: int|
                    0 <= t < tail.len() ==> b.subrange(
                        p + 1 + llen,
                        p + 1 + llen + tail.len(),
                    )[t] == b[p + 1 + llen + t] && b[p + 1 + llen + t] == w[1 + llen + t]
                        && w[1 + llen + t] == tail[t]);
            }
            lemma_name_roundtrip_from(b, p + 1 + llen, nm, j + 1, jumps, jumped, fe, acc2);
            let rest = lower_chars(nm.skip(j + 1));
            assert(rest.len() > 0);
            assert(nm[j] == '.');
            assert(lower_char('.') == '.');
            assert(lower_chars(nm.skip(i)) =~= label + seq!['.'] + rest);
            assert(dot_join(acc2, rest) =~= dot_join(acc, lower_chars(nm.skip(i))));
            assert(p + 1 + llen + tail.len() == p + w.len());
            assert(spec_read_name(b, p, jumps, jumped, fe, acc) == (NameRead::Done {
                name: dot_join(acc, lower_chars(nm.skip(i))),
                end: if jumped {
                    fe
                } else {
                    p + w.len()
                },
            }));
        }
    }
}

/// Wherever a buffer holds the encoded bytes of `nm`, decoding there
/// yields `nm` lowercased byte-wise, with the cursor just past the bytes.
pub proof fn lemma_name_decodes_at(b: Seq<u8>, p: int, nm: Seq<char>)
    requires
        b.len() == 512,
        0 <= p,
        spec_encode_from(nm, 0) is Some,
        p + spec_encode_from(nm, 0).unwrap().len() <= 512,
        b.subrange(p, p + spec_encode_from(nm, 0).unwrap().len()) == spec_encode_from(
            nm,
            0,
        ).unwrap(),
    ensures
        spec_name_at(b, p) == (NameRead::Done {
            name: lower_chars(nm),
            end: p + spec_encode_from(nm, 0).unwrap().len(),
        }),
{
    lemma_name_roundtrip_from(b, p, nm, 0, 0, false, 0, Seq::<char>::empty());
    assert(nm.skip(0) =~= nm);
    assert(dot_join(Seq::<char>::empty(), lower_chars(nm)) == lower_chars(nm));
}

/// The name half of the codec round-trip: decoding an encoded name gives
/// the name back, lowercased byte-wise (so unchanged for the lowercase
/// names the decoder itself produces), with the cursor just past it.
pub proof fn lemma_name_roundtrip(b0: Seq<u8>, p: int, nm: Seq<char>)
    requires
        b0.len() == 512,
        0 <= p,
        spec_encode_from(nm, 0) is Some,
        p + spec_encode_from(nm, 0).unwrap().len() <= 512,
    ensures
        spec_name_at(splice(b0, p, spec_encode_from(nm, 0).unwrap()), p) == (NameRead::Done {
            name: lower_chars(nm),
            end: p + spec_encode_from(nm, 0).unwrap().len(),
        }),
{
    let w = spec_encode_from(nm, 0).unwrap();
    let b = splice(b0, p, w);
    assert(b.len() == 512);
    assert(b.subrange(p, p + w.len()) =~= w);
    lemma_name_decodes_at(b, p, nm);
}

} // verus!
