//! Byte-level reader and writer for the DNS wire format.
//!
//! `DnsReader` walks a byte buffer and hands out big-endian integers;
//! `DnsWriter` appends them to a growing buffer. The spec functions
//! `spec_u16_be`, `spec_u32_be`, `spec_u16_of` and `spec_u32_of` are the
//! mathematical model of those fields, and the lemmas at the bottom state
//! that splitting a field into bytes and reassembling it are inverses.

use vstd::prelude::*;

verus! {

/// Why a decode failed: the buffer ran out below a field or inside a label,
/// or a decoded domain name grew past the permitted length.
#[derive(Debug, Clone, Copy, PartialEq, Eq, Structural)]
pub enum DnsError {
    EndOfStream,
    NameTooLong,
}

/// The two big-endian bytes of a 16-bit field, most significant first.
pub open spec fn spec_u16_be(x: u16) -> Seq<u8> {
    seq![(x / 256) as u8, (x % 256) as u8]
}

/// The 16-bit value carried by two big-endian bytes.
pub open spec fn spec_u16_of(hi: u8, lo: u8) -> u16 {
    ((hi as u16) * 256 + (lo as u16)) as u16
}

/// The four big-endian bytes of a 32-bit field, most significant first.
pub open spec fn spec_u32_be(x: u32) -> Seq<u8> {
    seq![
        (x / 0x1000000) as u8,
        ((x / 0x10000) % 256) as u8,
        ((x / 256) % 256) as u8,
        (x % 256) as u8,
    ]
}

/// The 32-bit value carried by four big-endian bytes.
pub open spec fn spec_u32_of(b0: u8, b1: u8, b2: u8, b3: u8) -> u32 {
    ((b0 as u32) * 0x1000000 + (b1 as u32) * 0x10000 + (b2 as u32) * 256 + (b3 as u32)) as u32
}

/// What reading a big-endian 16-bit field from `bytes` at `pos` yields.
pub open spec fn spec_read_u16(bytes: Seq<u8>, pos: int) -> Result<(u16, int), DnsError> {
    if pos < 0 || pos + 2 > bytes.len() {
        Err(DnsError::EndOfStream)
    } else {
        Ok((spec_u16_of(bytes[pos], bytes[pos + 1]), pos + 2))
    }
}

/// What reading a big-endian 32-bit field from `bytes` at `pos` yields.
pub open spec fn spec_read_u32(bytes: Seq<u8>, pos: int) -> Result<(u32, int), DnsError> {
    if pos < 0 || pos + 4 > bytes.len() {
        Err(DnsError::EndOfStream)
    } else {
        Ok((spec_u32_of(bytes[pos], bytes[pos + 1], bytes[pos + 2], bytes[pos + 3]), pos + 4))
    }
}

/// Reassembling the two bytes of a 16-bit field gives the field back.
pub proof fn lemma_u16_of_be(x: u16)
    by (bit_vector)
    ensures
        spec_u16_of((x / 256) as u8, (x % 256) as u8) == x,
{
}

/// Reassembling the four bytes of a 32-bit field gives the field back.
pub proof fn lemma_u32_of_be(x: u32)
    by (bit_vector)
    ensures
        spec_u32_of(
            (x / 0x1000000) as u8,
            ((x / 0x10000) % 256) as u8,
            ((x / 256) % 256) as u8,
            (x % 256) as u8,
        ) == x,
{
}

/// A cursor over the bytes of one datagram.
pub struct DnsReader {
    data: Vec<u8>,
    pos: usize,
}

impl DnsReader {
    /// The whole buffer being decoded.
    pub closed spec fn bytes(&self) -> Seq<u8> {
        self.data@
    }

    /// How far decoding has advanced into the buffer.
    pub closed spec fn position(&self) -> int {
        self.pos as int
    }

    /// The cursor never leaves the buffer.
    pub open spec fn wf(&self) -> bool {
        0 <= self.position() <= self.bytes().len()
    }

    /// How many bytes are still unread.
    pub open spec fn remaining(&self) -> int {
        self.bytes().len() - self.position()
    }

    /// How many bytes are still unread.
    pub fn left(&self) -> (n: usize)
        requires
            self.wf(),
        ensures
            n == self.remaining(),
    {
        self.data.len() - self.pos
    }

    pub fn from(data: Vec<u8>) -> (r: DnsReader)
        ensures
            r.bytes() == data@,
            r.position() == 0,
            r.wf(),
    {
        DnsReader { data, pos: 0 }
    }

    /// Reads one byte, or reports end of stream with the cursor unmoved.
    pub fn read_u8(&mut self) -> (r: Result<u8, DnsError>)
        requires
            old(self).wf(),
        ensures
            final(self).wf(),
            final(self).bytes() == old(self).bytes(),
            match r {
                Ok(b) => old(self).remaining() >= 1 && b == old(self).bytes()[old(
                    self,
                ).position()] && final(self).position() == old(self).position() + 1,
                Err(e) => e == DnsError::EndOfStream && old(self).remaining() == 0
                    && final(self).position() == old(self).position(),
            },
    {
        if self.pos < self.data.len() {
            let b = self.data[self.pos];
            self.pos = self.pos + 1;
            Ok(b)
        } else {
            Err(DnsError::EndOfStream)
        }
    }

    /// Reads a big-endian 16-bit field, or reports end of stream with the
    /// cursor unmoved.
    pub fn read_u16(&mut self) -> (r: Result<u16, DnsError>)
        requires
            old(self).wf(),
        ensures
            final(self).wf(),
            final(self).bytes() == old(self).bytes(),
            match r {
                Ok(x) => old(self).remaining() >= 2 && x == spec_u16_of(
                    old(self).bytes()[old(self).position()],
                    old(self).bytes()[old(self).position() + 1],
                ) && final(self).position() == old(self).position() + 2,
                Err(e) => e == DnsError::EndOfStream && old(self).remaining() < 2
                    && final(self).position() == old(self).position(),
            },
    {
        if self.data.len() - self.pos < 2 {
            return Err(DnsError::EndOfStream);
        }
        let hi = self.data[self.pos];
        let lo = self.data[self.pos + 1];
        self.pos = self.pos + 2;
        Ok((hi as u16) * 256 + (lo as u16))
    }

    /// Reads a big-endian 32-bit field, or reports end of stream with the
    /// cursor unmoved.
    pub fn read_u32(&mut self) -> (r: Result<u32, DnsError>)
        requires
            old(self).wf(),
        ensures
            final(self).wf(),
            final(self).bytes() == old(self).bytes(),
            match r {
                Ok(x) => old(self).remaining() >= 4 && x == spec_u32_of(
                    old(self).bytes()[old(self).position()],
                    old(self).bytes()[old(self).position() + 1],
                    old(self).bytes()[old(self).position() + 2],
                    old(self).bytes()[old(self).position() + 3],
                ) && final(self).position() == old(self).position() + 4,
                Err(e) => e == DnsError::EndOfStream && old(self).remaining() < 4
                    && final(self).position() == old(self).position(),
            },
    {
        if self.data.len() - self.pos < 4 {
            return Err(DnsError::EndOfStream);
        }
        let b0 = self.data[self.pos];
        let b1 = self.data[self.pos + 1];
        let b2 = self.data[self.pos + 2];
        let b3 = self.data[self.pos + 3];
        self.pos = self.pos + 4;
        Ok((b0 as u32) * 0x1000000 + (b1 as u32) * 0x10000 + (b2 as u32) * 256 + (b3 as u32))
    }
}

/// A growing buffer that one datagram is encoded into.
pub struct DnsWriter {
    out: Vec<u8>,
}

impl DnsWriter {
    /// Everything written so far.
    pub closed spec fn bytes(&self) -> Seq<u8> {
        self.out@
    }

    pub fn from(out: Vec<u8>) -> (w: DnsWriter)
        ensures
            w.bytes() == out@,
    {
        DnsWriter { out }
    }

    /// Hands the encoded bytes back.
    pub fn into_bytes(self) -> (r: Vec<u8>)
        ensures
            r@ == self.bytes(),
    {
        self.out
    }

    pub fn write_u8(&mut self, b: u8)
        ensures
            final(self).bytes() == old(self).bytes().push(b),
    {
        self.out.push(b);
    }

    /// Appends a 16-bit field, most significant byte first.
    pub fn write_u16(&mut self, x: u16)
        ensures
            final(self).bytes() == old(self).bytes() + spec_u16_be(x),
    {
        self.out.push((x / 256) as u8);
        self.out.push((x % 256) as u8);
        assert(self.bytes() =~= old(self).bytes() + spec_u16_be(x));
    }

    /// Appends a 32-bit field, most significant byte first.
    pub fn write_u32(&mut self, x: u32)
        ensures
            final(self).bytes() == old(self).bytes() + spec_u32_be(x),
    {
        self.out.push((x / 0x1000000) as u8);
        self.out.push(((x / 0x10000) % 256) as u8);
        self.out.push(((x / 256) % 256) as u8);
        self.out.push((x % 256) as u8);
        assert(self.bytes() =~= old(self).bytes() + spec_u32_be(x));
    }
}

} // verus!
