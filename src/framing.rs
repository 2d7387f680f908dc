//! Length-prefixed message framing.
//!
//! A frame is a big-endian `u16` total length (header included), a big-endian
//! `u16` type tag and `total_length - 4` bytes of payload.
use vstd::prelude::*;
use byteorder::ByteOrder;
use crate::error::ReadMessageError;

verus! {

/// Size of the frame header.
pub const HEADER_LEN: usize = 4;

/// The big-endian `u16` at `at` in `s`.
pub open spec fn be16_at(s: Seq<u8>, at: int) -> int {
    s[at] as int * 0x100 + s[at + 1] as int
}

/// The big-endian `u32` at `at` in `s`.
pub open spec fn be32_at(s: Seq<u8>, at: int) -> int {
    s[at] as int * 0x100_0000 + s[at + 1] as int * 0x1_0000 + s[at + 2] as int * 0x100 + s[at + 3] as int
}

/// The two big-endian bytes of `n`.
pub open spec fn be16_bytes(n: u16) -> Seq<u8> {
    seq![(n / 0x100) as u8, (n % 0x100) as u8]
}

/// The four big-endian bytes of `n`.
pub open spec fn be32_bytes(n: u32) -> Seq<u8> {
    seq![(n / 0x100_0000) as u8, (n / 0x1_0000 % 0x100) as u8, (n / 0x100 % 0x100) as u8, (n % 0x100) as u8]
}

/// The header of a frame of `total_length` bytes and type `tpe`.
pub open spec fn header_bytes(total_length: u16, tpe: u16) -> Seq<u8> {
    be16_bytes(total_length) + be16_bytes(tpe)
}

/// Relies on `byteorder::BigEndian::read_u16`: the two bytes at `at`, big-endian.
#[verifier::external_body]
fn read_be_u16(buf: &Vec<u8>, at: usize) -> (r: u16)
    requires
        at + 2 <= buf@.len(),
    ensures
        r as int == be16_at(buf@, at as int),
{
    byteorder::BigEndian::read_u16(&buf[at..])
}

/// Relies on `byteorder::BigEndian::read_u32`: the four bytes at `at`, big-endian.
#[verifier::external_body]
fn read_be_u32(buf: &Vec<u8>, at: usize) -> (r: u32)
    requires
        at + 4 <= buf@.len(),
    ensures
        r as int == be32_at(buf@, at as int),
{
    byteorder::BigEndian::read_u32(&buf[at..])
}

/// Relies on `byteorder::BigEndian::write_u16`: the two bytes of `n`, big-endian.
#[verifier::external_body]
fn be_u16_bytes(n: u16) -> (r: Vec<u8>)
    ensures
        r@ == be16_bytes(n),
{
    let mut buf = vec![0u8; 2];
    byteorder::BigEndian::write_u16(&mut buf, n);
    buf
}

/// Relies on `byteorder::BigEndian::write_u32`: the four bytes of `n`, big-endian.
#[verifier::external_body]
fn be_u32_bytes(n: u32) -> (r: Vec<u8>)
    ensures
        r@ == be32_bytes(n),
{
    let mut buf = vec![0u8; 4];
    byteorder::BigEndian::write_u32(&mut buf, n);
    buf
}

/// Appends `bytes` to `out`.
fn append_bytes(out: &mut Vec<u8>, bytes: &Vec<u8>)
    ensures
        final(out)@ == old(out)@ + bytes@,
{
    let mut i: usize = 0;
    while i < bytes.len()
        invariant
            i <= bytes@.len(),
            out@ == old(out)@ + bytes@.take(i as int),
        decreases bytes@.len() - i,
    {
        out.push(bytes[i]);
        i = i + 1;
        assert(out@ =~= old(out)@ + bytes@.take(i as int));
    }
    assert(bytes@.take(i as int) == bytes@);
}

/// The bytes of `data` from `from` (inclusive) to `to` (exclusive).
fn copy_range(data: &Vec<u8>, from: usize, to: usize) -> (r: Vec<u8>)
    requires
        from <= to <= data@.len(),
    ensures
        r@ == data@.subrange(from as int, to as int),
{
    let mut out: Vec<u8> = Vec::new();
    let mut i: usize = from;
    while i < to
        invariant
            from <= i <= to <= data@.len(),
            out@ == data@.subrange(from as int, i as int),
        decreases to - i,
    {
        out.push(data[i]);
        i = i + 1;
        assert(out@ =~= data@.subrange(from as int, i as int));
    }
    out
}

/// A forward-only cursor over a sequence of bytes: a received byte stream, or the
/// payload of one frame.
#[derive(Clone, Debug)]
pub struct ByteReader {
    data: Vec<u8>,
    pos: usize,
}

impl View for ByteReader {
    type V = Seq<u8>;

    /// The bytes that are still to be read.
    closed spec fn view(&self) -> Seq<u8> {
        self.data@.subrange(self.pos as int, self.data@.len() as int)
    }
}

impl ByteReader {
    /// Whether the cursor stands within its bytes.
    pub closed spec fn wf(&self) -> bool {
        self.pos <= self.data@.len()
    }

    /// A cursor at the start of `data`.
    pub fn new(data: Vec<u8>) -> (r: ByteReader)
        ensures
            r.wf(),
            r@ == data@,
    {
        let r = ByteReader { data, pos: 0 };
        assert(r.data@.subrange(0, r.data@.len() as int) == r.data@);
        r
    }

    /// Number of bytes still to be read.
    pub fn remaining(&self) -> (r: usize)
        requires
            self.wf(),
        ensures
            r == self@.len(),
    {
        self.data.len() - self.pos
    }

    /// Reads a big-endian `u32`, or `None` (and reads nothing) where fewer than
    /// four bytes are left.
    pub fn read_u32(&mut self) -> (r: Option<u32>)
        requires
            old(self).wf(),
        ensures
            final(self).wf(),
            old(self)@.len() < 4 ==> r is None && final(self)@ == old(self)@,
            old(self)@.len() >= 4 ==> r == Some(be32_at(old(self)@, 0) as u32)
                && final(self)@ == old(self)@.skip(4),
    {
        if self.data.len() - self.pos < 4 {
            return None;
        }
        let v = read_be_u32(&self.data, self.pos);
        proof {
            assert(be32_at(self.data@, self.pos as int) == be32_at(self@, 0));
        }
        self.pos = self.pos + 4;
        assert(self@ =~= old(self)@.skip(4));
        Some(v)
    }

    /// Reads exactly `n` bytes, or `None` (and reads nothing) where fewer are left.
    pub fn read_exact(&mut self, n: usize) -> (r: Option<Vec<u8>>)
        requires
            old(self).wf(),
        ensures
            final(self).wf(),
            old(self)@.len() < n ==> r is None && final(self)@ == old(self)@,
            old(self)@.len() >= n ==> (r matches Some(v) && v@ == old(self)@.take(n as int)
                && final(self)@ == old(self)@.skip(n as int)),
    {
        if self.data.len() - self.pos < n {
            return None;
        }
        let v = copy_range(&self.data, self.pos, self.pos + n);
        self.pos = self.pos + n;
        assert(v@ =~= old(self)@.take(n as int));
        assert(self@ =~= old(self)@.skip(n as int));
        Some(v)
    }

    /// Reads all the bytes that are left.
    pub fn read_to_end(&mut self) -> (r: Vec<u8>)
        requires
            old(self).wf(),
        ensures
            final(self).wf(),
            r@ == old(self)@,
            final(self)@.len() == 0,
    {
        let v = copy_range(&self.data, self.pos, self.data.len());
        self.pos = self.data.len();
        v
    }
}

/// The outcome of reading one frame from the bytes `s`: the type tag and payload
/// with the length of the whole frame, or the error.
pub open spec fn frame_of(s: Seq<u8>) -> Result<(u16, Seq<u8>, int), ReadMessageError> {
    if s.len() == 0 {
        Err(ReadMessageError::Disconnected)
    } else if s.len() < 4 {
        Err(ReadMessageError::Truncated)
    } else if be16_at(s, 0) < 4 {
        Err(ReadMessageError::ShortMessage(be16_at(s, 0) as u16))
    } else if s.len() < be16_at(s, 0) {
        Err(ReadMessageError::Truncated)
    } else {
        Ok((be16_at(s, 2) as u16, s.subrange(4, be16_at(s, 0)), be16_at(s, 0)))
    }
}

/// Reads one frame from `stream`: its type tag and a cursor over its payload. No
/// bytes at all mean that the peer disconnected; a partial header or payload is a
/// truncated frame. On an error nothing is read.
pub fn read_message(stream: &mut ByteReader) -> (r: Result<(u16, ByteReader), ReadMessageError>)
    requires
        old(stream).wf(),
    ensures
        final(stream).wf(),
        match (r, frame_of(old(stream)@)) {
            (Ok((t, p)), Ok((ft, fp, len))) => t == ft && p.wf() && p@ == fp
                && final(stream)@ == old(stream)@.skip(len),
            (Err(e), Err(fe)) => e == fe && final(stream)@ == old(stream)@,
            _ => false,
        },
{
    let avail = stream.data.len() - stream.pos;
    if avail == 0 {
        return Err(ReadMessageError::Disconnected);
    }
    if avail < HEADER_LEN {
        return Err(ReadMessageError::Truncated);
    }
    let total = read_be_u16(&stream.data, stream.pos);
    let tpe = read_be_u16(&stream.data, stream.pos + 2);
    let ghost s = old(stream)@;
    proof {
        assert(be16_at(stream.data@, stream.pos as int) == be16_at(s, 0));
        assert(be16_at(stream.data@, stream.pos + 2) == be16_at(s, 2));
    }
    if (total as usize) < HEADER_LEN {
        return Err(ReadMessageError::ShortMessage(total));
    }
    if avail < total as usize {
        return Err(ReadMessageError::Truncated);
    }
    let payload = copy_range(&stream.data, stream.pos + HEADER_LEN, stream.pos + total as usize);
    stream.pos = stream.pos + total as usize;
    assert(payload@ =~= s.subrange(4, total as int));
    assert(stream@ =~= s.skip(total as int));
    Ok((tpe, ByteReader::new(payload)))
}

/// A frame being written: its header, then the payload that the caller appends.
#[derive(Clone, Debug)]
pub struct MessageWriter {
    total_length: u16,
    buf: Vec<u8>,
}

impl View for MessageWriter {
    type V = Seq<u8>;

    /// The bytes of the frame written so far, header included.
    closed spec fn view(&self) -> Seq<u8> {
        self.buf@
    }
}

impl MessageWriter {
    /// The total length that the header announces.
    pub closed spec fn spec_total_length(&self) -> u16 {
        self.total_length
    }

    /// Appends a big-endian `u32` to the payload.
    pub fn write_u32(&mut self, n: u32)
        ensures
            final(self)@ == old(self)@ + be32_bytes(n),
            final(self).spec_total_length() == old(self).spec_total_length(),
    {
        let b = be_u32_bytes(n);
        append_bytes(&mut self.buf, &b);
    }

    /// Appends `bytes` to the payload.
    pub fn write_all(&mut self, bytes: &Vec<u8>)
        ensures
            final(self)@ == old(self)@ + bytes@,
            final(self).spec_total_length() == old(self).spec_total_length(),
    {
        append_bytes(&mut self.buf, bytes);
    }

    /// Hands the whole frame to `out` where its length is the one that its header
    /// announces; otherwise fails with the announced and the actual length, and
    /// leaves `out` as it was.
    pub fn send(self, out: &mut Vec<u8>) -> (r: Result<(), FrameLengthMismatch>)
        ensures
            self@.len() == self.spec_total_length() as int <==> r is Ok,
            r is Ok ==> final(out)@ == old(out)@ + self@,
            r matches Err(e) ==> (final(out)@ == old(out)@
                && e.announced == self.spec_total_length() && e.actual as int == self@.len()),
    {
        if self.buf.len() != self.total_length as usize {
            return Err(FrameLengthMismatch { announced: self.total_length, actual: self.buf.len() });
        }
        append_bytes(out, &self.buf);
        Ok(())
    }
}

/// A frame whose length differs from the one that its header announces.
#[derive(Clone, Copy, Debug, PartialEq, Eq, Structural)]
pub struct FrameLengthMismatch {
    pub announced: u16,
    pub actual: usize,
}

/// Starts a frame of `total_length` bytes (header included) and type `tpe`.
pub fn write_message(total_length: u16, tpe: u16) -> (r: MessageWriter)
    ensures
        r@ == header_bytes(total_length, tpe),
        r.spec_total_length() == total_length,
{
    let mut buf = be_u16_bytes(total_length);
    let t = be_u16_bytes(tpe);
    append_bytes(&mut buf, &t);
    MessageWriter { total_length, buf }
}

} // verus!
