//! The seekable in-memory byte source and the primitive byte decoder.
//!
//! Two integer encodings are selected per chunk by the header's feature
//! flags: raw fixed-width big-endian integers, or the variable-width
//! compressed encoding of [`crate::varint`].

use vstd::prelude::*;
use crate::varint::{spec_varint, spec_varint_from};
use crate::{Error, Result};
use vstd::utf8::{
    partial_valid_utf8, partial_valid_utf8_extend, partial_valid_partial_invalid_utf8, valid_utf8,
    valid_first_scalar, valid_leading_and_continuation_bytes_first_codepoint,
    decode_first_codepoint, length_of_first_codepoint,
};

verus! {

/// A seekable byte source over a fully buffered byte vector, with an
/// explicit cursor.
pub struct HeapByteStream {
    pub data: Vec<u8>,
    pub pos: usize,
}

impl HeapByteStream {
    pub fn new(data: Vec<u8>) -> (s: Self)
        ensures
            s.data@ == data@,
            s.pos == 0,
    {
        HeapByteStream { data, pos: 0 }
    }

    pub fn position(&self) -> (p: u64)
        ensures
            p == self.pos,
    {
        self.pos as u64
    }

    pub fn len(&self) -> (n: usize)
        ensures
            n == self.data@.len(),
    {
        self.data.len()
    }

    /// Moves the cursor to an absolute position; a seek past the end of the
    /// source fails and moves nothing.
    pub fn seek(&mut self, pos: u64) -> (r: Result<()>)
        ensures
            final(self).data@ == old(self).data@,
            r is Ok <==> pos <= old(self).data@.len(),
            r is Ok ==> final(self).pos == pos,
            r is Err ==> r == Result::<()>::Err(Error::IoError) && final(self).pos == old(
                self,
            ).pos,
    {
        if pos <= self.data.len() as u64 {
            self.pos = pos as usize;
            Ok(())
        } else {
            Err(Error::IoError)
        }
    }

    /// Reads the byte under the cursor and advances past it.
    pub fn read_u8(&mut self) -> (r: Result<u8>)
        ensures
            final(self).data@ == old(self).data@,
            r is Ok <==> old(self).pos < old(self).data@.len(),
            r is Ok ==> r == Result::<u8>::Ok(old(self).data@[old(self).pos as int])
                && final(self).pos == old(self).pos + 1,
            r is Err ==> r == Result::<u8>::Err(Error::IoError) && final(self).pos == old(
                self,
            ).pos,
    {
        if self.pos < self.data.len() {
            let b = self.data[self.pos];
            self.pos = self.pos + 1;
            Ok(b)
        } else {
            Err(Error::IoError)
        }
    }

    /// Reads `n` bytes from the cursor on, advancing past them.
    pub fn read_exact(&mut self, n: usize) -> (r: Result<Vec<u8>>)
        ensures
            final(self).data@ == old(self).data@,
            r is Ok <==> old(self).pos + n <= old(self).data@.len(),
            r is Ok ==> final(self).pos == old(self).pos + n && r->Ok_0@ == old(
                self,
            ).data@.subrange(old(self).pos as int, old(self).pos + n),
            r is Err ==> r == Result::<Vec<u8>>::Err(Error::IoError) && final(self).pos == old(
                self,
            ).pos,
    {
        if self.pos > self.data.len() || n > self.data.len() - self.pos {
            return Err(Error::IoError);
        }
        let start = self.pos;
        let mut out: Vec<u8> = Vec::new();
        let mut i: usize = 0;
        while i < n
            invariant
                start + n <= self.data@.len(),
                self.data@.len() <= usize::MAX,
                i <= n,
                self.pos == start + i,
                self.data@ == old(self).data@,
                out@ == self.data@.subrange(start as int, start + i),
            decreases n - i,
        {
            let b = self.data[self.pos];
            out.push(b);
            self.pos = self.pos + 1;
            i = i + 1;
            assert(out@ =~= self.data@.subrange(start as int, start + i));
        }
        Ok(out)
    }
}

/// Big-endian interpretation of `n` bytes of `data` starting at `pos`.
pub open spec fn spec_be(data: Seq<u8>, pos: int, n: nat) -> nat
    decreases n,
{
    if n == 0 {
        0
    } else {
        (spec_be(data, pos, (n - 1) as nat) * 256 + data[pos + n - 1]) as nat
    }
}

/// What one compressed-integer read at `pos` yields, as a signed 64-bit
/// value: the encoding carries the two's-complement value directly.
pub open spec fn spec_varint_i64(data: Seq<u8>, pos: int) -> Option<(i64, int)> {
    match spec_varint(data, pos) {
        Some((v, p)) => Some((v as i64, p)),
        None => None,
    }
}

/// The primitive byte decoder: fixed big-endian widths, or the compressed
/// encoding, as selected by the chunk header's feature flags.
#[derive(Debug, Clone, Copy, PartialEq, Eq, Structural)]
pub enum ByteReader {
    Raw,
    CompressedInts,
}

/// What one signed 64-bit read at `pos` yields under reader mode `r`.
pub open spec fn spec_read_i64(r: ByteReader, data: Seq<u8>, pos: int) -> Option<(i64, int)> {
    match r {
        ByteReader::Raw => if 0 <= pos && pos + 8 <= data.len() {
            Some((spec_be(data, pos, 8) as u64 as i64, pos + 8))
        } else {
            None
        },
        ByteReader::CompressedInts => spec_varint_i64(data, pos),
    }
}

/// What one signed 32-bit read at `pos` yields under reader mode `r`; a
/// compressed read keeps the low 32 bits.
pub open spec fn spec_read_i32(r: ByteReader, data: Seq<u8>, pos: int) -> Option<(i32, int)> {
    match r {
        ByteReader::Raw => if 0 <= pos && pos + 4 <= data.len() {
            Some((spec_be(data, pos, 4) as u32 as i32, pos + 4))
        } else {
            None
        },
        ByteReader::CompressedInts => match spec_varint(data, pos) {
            Some((v, p)) => Some((v as i32, p)),
            None => None,
        },
    }
}

/// What one signed 16-bit read at `pos` yields under reader mode `r`; a
/// compressed read keeps the low 16 bits.
pub open spec fn spec_read_i16(r: ByteReader, data: Seq<u8>, pos: int) -> Option<(i16, int)> {
    match r {
        ByteReader::Raw => if 0 <= pos && pos + 2 <= data.len() {
            Some((spec_be(data, pos, 2) as u16 as i16, pos + 2))
        } else {
            None
        },
        ByteReader::CompressedInts => match spec_varint(data, pos) {
            Some((v, p)) => Some((v as i16, p)),
            None => None,
        },
    }
}

impl ByteReader {
    /// Reads one unsigned compressed integer, whatever the mode.
    pub fn read_varint(&self, s: &mut HeapByteStream) -> (r: Result<u64>)
        ensures
            final(s).data@ == old(s).data@,
            match spec_varint(old(s).data@, old(s).pos as int) {
                Some(vp) => r == Result::<u64>::Ok(vp.0) && final(s).pos == vp.1,
                None => r == Result::<u64>::Err(Error::IoError),
            },
            r is Ok ==> old(s).pos < final(s).pos <= final(s).data@.len(),
            old(s).pos <= old(s).data@.len() ==> final(s).pos <= final(s).data@.len(),
    {
        if s.pos > s.data.len() {
            return Err(Error::IoError);
        }
        let ghost data = s.data@;
        let ghost pos0 = s.pos as int;
        let mut acc: u64 = 0;
        let mut i: u64 = 0;
        loop
            invariant
                i <= 8,
                data == old(s).data@,
                pos0 == old(s).pos as int,
                pos0 <= s.pos,
                s.data@ == data,
                s.pos <= data.len(),
                data.len() <= usize::MAX,
                spec_varint(data, pos0) == spec_varint_from(data, s.pos as int, i, acc),
            decreases 8 - i,
        {
            if s.pos >= s.data.len() {
                return Err(Error::IoError);
            }
            let b = s.data[s.pos];
            s.pos = s.pos + 1;
            if i >= 8 {
                return Ok(acc | ((b as u64) << 56u64));
            }
            let shift: u64 = 7 * i;
            acc = acc | (((b & 0x7f) as u64) << shift);
            if b & 0x80 == 0 {
                return Ok(acc);
            }
            i = i + 1;
        }
    }

    /// Reads one signed 64-bit integer in this mode.
    pub fn read_i64(&self, s: &mut HeapByteStream) -> (r: Result<i64>)
        ensures
            final(s).data@ == old(s).data@,
            match spec_read_i64(*self, old(s).data@, old(s).pos as int) {
                Some(vp) => r == Result::<i64>::Ok(vp.0) && final(s).pos == vp.1,
                None => r == Result::<i64>::Err(Error::IoError),
            },
            r is Ok ==> old(s).pos < final(s).pos <= final(s).data@.len(),
            old(s).pos <= old(s).data@.len() ==> final(s).pos <= final(s).data@.len(),
    {
        match self {
            ByteReader::Raw => {
                let v = read_be(s, 8)?;
                Ok(v as i64)
            },
            ByteReader::CompressedInts => {
                let v = self.read_varint(s)?;
                Ok(v as i64)
            },
        }
    }

    /// Reads one signed 32-bit integer in this mode.
    pub fn read_i32(&self, s: &mut HeapByteStream) -> (r: Result<i32>)
        ensures
            final(s).data@ == old(s).data@,
            match spec_read_i32(*self, old(s).data@, old(s).pos as int) {
                Some(vp) => r == Result::<i32>::Ok(vp.0) && final(s).pos == vp.1,
                None => r == Result::<i32>::Err(Error::IoError),
            },
            r is Ok ==> old(s).pos < final(s).pos <= final(s).data@.len(),
            old(s).pos <= old(s).data@.len() ==> final(s).pos <= final(s).data@.len(),
    {
        match self {
            ByteReader::Raw => {
                let v = read_be(s, 4)?;
                proof {
                    lemma_spec_be_bound(old(s).data@, old(s).pos as int, 4);
                }
                Ok(v as u32 as i32)
            },
            ByteReader::CompressedInts => {
                let v = self.read_varint(s)?;
                Ok(v as i32)
            },
        }
    }

    /// Reads one signed 16-bit integer in this mode.
    pub fn read_i16(&self, s: &mut HeapByteStream) -> (r: Result<i16>)
        ensures
            final(s).data@ == old(s).data@,
            match spec_read_i16(*self, old(s).data@, old(s).pos as int) {
                Some(vp) => r == Result::<i16>::Ok(vp.0) && final(s).pos == vp.1,
                None => r == Result::<i16>::Err(Error::IoError),
            },
            r is Ok ==> old(s).pos < final(s).pos <= final(s).data@.len(),
            old(s).pos <= old(s).data@.len() ==> final(s).pos <= final(s).data@.len(),
    {
        match self {
            ByteReader::Raw => {
                let v = read_be(s, 2)?;
                proof {
                    lemma_spec_be_bound(old(s).data@, old(s).pos as int, 2);
                }
                Ok(v as u16 as i16)
            },
            ByteReader::CompressedInts => {
                let v = self.read_varint(s)?;
                Ok(v as i16)
            },
        }
    }
}

/// Reads `n` (at most 8) bytes as one big-endian unsigned value.
fn read_be(s: &mut HeapByteStream, n: usize) -> (r: Result<u64>)
    requires
        n <= 8,
    ensures
        final(s).data@ == old(s).data@,
        r is Ok <==> old(s).pos + n <= old(s).data@.len(),
        r is Ok ==> r == Result::<u64>::Ok(spec_be(old(s).data@, old(s).pos as int, n as nat) as u64)
            && final(s).pos == old(s).pos + n,
        r is Err ==> r == Result::<u64>::Err(Error::IoError) && final(s).pos == old(s).pos,
        old(s).pos <= old(s).data@.len() ==> final(s).pos <= final(s).data@.len(),
{
    if s.pos > s.data.len() || n > s.data.len() - s.pos {
        return Err(Error::IoError);
    }
    let ghost data = s.data@;
    let ghost pos0 = s.pos as int;
    let mut acc: u64 = 0;
    let mut i: usize = 0;
    while i < n
        invariant
            i <= n <= 8,
            data == old(s).data@,
            pos0 == old(s).pos as int,
            s.data@ == data,
            pos0 + n <= data.len(),
            data.len() <= usize::MAX,
            s.pos == pos0 + i,
            acc == spec_be(data, pos0, i as nat),
            acc < 0x100000000000000_u64 || i == 8,
        decreases n - i,
    {
        proof {
            lemma_spec_be_bound(data, pos0, i as nat);
        }
        let b = s.data[s.pos];
        acc = acc * 256 + (b as u64);
        s.pos = s.pos + 1;
        i = i + 1;
        proof {
            lemma_spec_be_bound(data, pos0, i as nat);
        }
    }
    Ok(acc)
}

spec fn pow256(n: nat) -> nat
    decreases n,
{
    if n == 0 {
        1
    } else {
        256 * pow256((n - 1) as nat)
    }
}

proof fn lemma_spec_be_bound(data: Seq<u8>, pos: int, n: nat)
    requires
        n <= 8,
        pos >= 0,
        pos + n <= data.len(),
    ensures
        spec_be(data, pos, n) < pow256(n),
        n < 8 ==> spec_be(data, pos, n) < 0x100000000000000,
        n <= 4 ==> spec_be(data, pos, n) <= 0xffffffff,
        n <= 2 ==> spec_be(data, pos, n) <= 0xffff,
        spec_be(data, pos, n) <= u64::MAX,
    decreases n,
{
    reveal_with_fuel(pow256, 9);
    if n > 0 {
        lemma_spec_be_bound(data, pos, (n - 1) as nat);
    }
    assert(pow256(8) == 0x10000000000000000);
}

/// A decoded tagged string: `Null` and the empty string are distinct.
#[derive(Debug, PartialEq)]
pub enum StringValue {
    Null,
    Utf8(Vec<u8>),
}

impl View for StringValue {
    type V = Option<Seq<u8>>;

    open spec fn view(&self) -> Option<Seq<u8>> {
        match self {
            StringValue::Null => None,
            StringValue::Utf8(v) => Some(v@),
        }
    }
}

/// What one tagged-string read at `pos` yields: the payload (`None` for the
/// null tag) and the position one past it, or the exact error: a short read,
/// `InvalidFormat` for invalid UTF-8, `InvalidString` for any tag outside
/// {0, 1, 3}.
pub open spec fn spec_read_string(data: Seq<u8>, pos: int) -> Result<(Option<Seq<u8>>, int)> {
    if pos < 0 || pos >= data.len() {
        Err(Error::IoError)
    } else {
        let tag = data[pos];
        if tag == 0 {
            Ok((Option::<Seq<u8>>::None, pos + 1))
        } else if tag == 1 {
            Ok((Some(Seq::<u8>::empty()), pos + 1))
        } else if tag == 3 {
            match spec_varint(data, pos + 1) {
                Option::None => Err(Error::IoError),
                Some((n, p)) => if p + n > data.len() {
                    Err(Error::IoError)
                } else if !valid_utf8(data.subrange(p, p + n)) {
                    Err(Error::InvalidFormat)
                } else {
                    Ok((Some(data.subrange(p, p + n)), p + n))
                },
            }
        } else {
            Err(Error::InvalidString)
        }
    }
}

impl ByteReader {
    /// Reads one tagged string: a one-byte tag precedes the payload.
    /// Tag 0 is null, 1 is empty, 3 is raw UTF-8 with a compressed length
    /// and that many bytes; every other tag fails with `InvalidString`
    /// without consuming anything past the tag.
    pub fn read_string(&self, s: &mut HeapByteStream) -> (r: Result<StringValue>)
        ensures
            final(s).data@ == old(s).data@,
            r is Ok ==> old(s).pos < final(s).pos <= final(s).data@.len(),
            match spec_read_string(old(s).data@, old(s).pos as int) {
                Ok(vp) => r is Ok && r->Ok_0@ == vp.0 && final(s).pos == vp.1,
                Err(e) => r == Result::<StringValue>::Err(e),
            },
            ({
                let data = old(s).data@;
                let pos = old(s).pos as int;
                pos < data.len() && data[pos] != 0 && data[pos] != 1 && data[pos] != 3
                    ==> final(s).pos == pos + 1
            }),
    {
        let tag = s.read_u8()?;
        if tag == 0 {
            Ok(StringValue::Null)
        } else if tag == 1 {
            Ok(StringValue::Utf8(Vec::new()))
        } else if tag == 3 {
            let n = self.read_varint(s)?;
            let total = s.len();
            if s.pos > total || n > (total - s.pos) as u64 {
                return Err(Error::IoError);
            }
            let bytes = s.read_exact(n as usize)?;
            if utf8_valid(&bytes) {
                Ok(StringValue::Utf8(bytes))
            } else {
                Err(Error::InvalidFormat)
            }
        } else {
            Err(Error::InvalidString)
        }
    }
}

/// True exactly when `bytes` form a valid UTF-8 encoding.
pub fn utf8_valid(bytes: &Vec<u8>) -> (r: bool)
    ensures
        r == valid_utf8(bytes@),
{
    let n = bytes.len();
    let mut i: usize = 0;
    while i < n
        invariant
            i <= n,
            n == bytes@.len(),
            partial_valid_utf8(bytes@, i as int),
        decreases n - i,
    {
        let ghost tail = bytes@.subrange(i as int, n as int);
        let b0 = bytes[i];
        proof {
            assert(tail[0] == bytes@[i as int]);
            assert(tail.len() > 0);
        }
        if b0 < 0x80 {
            proof {
                assert(decode_first_codepoint(tail) == (b0 & 0x7f) as u32);
                assert(b0 & 0x7f == b0) by (bit_vector)
                    requires
                        b0 < 0x80,
                ;
                assert(valid_first_scalar(tail));
                partial_valid_utf8_extend(bytes@, i as int);
            }
            i = i + 1;
        } else if b0 < 0xc0 {
            proof {
                assert(!valid_leading_and_continuation_bytes_first_codepoint(tail));
                refute_utf8(bytes@, i as int);
            }
            return false;
        } else if b0 < 0xe0 {
            if i + 1 >= n || !is_cont(bytes[i + 1]) {
                proof {
                    assert(1 < tail.len() ==> tail[1] == bytes@[i + 1]);
                    assert(!valid_leading_and_continuation_bytes_first_codepoint(tail));
                    refute_utf8(bytes@, i as int);
                }
                return false;
            }
            let b1 = bytes[i + 1];
            let cp: u32 = (((b0 & 0x1f) as u32) << 6u32) | ((b1 & 0x3f) as u32);
            proof {
                assert(tail[1] == bytes@[i + 1]);
                assert(length_of_first_codepoint(tail) == 2);
                assert(decode_first_codepoint(tail) == cp);
                assert(cp <= 0x7ff) by (bit_vector)
                    requires
                        cp == (((b0 & 0x1f) as u32) << 6u32) | ((b1 & 0x3f) as u32),
                ;
            }
            if cp < 0x80 {
                proof {
                    refute_utf8(bytes@, i as int);
                }
                return false;
            }
            proof {
                assert(valid_first_scalar(tail));
                partial_valid_utf8_extend(bytes@, i as int);
            }
            i = i + 2;
        } else if b0 < 0xf0 {
            if n - i < 3 || !is_cont(bytes[i + 1]) || !is_cont(bytes[i + 2]) {
                proof {
                    assert(1 < tail.len() ==> tail[1] == bytes@[i + 1]);
                    assert(2 < tail.len() ==> tail[2] == bytes@[i + 2]);
                    assert(!valid_leading_and_continuation_bytes_first_codepoint(tail));
                    refute_utf8(bytes@, i as int);
                }
                return false;
            }
            let b1 = bytes[i + 1];
            let b2 = bytes[i + 2];
            let cp: u32 = (((b0 & 0x0f) as u32) << 12u32) | (((b1 & 0x3f) as u32) << 6u32) | ((b2
                & 0x3f) as u32);
            proof {
                assert(tail[1] == bytes@[i + 1]);
                assert(tail[2] == bytes@[i + 2]);
                assert(length_of_first_codepoint(tail) == 3);
                assert(decode_first_codepoint(tail) == cp);
            }
            if cp < 0x800 || (cp >= 0xd800 && cp <= 0xdfff) {
                proof {
                    refute_utf8(bytes@, i as int);
                }
                return false;
            }
            proof {
                assert(valid_first_scalar(tail));
                partial_valid_utf8_extend(bytes@, i as int);
            }
            i = i + 3;
        } else if b0 < 0xf8 {
            if n - i < 4 || !is_cont(bytes[i + 1]) || !is_cont(bytes[i + 2]) || !is_cont(
                bytes[i + 3],
            ) {
                proof {
                    assert(1 < tail.len() ==> tail[1] == bytes@[i + 1]);
                    assert(2 < tail.len() ==> tail[2] == bytes@[i + 2]);
                    assert(3 < tail.len() ==> tail[3] == bytes@[i + 3]);
                    assert(!valid_leading_and_continuation_bytes_first_codepoint(tail));
                    refute_utf8(bytes@, i as int);
                }
                return false;
            }
            let b1 = bytes[i + 1];
            let b2 = bytes[i + 2];
            let b3 = bytes[i + 3];
            let cp: u32 = (((b0 & 0x07) as u32) << 18u32) | (((b1 & 0x3f) as u32) << 12u32) | (((b2
                & 0x3f) as u32) << 6u32) | ((b3 & 0x3f) as u32);
            proof {
                assert(tail[1] == bytes@[i + 1]);
                assert(tail[2] == bytes@[i + 2]);
                assert(tail[3] == bytes@[i + 3]);
                assert(length_of_first_codepoint(tail) == 4);
                assert(decode_first_codepoint(tail) == cp);
            }
            if cp < 0x10000 || cp > 0x10ffff {
                proof {
                    refute_utf8(bytes@, i as int);
                }
                return false;
            }
            proof {
                assert(valid_first_scalar(tail));
                partial_valid_utf8_extend(bytes@, i as int);
            }
            i = i + 4;
        } else {
            proof {
                assert(!valid_leading_and_continuation_bytes_first_codepoint(tail));
                refute_utf8(bytes@, i as int);
            }
            return false;
        }
    }
    proof {
        assert(bytes@.subrange(0, n as int) =~= bytes@);
    }
    true
}

/// A continuation byte has the form `10xxxxxx`.
fn is_cont(b: u8) -> (r: bool)
    ensures
        r == vstd::utf8::is_continuation_byte(b),
{
    b >= 0x80 && b <= 0xbf
}

/// A prefix of `bytes` is valid but what follows opens with no well-formed
/// scalar, so the whole of `bytes` is not valid UTF-8.
proof fn refute_utf8(bytes: Seq<u8>, i: int)
    requires
        partial_valid_utf8(bytes, i),
        i < bytes.len(),
        !valid_first_scalar(bytes.subrange(i, bytes.len() as int)),
    ensures
        !valid_utf8(bytes),
{
    let tail = bytes.subrange(i, bytes.len() as int);
    assert(tail.len() > 0);
    assert(!valid_utf8(tail));
    partial_valid_partial_invalid_utf8(bytes, i);
}

/// Reads a 32-bit IEEE 754 bit pattern: always raw big-endian, whatever the
/// chunk's integer mode.
pub fn read_raw_u32(s: &mut HeapByteStream) -> (r: Result<u32>)
    ensures
        final(s).data@ == old(s).data@,
        r is Ok <==> old(s).pos + 4 <= old(s).data@.len(),
        r is Ok ==> r == Result::<u32>::Ok(spec_be(old(s).data@, old(s).pos as int, 4) as u32)
            && final(s).pos == old(s).pos + 4,
        r is Err ==> r == Result::<u32>::Err(Error::IoError),
        r is Ok ==> old(s).pos < final(s).pos <= final(s).data@.len(),
{
    let v = read_be(s, 4)?;
    proof {
        lemma_spec_be_bound(old(s).data@, old(s).pos as int, 4);
    }
    Ok(v as u32)
}

/// Reads a 64-bit IEEE 754 bit pattern: always raw big-endian.
pub fn read_raw_u64(s: &mut HeapByteStream) -> (r: Result<u64>)
    ensures
        final(s).data@ == old(s).data@,
        r is Ok <==> old(s).pos + 8 <= old(s).data@.len(),
        r is Ok ==> r == Result::<u64>::Ok(spec_be(old(s).data@, old(s).pos as int, 8) as u64)
            && final(s).pos == old(s).pos + 8,
        r is Err ==> r == Result::<u64>::Err(Error::IoError),
        r is Ok ==> old(s).pos < final(s).pos <= final(s).data@.len(),
{
    read_be(s, 8)
}

} // verus!
