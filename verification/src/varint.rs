//! The variable-width ("compressed") integer encoding: little-endian
//! base-128.  Each byte contributes 7 bits, a set high bit means "more bytes
//! follow", up to 9 bytes for a 64-bit value; the 9th byte contributes its
//! full 8 bits, unshifted, to accommodate the top bits.

use vstd::prelude::*;

verus! {

/// Decoding state after `i` bytes have been consumed, with `acc` holding the
/// bits gathered so far.  Yields the decoded value and the position one past
/// the last byte consumed, or `None` on a short read.
pub open spec fn spec_varint_from(data: Seq<u8>, pos: int, i: u64, acc: u64) -> Option<(u64, int)>
    decreases 8 - i,
{
    if pos < 0 || pos >= data.len() {
        None
    } else {
        let b = data[pos];
        if i >= 8 {
            Some(((acc | ((b as u64) << 56u64)) as u64, pos + 1))
        } else {
            let acc2 = (acc | (((b & 0x7f) as u64) << ((7 * i) as u64))) as u64;
            if b & 0x80 == 0 {
                Some((acc2, pos + 1))
            } else {
                spec_varint_from(data, pos + 1, (i + 1) as u64, acc2)
            }
        }
    }
}

/// What decoding one compressed integer at `pos` yields: the value and the
/// position one past its last byte, or `None` on a short read.
pub open spec fn spec_varint(data: Seq<u8>, pos: int) -> Option<(u64, int)> {
    spec_varint_from(data, pos, 0, 0)
}

/// The canonical encoding of the bits of `v` still to be emitted, `i` byte
/// groups having been emitted already.
pub open spec fn spec_encode_from(v: u64, i: u64) -> Seq<u8>
    decreases 8 - i,
{
    if i >= 8 || v < 0x80 {
        seq![v as u8]
    } else {
        seq![((v & 0x7f) | 0x80) as u8] + spec_encode_from(v >> 7u64, (i + 1) as u64)
    }
}

/// The canonical variable-width encoding of `v`: between 1 and 9 bytes.
pub open spec fn spec_encode_varint(v: u64) -> Seq<u8> {
    spec_encode_from(v, 0)
}

pub proof fn lemma_encode_from_len(v: u64, i: u64)
    requires
        i <= 8,
    ensures
        1 <= spec_encode_from(v, i).len() <= 9 - i,
    decreases 8 - i,
{
    if !(i >= 8 || v < 0x80) {
        lemma_encode_from_len(v >> 7u64, (i + 1) as u64);
    }
}

proof fn lemma_round_trip_from(data: Seq<u8>, pos: int, i: u64, acc: u64, v: u64)
    requires
        0 <= pos,
        i <= 8,
        acc >> ((7 * i) as u64) == 0,
        1 <= i ==> v >> ((64 - 7 * i) as u64) == 0,
        pos + spec_encode_from(v, i).len() <= data.len(),
        data.subrange(pos, pos + spec_encode_from(v, i).len()) == spec_encode_from(v, i),
    ensures
        spec_varint_from(data, pos, i, acc) == Some(
            ((acc | (v << ((7 * i) as u64))) as u64, pos + spec_encode_from(v, i).len()),
        ),
    decreases 8 - i,
{
    let j = (7 * i) as u64;
    let enc = spec_encode_from(v, i);
    assert(data.subrange(pos, pos + enc.len())[0] == data[pos]);
    if i >= 8 {
        let b = data[pos];
        assert(b == v as u8);
        assert((acc | (((v as u8) as u64) << 56u64)) == (acc | (v << 56u64))) by (bit_vector)
            requires
                v >> 8u64 == 0,
        ;
    } else if v < 0x80 {
        let b = data[pos];
        assert(b == v as u8);
        assert((v as u8) & 0x80 == 0 && (acc | ((((v as u8) & 0x7f) as u64) << j)) == (acc | (v
            << j))) by (bit_vector)
            requires
                v < 0x80,
                j <= 56,
        ;
    } else {
        let b = data[pos];
        assert(b == ((v & 0x7f) | 0x80) as u8);
        let acc2 = (acc | (((b & 0x7f) as u64) << j)) as u64;
        assert(b & 0x80 != 0 && acc2 == (acc | ((v & 0x7f) << j))) by (bit_vector)
            requires
                b == ((v & 0x7f) | 0x80) as u8,
                acc2 == (acc | (((b & 0x7f) as u64) << j)) as u64,
                j <= 49,
        ;
        let rest = spec_encode_from(v >> 7u64, (i + 1) as u64);
        assert(enc == seq![b] + rest);
        assert(data.subrange(pos + 1, pos + 1 + rest.len()) =~= rest) by {
            assert forall|k: int| 0 <= k < rest.len() implies data.subrange(
                pos + 1,
                pos + 1 + rest.len(),
            )[k] == rest[k] by {
                assert(data.subrange(pos, pos + enc.len())[k + 1] == rest[k]);
            }
        }
        assert(acc2 >> ((7 * (i + 1)) as u64) == 0) by (bit_vector)
            requires
                acc2 == (acc | ((v & 0x7f) << j)) as u64,
                acc >> j == 0,
                j == (7 * i) as u64,
                i <= 7,
        ;
        assert((v >> 7u64) >> ((64 - 7 * (i + 1)) as u64) == 0) by (bit_vector)
            requires
                i <= 7,
                1 <= i ==> v >> ((64 - 7 * i) as u64) == 0,
        ;
        lemma_round_trip_from(data, pos + 1, (i + 1) as u64, acc2, v >> 7u64);
        assert((acc2 | ((v >> 7u64) << ((7 * (i + 1)) as u64))) == (acc | (v << j)))
            by (bit_vector)
            requires
                acc2 == (acc | ((v & 0x7f) << j)) as u64,
                j == (7 * i) as u64,
                i <= 7,
        ;
    }
}

/// Round trip: decoding the canonical encoding of any 64-bit value, wherever
/// it stands in a byte sequence, yields exactly that value back and consumes
/// exactly the encoding's bytes — so any sequence of encoded integers decodes
/// to the original values in order.
pub proof fn lemma_varint_round_trip(data: Seq<u8>, pos: int, v: u64)
    requires
        0 <= pos,
        pos + spec_encode_varint(v).len() <= data.len(),
        data.subrange(pos, pos + spec_encode_varint(v).len()) == spec_encode_varint(v),
    ensures
        spec_varint(data, pos) == Some((v, pos + spec_encode_varint(v).len())),
{
    assert(0u64 >> 0u64 == 0) by (bit_vector);
    lemma_round_trip_from(data, pos, 0, 0, v);
    assert((0u64 | (v << 0u64)) == v) by (bit_vector);
}

/// Emits the canonical variable-width encoding of `v`.
pub fn encode_varint(v: u64) -> (out: Vec<u8>)
    ensures
        out@ == spec_encode_varint(v),
        1 <= out@.len() <= 9,
{
    let mut out: Vec<u8> = Vec::new();
    let mut x: u64 = v;
    let mut i: u64 = 0;
    loop
        invariant
            i <= 8,
            spec_encode_varint(v) == out@ + spec_encode_from(x, i),
        decreases 8 - i,
    {
        if i >= 8 || x < 0x80 {
            out.push(x as u8);
            assert(out@ =~= spec_encode_varint(v));
            proof {
                lemma_encode_from_len(v, 0);
            }
            return out;
        }
        let b: u8 = ((x & 0x7f) | 0x80) as u8;
        proof {
            assert(spec_encode_from(x, i) == seq![b] + spec_encode_from(x >> 7u64, (i + 1) as u64));
            assert(out@ + spec_encode_from(x, i) =~= (out@ + seq![b]) + spec_encode_from(
                x >> 7u64,
                (i + 1) as u64,
            ));
        }
        out.push(b);
        x = x >> 7u64;
        i = i + 1;
    }
}

} // verus!
