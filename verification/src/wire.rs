//! Little-endian integer encodings used by every wire format of this crate,
//! with the byte-level spec functions the codec contracts are written over.

use vstd::prelude::*;

verus! {

/// Little-endian two-byte encoding of a `u16`.
pub open spec fn u16_le(v: u16) -> Seq<u8> {
    seq![(v & 0xff) as u8, ((v >> 8) & 0xff) as u8]
}

/// Little-endian four-byte encoding of a `u32`.
pub open spec fn u32_le(v: u32) -> Seq<u8> {
    seq![
        (v & 0xff) as u8,
        ((v >> 8) & 0xff) as u8,
        ((v >> 16) & 0xff) as u8,
        ((v >> 24) & 0xff) as u8,
    ]
}

/// Little-endian eight-byte encoding of a `u64`.
pub open spec fn u64_le(v: u64) -> Seq<u8> {
    seq![
        (v & 0xff) as u8,
        ((v >> 8) & 0xff) as u8,
        ((v >> 16) & 0xff) as u8,
        ((v >> 24) & 0xff) as u8,
        ((v >> 32) & 0xff) as u8,
        ((v >> 40) & 0xff) as u8,
        ((v >> 48) & 0xff) as u8,
        ((v >> 56) & 0xff) as u8,
    ]
}

/// The `u16` whose little-endian encoding is the two given bytes.
pub open spec fn le_u16(b0: u8, b1: u8) -> u16 {
    (b0 as u16 | ((b1 as u16) << 8)) as u16
}

/// The `u32` whose little-endian encoding is the four given bytes.
pub open spec fn le_u32(b0: u8, b1: u8, b2: u8, b3: u8) -> u32 {
    (b0 as u32 | ((b1 as u32) << 8) | ((b2 as u32) << 16) | ((b3 as u32) << 24)) as u32
}

/// The `u64` whose little-endian encoding is the eight given bytes.
pub open spec fn le_u64(b0: u8, b1: u8, b2: u8, b3: u8, b4: u8, b5: u8, b6: u8, b7: u8) -> u64 {
    (b0 as u64 | ((b1 as u64) << 8) | ((b2 as u64) << 16) | ((b3 as u64) << 24)
        | ((b4 as u64) << 32) | ((b5 as u64) << 40) | ((b6 as u64) << 48)
        | ((b7 as u64) << 56)) as u64
}

/// Reading back the two bytes of `u16_le` recovers the value, and encoding
/// the value read from any two bytes recovers the bytes.
pub proof fn lemma_u16_le_roundtrip(v: u16, b0: u8, b1: u8)
    ensures
        le_u16((v & 0xff) as u8, ((v >> 8) & 0xff) as u8) == v,
        u16_le(le_u16(b0, b1)) == seq![b0, b1],
{
    assert((((v & 0xff) as u8) as u16 | ((((v >> 8) & 0xff) as u8) as u16) << 8) as u16 == v)
        by (bit_vector);
    let r = le_u16(b0, b1);
    assert(((b0 as u16 | ((b1 as u16) << 8)) as u16 & 0xff) as u8 == b0) by (bit_vector);
    assert((((b0 as u16 | ((b1 as u16) << 8)) as u16 >> 8) & 0xff) as u8 == b1) by (bit_vector);
    assert(u16_le(r) =~= seq![b0, b1]);
}

/// The same round trip for four-byte values.
pub proof fn lemma_u32_le_roundtrip(v: u32, b0: u8, b1: u8, b2: u8, b3: u8)
    ensures
        le_u32(
            (v & 0xff) as u8,
            ((v >> 8) & 0xff) as u8,
            ((v >> 16) & 0xff) as u8,
            ((v >> 24) & 0xff) as u8,
        ) == v,
        u32_le(le_u32(b0, b1, b2, b3)) == seq![b0, b1, b2, b3],
{
    assert((((v & 0xff) as u8) as u32 | ((((v >> 8) & 0xff) as u8) as u32) << 8
        | ((((v >> 16) & 0xff) as u8) as u32) << 16
        | ((((v >> 24) & 0xff) as u8) as u32) << 24) as u32 == v) by (bit_vector);
    let r = (b0 as u32 | ((b1 as u32) << 8) | ((b2 as u32) << 16) | ((b3 as u32) << 24)) as u32;
    assert({
        &&& (r & 0xff) as u8 == b0
        &&& ((r >> 8) & 0xff) as u8 == b1
        &&& ((r >> 16) & 0xff) as u8 == b2
        &&& ((r >> 24) & 0xff) as u8 == b3
    }) by (bit_vector)
        requires
            r == (b0 as u32 | ((b1 as u32) << 8) | ((b2 as u32) << 16) | ((b3 as u32) << 24)) as u32,
    ;
    assert(u32_le(le_u32(b0, b1, b2, b3)) =~= seq![b0, b1, b2, b3]);
}

/// The same round trip for eight-byte values.
pub proof fn lemma_u64_le_roundtrip(v: u64, b0: u8, b1: u8, b2: u8, b3: u8, b4: u8, b5: u8, b6: u8, b7: u8)
    ensures
        le_u64(
            (v & 0xff) as u8,
            ((v >> 8) & 0xff) as u8,
            ((v >> 16) & 0xff) as u8,
            ((v >> 24) & 0xff) as u8,
            ((v >> 32) & 0xff) as u8,
            ((v >> 40) & 0xff) as u8,
            ((v >> 48) & 0xff) as u8,
            ((v >> 56) & 0xff) as u8,
        ) == v,
        u64_le(le_u64(b0, b1, b2, b3, b4, b5, b6, b7)) == seq![b0, b1, b2, b3, b4, b5, b6, b7],
{
    assert((((v & 0xff) as u8) as u64 | ((((v >> 8) & 0xff) as u8) as u64) << 8
        | ((((v >> 16) & 0xff) as u8) as u64) << 16
        | ((((v >> 24) & 0xff) as u8) as u64) << 24
        | ((((v >> 32) & 0xff) as u8) as u64) << 32
        | ((((v >> 40) & 0xff) as u8) as u64) << 40
        | ((((v >> 48) & 0xff) as u8) as u64) << 48
        | ((((v >> 56) & 0xff) as u8) as u64) << 56) as u64 == v) by (bit_vector);
    let r = (b0 as u64 | ((b1 as u64) << 8) | ((b2 as u64) << 16) | ((b3 as u64) << 24)
        | ((b4 as u64) << 32) | ((b5 as u64) << 40) | ((b6 as u64) << 48)
        | ((b7 as u64) << 56)) as u64;
    assert({
        &&& (r & 0xff) as u8 == b0
        &&& ((r >> 8) & 0xff) as u8 == b1
        &&& ((r >> 16) & 0xff) as u8 == b2
        &&& ((r >> 24) & 0xff) as u8 == b3
        &&& ((r >> 32) & 0xff) as u8 == b4
        &&& ((r >> 40) & 0xff) as u8 == b5
        &&& ((r >> 48) & 0xff) as u8 == b6
        &&& ((r >> 56) & 0xff) as u8 == b7
    }) by (bit_vector)
        requires
            r == (b0 as u64 | ((b1 as u64) << 8) | ((b2 as u64) << 16) | ((b3 as u64) << 24)
                | ((b4 as u64) << 32) | ((b5 as u64) << 40) | ((b6 as u64) << 48)
                | ((b7 as u64) << 56)) as u64,
    ;
    assert(u64_le(le_u64(b0, b1, b2, b3, b4, b5, b6, b7)) =~= seq![b0, b1, b2, b3, b4, b5, b6, b7]);
}

/// Appends the one-byte value.
pub fn push_u8(out: &mut Vec<u8>, v: u8)
    ensures
        final(out)@ == old(out)@ + seq![v],
{
    out.push(v);
}

/// Appends the little-endian encoding of `v`.
pub fn push_u16_le(out: &mut Vec<u8>, v: u16)
    ensures
        final(out)@ == old(out)@ + u16_le(v),
{
    out.push((v & 0xff) as u8);
    out.push(((v >> 8) & 0xff) as u8);
    assert(out@ =~= old(out)@ + u16_le(v));
}

/// Appends the little-endian encoding of `v`.
pub fn push_u32_le(out: &mut Vec<u8>, v: u32)
    ensures
        final(out)@ == old(out)@ + u32_le(v),
{
    out.push((v & 0xff) as u8);
    out.push(((v >> 8) & 0xff) as u8);
    out.push(((v >> 16) & 0xff) as u8);
    out.push(((v >> 24) & 0xff) as u8);
    assert(out@ =~= old(out)@ + u32_le(v));
}

/// Appends the little-endian encoding of `v`.
pub fn push_u64_le(out: &mut Vec<u8>, v: u64)
    ensures
        final(out)@ == old(out)@ + u64_le(v),
{
    out.push((v & 0xff) as u8);
    out.push(((v >> 8) & 0xff) as u8);
    out.push(((v >> 16) & 0xff) as u8);
    out.push(((v >> 24) & 0xff) as u8);
    out.push(((v >> 32) & 0xff) as u8);
    out.push(((v >> 40) & 0xff) as u8);
    out.push(((v >> 48) & 0xff) as u8);
    out.push(((v >> 56) & 0xff) as u8);
    assert(out@ =~= old(out)@ + u64_le(v));
}

/// Appends every byte of `bytes`.
pub fn push_bytes(out: &mut Vec<u8>, bytes: &Vec<u8>)
    ensures
        final(out)@ == old(out)@ + bytes@,
{
    let mut i: usize = 0;
    while i < bytes.len()
        invariant
            i <= bytes@.len(),
            out@ == old(out)@ + bytes@.subrange(0, i as int),
        decreases bytes@.len() - i,
    {
        out.push(bytes[i]);
        i = i + 1;
        assert(out@ =~= old(out)@ + bytes@.subrange(0, i as int));
    }
    assert(bytes@.subrange(0, bytes@.len() as int) =~= bytes@);
}

/// Reads the two bytes at `i` as a little-endian `u16`.
pub fn read_u16_le(b: &[u8], i: usize) -> (r: u16)
    requires
        i + 2 <= b@.len(),
    ensures
        r == le_u16(b@[i as int], b@[i as int + 1]),
        b@.subrange(i as int, i as int + 2) == u16_le(r),
{
    let r = b[i] as u16 | ((b[i + 1] as u16) << 8);
    proof {
        lemma_u16_le_roundtrip(r, b@[i as int], b@[i as int + 1]);
        assert(b@.subrange(i as int, i as int + 2) =~= seq![b@[i as int], b@[i as int + 1]]);
    }
    r
}

/// Reads the four bytes at `i` as a little-endian `u32`.
pub fn read_u32_le(b: &[u8], i: usize) -> (r: u32)
    requires
        i + 4 <= b@.len(),
    ensures
        r == le_u32(b@[i as int], b@[i as int + 1], b@[i as int + 2], b@[i as int + 3]),
        b@.subrange(i as int, i as int + 4) == u32_le(r),
{
    let r = b[i] as u32 | ((b[i + 1] as u32) << 8) | ((b[i + 2] as u32) << 16)
        | ((b[i + 3] as u32) << 24);
    proof {
        lemma_u32_le_roundtrip(r, b@[i as int], b@[i as int + 1], b@[i as int + 2], b@[i as int + 3]);
        assert(b@.subrange(i as int, i as int + 4) =~= seq![
            b@[i as int], b@[i as int + 1], b@[i as int + 2], b@[i as int + 3],
        ]);
    }
    r
}

/// Reads the eight bytes at `i` as a little-endian `u64`.
pub fn read_u64_le(b: &[u8], i: usize) -> (r: u64)
    requires
        i + 8 <= b@.len(),
    ensures
        r == le_u64(
            b@[i as int], b@[i as int + 1], b@[i as int + 2], b@[i as int + 3],
            b@[i as int + 4], b@[i as int + 5], b@[i as int + 6], b@[i as int + 7],
        ),
        b@.subrange(i as int, i as int + 8) == u64_le(r),
{
    let r = b[i] as u64 | ((b[i + 1] as u64) << 8) | ((b[i + 2] as u64) << 16)
        | ((b[i + 3] as u64) << 24) | ((b[i + 4] as u64) << 32) | ((b[i + 5] as u64) << 40)
        | ((b[i + 6] as u64) << 48) | ((b[i + 7] as u64) << 56);
    proof {
        lemma_u64_le_roundtrip(
            r,
            b@[i as int], b@[i as int + 1], b@[i as int + 2], b@[i as int + 3],
            b@[i as int + 4], b@[i as int + 5], b@[i as int + 6], b@[i as int + 7],
        );
        assert(b@.subrange(i as int, i as int + 8) =~= seq![
            b@[i as int], b@[i as int + 1], b@[i as int + 2], b@[i as int + 3],
            b@[i as int + 4], b@[i as int + 5], b@[i as int + 6], b@[i as int + 7],
        ]);
    }
    r
}

/// Copies `n` bytes starting at `i` into a fresh vector.
pub fn read_bytes(b: &[u8], i: usize, n: usize) -> (r: Vec<u8>)
    requires
        i + n <= b@.len(),
    ensures
        r@ == b@.subrange(i as int, i as int + n as int),
{
    let blen: usize = b.len();
    let mut r: Vec<u8> = Vec::new();
    let mut j: usize = 0;
    while j < n
        invariant
            j <= n,
            i + n <= blen,
            blen == b@.len(),
            r@ == b@.subrange(i as int, i as int + j as int),
        decreases n - j,
    {
        r.push(b[i + j]);
        j = j + 1;
        assert(r@ =~= b@.subrange(i as int, i as int + j as int));
    }
    r
}

} // verus!
