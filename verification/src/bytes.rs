//! Little-endian integer fields in byte buffers.
use vstd::prelude::*;

verus! {

/// The unsigned value of the four little-endian bytes at `off`.
pub open spec fn le_u32(b: Seq<u8>, off: int) -> int {
    b[off] + 256 * b[off + 1] + 65536 * b[off + 2] + 16777216 * b[off + 3]
}

/// The unsigned value of the eight little-endian bytes at `off`.
pub open spec fn le_u64(b: Seq<u8>, off: int) -> int {
    le_u32(b, off) + 4294967296 * le_u32(b, off + 4)
}

/// The little-endian encoding of a `u16`.
pub open spec fn u16_le_bytes(v: u16) -> Seq<u8> {
    seq![(v % 256) as u8, (v / 256) as u8]
}

/// The little-endian encoding of a `u32`.
pub open spec fn u32_le_bytes(v: u32) -> Seq<u8> {
    seq![
        (v % 256) as u8,
        ((v / 256) % 256) as u8,
        ((v / 65536) % 256) as u8,
        (v / 16777216) as u8,
    ]
}

/// The little-endian encoding of a `u64`.
pub open spec fn u64_le_bytes(v: u64) -> Seq<u8> {
    u32_le_bytes((v % 4294967296) as u32) + u32_le_bytes((v / 4294967296) as u32)
}

/// `data` with `bytes` written over it starting at `off`.
pub open spec fn splice(data: Seq<u8>, off: int, bytes: Seq<u8>) -> Seq<u8> {
    data.subrange(0, off) + bytes + data.subrange(off + bytes.len(), data.len() as int)
}

/// Encoding then decoding a `u32` gives the value back.
pub proof fn lemma_u32_le_roundtrip(v: u32)
    ensures
        u32_le_bytes(v).len() == 4,
        le_u32(u32_le_bytes(v), 0) == v,
{
}

/// Encoding then decoding a `u64` gives the value back.
pub proof fn lemma_u64_le_roundtrip(v: u64)
    ensures
        u64_le_bytes(v).len() == 8,
        le_u64(u64_le_bytes(v), 0) == v,
{
    let lo = (v % 4294967296) as u32;
    let hi = (v / 4294967296) as u32;
    lemma_u32_le_roundtrip(lo);
    lemma_u32_le_roundtrip(hi);
    let s = u64_le_bytes(v);
    assert(s.subrange(0, 4) =~= u32_le_bytes(lo));
    assert(s.subrange(4, 8) =~= u32_le_bytes(hi));
    assert(le_u32(s, 0) == le_u32(u32_le_bytes(lo), 0));
    assert(le_u32(s, 4) == le_u32(u32_le_bytes(hi), 0));
}

/// Four bytes that encode `v`, wherever they stand, read back as `v`.
pub proof fn lemma_le_u32_at(b: Seq<u8>, off: int, v: u32)
    requires
        0 <= off,
        off + 4 <= b.len(),
        b.subrange(off, off + 4) == u32_le_bytes(v),
    ensures
        le_u32(b, off) == v,
{
    let s = b.subrange(off, off + 4);
    lemma_u32_le_roundtrip(v);
    assert(s[0] == b[off] && s[1] == b[off + 1] && s[2] == b[off + 2] && s[3] == b[off + 3]);
}

/// Eight bytes that encode `v`, wherever they stand, read back as `v`.
pub proof fn lemma_le_u64_at(b: Seq<u8>, off: int, v: u64)
    requires
        0 <= off,
        off + 8 <= b.len(),
        b.subrange(off, off + 8) == u64_le_bytes(v),
    ensures
        le_u64(b, off) == v,
{
    let lo = (v % 4294967296) as u32;
    let hi = (v / 4294967296) as u32;
    assert(b.subrange(off, off + 4) =~= b.subrange(off, off + 8).subrange(0, 4));
    assert(b.subrange(off, off + 8).subrange(0, 4) =~= u32_le_bytes(lo));
    assert(b.subrange(off + 4, off + 8) =~= b.subrange(off, off + 8).subrange(4, 8));
    assert(b.subrange(off, off + 8).subrange(4, 8) =~= u32_le_bytes(hi));
    lemma_le_u32_at(b, off, lo);
    lemma_le_u32_at(b, off + 4, hi);
    lemma_u64_le_roundtrip(v);
    lemma_le_u32_at(u64_le_bytes(v), 0, lo);
    lemma_le_u32_at(u64_le_bytes(v), 4, hi);
}

/// Reads the little-endian `u32` at `off`.
pub fn read_u32_le(data: &[u8], off: usize) -> (r: u32)
    requires
        off + 4 <= data@.len(),
    ensures
        r as int == le_u32(data@, off as int),
{
    data[off] as u32 + (data[off + 1] as u32) * 256 + (data[off + 2] as u32) * 65536 + (
    data[off + 3] as u32) * 16777216
}

/// Reads the little-endian `u64` at `off`.
pub fn read_u64_le(data: &[u8], off: usize) -> (r: u64)
    requires
        off + 8 <= data@.len(),
    ensures
        r as int == le_u64(data@, off as int),
{
    let _n = data.len();
    let lo = read_u32_le(data, off);
    let hi = read_u32_le(data, off + 4);
    lo as u64 + (hi as u64) * 4294967296
}

/// Appends the little-endian encoding of `value`.
pub fn push_u16(data: &mut Vec<u8>, value: u16)
    ensures
        final(data)@ == old(data)@ + u16_le_bytes(value),
{
    data.push((value % 256) as u8);
    data.push((value / 256) as u8);
    assert(final(data)@ =~= old(data)@ + u16_le_bytes(value));
}

/// Appends the little-endian encoding of `value`.
pub fn push_u32(data: &mut Vec<u8>, value: u32)
    ensures
        final(data)@ == old(data)@ + u32_le_bytes(value),
{
    data.push((value % 256) as u8);
    data.push(((value / 256) % 256) as u8);
    data.push(((value / 65536) % 256) as u8);
    data.push((value / 16777216) as u8);
    assert(final(data)@ =~= old(data)@ + u32_le_bytes(value));
}

/// Appends the little-endian encoding of `value`.
pub fn push_u64(data: &mut Vec<u8>, value: u64)
    ensures
        final(data)@ == old(data)@ + u64_le_bytes(value),
{
    push_u32(data, (value % 4294967296) as u32);
    push_u32(data, (value / 4294967296) as u32);
    assert(final(data)@ =~= old(data)@ + u64_le_bytes(value));
}

/// Overwrites `bytes.len()` bytes at `off` with `bytes`.
pub fn write_bytes_at(data: &mut [u8], off: usize, bytes: &[u8])
    requires
        off + bytes@.len() <= old(data)@.len(),
    ensures
        final(data)@ == splice(old(data)@, off as int, bytes@),
{
    let n = data.len();
    let mut i: usize = 0;
    while i < bytes.len()
        invariant
            n == data@.len(),
            off + bytes@.len() <= data@.len(),
            data@.len() == old(data)@.len(),
            0 <= i <= bytes@.len(),
            forall|j: int| 0 <= j < off ==> data@[j] == old(data)@[j],
            forall|j: int| off + bytes@.len() <= j < data@.len() ==> data@[j] == old(data)@[j],
            forall|j: int| off <= j < off + i ==> data@[j] == bytes@[j - off],
            forall|j: int| off + i <= j < off + bytes@.len() ==> data@[j] == old(data)@[j],
        decreases bytes@.len() - i,
    {
        data[off + i] = bytes[i];
        i = i + 1;
    }
    assert(data@ =~= splice(old(data)@, off as int, bytes@));
}

/// Overwrites the four bytes at `off` with the little-endian encoding of `value`.
pub fn write_u32_at(data: &mut [u8], off: usize, value: u32)
    requires
        off + 4 <= old(data)@.len(),
    ensures
        final(data)@ == splice(old(data)@, off as int, u32_le_bytes(value)),
{
    let bytes = [
        (value % 256) as u8,
        ((value / 256) % 256) as u8,
        ((value / 65536) % 256) as u8,
        (value / 16777216) as u8,
    ];
    assert(bytes@ =~= u32_le_bytes(value));
    write_bytes_at(data, off, bytes.as_slice());
}

/// Overwrites the eight bytes at `off` with the little-endian encoding of `value`.
pub fn write_u64_at(data: &mut [u8], off: usize, value: u64)
    requires
        off + 8 <= old(data)@.len(),
    ensures
        final(data)@ == splice(old(data)@, off as int, u64_le_bytes(value)),
{
    let lo = (value % 4294967296) as u32;
    let hi = (value / 4294967296) as u32;
    let bytes = [
        (lo % 256) as u8,
        ((lo / 256) % 256) as u8,
        ((lo / 65536) % 256) as u8,
        (lo / 16777216) as u8,
        (hi % 256) as u8,
        ((hi / 256) % 256) as u8,
        ((hi / 65536) % 256) as u8,
        (hi / 16777216) as u8,
    ];
    assert(bytes@ =~= u64_le_bytes(value));
    write_bytes_at(data, off, bytes.as_slice());
}

/// `k` zero bytes.
pub open spec fn zeros(k: int) -> Seq<u8> {
    Seq::new(k as nat, |i: int| 0u8)
}

/// Overwrites `out` with `bytes` followed by zeros.
pub fn copy_zero_padded(out: &mut [u8], bytes: &[u8])
    requires
        bytes@.len() <= old(out)@.len(),
    ensures
        final(out)@ == bytes@ + zeros(old(out)@.len() - bytes@.len()),
{
    let n = out.len();
    let mut i: usize = 0;
    while i < n
        invariant
            n == out@.len(),
            n == old(out)@.len(),
            bytes@.len() <= n,
            0 <= i <= n,
            forall|j: int| 0 <= j < i ==> #[trigger] out@[j] == if j < bytes@.len() {
                bytes@[j]
            } else {
                0u8
            },
        decreases n - i,
    {
        if i < bytes.len() {
            out[i] = bytes[i];
        } else {
            out[i] = 0;
        }
        i = i + 1;
    }
    assert(out@ =~= bytes@ + zeros(n - bytes@.len()));
}


/// The smallest multiple of `alignment` that is at least `len`.
pub open spec fn round_up(len: int, alignment: int) -> int {
    if len % alignment == 0 {
        len
    } else {
        len + (alignment - len % alignment)
    }
}

/// Pads `data` with zero bytes up to the next multiple of `alignment`.
pub fn align_u32(data: &mut Vec<u8>, alignment: usize)
    requires
        alignment > 0,
        round_up(old(data)@.len() as int, alignment as int) <= usize::MAX,
    ensures
        final(data)@.len() == round_up(old(data)@.len() as int, alignment as int),
        final(data)@.subrange(0, old(data)@.len() as int) == old(data)@,
        forall|i: int| old(data)@.len() <= i < final(data)@.len() ==> #[trigger] final(data)@[i] == 0u8,
{
    let rem = data.len() % alignment;
    if rem == 0 {
        assert(data@.subrange(0, data@.len() as int) =~= data@);
        return;
    }
    let target = data.len() + (alignment - rem);
    let ghost start = data@;
    while data.len() < target
        invariant
            start.len() <= data@.len() <= target,
            target == round_up(start.len() as int, alignment as int),
            data@.subrange(0, start.len() as int) == start,
            forall|i: int| start.len() <= i < data@.len() ==> #[trigger] data@[i] == 0u8,
        decreases target - data@.len(),
    {
        let ghost before = data@;
        data.push(0u8);
        assert(data@.subrange(0, start.len() as int) =~= before.subrange(0, start.len() as int));
    }
}

} // verus!

