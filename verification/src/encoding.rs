//! Little-endian encoding of integers, and in-place writes into byte images.
use vstd::prelude::*;

verus! {

/// The two bytes of `x`, least significant first.
pub open spec fn le16(x: u16) -> Seq<u8> {
    seq![(x & 0xff) as u8, ((x >> 8) & 0xff) as u8]
}

/// The four bytes of `x`, least significant first.
pub open spec fn le32(x: u32) -> Seq<u8> {
    seq![
        (x & 0xff) as u8,
        ((x >> 8) & 0xff) as u8,
        ((x >> 16) & 0xff) as u8,
        ((x >> 24) & 0xff) as u8,
    ]
}

/// The little-endian `u16` stored at `off` in `s`.
pub open spec fn read_le16(s: Seq<u8>, off: int) -> u16 {
    (s[off] as u16) | ((s[off + 1] as u16) << 8u16)
}

/// The little-endian `u32` stored at `off` in `s`.
pub open spec fn read_le32(s: Seq<u8>, off: int) -> u32 {
    (s[off] as u32) | ((s[off + 1] as u32) << 8u32) | ((s[off + 2] as u32) << 16u32) | ((s[off
        + 3] as u32) << 24u32)
}

/// `s` with the bytes from `off` on replaced by `b`; the length of `s` is kept.
pub open spec fn splice(s: Seq<u8>, off: int, b: Seq<u8>) -> Seq<u8> {
    Seq::new(s.len(), |i: int| if off <= i < off + b.len() { b[i - off] } else { s[i] })
}

/// Reading back a `u16` that was encoded with `le16` gives the same value.
pub proof fn lemma_read_le16(s: Seq<u8>, off: int, x: u16)
    requires
        0 <= off,
        off + 2 <= s.len(),
        s[off] == le16(x)[0],
        s[off + 1] == le16(x)[1],
    ensures
        read_le16(s, off) == x,
{
    let b0 = s[off];
    let b1 = s[off + 1];
    assert(b0 == (x & 0xff) as u8 && b1 == ((x >> 8) & 0xff) as u8 ==> (b0 as u16) | ((
    b1 as u16) << 8u16) == x) by (bit_vector);
}

/// Reading back a `u32` that was encoded with `le32` gives the same value.
pub proof fn lemma_read_le32(s: Seq<u8>, off: int, x: u32)
    requires
        0 <= off,
        off + 4 <= s.len(),
        s[off] == le32(x)[0],
        s[off + 1] == le32(x)[1],
        s[off + 2] == le32(x)[2],
        s[off + 3] == le32(x)[3],
    ensures
        read_le32(s, off) == x,
{
    let b0 = s[off];
    let b1 = s[off + 1];
    let b2 = s[off + 2];
    let b3 = s[off + 3];
    assert(b0 == (x & 0xff) as u8 && b1 == ((x >> 8) & 0xff) as u8 && b2 == ((x >> 16) & 0xff)
        as u8 && b3 == ((x >> 24) & 0xff) as u8 ==> (b0 as u32) | ((b1 as u32) << 8u32) | ((
    b2 as u32) << 16u32) | ((b3 as u32) << 24u32) == x) by (bit_vector);
}

/// Reading a `u32` where the four bytes of `le32(x)` stand gives `x`.
pub proof fn lemma_read_le32_at(s: Seq<u8>, off: int, x: u32)
    requires
        0 <= off,
        off + 4 <= s.len(),
        s.subrange(off, off + 4) == le32(x),
    ensures
        read_le32(s, off) == x,
{
    assert(s[off] == s.subrange(off, off + 4)[0]);
    assert(s[off + 1] == s.subrange(off, off + 4)[1]);
    assert(s[off + 2] == s.subrange(off, off + 4)[2]);
    assert(s[off + 3] == s.subrange(off, off + 4)[3]);
    lemma_read_le32(s, off, x);
}

/// Two writes side by side are one write of their concatenation.
pub proof fn lemma_splice_concat(s: Seq<u8>, off: int, a: Seq<u8>, b: Seq<u8>)
    ensures
        splice(splice(s, off, a), off + a.len(), b) == splice(s, off, a + b),
{
    assert(splice(splice(s, off, a), off + a.len(), b) =~= splice(s, off, a + b));
}

/// Appends the little-endian bytes of `x`.
pub fn push_u32(v: &mut Vec<u8>, x: u32)
    ensures
        final(v)@ == old(v)@ + le32(x),
{
    v.push((x & 0xff) as u8);
    v.push(((x >> 8) & 0xff) as u8);
    v.push(((x >> 16) & 0xff) as u8);
    v.push(((x >> 24) & 0xff) as u8);
    assert(v@ =~= old(v)@ + le32(x));
}

/// Writes `bytes` into `buf` at `off`.
pub fn put_bytes(buf: &mut Vec<u8>, off: usize, bytes: &[u8])
    requires
        off + bytes@.len() <= old(buf).len(),
    ensures
        final(buf)@ == splice(old(buf)@, off as int, bytes@),
{
    let n = bytes.len();
    let mut i: usize = 0;
    while i < n
        invariant
            i <= n,
            n == bytes@.len(),
            off + n <= buf.len(),
            buf@.len() == old(buf)@.len(),
            forall|j: int|
                0 <= j < buf@.len() ==> #[trigger] buf@[j] == (if off <= j < off + i {
                    bytes@[j - off]
                } else {
                    old(buf)@[j]
                }),
        decreases n - i,
    {
        let b = bytes[i];
        buf[off + i] = b;
        i = i + 1;
    }
    assert(buf@ =~= splice(old(buf)@, off as int, bytes@));
}

/// Writes the little-endian bytes of `x` into `buf` at `off`.
pub fn put_u16(buf: &mut Vec<u8>, off: usize, x: u16)
    requires
        off + 2 <= old(buf).len(),
    ensures
        final(buf)@ == splice(old(buf)@, off as int, le16(x)),
{
    let b0: u8 = (x & 0xff) as u8;
    let b1: u8 = ((x >> 8) & 0xff) as u8;
    let i1: usize = off + 1;
    buf[off] = b0;
    buf[i1] = b1;
    assert(buf@ =~= splice(old(buf)@, off as int, le16(x)));
}

} // verus!
