//! Byte-buffer helpers: reading and writing little-endian integers and
//! byte ranges inside a `Vec<u8>`, with exact statements of which bytes
//! change and which stay.

use vstd::prelude::*;
use vstd::arithmetic::div_mod::{lemma_div_denominator, lemma_fundamental_div_mod};
use vstd::pervasive::VecAdditionalExecFns;

verus! {

/// The `u32` that four bytes store little-endian.
pub open spec fn le32(s: Seq<u8>) -> u32
    recommends
        s.len() == 4,
{
    (s[0] as int + s[1] as int * 0x100 + s[2] as int * 0x1_0000 + s[3] as int * 0x100_0000) as u32
}

/// The four bytes that store a `u32` little-endian.
pub open spec fn le32_bytes(v: u32) -> Seq<u8> {
    seq![
        ((v as int) % 0x100) as u8,
        (((v as int) / 0x100) % 0x100) as u8,
        (((v as int) / 0x1_0000) % 0x100) as u8,
        (((v as int) / 0x100_0000) % 0x100) as u8,
    ]
}

/// Reading back the four bytes of a `u32` gives the value itself.
pub proof fn lemma_le32_roundtrip(v: u32)
    ensures
        le32(le32_bytes(v)) == v,
{
    let x = v as int;
    lemma_fundamental_div_mod(x, 0x100);
    lemma_fundamental_div_mod(x / 0x100, 0x100);
    lemma_fundamental_div_mod(x / 0x1_0000, 0x100);
    lemma_div_denominator(x, 0x100, 0x100);
    lemma_div_denominator(x, 0x1_0000, 0x100);
    assert(x / 0x100_0000 < 0x100) by {
        assert(x < 0x100_0000 * 0x100);
        lemma_div_is_bounded(x, 0x100_0000, 0x100);
    }
    assert(x / 0x100_0000 % 0x100 == x / 0x100_0000) by {
        lemma_small_mod_int(x / 0x100_0000, 0x100);
    }
}

/// A nonnegative value below `d * bound` divides by `d` to below `bound`.
proof fn lemma_div_is_bounded(x: int, d: int, bound: int)
    requires
        0 <= x,
        0 < d,
        0 < bound,
        x < d * bound,
    ensures
        x / d < bound,
{
    lemma_fundamental_div_mod(x, d);
    if x / d >= bound {
        assert(d * (x / d) >= d * bound) by (nonlinear_arith)
            requires
                0 < d,
                x / d >= bound,
        ;
    }
}

/// The remainder of a small nonnegative value is the value itself.
proof fn lemma_small_mod_int(x: int, m: int)
    requires
        0 <= x < m,
    ensures
        x % m == x,
{
    lemma_fundamental_div_mod(x, m);
    assert(x / m == 0) by {
        lemma_div_is_bounded(x, m, 1);
        vstd::arithmetic::div_mod::lemma_div_pos_is_pos(x, m);
    }
}

/// A buffer of `n` zero bytes.
pub fn zero_bytes(n: usize) -> (r: Vec<u8>)
    ensures
        r@.len() == n,
        forall|i: int| 0 <= i < n ==> r@[i] == 0u8,
{
    let r: Vec<u8> = vec![0u8; n];
    proof {
        assert forall|i: int| 0 <= i < n implies r@[i] == 0u8 by {
            assert(cloned(0u8, r@[i]));
        }
    }
    r
}

/// Read the little-endian `u32` stored at byte offset `off`.
pub fn read_u32_at(buf: &Vec<u8>, off: usize) -> (r: u32)
    requires
        off + 4 <= buf.len(),
    ensures
        r == le32(buf@.subrange(off as int, off as int + 4)),
{
    let b0 = buf[off] as u32;
    let b1 = buf[off + 1] as u32;
    let b2 = buf[off + 2] as u32;
    let b3 = buf[off + 3] as u32;
    b0 + b1 * 0x100 + b2 * 0x1_0000 + b3 * 0x100_0000
}

/// Overwrite the four bytes at offset `off` with the little-endian form
/// of `v`; every other byte keeps its value.
pub fn write_u32_at(buf: &mut Vec<u8>, off: usize, v: u32)
    requires
        off + 4 <= old(buf).len(),
    ensures
        final(buf)@.len() == old(buf)@.len(),
        final(buf)@.subrange(off as int, off as int + 4) =~= le32_bytes(v),
        le32(final(buf)@.subrange(off as int, off as int + 4)) == v,
        forall|i: int|
            0 <= i < final(buf)@.len() && !(off <= i < off + 4) ==> #[trigger] final(buf)@[i]
                == old(buf)@[i],
{
    buf.set(off, (v % 0x100) as u8);
    buf.set(off + 1, ((v / 0x100) % 0x100) as u8);
    buf.set(off + 2, ((v / 0x1_0000) % 0x100) as u8);
    buf.set(off + 3, ((v / 0x100_0000) % 0x100) as u8);
    proof {
        lemma_le32_roundtrip(v);
        assert(buf@.subrange(off as int, off as int + 4) =~= le32_bytes(v));
    }
}

/// Copy all of `src` into `buf` at offset `off`; every byte outside the
/// written range keeps its value.
pub fn write_bytes_at(buf: &mut Vec<u8>, off: usize, src: &Vec<u8>)
    requires
        off + src.len() <= old(buf).len(),
    ensures
        final(buf)@.len() == old(buf)@.len(),
        final(buf)@.subrange(off as int, off + src@.len() as int) =~= src@,
        forall|i: int|
            0 <= i < final(buf)@.len() && !(off <= i < off + src@.len())
                ==> #[trigger] final(buf)@[i] == old(buf)@[i],
{
    let n = src.len();
    let mut j: usize = 0;
    while j < n
        invariant
            n == src@.len(),
            off + n <= buf.len(),
            buf@.len() == old(buf)@.len(),
            j <= n,
            forall|k: int| 0 <= k < j ==> buf@[off + k] == src@[k],
            forall|i: int| 0 <= i < buf@.len() && !(off <= i < off + n) ==> buf@[i] == old(
                buf,
            )@[i],
        decreases n - j,
    {
        buf.set(off + j, src[j]);
        j = j + 1;
    }
}

/// Copy the `len` bytes starting at `src_off` onto the range starting at
/// `dst_off` of the same buffer.  The two ranges must not overlap; every
/// byte outside the destination range keeps its value.
pub fn copy_within(buf: &mut Vec<u8>, src_off: usize, dst_off: usize, len: usize)
    requires
        src_off + len <= old(buf).len(),
        dst_off + len <= old(buf).len(),
        src_off + len <= dst_off || dst_off + len <= src_off,
    ensures
        final(buf)@.len() == old(buf)@.len(),
        final(buf)@.subrange(dst_off as int, dst_off + len as int) =~= old(buf)@.subrange(
            src_off as int,
            src_off + len as int,
        ),
        forall|i: int|
            0 <= i < final(buf)@.len() && !(dst_off <= i < dst_off + len)
                ==> #[trigger] final(buf)@[i] == old(buf)@[i],
{
    let mut j: usize = 0;
    while j < len
        invariant
            src_off + len <= buf.len(),
            dst_off + len <= buf.len(),
            src_off + len <= dst_off || dst_off + len <= src_off,
            buf@.len() == old(buf)@.len(),
            j <= len,
            forall|k: int| 0 <= k < j ==> #[trigger] buf@[dst_off + k] == old(buf)@[src_off + k],
            forall|i: int| 0 <= i < buf@.len() && !(dst_off <= i < dst_off + len) ==> buf@[i]
                == old(buf)@[i],
        decreases len - j,
    {
        let b = buf[src_off + j];
        buf.set(dst_off + j, b);
        j = j + 1;
    }
    proof {
        let dst = buf@.subrange(dst_off as int, dst_off + len as int);
        let src = old(buf)@.subrange(src_off as int, src_off + len as int);
        assert forall|k: int| 0 <= k < len implies dst[k] == src[k] by {
            assert(buf@[dst_off + k] == old(buf)@[src_off + k]);
        }
    }
}

/// Copy the bytes at `src_off .. src_off + len` of `buf` into a fresh buffer.
pub fn read_bytes_at(buf: &Vec<u8>, off: usize, len: usize) -> (r: Vec<u8>)
    requires
        off + len <= buf.len(),
    ensures
        r@ =~= buf@.subrange(off as int, off + len as int),
{
    let mut r: Vec<u8> = Vec::new();
    let mut j: usize = 0;
    while j < len
        invariant
            off + len <= buf.len(),
            j <= len,
            r@.len() == j,
            forall|k: int| 0 <= k < j ==> r@[k] == buf@[off + k],
        decreases len - j,
    {
        r.push(buf[off + j]);
        j = j + 1;
    }
    r
}

} // verus!
