//! Little-endian integers and NUL-terminated strings inside byte buffers.
use vstd::prelude::*;

verus! {

/// The four bytes of `x`, least significant first.
pub open spec fn le32(x: u32) -> Seq<u8> {
    seq![x as u8, (x >> 8) as u8, (x >> 16) as u8, (x >> 24) as u8]
}

/// The eight bytes of `x`, least significant first.
pub open spec fn le64(x: u64) -> Seq<u8> {
    seq![
        x as u8,
        (x >> 8) as u8,
        (x >> 16) as u8,
        (x >> 24) as u8,
        (x >> 32) as u8,
        (x >> 40) as u8,
        (x >> 48) as u8,
        (x >> 56) as u8,
    ]
}

/// The `u32` stored little-endian at `off` in `s`.
pub open spec fn get32(s: Seq<u8>, off: int) -> u32 {
    (s[off] as u32) | ((s[off + 1] as u32) << 8) | ((s[off + 2] as u32) << 16) | ((s[off + 3] as u32) << 24)
}

/// The `u64` stored little-endian at `off` in `s`.
pub open spec fn get64(s: Seq<u8>, off: int) -> u64 {
    (s[off] as u64) | ((s[off + 1] as u64) << 8) | ((s[off + 2] as u64) << 16) | ((s[off + 3] as u64) << 24)
        | ((s[off + 4] as u64) << 32) | ((s[off + 5] as u64) << 40) | ((s[off + 6] as u64) << 48)
        | ((s[off + 7] as u64) << 56)
}

/// Reading back the four bytes of `x` gives `x`.
pub proof fn lemma_le32_round_trip(x: u32)
    ensures
        get32(le32(x), 0) == x,
{
    let s = le32(x);
    let (b0, b1, b2, b3) = (s[0], s[1], s[2], s[3]);
    assert(b0 == x as u8 && b1 == (x >> 8) as u8 && b2 == (x >> 16) as u8 && b3 == (x >> 24) as u8);
    assert(((b0 as u32) | ((b1 as u32) << 8) | ((b2 as u32) << 16) | ((b3 as u32) << 24)) == x)
        by (bit_vector)
        requires
            b0 == x as u8,
            b1 == (x >> 8) as u8,
            b2 == (x >> 16) as u8,
            b3 == (x >> 24) as u8,
    ;
}

/// Reading back the eight bytes of `x` gives `x`.
pub proof fn lemma_le64_round_trip(x: u64)
    ensures
        get64(le64(x), 0) == x,
{
    let s = le64(x);
    let (b0, b1, b2, b3, b4, b5, b6, b7) = (s[0], s[1], s[2], s[3], s[4], s[5], s[6], s[7]);
    assert(b0 == x as u8 && b1 == (x >> 8) as u8 && b2 == (x >> 16) as u8 && b3 == (x >> 24) as u8);
    assert(b4 == (x >> 32) as u8 && b5 == (x >> 40) as u8 && b6 == (x >> 48) as u8 && b7 == (x >> 56) as u8);
    assert(((b0 as u64) | ((b1 as u64) << 8) | ((b2 as u64) << 16) | ((b3 as u64) << 24)
        | ((b4 as u64) << 32) | ((b5 as u64) << 40) | ((b6 as u64) << 48) | ((b7 as u64) << 56)) == x)
        by (bit_vector)
        requires
            b0 == x as u8,
            b1 == (x >> 8) as u8,
            b2 == (x >> 16) as u8,
            b3 == (x >> 24) as u8,
            b4 == (x >> 32) as u8,
            b5 == (x >> 40) as u8,
            b6 == (x >> 48) as u8,
            b7 == (x >> 56) as u8,
    ;
}

/// Reading `x` back from any place where its bytes were laid down.
pub proof fn lemma_get64_at(pre: Seq<u8>, x: u64, post: Seq<u8>)
    ensures
        get64(pre + le64(x) + post, pre.len() as int) == x,
{
    let s = pre + le64(x) + post;
    let n = pre.len() as int;
    assert(s.subrange(n, n + 8) =~= le64(x));
    lemma_le64_round_trip(x);
    assert(forall|i: int| 0 <= i < 8 ==> s[n + i] == le64(x)[i]);
}

/// Appends the four little-endian bytes of `x`.
pub fn put_u32(out: &mut Vec<u8>, x: u32)
    ensures
        final(out)@ == old(out)@ + le32(x),
{
    out.push(x as u8);
    out.push((x >> 8) as u8);
    out.push((x >> 16) as u8);
    out.push((x >> 24) as u8);
    assert(final(out)@ =~= old(out)@ + le32(x));
}

/// Appends the eight little-endian bytes of `x`.
pub fn put_u64(out: &mut Vec<u8>, x: u64)
    ensures
        final(out)@ == old(out)@ + le64(x),
{
    out.push(x as u8);
    out.push((x >> 8) as u8);
    out.push((x >> 16) as u8);
    out.push((x >> 24) as u8);
    out.push((x >> 32) as u8);
    out.push((x >> 40) as u8);
    out.push((x >> 48) as u8);
    out.push((x >> 56) as u8);
    assert(final(out)@ =~= old(out)@ + le64(x));
}

/// The `u32` stored little-endian at `off`.
pub fn get_u32(b: &[u8], off: usize) -> (r: u32)
    requires
        off + 4 <= b@.len(),
    ensures
        r == get32(b@, off as int),
{
    (b[off] as u32) | ((b[off + 1] as u32) << 8) | ((b[off + 2] as u32) << 16) | ((b[off + 3] as u32) << 24)
}

/// The `u64` stored little-endian at `off`.
pub fn get_u64(b: &[u8], off: usize) -> (r: u64)
    requires
        off + 8 <= b@.len(),
    ensures
        r == get64(b@, off as int),
{
    (b[off] as u64) | ((b[off + 1] as u64) << 8) | ((b[off + 2] as u64) << 16) | ((b[off + 3] as u64) << 24)
        | ((b[off + 4] as u64) << 32) | ((b[off + 5] as u64) << 40) | ((b[off + 6] as u64) << 48)
        | ((b[off + 7] as u64) << 56)
}

} // verus!

verus! {

/// `n` is where the C string at the start of `s` ends: no NUL before it,
/// and a NUL or the end of `s` at it.
pub open spec fn nul_at(s: Seq<u8>, n: int) -> bool {
    &&& 0 <= n <= s.len()
    &&& forall|j: int| 0 <= j < n ==> s[j] != 0
    &&& (n == s.len() || s[n] == 0)
}

/// The bytes of `s` before its first NUL (all of `s` if it has none).
pub open spec fn cstr(s: Seq<u8>) -> Seq<u8> {
    s.take(choose|n: int| nul_at(s, n))
}

/// There is one place where the C string ends, and `cstr` cuts there.
pub proof fn lemma_cstr(s: Seq<u8>, n: int)
    requires
        nul_at(s, n),
    ensures
        cstr(s) == s.take(n),
{
    let m = choose|m: int| nul_at(s, m);
    assert(nul_at(s, m));
    if m < n {
        assert(s[m] != 0);
    } else if n < m {
        assert(s[n] != 0);
    }
}

/// A string of bytes without NUL, with a NUL after it, reads back as itself.
pub proof fn lemma_cstr_of_terminated(b: Seq<u8>, post: Seq<u8>)
    requires
        !b.contains(0),
    ensures
        cstr(b + seq![0u8] + post) == b,
{
    let s = b + seq![0u8] + post;
    assert forall|j: int| 0 <= j < b.len() implies s[j] != 0 by {
        if s[j] == 0 {
            assert(b[j] == 0);
        }
    }
    assert(nul_at(s, b.len() as int));
    lemma_cstr(s, b.len() as int);
    assert(s.take(b.len() as int) =~= b);
}

/// Length of the C string that starts at `off`, looking at no more than
/// `max` bytes.
pub fn cstr_len(b: &[u8], off: usize, max: usize) -> (n: usize)
    requires
        off + max <= b@.len(),
    ensures
        nul_at(b@.subrange(off as int, off + max), n as int),
{
    let ghost w = b@.subrange(off as int, off + max);
    let len = b.len();
    let mut n: usize = 0;
    while n < max && b[off + n] != 0
        invariant
            len == b@.len(),
            off + max <= b@.len(),
            w == b@.subrange(off as int, off + max),
            n <= max,
            forall|j: int| 0 <= j < n ==> w[j] != 0,
        decreases max - n,
    {
        n = n + 1;
    }
    n
}

/// A copy of the `n` bytes at `off`.
pub fn copy_bytes(b: &[u8], off: usize, n: usize) -> (r: Vec<u8>)
    requires
        off + n <= b@.len(),
    ensures
        r@ == b@.subrange(off as int, off + n),
{
    let len = b.len();
    let mut r: Vec<u8> = Vec::new();
    let mut i: usize = 0;
    while i < n
        invariant
            len == b@.len(),
            off + n <= b@.len(),
            i <= n,
            r@ == b@.subrange(off as int, off + i),
        decreases n - i,
    {
        r.push(b[off + i]);
        i = i + 1;
        assert(r@ =~= b@.subrange(off as int, off + i));
    }
    r
}

/// Appends every byte of `src`.
pub fn put_bytes(out: &mut Vec<u8>, src: &[u8])
    ensures
        final(out)@ == old(out)@ + src@,
{
    let mut i: usize = 0;
    while i < src.len()
        invariant
            i <= src@.len(),
            out@ == old(out)@ + src@.take(i as int),
        decreases src@.len() - i,
    {
        out.push(src[i]);
        i = i + 1;
        assert(out@ =~= old(out)@ + src@.take(i as int));
    }
    assert(src@.take(src@.len() as int) =~= src@);
}

/// Appends `n` zero bytes.
pub fn put_zeros(out: &mut Vec<u8>, n: usize)
    ensures
        final(out)@ == old(out)@ + Seq::new(n as nat, |i: int| 0u8),
{
    let mut i: usize = 0;
    while i < n
        invariant
            i <= n,
            out@ == old(out)@ + Seq::new(i as nat, |k: int| 0u8),
        decreases n - i,
    {
        out.push(0);
        i = i + 1;
        assert(out@ =~= old(out)@ + Seq::new(i as nat, |k: int| 0u8));
    }
}

} // verus!
