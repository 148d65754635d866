//! Little-endian integers and NUL-terminated fields.
use vstd::prelude::*;

verus! {

/// The value of four bytes read as a little-endian `u32`.
pub open spec fn le_u32(s: Seq<u8>) -> u32 {
    (s[0] as int + s[1] as int * 0x100 + s[2] as int * 0x10000 + s[3] as int * 0x1000000) as u32
}

/// The four little-endian bytes of `v`.
pub open spec fn le_bytes(v: u32) -> Seq<u8> {
    seq![
        (v % 0x100) as u8,
        ((v / 0x100) % 0x100) as u8,
        ((v / 0x10000) % 0x100) as u8,
        ((v / 0x1000000) % 0x100) as u8,
    ]
}

/// The `u32` stored little-endian at `off` in `s`.
pub open spec fn u32_at(s: Seq<u8>, off: int) -> u32 {
    le_u32(s.subrange(off, off + 4))
}

/// Index of the first NUL byte of `s` at or after `i`, or `s.len()` if none.
pub open spec fn nul_from(s: Seq<u8>, i: int) -> int
    decreases s.len() - i,
{
    if i < 0 || i >= s.len() {
        s.len() as int
    } else if s[i] == 0 {
        i
    } else {
        nul_from(s, i + 1)
    }
}

/// The text of a fixed-width field: the bytes before its first NUL, or the
/// whole field when it holds none.
pub open spec fn field_text(s: Seq<u8>) -> Seq<u8> {
    s.take(nul_from(s, 0))
}

/// Reads the little-endian `u32` at `off`.
pub fn get_u32_le(b: &[u8], off: usize) -> (r: u32)
    requires
        off + 4 <= b@.len(),
    ensures
        r == u32_at(b@, off as int),
{
    let r = b[off] as u32 + b[off + 1] as u32 * 0x100 + b[off + 2] as u32 * 0x10000 + b[off + 3] as u32
        * 0x1000000;
    assert(b@.subrange(off as int, off + 4)[3] == b[off + 3]);
    r
}

/// Appends the little-endian bytes of `v`.
pub fn put_u32_le(out: &mut Vec<u8>, v: u32)
    ensures
        final(out)@ == old(out)@ + le_bytes(v),
{
    out.push((v % 0x100) as u8);
    out.push(((v / 0x100) % 0x100) as u8);
    out.push(((v / 0x10000) % 0x100) as u8);
    out.push(((v / 0x1000000) % 0x100) as u8);
    assert(final(out)@ =~= old(out)@ + le_bytes(v));
}

/// Reading back the bytes of `v` gives `v`.
pub proof fn lemma_le_round_trip(v: u32)
    ensures
        le_u32(le_bytes(v)) == v,
{
    let s = le_bytes(v);
    assert(s[0] as int + s[1] as int * 0x100 + s[2] as int * 0x10000 + s[3] as int * 0x1000000
        == v as int) by (nonlinear_arith)
        requires
            s[0] == (v % 0x100) as u8,
            s[1] == ((v / 0x100) % 0x100) as u8,
            s[2] == ((v / 0x10000) % 0x100) as u8,
            s[3] == ((v / 0x1000000) % 0x100) as u8,
    ;
}

/// Appends the bytes of `src` to `out`.
pub fn push_all(out: &mut Vec<u8>, src: &[u8])
    ensures
        final(out)@ == old(out)@ + src@,
{
    let mut i: usize = 0;
    while i < src.len()
        invariant
            i <= src@.len(),
            out@ == old(out)@ + src@.take(i as int),
        decreases src@.len() - i,
    {
        out.push(src[i]);
        i += 1;
        assert(out@ =~= old(out)@ + src@.take(i as int));
    }
    assert(src@.take(i as int) =~= src@);
}

/// Copies `b[off..off + len]` into a new vector.
pub fn copy_range(b: &[u8], off: usize, len: usize) -> (r: Vec<u8>)
    requires
        off + len <= b@.len(),
    ensures
        r@ == b@.subrange(off as int, off + len),
{
    let mut r: Vec<u8> = Vec::with_capacity(len);
    let n = b.len();
    let mut i: usize = 0;
    while i < len
        invariant
            i <= len,
            off + len <= b@.len() == n,
            r@ == b@.subrange(off as int, off + i),
        decreases len - i,
    {
        r.push(b[off + i]);
        i += 1;
        assert(r@ =~= b@.subrange(off as int, off + i));
    }
    r
}

/// The text of a fixed-width field (see [`field_text`]).
pub fn field_to_text(field: &[u8]) -> (r: Vec<u8>)
    ensures
        r@ == field_text(field@),
{
    let mut i: usize = 0;
    while i < field.len() && field[i] != 0
        invariant
            i <= field@.len(),
            nul_from(field@, 0) == nul_from(field@, i as int),
        decreases field@.len() - i,
    {
        i += 1;
    }
    copy_range(field, 0, i)
}

} // verus!
