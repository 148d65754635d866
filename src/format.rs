//! Signatures and the choice between the two container formats.
use vstd::prelude::*;

use crate::bytes::copy_range;
use crate::error::UnpackError;

verus! {

/// Signature of the inner update image.
pub const RKAF_SIGNATURE: [u8; 4] = [0x52, 0x4b, 0x41, 0x46];

/// Signature of the outer firmware wrapper.
pub const RKFW_SIGNATURE: [u8; 4] = [0x52, 0x4b, 0x46, 0x57];

/// Signature of a firmware package.
pub const RKFP_SIGNATURE: [u8; 4] = [0x52, 0x4b, 0x46, 0x50];

/// The bytes of `RKAF`.
pub open spec fn rkaf_tag() -> Seq<u8> {
    seq![0x52u8, 0x4bu8, 0x41u8, 0x46u8]
}

/// The bytes of `RKFW`.
pub open spec fn rkfw_tag() -> Seq<u8> {
    seq![0x52u8, 0x4bu8, 0x46u8, 0x57u8]
}

/// `s` holds `tag` from offset `off` on.
pub open spec fn tag_at_spec(s: Seq<u8>, off: int, tag: Seq<u8>) -> bool {
    0 <= off && off + 4 <= s.len() && s.subrange(off, off + 4) == tag
}

/// The leading bytes of `s` that a signature occupies: at most four.
pub open spec fn leading(s: Seq<u8>) -> Seq<u8> {
    if s.len() < 4 {
        s
    } else {
        s.take(4)
    }
}

/// The two container formats.
#[derive(Copy, Clone, Debug, PartialEq, Eq, Structural)]
pub enum ImageFormat {
    /// The outer wrapper, signature `RKFW`.
    Firmware,
    /// The inner update image, signature `RKAF`.
    Update,
}

/// Tests whether `b` holds the four bytes `t0..t3` from `off` on.
pub fn tag_at(b: &[u8], off: usize, t0: u8, t1: u8, t2: u8, t3: u8) -> (r: bool)
    ensures
        r == tag_at_spec(b@, off as int, seq![t0, t1, t2, t3]),
{
    let n = b.len();
    if off > n || n - off < 4 {
        return false;
    }
    let r = b[off] == t0 && b[off + 1] == t1 && b[off + 2] == t2 && b[off + 3] == t3;
    assert(r ==> b@.subrange(off as int, off + 4) =~= seq![t0, t1, t2, t3]);
    assert(b@.subrange(off as int, off + 4) == seq![t0, t1, t2, t3] ==> r) by {
        if b@.subrange(off as int, off + 4) == seq![t0, t1, t2, t3] {
            assert(b@.subrange(off as int, off + 4)[3] == t3);
        }
    }
    r
}

/// The leading bytes of `b`, for reporting an unknown signature.
pub fn leading_signature(b: &[u8]) -> (r: Vec<u8>)
    ensures
        r@ == leading(b@),
{
    let n = b.len();
    let k: usize = if n < 4 {
        n
    } else {
        4
    };
    let r = copy_range(b, 0, k);
    assert(n < 4 ==> r@ =~= b@);
    r
}

/// Picks the decoder from the first four bytes of `buf`.
pub fn detect_format(buf: &[u8]) -> (r: Result<ImageFormat, UnpackError>)
    ensures
        tag_at_spec(buf@, 0, rkfw_tag()) ==> r == Ok::<ImageFormat, UnpackError>(
            ImageFormat::Firmware,
        ),
        tag_at_spec(buf@, 0, rkaf_tag()) ==> r == Ok::<ImageFormat, UnpackError>(
            ImageFormat::Update,
        ),
        !tag_at_spec(buf@, 0, rkfw_tag()) && !tag_at_spec(buf@, 0, rkaf_tag()) ==> (r matches Err(
            UnpackError::UnrecognizedFormat { signature },
        ) && signature@ == leading(buf@)),
{
    if tag_at(buf, 0, 0x52, 0x4b, 0x46, 0x57) {
        Ok(ImageFormat::Firmware)
    } else if tag_at(buf, 0, 0x52, 0x4b, 0x41, 0x46) {
        Ok(ImageFormat::Update)
    } else {
        Err(UnpackError::UnrecognizedFormat { signature: leading_signature(buf) })
    }
}

} // verus!
