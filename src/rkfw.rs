//! The outer `RKFW` wrapper: a boot blob and an embedded update image at
//! offsets that its header records.
use vstd::prelude::*;

use crate::bytes::{copy_range, get_u32_le, u32_at};
use crate::error::UnpackError;
use crate::format::{leading, leading_signature, rkaf_tag, rkfw_tag, tag_at, tag_at_spec};

verus! {

/// Bytes that the wrapper's fixed fields occupy.
pub const FIRMWARE_HEADER_LEN: usize = 0x29;

/// Offset of the chip-family selector.
pub const CHIP_OFFSET: usize = 0x15;

/// Offset of the boot blob's (offset, length) pair.
pub const BOOT_FIELD_OFFSET: usize = 0x19;

/// Offset of the embedded image's (offset, length) pair.
pub const IMAGE_FIELD_OFFSET: usize = 0x21;

/// Name of the file that receives the boot blob.
pub const BOOT_FILE_NAME: &'static str = "BOOT";

/// Name of the file that receives the embedded update image.
pub const EMBEDDED_IMAGE_FILE_NAME: &'static str = "embedded-update.img";

/// The region `[off, off + len)` lies within `s`.
pub open spec fn region_fits(s: Seq<u8>, off: u32, len: u32) -> bool {
    off as int + len as int <= s.len()
}

/// The bytes of region `[off, off + len)` of `s`.
pub open spec fn region(s: Seq<u8>, off: u32, len: u32) -> Seq<u8> {
    s.subrange(off as int, off as int + len as int)
}

/// Name of the chip family that selector `code` stands for, if known.
pub open spec fn chip_name(code: u8) -> Option<Seq<char>> {
    if code == 0x50 {
        Some("rk29xx"@)
    } else if code == 0x60 {
        Some("rk30xx"@)
    } else if code == 0x70 {
        Some("rk31xx"@)
    } else if code == 0x80 {
        Some("rk32xx"@)
    } else if code == 0x41 {
        Some("rk3368"@)
    } else if code == 0x36 {
        Some("RK3326"@)
    } else if code == 0x38 {
        Some("RK3566"@)
    } else if code == 0x30 {
        Some("PX30"@)
    } else {
        None
    }
}

/// Looks up the chip family of selector `code`; an unknown code is no error.
pub fn chip_family(code: u8) -> (r: Option<&'static str>)
    ensures
        match r {
            Some(name) => chip_name(code) == Some(name@),
            None => chip_name(code) is None,
        },
{
    if code == 0x50 {
        Some("rk29xx")
    } else if code == 0x60 {
        Some("rk30xx")
    } else if code == 0x70 {
        Some("rk31xx")
    } else if code == 0x80 {
        Some("rk32xx")
    } else if code == 0x41 {
        Some("rk3368")
    } else if code == 0x36 {
        Some("RK3326")
    } else if code == 0x38 {
        Some("RK3566")
    } else if code == 0x30 {
        Some("PX30")
    } else {
        None
    }
}

/// Why a buffer that starts with `RKFW` cannot be unpacked, if it cannot:
/// the first of the checks, in the order the fields are read, that fails.
pub open spec fn firmware_failure(s: Seq<u8>) -> Option<UnpackError> {
    let boot_off = u32_at(s, BOOT_FIELD_OFFSET as int);
    let boot_len = u32_at(s, BOOT_FIELD_OFFSET + 4);
    let img_off = u32_at(s, IMAGE_FIELD_OFFSET as int);
    let img_len = u32_at(s, IMAGE_FIELD_OFFSET + 4);
    if s.len() < FIRMWARE_HEADER_LEN {
        Some(
            UnpackError::TruncatedSource {
                needed: FIRMWARE_HEADER_LEN as u64,
                available: s.len() as u64,
            },
        )
    } else if !region_fits(s, boot_off, boot_len) {
        Some(UnpackError::OutOfBoundsRegion { offset: boot_off as u64, length: boot_len as u64 })
    } else if !region_fits(s, img_off, img_len) {
        Some(UnpackError::OutOfBoundsRegion { offset: img_off as u64, length: img_len as u64 })
    } else if img_len < 4 || !tag_at_spec(s, img_off as int, rkaf_tag()) {
        Some(UnpackError::StructuralCorruption { offset: img_off as u64 })
    } else {
        None
    }
}

/// What an `RKFW` wrapper holds: its identification and the two blobs to
/// be written out, under [`BOOT_FILE_NAME`] and [`EMBEDDED_IMAGE_FILE_NAME`].
#[derive(Debug)]
pub struct FirmwareImage {
    pub version_major: u8,
    pub version_minor: u8,
    pub version_build: u16,
    pub chip_code: u8,
    pub boot_offset: u32,
    pub boot: Vec<u8>,
    pub image_offset: u32,
    pub embedded_image: Vec<u8>,
}

impl FirmwareImage {
    /// This value is what the wrapper `s` holds.
    pub open spec fn decoded_from(self, s: Seq<u8>) -> bool {
        let boot_len = u32_at(s, BOOT_FIELD_OFFSET + 4);
        let img_len = u32_at(s, IMAGE_FIELD_OFFSET + 4);
        &&& self.version_major == s[9]
        &&& self.version_minor == s[8]
        &&& self.version_build == s[7] as int * 0x100 + s[6] as int
        &&& self.chip_code == s[CHIP_OFFSET as int]
        &&& self.boot_offset == u32_at(s, BOOT_FIELD_OFFSET as int)
        &&& self.boot@ == region(s, self.boot_offset, boot_len)
        &&& self.image_offset == u32_at(s, IMAGE_FIELD_OFFSET as int)
        &&& self.embedded_image@ == region(s, self.image_offset, img_len)
    }
}

/// A wrapper that unpacks yields exactly two blobs, each as long as its
/// declared size, and the second starts with the `RKAF` signature.
pub proof fn lemma_two_outputs(img: FirmwareImage, s: Seq<u8>)
    requires
        tag_at_spec(s, 0, rkfw_tag()),
        firmware_failure(s) is None,
        img.decoded_from(s),
    ensures
        img.boot@.len() == u32_at(s, BOOT_FIELD_OFFSET + 4),
        img.embedded_image@.len() == u32_at(s, IMAGE_FIELD_OFFSET + 4),
        img.embedded_image@.take(4) == rkaf_tag(),
{
    let off = img.image_offset as int;
    assert(img.embedded_image@.take(4) =~= s.subrange(off, off + 4));
}

/// Decodes an `RKFW` wrapper held whole in `buf` and copies out its boot blob
/// and its embedded update image, each exactly as long as declared.
pub fn unpack_rkfw(buf: &[u8]) -> (r: Result<FirmwareImage, UnpackError>)
    ensures
        !tag_at_spec(buf@, 0, rkfw_tag()) ==> (r matches Err(
            UnpackError::UnrecognizedFormat { signature },
        ) && signature@ == leading(buf@)),
        tag_at_spec(buf@, 0, rkfw_tag()) ==> match firmware_failure(buf@) {
            Some(e) => r == Err::<FirmwareImage, UnpackError>(e),
            None => r matches Ok(img) && img.decoded_from(buf@),
        },
{
    if !tag_at(buf, 0, 0x52, 0x4b, 0x46, 0x57) {
        return Err(UnpackError::UnrecognizedFormat { signature: leading_signature(buf) });
    }
    let n = buf.len();
    if n < FIRMWARE_HEADER_LEN {
        return Err(
            UnpackError::TruncatedSource { needed: FIRMWARE_HEADER_LEN as u64, available: n as u64 },
        );
    }
    let boot_off = get_u32_le(buf, BOOT_FIELD_OFFSET);
    let boot_len = get_u32_le(buf, BOOT_FIELD_OFFSET + 4);
    if boot_off as u64 + boot_len as u64 > n as u64 {
        return Err(UnpackError::OutOfBoundsRegion { offset: boot_off as u64, length: boot_len as u64 });
    }
    let img_off = get_u32_le(buf, IMAGE_FIELD_OFFSET);
    let img_len = get_u32_le(buf, IMAGE_FIELD_OFFSET + 4);
    if img_off as u64 + img_len as u64 > n as u64 {
        return Err(UnpackError::OutOfBoundsRegion { offset: img_off as u64, length: img_len as u64 });
    }
    if img_len < 4 || !tag_at(buf, img_off as usize, 0x52, 0x4b, 0x41, 0x46) {
        return Err(UnpackError::StructuralCorruption { offset: img_off as u64 });
    }
    let boot = copy_range(buf, boot_off as usize, boot_len as usize);
    let embedded_image = copy_range(buf, img_off as usize, img_len as usize);
    Ok(FirmwareImage {
        version_major: buf[9],
        version_minor: buf[8],
        version_build: buf[7] as u16 * 0x100 + buf[6] as u16,
        chip_code: buf[CHIP_OFFSET],
        boot_offset: boot_off,
        boot,
        image_offset: img_off,
        embedded_image,
    })
}

} // verus!
