//! Unpacking of Rockchip firmware containers.
//!
//! Two formats are understood: the outer `RKFW` wrapper, which embeds a boot
//! blob and an inner image, and the inner `RKAF` update image, whose fixed
//! header lists up to sixteen partitions stored as byte ranges of the file.
//! The library decodes both from bytes and decides what is to be written
//! where; the caller performs the file-system work.
pub mod bytes;
pub mod error;
pub mod extract;
pub mod format;
pub mod header;
pub mod rkaf;
pub mod rkfw;

pub use error::UnpackError;
pub use extract::{RangeCopy, CHUNK_SIZE};
pub use format::{detect_format, ImageFormat, RKAF_SIGNATURE, RKFP_SIGNATURE, RKFW_SIGNATURE};
pub use header::{
    ParamHeader, UpdateHeader, UpdatePart, HEADER_SIZE, MAX_NAME_LEN, MAX_PARTS, PARM_MAGIC,
    RKAFP_MAGIC,
};
pub use rkaf::{is_reserved_name, plan_rkafp, PartitionJob, UpdatePlan};
pub use rkfw::{
    chip_family, unpack_rkfw, FirmwareImage, BOOT_FILE_NAME, EMBEDDED_IMAGE_FILE_NAME,
};
