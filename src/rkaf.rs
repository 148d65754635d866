//! The inner `RKAF` update image: which partitions are written, and where.
use vstd::prelude::*;

use crate::bytes::{field_text, field_to_text, u32_at};
use crate::error::UnpackError;
use crate::format::{rkaf_tag, tag_at, tag_at_spec};
use crate::header::{
    part_start, UpdateHeader, UpdatePart, HEADER_SIZE, MAX_PARTS, NUM_PARTS_OFFSET,
};

verus! {

/// The path of a bookkeeping slot: `SELF`.
pub open spec fn self_path() -> Seq<u8> {
    seq![0x53u8, 0x45u8, 0x4cu8, 0x46u8]
}

/// The path of a bookkeeping slot: `RESERVED`.
pub open spec fn reserved_path() -> Seq<u8> {
    seq![0x52u8, 0x45u8, 0x53u8, 0x45u8, 0x52u8, 0x56u8, 0x45u8, 0x44u8]
}

/// Slots with these paths hold no data to extract.
pub open spec fn is_reserved_path(p: Seq<u8>) -> bool {
    p == self_path() || p == reserved_path()
}

/// The resolved path of partition slot `i` of the header at the start of `s`.
pub open spec fn slot_path(s: Seq<u8>, i: int) -> Seq<u8> {
    field_text(s.subrange(part_start(i) + 32, part_start(i) + 92))
}

/// The in-file offset of partition slot `i`.
pub open spec fn slot_offset(s: Seq<u8>, i: int) -> u32 {
    u32_at(s, part_start(i) + 96)
}

/// The byte count of partition slot `i`.
pub open spec fn slot_count(s: Seq<u8>, i: int) -> u32 {
    u32_at(s, part_start(i) + 108)
}

/// The extractions that the first `n` slots of the header at the start of
/// `s` call for in a file of `file_size` bytes, in slot order: one for each
/// slot whose path is not reserved. The first such slot whose range leaves
/// the file makes the whole plan fail.
pub open spec fn plan_slots(s: Seq<u8>, n: int, file_size: u64) -> Result<
    Seq<(Seq<u8>, u32, u32)>,
    UnpackError,
>
    decreases n,
{
    if n <= 0 {
        Ok(Seq::empty())
    } else {
        match plan_slots(s, n - 1, file_size) {
            Err(e) => Err(e),
            Ok(jobs) => {
                let i = n - 1;
                let path = slot_path(s, i);
                let off = slot_offset(s, i);
                let count = slot_count(s, i);
                if is_reserved_path(path) {
                    Ok(jobs)
                } else if off as int + count as int > file_size {
                    Err(UnpackError::OutOfBoundsRegion { offset: off as u64, length: count as u64 })
                } else {
                    Ok(jobs.push((path, off, count)))
                }
            },
        }
    }
}

/// Why the header at the start of `s` cannot be planned, before its slots
/// are looked at, if it cannot.
pub open spec fn header_failure(s: Seq<u8>) -> Option<UnpackError> {
    if s.len() < HEADER_SIZE {
        Some(UnpackError::TruncatedSource { needed: HEADER_SIZE as u64, available: s.len() as u64 })
    } else if !tag_at_spec(s, 0, rkaf_tag()) {
        Some(UnpackError::StructuralCorruption { offset: 0 })
    } else if u32_at(s, NUM_PARTS_OFFSET as int) > MAX_PARTS {
        Some(UnpackError::StructuralCorruption { offset: NUM_PARTS_OFFSET as u64 })
    } else {
        None
    }
}

/// One partition to copy out: `length` bytes from `offset`, to `path`
/// under the destination directory.
#[derive(Debug)]
pub struct PartitionJob {
    pub path: Vec<u8>,
    pub offset: u32,
    pub length: u32,
}

impl View for PartitionJob {
    type V = (Seq<u8>, u32, u32);

    open spec fn view(&self) -> (Seq<u8>, u32, u32) {
        (self.path@, self.offset, self.length)
    }
}

/// The views of `jobs`.
pub open spec fn jobs_view(jobs: Seq<PartitionJob>) -> Seq<(Seq<u8>, u32, u32)> {
    jobs.map_values(|j: PartitionJob| j@)
}

/// What an update image's header says and what is to be extracted from it.
#[derive(Debug)]
pub struct UpdatePlan {
    pub header: UpdateHeader,
    pub manufacturer: Vec<u8>,
    pub model: Vec<u8>,
    /// The declared length is the file's size less four. A mismatch is only
    /// worth a warning: no checksum is verified.
    pub length_matches: bool,
    pub jobs: Vec<PartitionJob>,
}

/// Tests whether `path` names a bookkeeping slot.
pub fn is_reserved_name(path: &[u8]) -> (r: bool)
    ensures
        r == is_reserved_path(path@),
{
    let r = if path.len() == 4 {
        path[0] == 0x53 && path[1] == 0x45 && path[2] == 0x4c && path[3] == 0x46
    } else if path.len() == 8 {
        path[0] == 0x52 && path[1] == 0x45 && path[2] == 0x53 && path[3] == 0x45 && path[4] == 0x52
            && path[5] == 0x56 && path[6] == 0x45 && path[7] == 0x44
    } else {
        false
    };
    assert(r && path@.len() == 4 ==> path@ =~= self_path());
    assert(r && path@.len() == 8 ==> path@ =~= reserved_path());
    assert(path@ == self_path() ==> path@[3] == 0x46u8);
    assert(path@ == reserved_path() ==> path@[7] == 0x44u8);
    r
}

/// What partition record `part` calls for in a file of `file_size` bytes:
/// nothing for a reserved path, else a job for its range if that range
/// lies within the file.
fn plan_slot(part: &UpdatePart, file_size: u64) -> (r: Result<Option<PartitionJob>, UnpackError>)
    ensures
        is_reserved_path(field_text(part.full_path@)) ==> r matches Ok(None),
        !is_reserved_path(field_text(part.full_path@)) ==> if part.part_offset as int
            + part.part_byte_count as int > file_size {
            r == Err::<Option<PartitionJob>, UnpackError>(
                UnpackError::OutOfBoundsRegion {
                    offset: part.part_offset as u64,
                    length: part.part_byte_count as u64,
                },
            )
        } else {
            r matches Ok(Some(job)) && job@ == (
                field_text(part.full_path@),
                part.part_offset,
                part.part_byte_count,
            )
        },
{
    let path = field_to_text(part.full_path.as_slice());
    if is_reserved_name(path.as_slice()) {
        return Ok(None);
    }
    if part.part_offset as u64 + part.part_byte_count as u64 > file_size {
        return Err(
            UnpackError::OutOfBoundsRegion {
                offset: part.part_offset as u64,
                length: part.part_byte_count as u64,
            },
        );
    }
    Ok(Some(PartitionJob { path, offset: part.part_offset, length: part.part_byte_count }))
}

/// How many of the first `n` slots of the header at the start of `s` hold a
/// path that is not reserved.
pub open spec fn kept_slots(s: Seq<u8>, n: int) -> nat
    decreases n,
{
    if n <= 0 {
        0
    } else if is_reserved_path(slot_path(s, n - 1)) {
        kept_slots(s, n - 1)
    } else {
        kept_slots(s, n - 1) + 1
    }
}

/// A successful plan has exactly one job for each slot whose path is not
/// reserved, and each job's range lies within the file, so that each output
/// file receives exactly the slot's declared byte count.
pub proof fn lemma_one_job_per_kept_slot(s: Seq<u8>, n: int, file_size: u64)
    requires
        plan_slots(s, n, file_size) is Ok,
    ensures
        plan_slots(s, n, file_size)->Ok_0.len() == kept_slots(s, n),
        forall|k: int|
            0 <= k < plan_slots(s, n, file_size)->Ok_0.len() ==> {
                let job = #[trigger] plan_slots(s, n, file_size)->Ok_0[k];
                job.1 as int + job.2 as int <= file_size
            },
    decreases n,
{
    if n > 0 {
        lemma_one_job_per_kept_slot(s, n - 1, file_size);
    }
}

/// Once the slots planned so far fail, every longer plan fails the same way.
proof fn lemma_failure_sticks(s: Seq<u8>, i: int, n: int, file_size: u64)
    requires
        0 <= i <= n,
        plan_slots(s, i, file_size) is Err,
    ensures
        plan_slots(s, n, file_size) == plan_slots(s, i, file_size),
    decreases n - i,
{
    if i < n {
        lemma_failure_sticks(s, i, n - 1, file_size);
    }
}

/// Decodes the header of an update image from its first bytes and lists the
/// partitions to extract from a file of `file_size` bytes: one job for each
/// of the first `num_parts` slots whose path is not reserved, each checked
/// to lie within the file.
pub fn plan_rkafp(header_bytes: &[u8], file_size: u64) -> (r: Result<UpdatePlan, UnpackError>)
    ensures
        match header_failure(header_bytes@) {
            Some(e) => r == Err::<UpdatePlan, UnpackError>(e),
            None => match plan_slots(
                header_bytes@,
                u32_at(header_bytes@, NUM_PARTS_OFFSET as int) as int,
                file_size,
            ) {
                Err(e) => r == Err::<UpdatePlan, UnpackError>(e),
                Ok(jobs) => r matches Ok(p) && {
                    &&& p.header.encoded_in(header_bytes@)
                    &&& jobs_view(p.jobs@) == jobs
                    &&& p.manufacturer@ == field_text(p.header.manufacturer@)
                    &&& p.model@ == field_text(p.header.model@)
                    &&& p.length_matches == (file_size as int - 4 == p.header.length as int)
                },
            },
        },
{
    let header = match UpdateHeader::from_bytes(header_bytes) {
        Ok(h) => h,
        Err(e) => return Err(e),
    };
    if !tag_at(header_bytes, 0, 0x52, 0x4b, 0x41, 0x46) {
        return Err(UnpackError::StructuralCorruption { offset: 0 });
    }
    if header.num_parts as u64 > MAX_PARTS as u64 {
        return Err(UnpackError::StructuralCorruption { offset: NUM_PARTS_OFFSET as u64 });
    }
    let count = header.num_parts as usize;
    let ghost s = header_bytes@;
    let mut jobs: Vec<PartitionJob> = Vec::new();
    assert(jobs_view(jobs@) =~= Seq::empty());
    let mut i: usize = 0;
    while i < count
        invariant
            i <= count <= MAX_PARTS,
            count == u32_at(s, NUM_PARTS_OFFSET as int),
            s == header_bytes@,
            header.encoded_in(s),
            header_failure(s) is None,
            plan_slots(s, i as int, file_size) == Ok::<Seq<(Seq<u8>, u32, u32)>, UnpackError>(
                jobs_view(jobs@),
            ),
        decreases count - i,
    {
        let part = header.parts[i];
        assert(part.encoded_at(s, part_start(i as int)));
        let ghost prev = jobs_view(jobs@);
        match plan_slot(&part, file_size) {
            Err(e) => {
                proof {
                    assert(slot_path(s, i as int) == field_text(part.full_path@));
                    assert(plan_slots(s, i + 1, file_size) == Err::<
                        Seq<(Seq<u8>, u32, u32)>,
                        UnpackError,
                    >(e));
                    lemma_failure_sticks(s, i + 1, count as int, file_size);
                }
                return Err(e);
            },
            Ok(None) => {},
            Ok(Some(job)) => {
                let ghost before = jobs@;
                jobs.push(job);
                assert(jobs_view(jobs@) =~= prev.push(job@));
            },
        }
        i += 1;
    }
    let manufacturer = field_to_text(header.manufacturer.as_slice());
    let model = field_to_text(header.model.as_slice());
    let length_matches = file_size >= 4 && file_size - 4 == header.length as u64;
    Ok(UpdatePlan { header, manufacturer, model, length_matches, jobs })
}

} // verus!
