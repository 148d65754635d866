//! The fixed-layout header of the inner `RKAF` update image.
use vstd::prelude::*;

use crate::bytes::{get_u32_le, le_bytes, le_u32, lemma_le_round_trip, push_all, put_u32_le, u32_at};
use crate::error::UnpackError;

verus! {

broadcast use vstd::array::group_array_axioms;

/// Magic tag of the inner update image, as text.
pub const RKAFP_MAGIC: &'static str = "RKAF";

/// Magic tag of a parameter block, as text.
pub const PARM_MAGIC: &'static str = "PARM";

/// Number of partition slots in an update header.
pub const MAX_PARTS: usize = 16;

/// Width of a partition's name field.
pub const MAX_NAME_LEN: usize = 32;

/// Width of a partition's path field.
pub const MAX_FULL_PATH_LEN: usize = 60;

/// Width of the model field.
pub const MAX_MODEL_LEN: usize = 34;

/// Width of the id field.
pub const MAX_ID_LEN: usize = 30;

/// Width of the manufacturer field.
pub const MAX_MANUFACTURER_LEN: usize = 56;

/// Width of the reserved tail of an update header.
pub const RESERVED_LEN: usize = 116;

/// Encoded size of one partition record.
pub const PART_SIZE: usize = 112;

/// Encoded size of an update header.
pub const HEADER_SIZE: usize = 2048;

/// Offset of the partition count within an update header.
pub const NUM_PARTS_OFFSET: usize = 136;

/// Offset of the first partition record within an update header.
pub const PARTS_OFFSET: usize = 140;

/// Offset of the reserved tail within an update header.
pub const RESERVED_OFFSET: usize = 1932;

/// Offset of field `name` of partition record `i` within an update header.
pub open spec fn part_start(i: int) -> int {
    PARTS_OFFSET + i * PART_SIZE
}

/// One partition slot of an update header.
#[derive(Copy, Clone, Debug)]
pub struct UpdatePart {
    pub name: [u8; MAX_NAME_LEN],
    pub full_path: [u8; MAX_FULL_PATH_LEN],
    pub flash_size: u32,
    pub part_offset: u32,
    pub flash_offset: u32,
    pub padded_size: u32,
    pub part_byte_count: u32,
}

/// The header at the start of an update image.
#[derive(Copy, Clone, Debug)]
pub struct UpdateHeader {
    pub magic: [u8; 4],
    pub length: u32,
    pub model: [u8; MAX_MODEL_LEN],
    pub id: [u8; MAX_ID_LEN],
    pub manufacturer: [u8; MAX_MANUFACTURER_LEN],
    pub unknown1: u32,
    pub version: u32,
    pub num_parts: u32,
    pub parts: [UpdatePart; MAX_PARTS],
    pub reserved: [u8; RESERVED_LEN],
}

/// The header of a parameter block: a magic tag and a length.
#[derive(Copy, Clone, Debug)]
pub struct ParamHeader {
    pub magic: [u8; 4],
    pub length: u32,
}

impl UpdatePart {
    /// `s` holds the encoding of this record from offset `off` on.
    pub open spec fn encoded_at(self, s: Seq<u8>, off: int) -> bool {
        &&& 0 <= off
        &&& off + PART_SIZE <= s.len()
        &&& self.name@ == s.subrange(off, off + 32)
        &&& self.full_path@ == s.subrange(off + 32, off + 92)
        &&& self.flash_size == u32_at(s, off + 92)
        &&& self.part_offset == u32_at(s, off + 96)
        &&& self.flash_offset == u32_at(s, off + 100)
        &&& self.padded_size == u32_at(s, off + 104)
        &&& self.part_byte_count == u32_at(s, off + 108)
    }

    /// Every field of this record is zero.
    pub open spec fn is_zero(self) -> bool {
        &&& self.name@ == Seq::new(MAX_NAME_LEN as nat, |i: int| 0u8)
        &&& self.full_path@ == Seq::new(MAX_FULL_PATH_LEN as nat, |i: int| 0u8)
        &&& self.flash_size == 0
        &&& self.part_offset == 0
        &&& self.flash_offset == 0
        &&& self.padded_size == 0
        &&& self.part_byte_count == 0
    }

    /// A record whose fields are all zero.
    pub fn default() -> (r: Self)
        ensures
            r.is_zero(),
    {
        let r = UpdatePart {
            name: [0u8; MAX_NAME_LEN],
            full_path: [0u8; MAX_FULL_PATH_LEN],
            flash_size: 0,
            part_offset: 0,
            flash_offset: 0,
            padded_size: 0,
            part_byte_count: 0,
        };
        assert(r.name@ =~= Seq::new(MAX_NAME_LEN as nat, |i: int| 0u8));
        assert(r.full_path@ =~= Seq::new(MAX_FULL_PATH_LEN as nat, |i: int| 0u8));
        r
    }
}

/// Copies the `N` bytes of `b` that start at `off` into an array.
fn read_array<const N: usize>(b: &[u8], off: usize) -> (r: [u8; N])
    requires
        off + N <= b@.len(),
    ensures
        r@ == b@.subrange(off as int, off + N),
{
    let n = b.len();
    let mut a = [0u8; N];
    let mut i: usize = 0;
    while i < N
        invariant
            i <= N,
            off + N <= b@.len() == n,
            a@.len() == N,
            forall|j: int| 0 <= j < i ==> a@[j] == b@[off + j],
        decreases N - i,
    {
        a[i] = b[off + i];
        i += 1;
    }
    assert(a@ =~= b@.subrange(off as int, off + N));
    a
}

/// Bytes below `s1.len()` are the same in `s1` and in any extension `s2` of it.
proof fn lemma_prefix_subrange(s1: Seq<u8>, s2: Seq<u8>, a: int, b: int)
    requires
        0 <= a <= b <= s1.len() <= s2.len(),
        s2.take(s1.len() as int) == s1,
    ensures
        s2.subrange(a, b) == s1.subrange(a, b),
{
    assert(s2.subrange(a, b) =~= s1.subrange(a, b)) by {
        assert forall|j: int| 0 <= j < b - a implies s2.subrange(a, b)[j] == s1.subrange(a, b)[j] by {
            assert(s2.take(s1.len() as int)[a + j] == s2[a + j]);
        }
    }
}

impl UpdatePart {
    proof fn lemma_extend(self, s1: Seq<u8>, s2: Seq<u8>, off: int)
        requires
            self.encoded_at(s1, off),
            s1.len() <= s2.len(),
            s2.take(s1.len() as int) == s1,
        ensures
            self.encoded_at(s2, off),
    {
        lemma_prefix_subrange(s1, s2, off, off + 32);
        lemma_prefix_subrange(s1, s2, off + 32, off + 92);
        lemma_prefix_subrange(s1, s2, off + 92, off + 96);
        lemma_prefix_subrange(s1, s2, off + 96, off + 100);
        lemma_prefix_subrange(s1, s2, off + 100, off + 104);
        lemma_prefix_subrange(s1, s2, off + 104, off + 108);
        lemma_prefix_subrange(s1, s2, off + 108, off + 112);
    }

    /// Decodes the record that starts at `off`.
    fn read_at(b: &[u8], off: usize) -> (r: UpdatePart)
        requires
            off + PART_SIZE <= b@.len(),
        ensures
            r.encoded_at(b@, off as int),
    {
        let n = b.len();
        assert(off + PART_SIZE <= n);
        UpdatePart {
            name: read_array(b, off),
            full_path: read_array(b, off + 32),
            flash_size: get_u32_le(b, off + 92),
            part_offset: get_u32_le(b, off + 96),
            flash_offset: get_u32_le(b, off + 100),
            padded_size: get_u32_le(b, off + 104),
            part_byte_count: get_u32_le(b, off + 108),
        }
    }

    /// Appends the encoding of this record.
    fn write_to(&self, out: &mut Vec<u8>)
        ensures
            final(out)@.len() == old(out)@.len() + PART_SIZE,
            final(out)@.take(old(out)@.len() as int) == old(out)@,
            self.encoded_at(final(out)@, old(out)@.len() as int),
    {
        let ghost o = old(out)@.len() as int;
        let ghost s0 = old(out)@;
        push_all(out, self.name.as_slice());
        push_all(out, self.full_path.as_slice());
        let ghost s1 = out@;
        put_u32_le(out, self.flash_size);
        put_u32_le(out, self.part_offset);
        let ghost s2 = out@;
        put_u32_le(out, self.flash_offset);
        put_u32_le(out, self.padded_size);
        put_u32_le(out, self.part_byte_count);
        let ghost s = out@;
        proof {
            lemma_le_round_trip(self.flash_size);
            lemma_le_round_trip(self.part_offset);
            lemma_le_round_trip(self.flash_offset);
            lemma_le_round_trip(self.padded_size);
            lemma_le_round_trip(self.part_byte_count);
            assert(s1 == s0 + self.name@ + self.full_path@);
            assert(s2 == s1 + le_bytes(self.flash_size) + le_bytes(self.part_offset));
            assert(s == s2 + le_bytes(self.flash_offset) + le_bytes(self.padded_size) + le_bytes(
                self.part_byte_count,
            ));
            assert(s1.subrange(o, o + 32) =~= self.name@);
            assert(s1.subrange(o + 32, o + 92) =~= self.full_path@);
            assert(s2.take(s1.len() as int) =~= s1);
            assert(s.take(s2.len() as int) =~= s2);
            assert(s.take(s1.len() as int) =~= s1);
            assert(s.take(o) =~= s0);
            lemma_prefix_subrange(s1, s, o, o + 32);
            lemma_prefix_subrange(s1, s, o + 32, o + 92);
            assert(s2.subrange(o + 92, o + 96) =~= le_bytes(self.flash_size));
            assert(s2.subrange(o + 96, o + 100) =~= le_bytes(self.part_offset));
            lemma_prefix_subrange(s2, s, o + 92, o + 96);
            lemma_prefix_subrange(s2, s, o + 96, o + 100);
            assert(s.subrange(o + 100, o + 104) =~= le_bytes(self.flash_offset));
            assert(s.subrange(o + 104, o + 108) =~= le_bytes(self.padded_size));
            assert(s.subrange(o + 108, o + 112) =~= le_bytes(self.part_byte_count));
        }
    }
}

impl UpdateHeader {
    /// `s` starts with the encoding of this header.
    pub open spec fn encoded_in(self, s: Seq<u8>) -> bool {
        &&& HEADER_SIZE <= s.len()
        &&& self.magic@ == s.subrange(0, 4)
        &&& self.length == u32_at(s, 4)
        &&& self.model@ == s.subrange(8, 42)
        &&& self.id@ == s.subrange(42, 72)
        &&& self.manufacturer@ == s.subrange(72, 128)
        &&& self.unknown1 == u32_at(s, 128)
        &&& self.version == u32_at(s, 132)
        &&& self.num_parts == u32_at(s, NUM_PARTS_OFFSET as int)
        &&& forall|i: int|
            0 <= i < MAX_PARTS ==> #[trigger] self.parts@[i].encoded_at(s, part_start(i))
        &&& self.reserved@ == s.subrange(RESERVED_OFFSET as int, HEADER_SIZE as int)
    }

    /// A header whose fields are all zero.
    pub fn default() -> (r: Self)
        ensures
            r.magic@ == Seq::new(4, |i: int| 0u8),
            r.length == 0,
            r.model@ == Seq::new(MAX_MODEL_LEN as nat, |i: int| 0u8),
            r.id@ == Seq::new(MAX_ID_LEN as nat, |i: int| 0u8),
            r.manufacturer@ == Seq::new(MAX_MANUFACTURER_LEN as nat, |i: int| 0u8),
            r.unknown1 == 0,
            r.version == 0,
            r.num_parts == 0,
            forall|i: int| 0 <= i < MAX_PARTS ==> (#[trigger] r.parts@[i]).is_zero(),
            r.reserved@ == Seq::new(RESERVED_LEN as nat, |i: int| 0u8),
    {
        let part = UpdatePart::default();
        let r = UpdateHeader {
            magic: [0u8; 4],
            length: 0,
            model: [0u8; MAX_MODEL_LEN],
            id: [0u8; MAX_ID_LEN],
            manufacturer: [0u8; MAX_MANUFACTURER_LEN],
            unknown1: 0,
            version: 0,
            num_parts: 0,
            parts: [part; MAX_PARTS],
            reserved: [0u8; RESERVED_LEN],
        };
        assert(r.magic@ =~= Seq::new(4, |i: int| 0u8));
        assert(r.model@ =~= Seq::new(MAX_MODEL_LEN as nat, |i: int| 0u8));
        assert(r.id@ =~= Seq::new(MAX_ID_LEN as nat, |i: int| 0u8));
        assert(r.manufacturer@ =~= Seq::new(MAX_MANUFACTURER_LEN as nat, |i: int| 0u8));
        assert(r.reserved@ =~= Seq::new(RESERVED_LEN as nat, |i: int| 0u8));
        r
    }

    /// Decodes the header at the start of `bytes`, reading each field from
    /// its own range; fails when `bytes` is shorter than a header.
    pub fn from_bytes(bytes: &[u8]) -> (r: Result<UpdateHeader, UnpackError>)
        ensures
            bytes@.len() >= HEADER_SIZE <==> r is Ok,
            r matches Ok(h) ==> h.encoded_in(bytes@),
            bytes@.len() < HEADER_SIZE ==> r == Err::<UpdateHeader, UnpackError>(
                UnpackError::TruncatedSource {
                    needed: HEADER_SIZE as u64,
                    available: bytes@.len() as u64,
                },
            ),
    {
        let n = bytes.len();
        if n < HEADER_SIZE {
            return Err(UnpackError::TruncatedSource { needed: HEADER_SIZE as u64, available: n as u64 });
        }
        let mut parts = [UpdatePart::default(); MAX_PARTS];
        let mut i: usize = 0;
        while i < MAX_PARTS
            invariant
                i <= MAX_PARTS,
                HEADER_SIZE <= bytes@.len(),
                forall|j: int| 0 <= j < i ==> #[trigger] parts@[j].encoded_at(bytes@, part_start(j)),
            decreases MAX_PARTS - i,
        {
            parts[i] = UpdatePart::read_at(bytes, PARTS_OFFSET + i * PART_SIZE);
            i += 1;
        }
        Ok(UpdateHeader {
            magic: read_array(bytes, 0),
            length: get_u32_le(bytes, 4),
            model: read_array(bytes, 8),
            id: read_array(bytes, 42),
            manufacturer: read_array(bytes, 72),
            unknown1: get_u32_le(bytes, 128),
            version: get_u32_le(bytes, 132),
            num_parts: get_u32_le(bytes, NUM_PARTS_OFFSET),
            parts,
            reserved: read_array(bytes, RESERVED_OFFSET),
        })
    }

    /// Encodes the header, field by field, into `HEADER_SIZE` bytes.
    pub fn to_bytes(&self) -> (r: Vec<u8>)
        ensures
            r@.len() == HEADER_SIZE,
            self.encoded_in(r@),
    {
        let mut out: Vec<u8> = Vec::with_capacity(HEADER_SIZE);
        push_all(&mut out, self.magic.as_slice());
        put_u32_le(&mut out, self.length);
        push_all(&mut out, self.model.as_slice());
        push_all(&mut out, self.id.as_slice());
        push_all(&mut out, self.manufacturer.as_slice());
        put_u32_le(&mut out, self.unknown1);
        put_u32_le(&mut out, self.version);
        put_u32_le(&mut out, self.num_parts);
        let ghost fixed = out@;
        proof {
            lemma_le_round_trip(self.length);
            lemma_le_round_trip(self.unknown1);
            lemma_le_round_trip(self.version);
            lemma_le_round_trip(self.num_parts);
            assert(fixed.subrange(0, 4) =~= self.magic@);
            assert(fixed.subrange(4, 8) =~= le_bytes(self.length));
            assert(fixed.subrange(8, 42) =~= self.model@);
            assert(fixed.subrange(42, 72) =~= self.id@);
            assert(fixed.subrange(72, 128) =~= self.manufacturer@);
            assert(fixed.subrange(128, 132) =~= le_bytes(self.unknown1));
            assert(fixed.subrange(132, 136) =~= le_bytes(self.version));
            assert(fixed.subrange(136, 140) =~= le_bytes(self.num_parts));
        }
        let mut i: usize = 0;
        while i < MAX_PARTS
            invariant
                i <= MAX_PARTS,
                fixed.len() == PARTS_OFFSET,
                out@.len() == part_start(i as int),
                out@.take(PARTS_OFFSET as int) == fixed,
                forall|j: int| 0 <= j < i ==> #[trigger] self.parts@[j].encoded_at(out@, part_start(j)),
            decreases MAX_PARTS - i,
        {
            let ghost before = out@;
            self.parts[i].write_to(&mut out);
            proof {
                assert forall|j: int| 0 <= j < i implies #[trigger] self.parts@[j].encoded_at(
                    out@,
                    part_start(j),
                ) by {
                    self.parts@[j].lemma_extend(before, out@, part_start(j));
                }
                assert(out@.take(PARTS_OFFSET as int) =~= before.take(PARTS_OFFSET as int));
            }
            i += 1;
        }
        let ghost with_parts = out@;
        push_all(&mut out, self.reserved.as_slice());
        proof {
            let s = out@;
            assert(s.take(with_parts.len() as int) =~= with_parts);
            assert(s.take(PARTS_OFFSET as int) =~= fixed);
            assert forall|j: int| 0 <= j < MAX_PARTS implies #[trigger] self.parts@[j].encoded_at(
                s,
                part_start(j),
            ) by {
                self.parts@[j].lemma_extend(with_parts, s, part_start(j));
            }
            assert(s.subrange(RESERVED_OFFSET as int, HEADER_SIZE as int) =~= self.reserved@);
            lemma_prefix_subrange(fixed, s, 0, 4);
            lemma_prefix_subrange(fixed, s, 4, 8);
            lemma_prefix_subrange(fixed, s, 8, 42);
            lemma_prefix_subrange(fixed, s, 42, 72);
            lemma_prefix_subrange(fixed, s, 72, 128);
            lemma_prefix_subrange(fixed, s, 128, 132);
            lemma_prefix_subrange(fixed, s, 132, 136);
            lemma_prefix_subrange(fixed, s, 136, 140);
        }
        out
    }
}

/// Decoding what `to_bytes` produced gives back the header it encoded: two
/// headers encoded in the same bytes agree on every field.
pub proof fn lemma_header_round_trip(h: UpdateHeader, d: UpdateHeader, bytes: Seq<u8>)
    requires
        h.encoded_in(bytes),
        d.encoded_in(bytes),
    ensures
        d == h,
{
    assert(d.magic =~= h.magic);
    assert(d.model =~= h.model);
    assert(d.id =~= h.id);
    assert(d.manufacturer =~= h.manufacturer);
    assert(d.reserved =~= h.reserved);
    assert forall|i: int| 0 <= i < MAX_PARTS implies d.parts@[i] == h.parts@[i] by {
        let p = d.parts@[i];
        let q = h.parts@[i];
        assert(p.encoded_at(bytes, part_start(i)));
        assert(q.encoded_at(bytes, part_start(i)));
        assert(p.name =~= q.name);
        assert(p.full_path =~= q.full_path);
    }
    assert(d.parts =~= h.parts);
}

} // verus!
