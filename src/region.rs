//! Region containers: a directory of 1024 chunk slots, then the slots' payloads.

use crate::bytes::{be_u24, be_u32, read_be_u24, read_be_u32};
use crate::block::{BlockModel, Coordinate};
use crate::chunk::{chunk_error_explained, chunk_level, level_blocks, payload_fits, Chunk, ChunkError};
use crate::filename::{region_coords, region_filename_parser};
use vstd::prelude::*;

verus! {

/// Number of chunk slots in a container.
pub const SLOT_COUNT: usize = 1024;

/// Bytes in one sector, the container's unit of allocation.
pub const SECTOR_BYTES: u64 = 4096;

/// Bytes in the header: location words, then timestamp words.
pub const HEADER_BYTES: usize = 8192;

/// One populated slot of a container's directory.
#[derive(Clone, Copy, Debug, PartialEq, Eq, Structural)]
pub struct ChunkSlot {
    /// Position in the directory, 0 to 1023.
    pub index: u32,
    /// Byte offset of the slot's buffer in the container.
    pub offset: u64,
    /// Byte length of the slot's buffer, a whole number of sectors.
    pub length: u64,
    pub timestamp: u32,
}

/// A chunk slot that could not be decoded.
#[derive(Debug)]
pub struct ChunkFailure {
    pub slot: u32,
    pub error: ChunkError,
}

/// Why a container could not be read at all.
#[derive(Debug, Clone, Copy, PartialEq, Eq, Structural)]
pub enum RegionError {
    /// The file name does not have the form "r.<x>.<z>.<extension>".
    BadFilename,
    /// The container is shorter than its header.
    HeaderTooShort,
}

/// A decoded container: its coordinates, its chunks in slot order, and the
/// slots that failed.
#[derive(Debug)]
pub struct Region {
    pub x: i64,
    pub z: i64,
    pub chunks: Vec<Chunk>,
    pub failures: Vec<ChunkFailure>,
}

/// The location word of a slot.
pub open spec fn location_word(data: Seq<u8>, slot: nat) -> nat {
    be_u32(data, 4 * slot as int)
}

/// The directory entry of a slot whose location word is not zero.
pub open spec fn slot_entry(data: Seq<u8>, slot: nat) -> ChunkSlot {
    ChunkSlot {
        index: slot as u32,
        offset: (be_u24(data, 4 * slot as int) * 4096) as u64,
        length: (data[4 * slot as int + 3] * 4096) as u64,
        timestamp: be_u32(data, 4096 + 4 * slot as int) as u32,
    }
}

/// The populated slots among the first `n`, in slot order.
pub open spec fn slots_from(data: Seq<u8>, n: nat) -> Seq<ChunkSlot>
    decreases n,
{
    if n == 0 {
        Seq::empty()
    } else if location_word(data, (n - 1) as nat) != 0 {
        slots_from(data, (n - 1) as nat).push(slot_entry(data, (n - 1) as nat))
    } else {
        slots_from(data, (n - 1) as nat)
    }
}

/// The populated slots of a container, in slot order.
pub open spec fn directory(data: Seq<u8>) -> Seq<ChunkSlot> {
    slots_from(data, 1024)
}

/// `v`, but no more than `len`.
pub open spec fn clip(v: int, len: int) -> int {
    if v < len {
        v
    } else {
        len
    }
}

/// The bytes of a slot's buffer that the container holds.
pub open spec fn slot_buffer(data: Seq<u8>, s: ChunkSlot) -> Seq<u8> {
    data.subrange(
        clip(s.offset as int, data.len() as int),
        clip(s.offset + s.length, data.len() as int),
    )
}

/// The block map that a slot decodes into, or `None` when it fails.
pub open spec fn slot_blocks(data: Seq<u8>, s: ChunkSlot) -> Option<Map<Coordinate, BlockModel>> {
    let buf = slot_buffer(data, s);
    if !payload_fits(buf) {
        None
    } else {
        match chunk_level(buf) {
            None => None,
            Some(level) => level_blocks(level),
        }
    }
}

/// The slots among the first `n` of `slots` that decode.
pub open spec fn decoded_slots(data: Seq<u8>, slots: Seq<ChunkSlot>, n: nat) -> Seq<ChunkSlot>
    decreases n,
{
    if n == 0 || n > slots.len() {
        Seq::empty()
    } else if slot_blocks(data, slots[n - 1]) is Some {
        decoded_slots(data, slots, (n - 1) as nat).push(slots[n - 1])
    } else {
        decoded_slots(data, slots, (n - 1) as nat)
    }
}

/// The slots among the first `n` of `slots` that fail.
pub open spec fn failed_slots(data: Seq<u8>, slots: Seq<ChunkSlot>, n: nat) -> Seq<ChunkSlot>
    decreases n,
{
    if n == 0 || n > slots.len() {
        Seq::empty()
    } else if slot_blocks(data, slots[n - 1]) is None {
        failed_slots(data, slots, (n - 1) as nat).push(slots[n - 1])
    } else {
        failed_slots(data, slots, (n - 1) as nat)
    }
}

/// The chunks hold, in order, the slots of `decoded` with their blocks.
pub open spec fn chunks_match(data: Seq<u8>, chunks: Seq<Chunk>, decoded: Seq<ChunkSlot>) -> bool {
    &&& chunks.len() == decoded.len()
    &&& forall|i: int|
        0 <= i < chunks.len() ==> {
            &&& #[trigger] chunks[i].timestamp == decoded[i].timestamp
            &&& slot_blocks(data, decoded[i]) == Some(chunks[i].blocks@)
        }
}

/// The failures name, in order, the slots of `failed`, each with the error
/// that its buffer ends in.
pub open spec fn failures_match(data: Seq<u8>, failures: Seq<ChunkFailure>, failed: Seq<ChunkSlot>) -> bool {
    &&& failures.len() == failed.len()
    &&& forall|i: int|
        0 <= i < failures.len() ==> {
            &&& #[trigger] failures[i].slot == failed[i].index
            &&& chunk_error_explained(slot_buffer(data, failed[i]), failures[i].error)
        }
}

/// Reads the directory of populated slots from a container's header.
pub fn read_header(data: &[u8]) -> (r: Result<Vec<ChunkSlot>, RegionError>)
    ensures
        data@.len() < 8192 ==> r == Err::<Vec<ChunkSlot>, RegionError>(RegionError::HeaderTooShort),
        data@.len() >= 8192 ==> (r matches Ok(slots) && slots@ == directory(data@)),
{
    if data.len() < HEADER_BYTES {
        return Err(RegionError::HeaderTooShort);
    }
    let mut slots: Vec<ChunkSlot> = Vec::new();
    let mut i: usize = 0;
    while i < SLOT_COUNT
        invariant
            i <= 1024,
            data@.len() >= 8192,
            slots@ == slots_from(data@, i as nat),
        decreases 1024 - i,
    {
        let location = read_be_u32(data, 4 * i);
        if location != 0 {
            let sectors = read_be_u24(data, 4 * i);
            let timestamp = read_be_u32(data, 4096 + 4 * i);
            slots.push(
                ChunkSlot {
                    index: i as u32,
                    offset: sectors as u64 * SECTOR_BYTES,
                    length: data[4 * i + 3] as u64 * SECTOR_BYTES,
                    timestamp,
                },
            );
        }
        i += 1;
    }
    Ok(slots)
}

proof fn lemma_directory_bounds(data: Seq<u8>, n: nat)
    ensures
        forall|k: int|
            0 <= k < slots_from(data, n).len() ==> #[trigger] slots_from(data, n)[k].offset
                <= 0xf_ffff_f000 && slots_from(data, n)[k].length <= 0xf_f000,
    decreases n,
{
    if n > 0 {
        lemma_directory_bounds(data, (n - 1) as nat);
        let slot = (n - 1) as nat;
        let b0 = data[4 * slot as int];
        let b1 = data[4 * slot as int + 1];
        let b2 = data[4 * slot as int + 2];
        let b3 = data[4 * slot as int + 3];
        assert(be_u24(data, 4 * slot as int) * 4096 <= 0xf_ffff_f000) by (nonlinear_arith)
            requires
                be_u24(data, 4 * slot as int) == b0 as nat * 0x1_0000 + b1 as nat * 0x100 + b2 as nat,
                b0 <= 255,
                b1 <= 255,
                b2 <= 255,
        ;
        assert(b3 * 4096 <= 0xf_f000) by (nonlinear_arith)
            requires
                b3 <= 255,
        ;
        let e = slot_entry(data, slot);
        assert(e.offset <= 0xf_ffff_f000);
        assert(e.length <= 0xf_f000);
        let prev = slots_from(data, slot);
        if location_word(data, slot) != 0 {
            assert forall|k: int| 0 <= k < slots_from(data, n).len() implies #[trigger] slots_from(
                data,
                n,
            )[k].offset <= 0xf_ffff_f000 && slots_from(data, n)[k].length <= 0xf_f000 by {
                if k < prev.len() {
                    assert(slots_from(data, n)[k] == prev[k]);
                }
            }
        }
    }
}

proof fn lemma_slots_from_listing(data: Seq<u8>, n: nat)
    requires
        n <= 1024,
    ensures
        forall|k: int|
            0 <= k < slots_from(data, n).len() ==> {
                let e = #[trigger] slots_from(data, n)[k];
                &&& e.index < n
                &&& location_word(data, e.index as nat) != 0
                &&& e == slot_entry(data, e.index as nat)
            },
        forall|s: nat|
            s < n && #[trigger] location_word(data, s) != 0 ==> exists|k: int|
                0 <= k < slots_from(data, n).len() && (#[trigger] slots_from(data, n)[k]).index == s,
        forall|j: int, k: int|
            0 <= j < k < slots_from(data, n).len() ==> (#[trigger] slots_from(data, n)[j]).index
                < (#[trigger] slots_from(data, n)[k]).index,
    decreases n,
{
    if n > 0 {
        let last = (n - 1) as nat;
        lemma_slots_from_listing(data, last);
        let prev = slots_from(data, last);
        let cur = slots_from(data, n);
        assert forall|s: nat| s < n && location_word(data, s) != 0 implies exists|k: int|
            0 <= k < cur.len() && (#[trigger] cur[k]).index == s by {
            if s < last {
                let k = choose|k: int| 0 <= k < prev.len() && (#[trigger] prev[k]).index == s;
                assert(cur[k] == prev[k]);
            } else {
                assert(cur[cur.len() - 1] == slot_entry(data, last));
            }
        }
    }
}

/// A slot whose location word is zero yields nothing: the directory lists
/// exactly the slots with a nonzero location word, each once, in slot order.
pub proof fn lemma_directory_lists_populated_slots(data: Seq<u8>)
    ensures
        forall|k: int|
            0 <= k < directory(data).len() ==> {
                let e = #[trigger] directory(data)[k];
                &&& e.index < 1024
                &&& location_word(data, e.index as nat) != 0
                &&& e == slot_entry(data, e.index as nat)
            },
        forall|s: nat|
            s < 1024 && #[trigger] location_word(data, s) != 0 ==> exists|k: int|
                0 <= k < directory(data).len() && (#[trigger] directory(data)[k]).index == s,
        forall|j: int, k: int|
            0 <= j < k < directory(data).len() ==> (#[trigger] directory(data)[j]).index
                < (#[trigger] directory(data)[k]).index,
{
    lemma_slots_from_listing(data, 1024);
    let d = slots_from(data, 1024);
    assert forall|s: nat| s < 1024 && #[trigger] location_word(data, s) != 0 implies exists|k: int|
        0 <= k < directory(data).len() && (#[trigger] directory(data)[k]).index == s by {
        let k = choose|k: int| 0 <= k < d.len() && (#[trigger] d[k]).index == s;
        assert(directory(data)[k].index == s);
    }
}

proof fn lemma_outcomes_partition(data: Seq<u8>, slots: Seq<ChunkSlot>, n: nat)
    requires
        n <= slots.len(),
    ensures
        decoded_slots(data, slots, n).len() + failed_slots(data, slots, n).len() == n,
    decreases n,
{
    if n > 0 {
        lemma_outcomes_partition(data, slots, (n - 1) as nat);
    }
}

/// Every populated slot yields exactly one chunk or one failure, so a
/// container yields at most 1024 of them.
pub proof fn lemma_one_outcome_per_populated_slot(data: Seq<u8>)
    ensures
        decoded_slots(data, directory(data), directory(data).len()).len() + failed_slots(
            data,
            directory(data),
            directory(data).len(),
        ).len() == directory(data).len(),
        directory(data).len() <= 1024,
{
    lemma_outcomes_partition(data, directory(data), directory(data).len());
    lemma_directory_length(data, 1024);
}

proof fn lemma_directory_length(data: Seq<u8>, n: nat)
    ensures
        slots_from(data, n).len() <= n,
    decreases n,
{
    if n > 0 {
        lemma_directory_length(data, (n - 1) as nat);
    }
}

/// A container whose location words are all zero lists no slot, and so
/// yields no chunk and no failure.
pub proof fn lemma_unpopulated_container(data: Seq<u8>)
    requires
        forall|s: nat| s < 1024 ==> #[trigger] location_word(data, s) == 0,
    ensures
        directory(data) == Seq::<ChunkSlot>::empty(),
        decoded_slots(data, directory(data), directory(data).len()).len() == 0,
        failed_slots(data, directory(data), directory(data).len()).len() == 0,
{
    lemma_directory_lists_populated_slots(data);
    if directory(data).len() > 0 {
        let e = directory(data)[0];
        assert(location_word(data, e.index as nat) != 0);
    }
    assert(directory(data) =~= Seq::<ChunkSlot>::empty());
}

/// A container whose only populated slot is `s` lists that slot alone, and
/// gives one chunk when it decodes, one failure when it does not.
pub proof fn lemma_lone_populated_slot(data: Seq<u8>, s: nat)
    requires
        s < 1024,
        location_word(data, s) != 0,
        forall|t: nat| t < 1024 && t != s ==> location_word(data, t) == 0,
    ensures
        directory(data) == seq![slot_entry(data, s)],
        decoded_slots(data, directory(data), 1).len() == (if slot_blocks(
            data,
            slot_entry(data, s),
        ) is Some {
            1nat
        } else {
            0nat
        }),
        decoded_slots(data, directory(data), 1).len() + failed_slots(
            data,
            directory(data),
            1,
        ).len() == 1,
{
    lemma_lone_slot_prefix(data, s, 1024);
    lemma_outcomes_partition(data, directory(data), 1);
}

proof fn lemma_lone_slot_prefix(data: Seq<u8>, s: nat, n: nat)
    requires
        forall|t: nat| t < n && t != s ==> location_word(data, t) == 0,
        location_word(data, s) != 0,
    ensures
        n <= s ==> slots_from(data, n) == Seq::<ChunkSlot>::empty(),
        n > s ==> slots_from(data, n) == seq![slot_entry(data, s)],
    decreases n,
{
    if n > 0 {
        lemma_lone_slot_prefix(data, s, (n - 1) as nat);
        if n - 1 == s {
            assert(Seq::<ChunkSlot>::empty().push(slot_entry(data, s)) =~= seq![slot_entry(data, s)]);
        }
    }
}

impl Region {
    /// Decodes every populated slot of a container in slot order; a slot that
    /// fails is recorded and the others go on.
    pub fn mca_to_chunks(data: &[u8]) -> (r: Result<(Vec<Chunk>, Vec<ChunkFailure>), RegionError>)
        ensures
            data@.len() < 8192 ==> (r matches Err(RegionError::HeaderTooShort)),
            data@.len() >= 8192 ==> match r {
                Ok((chunks, failures)) => {
                    let slots = directory(data@);
                    &&& chunks_match(data@, chunks@, decoded_slots(data@, slots, slots.len()))
                    &&& failures_match(data@, failures@, failed_slots(data@, slots, slots.len()))
                },
                Err(_) => false,
            },
    {
        let slots = read_header(data)?;
        proof {
            lemma_directory_bounds(data@, 1024);
        }
        let mut chunks: Vec<Chunk> = Vec::new();
        let mut failures: Vec<ChunkFailure> = Vec::new();
        let len = data.len();
        let mut i: usize = 0;
        while i < slots.len()
            invariant
                i <= slots@.len(),
                len == data@.len(),
                slots@ == directory(data@),
                forall|k: int|
                    0 <= k < slots@.len() ==> #[trigger] slots@[k].offset <= 0xf_ffff_f000
                        && slots@[k].length <= 0xf_f000,
                chunks_match(data@, chunks@, decoded_slots(data@, slots@, i as nat)),
                failures_match(data@, failures@, failed_slots(data@, slots@, i as nat)),
            decreases slots.len() - i,
        {
            let s = slots[i];
            let lo: usize = if s.offset < len as u64 {
                s.offset as usize
            } else {
                len
            };
            let end: u64 = s.offset + s.length;
            let hi: usize = if end < len as u64 {
                end as usize
            } else {
                len
            };
            let buf = vstd::slice::slice_to_vec(vstd::slice::slice_subrange(data, lo, hi));
            assert(buf@ == slot_buffer(data@, s));
            match Chunk::new(s.timestamp, buf) {
                Ok(c) => {
                    assert(slot_blocks(data@, s) == Some(c.blocks@));
                    assert(failed_slots(data@, slots@, (i + 1) as nat) == failed_slots(
                        data@,
                        slots@,
                        i as nat,
                    ));
                    chunks.push(c);
                    assert(decoded_slots(data@, slots@, (i + 1) as nat) == decoded_slots(
                        data@,
                        slots@,
                        i as nat,
                    ).push(s));
                },
                Err(e) => {
                    assert(chunk_error_explained(slot_buffer(data@, s), e));
                    assert(slot_blocks(data@, s) is None);
                    let ghost before = failures@;
                    failures.push(ChunkFailure { slot: s.index, error: e });
                    assert(failed_slots(data@, slots@, (i + 1) as nat) == failed_slots(
                        data@,
                        slots@,
                        i as nat,
                    ).push(s));
                    let ghost failed = failed_slots(data@, slots@, (i + 1) as nat);
                    assert forall|j: int| 0 <= j < failures@.len() implies {
                        &&& #[trigger] failures@[j].slot == failed[j].index
                        &&& chunk_error_explained(slot_buffer(data@, failed[j]), failures@[j].error)
                    } by {
                        if j < before.len() {
                            assert(failures@[j] == before[j]);
                        }
                    }
                },
            }
            i += 1;
        }
        Ok((chunks, failures))
    }

    /// Reads a container: its coordinates from its path, its chunks from its bytes.
    pub fn new(region_filename: &str, data: &[u8]) -> (r: Result<Region, RegionError>)
        ensures
            region_coords(region_filename@) is None ==> (r matches Err(RegionError::BadFilename)),
            region_coords(region_filename@) matches Some((x, z)) ==> {
                &&& data@.len() < 8192 ==> (r matches Err(RegionError::HeaderTooShort))
                &&& data@.len() >= 8192 ==> match r {
                    Ok(reg) => {
                        let slots = directory(data@);
                        &&& reg.x == x
                        &&& reg.z == z
                        &&& chunks_match(data@, reg.chunks@, decoded_slots(data@, slots, slots.len()))
                        &&& failures_match(data@, reg.failures@, failed_slots(data@, slots, slots.len()))
                    },
                    Err(_) => false,
                }
            },
    {
        let (x, z) = match region_filename_parser(region_filename) {
            Some(c) => c,
            None => return Err(RegionError::BadFilename),
        };
        let (chunks, failures) = Region::mca_to_chunks(data)?;
        Ok(Region { x, z, chunks, failures })
    }
}

} // verus!
