//! GPT partition entries: 128 bytes each, an all-zero type GUID marking an
//! unused slot.
use crate::bytes::{append_bytes, read_u64_le, to_block, u64_le};
use crate::uuid::{all_zero, Uuid};
use vstd::bytes::{lemma_auto_spec_u64_to_from_le_bytes, spec_u64_from_le_bytes, spec_u64_to_le_bytes};
use vstd::prelude::*;

verus! {

/// The length of a partition entry in bytes.
pub const PARTITION_LBA_SIZE: usize = 128;

/// The number of partition slots that a lookup may ask for.
pub const MIN_PARTITION_NUM: usize = 128;

/// The fixed-width name field of a partition entry.
#[derive(Clone, Debug, PartialEq, Eq)]
pub struct PartitionName(pub [u8; 72]);

impl View for PartitionName {
    type V = Seq<u8>;

    open spec fn view(&self) -> Seq<u8> {
        self.0@
    }
}

impl PartitionName {
    /// Copies a name out of a 72-byte run.
    pub fn from_bytes(bytes: &[u8]) -> (r: Self)
        requires
            bytes@.len() == 72,
        ensures
            r@ == bytes@,
    {
        let r = PartitionName(to_block::<72>(bytes, 0));
        assert(bytes@.subrange(0, 72) =~= bytes@);
        r
    }
}

/// A GPT partition entry.
#[derive(Clone, Debug, PartialEq, Eq)]
pub struct Partition {
    /// GUID of the partition type.
    pub part_type_guid: Uuid,
    /// UUID of the partition.
    pub part_guid: Uuid,
    /// First LBA of the partition.
    pub start_lba: u64,
    /// Last LBA of the partition.
    pub end_lba: u64,
    /// Partition flags.
    pub attrs: u64,
    /// Partition name.
    pub name: PartitionName,
}

/// The fields of a partition entry as values.
pub struct PartitionView {
    pub part_type_guid: Seq<u8>,
    pub part_guid: Seq<u8>,
    pub start_lba: u64,
    pub end_lba: u64,
    pub attrs: u64,
    pub name: Seq<u8>,
}

impl View for Partition {
    type V = PartitionView;

    open spec fn view(&self) -> PartitionView {
        PartitionView {
            part_type_guid: self.part_type_guid@,
            part_guid: self.part_guid@,
            start_lba: self.start_lba,
            end_lba: self.end_lba,
            attrs: self.attrs,
            name: self.name@,
        }
    }
}

/// True when the entry in the first 128 bytes of `s` is in use: its type GUID
/// is not all zero.
pub open spec fn entry_present(s: Seq<u8>) -> bool {
    !all_zero(s.subrange(0, 16))
}

/// The partition entry that the first 128 bytes of `s` describe.
pub open spec fn partition_of(s: Seq<u8>) -> PartitionView {
    PartitionView {
        part_type_guid: s.subrange(0, 16),
        part_guid: s.subrange(16, 32),
        start_lba: spec_u64_from_le_bytes(s.subrange(32, 40)),
        end_lba: spec_u64_from_le_bytes(s.subrange(40, 48)),
        attrs: spec_u64_from_le_bytes(s.subrange(48, 56)),
        name: s.subrange(56, 128),
    }
}

/// The 128 on-disk bytes of a partition entry.
pub open spec fn partition_bytes(p: PartitionView) -> Seq<u8> {
    p.part_type_guid + p.part_guid + spec_u64_to_le_bytes(p.start_lba) + spec_u64_to_le_bytes(
        p.end_lba,
    ) + spec_u64_to_le_bytes(p.attrs) + p.name
}

/// The all-zero entry.
pub open spec fn empty_partition() -> PartitionView {
    PartitionView {
        part_type_guid: Seq::new(16, |i: int| 0u8),
        part_guid: Seq::new(16, |i: int| 0u8),
        start_lba: 0,
        end_lba: 0,
        attrs: 0,
        name: Seq::new(72, |i: int| 0u8),
    }
}

/// Decodes the entry stored at `start`, whether or not it is in use.
pub(crate) fn entry_at(blk: &[u8], start: usize) -> (r: Partition)
    requires
        start + 128 <= blk@.len(),
    ensures
        r@ == partition_of(blk@.subrange(start as int, start + 128)),
{
    let _len = blk.len();
    let s = Ghost(blk@.subrange(start as int, start + 128));
    let part_type_guid = Uuid(to_block::<16>(blk, start));
    let part_guid = Uuid(to_block::<16>(blk, start + 16));
    let start_lba = read_u64_le(&blk[start + 32..start + 40]);
    let end_lba = read_u64_le(&blk[start + 40..start + 48]);
    let attrs = read_u64_le(&blk[start + 48..start + 56]);
    let name = PartitionName(to_block::<72>(blk, start + 56));
    let p = Partition { part_type_guid, part_guid, start_lba, end_lba, attrs, name };
    assert(p@.part_type_guid =~= s@.subrange(0, 16));
    assert(p@.part_guid =~= s@.subrange(16, 32));
    assert(blk@.subrange(start + 32, start + 40) =~= s@.subrange(32, 40));
    assert(blk@.subrange(start + 40, start + 48) =~= s@.subrange(40, 48));
    assert(blk@.subrange(start + 48, start + 56) =~= s@.subrange(48, 56));
    assert(p@.name =~= s@.subrange(56, 128));
    p
}

impl Default for Partition {
    fn default() -> (r: Self)
        ensures
            r@ == empty_partition(),
    {
        let r = Partition {
            part_type_guid: Uuid([0u8; 16]),
            part_guid: Uuid([0u8; 16]),
            start_lba: 0,
            end_lba: 0,
            attrs: 0,
            name: PartitionName([0u8; 72]),
        };
        assert(r@.part_type_guid =~= empty_partition().part_type_guid);
        assert(r@.part_guid =~= empty_partition().part_guid);
        assert(r@.name =~= empty_partition().name);
        r
    }
}

impl Partition {
    /// Parses the entry in the first 128 bytes of `blk`; `None` when the slot is
    /// unused, that is when its type GUID is all zero.
    pub fn deserialize(blk: &[u8]) -> (r: Option<Self>)
        requires
            blk@.len() >= 128,
        ensures
            r is Some <==> entry_present(blk@),
            r is Some ==> r->Some_0@ == partition_of(blk@),
    {
        let p = entry_at(blk, 0);
        assert(blk@.subrange(0, 128).subrange(0, 16) =~= blk@.subrange(0, 16));
        assert(partition_of(blk@.subrange(0, 128)) =~= partition_of(blk@)) by {
            assert(blk@.subrange(0, 128).subrange(16, 32) =~= blk@.subrange(16, 32));
            assert(blk@.subrange(0, 128).subrange(32, 40) =~= blk@.subrange(32, 40));
            assert(blk@.subrange(0, 128).subrange(40, 48) =~= blk@.subrange(40, 48));
            assert(blk@.subrange(0, 128).subrange(48, 56) =~= blk@.subrange(48, 56));
            assert(blk@.subrange(0, 128).subrange(56, 128) =~= blk@.subrange(56, 128));
        }
        if p.part_type_guid.validate() {
            Some(p)
        } else {
            None
        }
    }

    /// The 128 on-disk bytes of this entry.
    pub fn serialize(&self) -> (r: [u8; 128])
        ensures
            r@ == partition_bytes(self@),
    {
        let mut v: Vec<u8> = Vec::new();
        append_bytes(&mut v, self.part_type_guid.0.as_slice());
        append_bytes(&mut v, self.part_guid.0.as_slice());
        append_bytes(&mut v, u64_le(self.start_lba).as_slice());
        append_bytes(&mut v, u64_le(self.end_lba).as_slice());
        append_bytes(&mut v, u64_le(self.attrs).as_slice());
        append_bytes(&mut v, self.name.0.as_slice());
        let r = to_block::<128>(v.as_slice(), 0);
        assert(r@ =~= partition_bytes(self@));
        r
    }
}

/// An entry whose type GUID is not all zero survives serializing and parsing:
/// its bytes mark the slot in use, and decoding them gives every field back.
pub proof fn lemma_partition_round_trip(p: Partition)
    requires
        !all_zero(p.part_type_guid@),
    ensures
        partition_bytes(p@).len() == 128,
        entry_present(partition_bytes(p@)),
        partition_of(partition_bytes(p@)) == p@,
{
    lemma_auto_spec_u64_to_from_le_bytes();
    let s = partition_bytes(p@);
    assert(s.subrange(0, 16) =~= p.part_type_guid@);
    assert(s.subrange(16, 32) =~= p.part_guid@);
    assert(s.subrange(32, 40) =~= spec_u64_to_le_bytes(p.start_lba));
    assert(s.subrange(40, 48) =~= spec_u64_to_le_bytes(p.end_lba));
    assert(s.subrange(48, 56) =~= spec_u64_to_le_bytes(p.attrs));
    assert(s.subrange(56, 128) =~= p.name@);
}

} // verus!
