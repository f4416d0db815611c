//! The legacy boot sector at LBA 0 that protects a GPT disk, and its
//! sixteen-byte partition records.
use crate::bytes::{append_bytes, read_u16_le, read_u32_le, to_block, u16_le, u32_le};
use crate::err::MBRError;
use vstd::bytes::{
    lemma_auto_spec_u16_to_from_le_bytes, lemma_auto_spec_u32_to_from_le_bytes,
    spec_u16_from_le_bytes, spec_u16_to_le_bytes, spec_u32_from_le_bytes, spec_u32_to_le_bytes,
};
use vstd::prelude::*;

verus! {

/// The LBA of the protective MBR.
pub const PROTECTIVE_MBR_LBA: usize = 0;

/// The length of a boot sector in bytes.
pub const MBR_SIZE: usize = 512;

/// The length of a partition record in bytes.
pub const PART_RECORD_SIZE: usize = 16;

/// A partition record, MBR-style.
#[derive(Copy, Clone, Debug, Default, PartialEq, Eq, Structural)]
pub struct PartRecord {
    /// Bit 7 set if partition is active (bootable)
    pub boot_indicator: u8,
    /// CHS address of partition start: 8-bit value of head in CHS address
    pub start_head: u8,
    /// CHS address of partition start: upper 2 bits are 8th-9th bits of cylinder, lower 6 bits are sector
    pub start_sector: u8,
    /// CHS address of partition start: lower 8 bits of cylinder
    pub start_track: u8,
    /// Partition type.
    pub os_type: u8,
    /// CHS address of partition end: 8-bit value of head in CHS address
    pub end_head: u8,
    /// CHS address of partition end: upper 2 bits are 8th-9th bits of cylinder, lower 6 bits are sector
    pub end_sector: u8,
    /// CHS address of partition end: lower 8 bits of cylinder
    pub end_track: u8,
    /// LBA of start of partition
    pub lb_start: u32,
    /// Number of sectors in partition
    pub lb_size: u32,
}

/// The record that sixteen bytes describe.
pub open spec fn record_of(s: Seq<u8>) -> PartRecord {
    PartRecord {
        boot_indicator: s[0],
        start_head: s[1],
        start_sector: s[2],
        start_track: s[3],
        os_type: s[4],
        end_head: s[5],
        end_sector: s[6],
        end_track: s[7],
        lb_start: spec_u32_from_le_bytes(s.subrange(8, 12)),
        lb_size: spec_u32_from_le_bytes(s.subrange(12, 16)),
    }
}

/// The sixteen on-disk bytes of a record.
pub open spec fn record_bytes(r: PartRecord) -> Seq<u8> {
    seq![
        r.boot_indicator,
        r.start_head,
        r.start_sector,
        r.start_track,
        r.os_type,
        r.end_head,
        r.end_sector,
        r.end_track,
    ] + spec_u32_to_le_bytes(r.lb_start) + spec_u32_to_le_bytes(r.lb_size)
}

/// The protective record that spans a disk of `lb_size` blocks, or as many
/// as a record can express when `lb_size` is `None`.
pub open spec fn protective_record(lb_size: Option<u32>) -> PartRecord {
    PartRecord {
        boot_indicator: 0x00,
        start_head: 0x00,
        start_sector: 0x02,
        start_track: 0x00,
        os_type: 0xEE,
        end_head: 0xFF,
        end_sector: 0xFF,
        end_track: 0xFF,
        lb_start: 1,
        lb_size: match lb_size {
            Some(n) => n,
            None => 0xFFFF_FFFF,
        },
    }
}

/// The all-zero record.
pub open spec fn zero_record() -> PartRecord {
    PartRecord {
        boot_indicator: 0,
        start_head: 0,
        start_sector: 0,
        start_track: 0,
        os_type: 0,
        end_head: 0,
        end_sector: 0,
        end_track: 0,
        lb_start: 0,
        lb_size: 0,
    }
}

/// Decodes the record stored at `start`.
fn record_at(blk: &[u8], start: usize) -> (r: PartRecord)
    requires
        start + 16 <= blk@.len(),
    ensures
        r == record_of(blk@.subrange(start as int, start + 16)),
{
    let _len = blk.len();
    let s = Ghost(blk@.subrange(start as int, start + 16));
    let lb_start = read_u32_le(&blk[start + 8..start + 12]);
    let lb_size = read_u32_le(&blk[start + 12..start + 16]);
    assert(blk@.subrange(start + 8, start + 12) =~= s@.subrange(8, 12));
    assert(blk@.subrange(start + 12, start + 16) =~= s@.subrange(12, 16));
    PartRecord {
        boot_indicator: blk[start],
        start_head: blk[start + 1],
        start_sector: blk[start + 2],
        start_track: blk[start + 3],
        os_type: blk[start + 4],
        end_head: blk[start + 5],
        end_sector: blk[start + 6],
        end_track: blk[start + 7],
        lb_start,
        lb_size,
    }
}

impl PartRecord {
    /// Creates a protective partition record for a disk of `lb_size` blocks,
    /// or for the largest size a record can express when `lb_size` is `None`.
    pub fn new_protective(lb_size: Option<u32>) -> (r: Self)
        ensures
            r == protective_record(lb_size),
    {
        let size = match lb_size {
            Some(n) => n,
            None => 0xFFFF_FFFF,
        };
        PartRecord {
            boot_indicator: 0x00,
            start_head: 0x00,
            start_sector: 0x02,
            start_track: 0x00,
            os_type: 0xEE,
            end_head: 0xFF,
            end_sector: 0xFF,
            end_track: 0xFF,
            lb_start: 1,
            lb_size: size,
        }
    }

    /// Creates an all-zero partition record.
    pub fn zero() -> (r: Self)
        ensures
            r == zero_record(),
    {
        PartRecord {
            boot_indicator: 0x00,
            start_head: 0x00,
            start_sector: 0x00,
            start_track: 0x00,
            os_type: 0x00,
            end_head: 0x00,
            end_sector: 0x00,
            end_track: 0x00,
            lb_start: 0,
            lb_size: 0,
        }
    }

    /// Parses a sixteen-byte partition record.
    pub fn from_bytes(bytes: &[u8]) -> (r: Result<Self, MBRError>)
        ensures
            bytes@.len() == 16 ==> r == Ok::<PartRecord, MBRError>(record_of(bytes@)),
            bytes@.len() != 16 ==> r == Err::<PartRecord, MBRError>(
                MBRError::InvalidPartitionLength,
            ),
    {
        if bytes.len() != PART_RECORD_SIZE {
            return Err(MBRError::InvalidPartitionLength);
        }
        let r = record_at(bytes, 0);
        assert(bytes@.subrange(0, 16) =~= bytes@);
        Ok(r)
    }

    /// The sixteen on-disk bytes of this record.
    pub fn to_bytes(&self) -> (r: [u8; 16])
        ensures
            r@ == record_bytes(*self),
    {
        let mut v: Vec<u8> = Vec::new();
        v.push(self.boot_indicator);
        v.push(self.start_head);
        v.push(self.start_sector);
        v.push(self.start_track);
        v.push(self.os_type);
        v.push(self.end_head);
        v.push(self.end_sector);
        v.push(self.end_track);
        append_bytes(&mut v, u32_le(self.lb_start).as_slice());
        append_bytes(&mut v, u32_le(self.lb_size).as_slice());
        let r = to_block::<16>(v.as_slice(), 0);
        assert(r@ =~= record_bytes(*self));
        r
    }
}

/// Decoding the bytes of a record gives the record back.
pub proof fn lemma_record_round_trip(r: PartRecord)
    ensures
        record_bytes(r).len() == 16,
        record_of(record_bytes(r)) == r,
{
    lemma_auto_spec_u32_to_from_le_bytes();
    let s = record_bytes(r);
    assert(s.subrange(8, 12) =~= spec_u32_to_le_bytes(r.lb_start));
    assert(s.subrange(12, 16) =~= spec_u32_to_le_bytes(r.lb_size));
}

/// The protective MBR.
#[derive(Clone, Debug)]
pub struct ProtectiveMBR {
    pub bootcode: [u8; 440],
    pub disk_signature: [u8; 4],
    pub unknown: u16,
    pub partitions: [PartRecord; 4],
    pub signature: [u8; 2],
}

/// The fields of a protective MBR as values.
pub struct MbrView {
    pub bootcode: Seq<u8>,
    pub disk_signature: Seq<u8>,
    pub unknown: u16,
    pub partitions: Seq<PartRecord>,
    pub signature: Seq<u8>,
}

impl View for ProtectiveMBR {
    type V = MbrView;

    open spec fn view(&self) -> MbrView {
        MbrView {
            bootcode: self.bootcode@,
            disk_signature: self.disk_signature@,
            unknown: self.unknown,
            partitions: self.partitions@,
            signature: self.signature@,
        }
    }
}

impl Default for ProtectiveMBR {
    fn default() -> (r: Self)
        ensures
            r@ == (MbrView {
                bootcode: Seq::new(440, |i: int| 0u8),
                disk_signature: Seq::new(4, |i: int| 0u8),
                unknown: 0,
                partitions: Seq::new(4, |i: int| zero_record()),
                signature: Seq::new(2, |i: int| 0u8),
            }),
    {
        let r = ProtectiveMBR {
            bootcode: [0u8; 440],
            disk_signature: [0u8; 4],
            unknown: 0,
            partitions: [PartRecord::zero(), PartRecord::zero(), PartRecord::zero(), PartRecord::zero()],
            signature: [0u8; 2],
        };
        assert(r@.bootcode =~= Seq::new(440, |i: int| 0u8));
        assert(r@.disk_signature =~= Seq::new(4, |i: int| 0u8));
        assert(r@.partitions =~= Seq::new(4, |i: int| zero_record()));
        assert(r@.signature =~= Seq::new(2, |i: int| 0u8));
        r
    }
}

/// The boot-sector signature 0x55 0xAA.
pub open spec fn mbr_signature() -> Seq<u8> {
    seq![0x55u8, 0xAAu8]
}

/// The protective MBR that the first 512 bytes of `s` describe.
pub open spec fn mbr_of(s: Seq<u8>) -> MbrView {
    MbrView {
        bootcode: s.subrange(0, 440),
        disk_signature: s.subrange(440, 444),
        unknown: spec_u16_from_le_bytes(s.subrange(444, 446)),
        partitions: seq![
            record_of(s.subrange(446, 462)),
            record_of(s.subrange(462, 478)),
            record_of(s.subrange(478, 494)),
            record_of(s.subrange(494, 510)),
        ],
        signature: s.subrange(510, 512),
    }
}

/// The 512 on-disk bytes of a protective MBR.
pub open spec fn mbr_bytes(m: MbrView) -> Seq<u8> {
    m.bootcode + m.disk_signature + spec_u16_to_le_bytes(m.unknown) + record_bytes(m.partitions[0])
        + record_bytes(m.partitions[1]) + record_bytes(m.partitions[2]) + record_bytes(
        m.partitions[3],
    ) + m.signature
}

/// What parsing `s` as a boot sector gives: a length error when it is shorter
/// than 512 bytes, else a signature error unless bytes 510 and 511 are 0x55
/// 0xAA, else the protective MBR that its first 512 bytes describe.
pub open spec fn mbr_result(s: Seq<u8>) -> Result<MbrView, MBRError> {
    if s.len() < 512 {
        Err(MBRError::InvalidMBRLength)
    } else if s.subrange(510, 512) != mbr_signature() {
        Err(MBRError::InvalidMBRSignature)
    } else {
        Ok(mbr_of(s))
    }
}

impl ProtectiveMBR {
    /// Parses a boot sector from the first 512 bytes of `blk`.
    pub fn deserialize(blk: &[u8]) -> (r: Result<Self, MBRError>)
        ensures
            r is Ok ==> mbr_result(blk@) == Ok::<MbrView, MBRError>(r->Ok_0@),
            r is Err ==> mbr_result(blk@) == Err::<MbrView, MBRError>(r->Err_0),
    {
        if blk.len() < MBR_SIZE {
            return Err(MBRError::InvalidMBRLength);
        }
        let bootcode = to_block::<440>(blk, 0);
        let disk_signature = to_block::<4>(blk, 440);
        let unknown = read_u16_le(&blk[444..446]);
        let partitions = [
            record_at(blk, 446),
            record_at(blk, 462),
            record_at(blk, 478),
            record_at(blk, 494),
        ];
        let signature = to_block::<2>(blk, 510);
        if signature[0] != 0x55 || signature[1] != 0xAA {
            assert(signature@ != mbr_signature());
            return Err(MBRError::InvalidMBRSignature);
        }
        assert(signature@ =~= mbr_signature());
        let m = ProtectiveMBR { bootcode, disk_signature, unknown, partitions, signature };
        assert(m@.partitions =~= mbr_of(blk@).partitions);
        Ok(m)
    }

    /// The 512 on-disk bytes of this boot sector.
    pub fn serialize(&self) -> (r: [u8; 512])
        ensures
            r@ == mbr_bytes(self@),
    {
        let mut v: Vec<u8> = Vec::new();
        append_bytes(&mut v, self.bootcode.as_slice());
        append_bytes(&mut v, self.disk_signature.as_slice());
        append_bytes(&mut v, u16_le(self.unknown).as_slice());
        append_bytes(&mut v, self.partitions[0].to_bytes().as_slice());
        append_bytes(&mut v, self.partitions[1].to_bytes().as_slice());
        append_bytes(&mut v, self.partitions[2].to_bytes().as_slice());
        append_bytes(&mut v, self.partitions[3].to_bytes().as_slice());
        append_bytes(&mut v, self.signature.as_slice());
        let r = to_block::<512>(v.as_slice(), 0);
        assert(r@ =~= mbr_bytes(self@));
        r
    }
}

/// A protective MBR with the boot signature survives serializing and parsing:
/// its bytes carry the signature, and decoding them gives every field back.
pub proof fn lemma_mbr_round_trip(m: ProtectiveMBR)
    requires
        m.signature@ == mbr_signature(),
    ensures
        mbr_bytes(m@).len() == 512,
        mbr_bytes(m@).subrange(510, 512) == mbr_signature(),
        mbr_of(mbr_bytes(m@)) == m@,
{
    lemma_auto_spec_u16_to_from_le_bytes();
    let s = mbr_bytes(m@);
    let p = m.partitions@;
    lemma_record_round_trip(p[0]);
    lemma_record_round_trip(p[1]);
    lemma_record_round_trip(p[2]);
    lemma_record_round_trip(p[3]);
    assert(s.subrange(0, 440) =~= m.bootcode@);
    assert(s.subrange(440, 444) =~= m.disk_signature@);
    assert(s.subrange(444, 446) =~= spec_u16_to_le_bytes(m.unknown));
    assert(s.subrange(446, 462) =~= record_bytes(p[0]));
    assert(s.subrange(462, 478) =~= record_bytes(p[1]));
    assert(s.subrange(478, 494) =~= record_bytes(p[2]));
    assert(s.subrange(494, 510) =~= record_bytes(p[3]));
    assert(s.subrange(510, 512) =~= m.signature@);
    assert(mbr_of(s).partitions =~= p);
}

} // verus!
