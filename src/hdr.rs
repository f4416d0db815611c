//! The GPT header: signature, revision, checksums, the LBAs of both copies,
//! the usable range and the shape of the partition-entry array.
use crate::bytes::{append_bytes, read_u16_le, read_u32_le, read_u64_le, to_block, u16_le, u32_le, u64_le};
use crate::crc::{crc32, crc32_of, lemma_crc32_detects_byte_change};
use crate::err::HeaderError;
use crate::uuid::Uuid;
use vstd::bytes::{
    lemma_auto_spec_u16_to_from_le_bytes, lemma_auto_spec_u32_to_from_le_bytes,
    lemma_auto_spec_u64_to_from_le_bytes, spec_u16_from_le_bytes, spec_u16_to_le_bytes,
    spec_u32_from_le_bytes, spec_u32_to_le_bytes, spec_u64_from_le_bytes, spec_u64_to_le_bytes,
};
use vstd::prelude::*;

verus! {

/// The LBA of the primary header.
pub const PRIMARY_HEADER_LBA: usize = 1;

/// The length in bytes of the header fields, and of a serialized header.
pub const HEADER_SIZE: usize = 92;

/// The header magic "EFI PART".
pub open spec fn gpt_signature() -> Seq<u8> {
    seq![0x45u8, 0x46u8, 0x49u8, 0x20u8, 0x50u8, 0x41u8, 0x52u8, 0x54u8]
}

/// Header describing a GPT disk.
#[derive(Clone, Copy, Debug, Default)]
pub struct Header {
    /// GPT header magic signature, "EFI PART".
    pub signature: [u8; 8],
    /// major, minor
    pub revision: (u16, u16),
    /// Size of the header in bytes; the checksum covers this many bytes.
    pub header_size: u32,
    /// CRC32 of the header, stale after any change until it is recomputed.
    pub crc32: u32,
    /// must be 0
    pub reserved: u32,
    /// The LBA that holds this copy of the header.
    pub my_lba: u64,
    /// The LBA that holds the other copy.
    pub backup_lba: u64,
    /// First usable LBA for partitions (primary table last LBA + 1)
    pub first_usable: u64,
    /// Last usable LBA (secondary partition table first LBA - 1)
    pub last_usable: u64,
    /// UUID of the disk
    pub disk_guid: Uuid,
    /// Starting LBA of partition entries
    pub part_start: u64,
    /// Number of partition entries
    pub num_parts: u32,
    /// Size of a partition entry, usually 128
    pub part_size: u32,
    /// CRC32 of the partition table, stale after any change until it is recomputed.
    pub crc32_parts: u32,
}

/// The fields of a header as values.
pub struct HeaderView {
    pub signature: Seq<u8>,
    pub revision: (u16, u16),
    pub header_size: u32,
    pub crc32: u32,
    pub reserved: u32,
    pub my_lba: u64,
    pub backup_lba: u64,
    pub first_usable: u64,
    pub last_usable: u64,
    pub disk_guid: Seq<u8>,
    pub part_start: u64,
    pub num_parts: u32,
    pub part_size: u32,
    pub crc32_parts: u32,
}

impl View for Header {
    type V = HeaderView;

    open spec fn view(&self) -> HeaderView {
        HeaderView {
            signature: self.signature@,
            revision: self.revision,
            header_size: self.header_size,
            crc32: self.crc32,
            reserved: self.reserved,
            my_lba: self.my_lba,
            backup_lba: self.backup_lba,
            first_usable: self.first_usable,
            last_usable: self.last_usable,
            disk_guid: self.disk_guid@,
            part_start: self.part_start,
            num_parts: self.num_parts,
            part_size: self.part_size,
            crc32_parts: self.crc32_parts,
        }
    }
}

/// True when `s` begins with "EFI PART".
pub open spec fn has_gpt_signature(s: Seq<u8>) -> bool {
    s.len() >= 8 && s.subrange(0, 8) == gpt_signature()
}

/// The header size that `s` stores.
pub open spec fn stored_header_size(s: Seq<u8>) -> u32 {
    spec_u32_from_le_bytes(s.subrange(12, 16))
}

/// The header checksum that `s` stores.
pub open spec fn stored_crc32(s: Seq<u8>) -> u32 {
    spec_u32_from_le_bytes(s.subrange(16, 20))
}

/// The bytes that the header checksum covers: `s` with its checksum field zeroed.
pub open spec fn checksum_input(s: Seq<u8>) -> Seq<u8> {
    s.subrange(0, 16) + seq![0u8, 0u8, 0u8, 0u8] + s.subrange(20, s.len() as int)
}

/// True when `s` holds the header fields, a header size between 92 bytes and
/// the length of `s`, and the checksum of that many bytes.
pub open spec fn header_crc_ok(s: Seq<u8>) -> bool {
    &&& s.len() >= 92
    &&& 92 <= stored_header_size(s) <= s.len()
    &&& crc32_of(checksum_input(s.subrange(0, stored_header_size(s) as int))) == stored_crc32(s)
}

/// The header that the first 92 bytes of `s` describe.
pub open spec fn header_of(s: Seq<u8>) -> HeaderView {
    HeaderView {
        signature: s.subrange(0, 8),
        revision: (
            spec_u16_from_le_bytes(s.subrange(10, 12)),
            spec_u16_from_le_bytes(s.subrange(8, 10)),
        ),
        header_size: stored_header_size(s),
        crc32: stored_crc32(s),
        reserved: spec_u32_from_le_bytes(s.subrange(20, 24)),
        my_lba: spec_u64_from_le_bytes(s.subrange(24, 32)),
        backup_lba: spec_u64_from_le_bytes(s.subrange(32, 40)),
        first_usable: spec_u64_from_le_bytes(s.subrange(40, 48)),
        last_usable: spec_u64_from_le_bytes(s.subrange(48, 56)),
        disk_guid: s.subrange(56, 72),
        part_start: spec_u64_from_le_bytes(s.subrange(72, 80)),
        num_parts: spec_u32_from_le_bytes(s.subrange(80, 84)),
        part_size: spec_u32_from_le_bytes(s.subrange(84, 88)),
        crc32_parts: spec_u32_from_le_bytes(s.subrange(88, 92)),
    }
}

/// The 92 on-disk bytes of a header; the signature is always "EFI PART".
pub open spec fn header_bytes(h: HeaderView) -> Seq<u8> {
    gpt_signature() + spec_u16_to_le_bytes(h.revision.1) + spec_u16_to_le_bytes(h.revision.0)
        + spec_u32_to_le_bytes(h.header_size) + spec_u32_to_le_bytes(h.crc32)
        + spec_u32_to_le_bytes(h.reserved) + spec_u64_to_le_bytes(h.my_lba)
        + spec_u64_to_le_bytes(h.backup_lba) + spec_u64_to_le_bytes(h.first_usable)
        + spec_u64_to_le_bytes(h.last_usable) + h.disk_guid + spec_u64_to_le_bytes(h.part_start)
        + spec_u32_to_le_bytes(h.num_parts) + spec_u32_to_le_bytes(h.part_size)
        + spec_u32_to_le_bytes(h.crc32_parts)
}

/// What parsing `s` as a header gives: a signature error unless `s` begins
/// with "EFI PART", else a checksum error unless the checksum matches, else
/// the header that `s` describes.
pub open spec fn header_result(s: Seq<u8>) -> Result<HeaderView, HeaderError> {
    if !has_gpt_signature(s) {
        Err(HeaderError::InvalidGptSignature)
    } else if !header_crc_ok(s) {
        Err(HeaderError::InvalidCRC32Checksum)
    } else {
        Ok(header_of(s))
    }
}

/// The number of blocks of `block_size` bytes that the partition-entry array
/// of `h` needs: `num_parts * part_size` bytes, rounded up.
pub open spec fn entry_array_blocks(h: HeaderView, block_size: int) -> int {
    (h.num_parts * h.part_size + block_size - 1) / block_size
}

/// The structural invariants of a header read from `lba` on a disk of
/// `block_size`-byte blocks: it names `lba` as its own place, its usable
/// range is not empty, and its partition-entry array lies wholly before or
/// wholly after the usable range.
pub open spec fn header_consistent(h: HeaderView, lba: int, block_size: int) -> bool {
    &&& h.my_lba == lba
    &&& h.first_usable <= h.last_usable
    &&& (h.part_start + entry_array_blocks(h, block_size) <= h.first_usable || h.part_start
        > h.last_usable)
}

/// Checks that `sig` is exactly the eight bytes "EFI PART".
pub fn check_signature(sig: &[u8]) -> (r: Result<(), HeaderError>)
    ensures
        r is Ok <==> sig@ == gpt_signature(),
        r is Err ==> r->Err_0 == HeaderError::InvalidGptSignature,
{
    let expected: [u8; 8] = [0x45, 0x46, 0x49, 0x20, 0x50, 0x41, 0x52, 0x54];
    assert(expected@ =~= gpt_signature());
    if sig.len() != 8 {
        return Err(HeaderError::InvalidGptSignature);
    }
    let mut i: usize = 0;
    while i < 8
        invariant
            sig@.len() == 8,
            expected@ == gpt_signature(),
            i <= 8,
            forall|j: int| 0 <= j < i ==> sig@[j] == expected@[j],
        decreases 8 - i,
    {
        if sig[i] != expected[i] {
            return Err(HeaderError::InvalidGptSignature);
        }
        i += 1;
    }
    assert(sig@ =~= gpt_signature());
    Ok(())
}

/// The checksum of a header's bytes, computed with the checksum field taken as zero.
pub fn header_checksum(blk: &[u8]) -> (r: u32)
    requires
        blk@.len() >= 20,
    ensures
        r == crc32_of(checksum_input(blk@)),
{
    let n = blk.len();
    let mut v: Vec<u8> = Vec::new();
    append_bytes(&mut v, &blk[0..16]);
    v.push(0);
    v.push(0);
    v.push(0);
    v.push(0);
    append_bytes(&mut v, &blk[20..n]);
    assert(v@ =~= checksum_input(blk@));
    crc32(v.as_slice())
}

impl Header {
    /// Parses a header from the start of `blk`. The signature is checked
    /// first, then the checksum over `header_size` bytes with the checksum
    /// field taken as zero; only a header that passes both is returned.
    pub fn deserialize(blk: &[u8]) -> (r: Result<Self, HeaderError>)
        ensures
            r is Ok ==> header_result(blk@) == Ok::<HeaderView, HeaderError>(r->Ok_0@),
            r is Err ==> header_result(blk@) == Err::<HeaderView, HeaderError>(r->Err_0),
    {
        let n = blk.len();
        if n < 8 {
            return Err(HeaderError::InvalidGptSignature);
        }
        if let Err(e) = check_signature(&blk[0..8]) {
            return Err(e);
        }
        if n < HEADER_SIZE {
            return Err(HeaderError::InvalidCRC32Checksum);
        }
        let header_size = read_u32_le(&blk[12..16]);
        let crc32 = read_u32_le(&blk[16..20]);
        if header_size < 92 || header_size as usize > n {
            return Err(HeaderError::InvalidCRC32Checksum);
        }
        let covered = &blk[0..header_size as usize];
        if header_checksum(covered) != crc32 {
            return Err(HeaderError::InvalidCRC32Checksum);
        }
        let signature = to_block::<8>(blk, 0);
        let minor = read_u16_le(&blk[8..10]);
        let major = read_u16_le(&blk[10..12]);
        let h = Header {
            signature,
            revision: (major, minor),
            header_size,
            crc32,
            reserved: read_u32_le(&blk[20..24]),
            my_lba: read_u64_le(&blk[24..32]),
            backup_lba: read_u64_le(&blk[32..40]),
            first_usable: read_u64_le(&blk[40..48]),
            last_usable: read_u64_le(&blk[48..56]),
            disk_guid: Uuid(to_block::<16>(blk, 56)),
            part_start: read_u64_le(&blk[72..80]),
            num_parts: read_u32_le(&blk[80..84]),
            part_size: read_u32_le(&blk[84..88]),
            crc32_parts: read_u32_le(&blk[88..92]),
        };
        Ok(h)
    }

    /// Checks the structural invariants of this header, read from `lba` on a
    /// disk of `block_size`-byte blocks.
    pub fn is_consistent(&self, lba: u64, block_size: u64) -> (r: bool)
        requires
            block_size > 0,
        ensures
            r == header_consistent(self@, lba as int, block_size as int),
    {
        let n: u64 = self.num_parts as u64;
        let m: u64 = self.part_size as u64;
        assert(n * m <= 0xFFFF_FFFF * 0xFFFF_FFFF) by (nonlinear_arith)
            requires
                n <= 0xFFFF_FFFF,
                m <= 0xFFFF_FFFF,
        ;
        let bytes: u64 = n * m;
        assert(bytes / block_size <= bytes) by (nonlinear_arith)
            requires
                block_size > 0,
        ;
        assert(bytes % block_size != 0 ==> bytes / block_size < bytes) by (nonlinear_arith)
            requires
                block_size > 0,
        ;
        let blocks: u64 = if bytes % block_size == 0 {
            bytes / block_size
        } else {
            bytes / block_size + 1
        };
        proof {
            let b = bytes as int;
            let k = block_size as int;
            assert(b == self.num_parts * self.part_size) by (nonlinear_arith)
                requires
                    b == self.num_parts as int * self.part_size as int,
            ;
            assert(blocks == (b + k - 1) / k) by (nonlinear_arith)
                requires
                    k > 0,
                    b >= 0,
                    blocks == (if b % k == 0 {
                        b / k
                    } else {
                        b / k + 1
                    }),
            ;
        }
        let before = self.part_start <= self.first_usable && blocks <= self.first_usable
            - self.part_start;
        self.my_lba == lba && self.first_usable <= self.last_usable && (before || self.part_start
            > self.last_usable)
    }

    /// The 92 on-disk bytes of this header. The checksum fields are written
    /// as they stand: recompute them first after any change.
    pub fn serialize(&self) -> (r: [u8; 92])
        ensures
            r@ == header_bytes(self@),
    {
        let sig: [u8; 8] = [0x45, 0x46, 0x49, 0x20, 0x50, 0x41, 0x52, 0x54];
        let mut v: Vec<u8> = Vec::new();
        append_bytes(&mut v, sig.as_slice());
        append_bytes(&mut v, u16_le(self.revision.1).as_slice());
        append_bytes(&mut v, u16_le(self.revision.0).as_slice());
        append_bytes(&mut v, u32_le(self.header_size).as_slice());
        append_bytes(&mut v, u32_le(self.crc32).as_slice());
        append_bytes(&mut v, u32_le(self.reserved).as_slice());
        append_bytes(&mut v, u64_le(self.my_lba).as_slice());
        append_bytes(&mut v, u64_le(self.backup_lba).as_slice());
        append_bytes(&mut v, u64_le(self.first_usable).as_slice());
        append_bytes(&mut v, u64_le(self.last_usable).as_slice());
        append_bytes(&mut v, self.disk_guid.0.as_slice());
        append_bytes(&mut v, u64_le(self.part_start).as_slice());
        append_bytes(&mut v, u32_le(self.num_parts).as_slice());
        append_bytes(&mut v, u32_le(self.part_size).as_slice());
        append_bytes(&mut v, u32_le(self.crc32_parts).as_slice());
        let r = to_block::<92>(v.as_slice(), 0);
        assert(sig@ =~= gpt_signature());
        assert(r@ =~= header_bytes(self@));
        r
    }
}

/// A header whose signature is "EFI PART", whose size is 92 bytes and whose
/// checksum is that of its own bytes survives serializing and parsing: the
/// bytes pass both checks, and decoding them gives every field back.
pub proof fn lemma_header_round_trip(h: Header)
    requires
        h.signature@ == gpt_signature(),
        h.header_size == 92,
        h.crc32 == crc32_of(checksum_input(header_bytes(h@))),
    ensures
        header_bytes(h@).len() == 92,
        has_gpt_signature(header_bytes(h@)),
        header_crc_ok(header_bytes(h@)),
        header_of(header_bytes(h@)) == h@,
{
    lemma_auto_spec_u16_to_from_le_bytes();
    lemma_auto_spec_u32_to_from_le_bytes();
    lemma_auto_spec_u64_to_from_le_bytes();
    let s = header_bytes(h@);
    assert(s.subrange(0, 8) =~= gpt_signature());
    assert(s.subrange(8, 10) =~= spec_u16_to_le_bytes(h.revision.1));
    assert(s.subrange(10, 12) =~= spec_u16_to_le_bytes(h.revision.0));
    assert(s.subrange(12, 16) =~= spec_u32_to_le_bytes(h.header_size));
    assert(s.subrange(16, 20) =~= spec_u32_to_le_bytes(h.crc32));
    assert(s.subrange(20, 24) =~= spec_u32_to_le_bytes(h.reserved));
    assert(s.subrange(24, 32) =~= spec_u64_to_le_bytes(h.my_lba));
    assert(s.subrange(32, 40) =~= spec_u64_to_le_bytes(h.backup_lba));
    assert(s.subrange(40, 48) =~= spec_u64_to_le_bytes(h.first_usable));
    assert(s.subrange(48, 56) =~= spec_u64_to_le_bytes(h.last_usable));
    assert(s.subrange(56, 72) =~= h.disk_guid@);
    assert(s.subrange(72, 80) =~= spec_u64_to_le_bytes(h.part_start));
    assert(s.subrange(80, 84) =~= spec_u32_to_le_bytes(h.num_parts));
    assert(s.subrange(84, 88) =~= spec_u32_to_le_bytes(h.part_size));
    assert(s.subrange(88, 92) =~= spec_u32_to_le_bytes(h.crc32_parts));
    assert(s.subrange(0, 92) =~= s);
    assert(header_of(s).signature =~= h.signature@);
}

/// Changing one byte of a header that passes both checks, anywhere its
/// checksum covers outside the signature, the header-size field and the
/// checksum field, keeps the signature and makes the checksum fail.
pub proof fn lemma_header_corruption_detected(s: Seq<u8>, k: int, b: u8)
    requires
        has_gpt_signature(s),
        header_crc_ok(s),
        8 <= k < 12 || 20 <= k < stored_header_size(s),
        s[k] != b,
    ensures
        has_gpt_signature(s.update(k, b)),
        !header_crc_ok(s.update(k, b)),
{
    let t = s.update(k, b);
    let hs = stored_header_size(s) as int;
    assert(t.subrange(0, 8) =~= s.subrange(0, 8));
    assert(t.subrange(12, 16) =~= s.subrange(12, 16));
    assert(t.subrange(16, 20) =~= s.subrange(16, 20));
    let ins = checksum_input(s.subrange(0, hs));
    let int_ = checksum_input(t.subrange(0, hs));
    assert(int_ =~= ins.update(k, b));
    lemma_crc32_detects_byte_change(ins, k, b);
}

} // verus!
