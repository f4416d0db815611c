use gpt_layout::{
    header_checksum, GptLayout, Header, HeaderError, MBRError, PartRecord, Partition,
    PartitionName, ProtectiveMBR, Uuid,
};

fn entry(tag: u8) -> [u8; 128] {
    let p = Partition {
        part_type_guid: Uuid([tag; 16]),
        part_guid: Uuid([tag.wrapping_add(100); 16]),
        start_lba: tag as u64 * 1000,
        end_lba: tag as u64 * 1000 + 999,
        attrs: 0,
        name: PartitionName([tag; 72]),
    };
    p.serialize()
}

fn table_block(tags: [u8; 4]) -> Vec<u8> {
    let mut v = Vec::new();
    for t in tags {
        if t == 0 {
            v.extend_from_slice(&[0u8; 128]);
        } else {
            v.extend_from_slice(&entry(t));
        }
    }
    v
}

fn header_block(my_lba: u64, backup_lba: u64) -> Vec<u8> {
    let mut h = Header {
        signature: *b"EFI PART",
        revision: (1, 0),
        header_size: 92,
        my_lba,
        backup_lba,
        first_usable: 34,
        last_usable: 2014,
        part_start: 2,
        num_parts: 128,
        part_size: 128,
        ..Header::default()
    };
    h.crc32 = header_checksum(&h.serialize());
    let mut blk = vec![0u8; 512];
    blk[..92].copy_from_slice(&h.serialize());
    blk
}

#[test]
fn slots_across_two_blocks() {
    let mut g = GptLayout::new();
    g.init_partitions(&table_block([1, 2, 3, 4]), 1);
    g.init_partitions(&table_block([5, 6, 7, 8]), 2);
    for slot in 1..=8usize {
        let p = g.partition(slot).unwrap();
        assert_eq!(p.part_type_guid, Uuid([slot as u8; 16]));
        assert_eq!(p.start_lba, slot as u64 * 1000);
    }
    assert!(g.partition(0).is_none());
    assert!(g.partition(9).is_none());
    assert!(g.backup_partition(1).is_none());
}

#[test]
fn empty_slots_are_skipped() {
    let mut g = GptLayout::new();
    g.init_backup_partitions(&table_block([9, 0, 11, 0]), 3);
    assert_eq!(g.backup_partition(9).unwrap().part_type_guid, Uuid([9; 16]));
    assert!(g.backup_partition(10).is_none());
    assert_eq!(g.backup_partition(11).unwrap().part_type_guid, Uuid([11; 16]));
    assert!(g.backup_partition(12).is_none());
    assert!(g.partition(9).is_none());
}

#[test]
fn partition_mut_changes_entry() {
    let mut g = GptLayout::new();
    g.init_partitions(&table_block([1, 2, 0, 0]), 1);
    g.partition_mut(2).unwrap().attrs = 0x4;
    assert_eq!(g.partition(2).unwrap().attrs, 0x4);
    assert_eq!(g.partition(1).unwrap().attrs, 0);
    assert!(g.partition_mut(3).is_none());
    g.init_backup_partitions(&table_block([1, 0, 0, 0]), 1);
    g.backup_partition_mut(1).unwrap().end_lba = 7;
    assert_eq!(g.backup_partition(1).unwrap().end_lba, 7);
}

#[test]
fn headers_are_loaded() {
    let mut g = GptLayout::new();
    assert_eq!(g.init_primary_header(&header_block(1, 4095)), Ok(()));
    assert_eq!(g.init_backup_header(&header_block(4095, 1)), Ok(()));
    assert_eq!(g.primary_header().my_lba, 1);
    assert_eq!(g.primary_header().backup_lba, g.backup_header().my_lba);
    assert_eq!(g.backup_header().backup_lba, g.primary_header().my_lba);
    g.primary_header_mut().num_parts = 64;
    assert_eq!(g.primary_header().num_parts, 64);
    g.backup_header_mut().num_parts = 32;
    assert_eq!(g.backup_header().num_parts, 32);
}

#[test]
fn header_errors_are_propagated() {
    let mut g = GptLayout::new();
    let mut blk = header_block(1, 4095);
    blk[0] = b'e';
    assert_eq!(g.init_primary_header(&blk), Err(HeaderError::InvalidGptSignature));
    let mut blk = header_block(1, 4095);
    blk[30] ^= 0x10;
    assert_eq!(g.init_backup_header(&blk), Err(HeaderError::InvalidCRC32Checksum));
}

#[test]
fn protective_mbr_is_loaded() {
    let mut m = ProtectiveMBR::default();
    m.partitions[0] = PartRecord::new_protective(None);
    m.signature = [0x55, 0xAA];
    let mut g = GptLayout::new();
    assert_eq!(g.init_protective_mbr(&m.serialize()), Ok(()));
    assert_eq!(g.protective_mbr().partitions[0].os_type, 0xEE);
    g.protective_mbr_mut().unknown = 9;
    assert_eq!(g.protective_mbr().unknown, 9);
    let mut bad = m.serialize();
    bad[511] = 0;
    assert_eq!(g.init_protective_mbr(&bad), Err(MBRError::InvalidMBRSignature));
    assert_eq!(g.protective_mbr().unknown, 9);
}

#[test]
fn headers_agree_on_mirror_lbas() {
    let mut g = GptLayout::new();
    g.init_primary_header(&header_block(1, 4095)).unwrap();
    g.init_backup_header(&header_block(4095, 1)).unwrap();
    assert!(g.headers_agree());
    g.init_backup_header(&header_block(4094, 1)).unwrap();
    assert!(!g.headers_agree());
}

#[test]
fn header_consistency_checks() {
    let mut g = GptLayout::new();
    g.init_primary_header(&header_block(1, 4095)).unwrap();
    let h = g.primary_header();
    // 128 entries of 128 bytes fill 32 blocks of 512 bytes: LBAs 2 to 33.
    assert!(h.is_consistent(1, 512));
    assert!(!h.is_consistent(2, 512));
    // With 256-byte blocks the array needs 64 blocks and runs into LBA 34.
    assert!(!h.is_consistent(1, 256));
    let mut h2 = *h;
    h2.first_usable = 3000;
    assert!(!h2.is_consistent(1, 512));
    h2.first_usable = 34;
    h2.part_start = 2015;
    assert!(h2.is_consistent(1, 512));
    h2.part_size = 129;
    h2.part_start = 2;
    assert!(!h2.is_consistent(1, 512));
}
