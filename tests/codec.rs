use gpt_layout::crc::crc32;
use gpt_layout::{
    check_signature, header_checksum, Header, HeaderError, MBRError, PartRecord, Partition,
    PartitionName, ProtectiveMBR, Uuid,
};

fn seq_bytes(start: u8) -> [u8; 16] {
    let mut b = [0u8; 16];
    for i in 0..16 {
        b[i] = start + i as u8;
    }
    b
}

fn sample_header() -> Header {
    Header {
        signature: *b"EFI PART",
        revision: (1, 0),
        header_size: 92,
        crc32: 0,
        reserved: 0,
        my_lba: 1,
        backup_lba: 0x0001_0203_0405_0607,
        first_usable: 34,
        last_usable: 0x00FF_FFDE,
        disk_guid: Uuid(seq_bytes(0x10)),
        part_start: 2,
        num_parts: 128,
        part_size: 128,
        crc32_parts: 0xDEAD_BEEF,
    }
}

fn sealed_header_bytes() -> [u8; 92] {
    let mut h = sample_header();
    let raw = h.serialize();
    h.crc32 = header_checksum(&raw);
    h.serialize()
}

fn sample_partition() -> Partition {
    let mut name = [0u8; 72];
    name[..4].copy_from_slice(b"boot");
    Partition {
        part_type_guid: Uuid(seq_bytes(1)),
        part_guid: Uuid(seq_bytes(0x40)),
        start_lba: 2048,
        end_lba: 0x1_0000_0000,
        attrs: 0x8000_0000_0000_0001,
        name: PartitionName(name),
    }
}

#[test]
fn uuid_format_mixed_endian() {
    let u = Uuid(seq_bytes(0));
    assert_eq!(u.format(), "03020100-0504-0706-0809-0a0b0c0d0e0f");
}

#[test]
fn uuid_format_pads_and_lowercases() {
    let mut b = [0u8; 16];
    b[0] = 0xAB;
    b[15] = 0xF0;
    let u = Uuid(b);
    assert_eq!(u.format(), "000000ab-0000-0000-0000-0000000000f0");
}

#[test]
fn uuid_validity() {
    assert!(!Uuid([0u8; 16]).validate());
    for i in 0..16 {
        let mut b = [0u8; 16];
        b[i] = 1;
        assert!(Uuid(b).validate());
    }
}

#[test]
fn uuid_parse_copies_bytes() {
    let b = seq_bytes(7);
    let u = Uuid::parse(&b);
    assert_eq!(u.as_bytes(), &b);
}

#[test]
fn crc32_check_values() {
    assert_eq!(crc32(b"123456789"), 0xCBF4_3926);
    assert_eq!(crc32(&[]), 0);
    assert_eq!(crc32(b"a"), 0xE8B7_BE43);
}

#[test]
fn part_record_protective_values() {
    let r = PartRecord::new_protective(Some(1000));
    assert_eq!(r.start_sector, 0x02);
    assert_eq!(r.os_type, 0xEE);
    assert_eq!((r.end_head, r.end_sector, r.end_track), (0xFF, 0xFF, 0xFF));
    assert_eq!(r.lb_start, 1);
    assert_eq!(r.lb_size, 1000);
    assert_eq!(PartRecord::new_protective(None).lb_size, 0xFFFF_FFFF);
    assert_eq!(PartRecord::zero(), PartRecord::default());
}

#[test]
fn part_record_layout_and_round_trip() {
    let r = PartRecord {
        boot_indicator: 0x80,
        start_head: 1,
        start_sector: 2,
        start_track: 3,
        os_type: 0x83,
        end_head: 5,
        end_sector: 6,
        end_track: 7,
        lb_start: 0x0403_0201,
        lb_size: 0x0807_0605,
    };
    let b = r.to_bytes();
    assert_eq!(b, [0x80, 1, 2, 3, 0x83, 5, 6, 7, 1, 2, 3, 4, 5, 6, 7, 8]);
    assert_eq!(PartRecord::from_bytes(&b), Ok(r));
}

#[test]
fn part_record_wrong_length() {
    assert_eq!(PartRecord::from_bytes(&[0u8; 15]), Err(MBRError::InvalidPartitionLength));
    assert_eq!(PartRecord::from_bytes(&[0u8; 17]), Err(MBRError::InvalidPartitionLength));
}

fn sample_mbr() -> ProtectiveMBR {
    let mut m = ProtectiveMBR::default();
    m.bootcode[0] = 0xEB;
    m.bootcode[439] = 0x90;
    m.disk_signature = [1, 2, 3, 4];
    m.unknown = 0x0102;
    m.partitions[0] = PartRecord::new_protective(Some(0x0010_0000));
    m.signature = [0x55, 0xAA];
    m
}

#[test]
fn mbr_round_trip() {
    let m = sample_mbr();
    let b = m.serialize();
    assert_eq!(&b[440..446], &[1, 2, 3, 4, 0x02, 0x01]);
    assert_eq!(&b[510..512], &[0x55, 0xAA]);
    let back = ProtectiveMBR::deserialize(&b).unwrap();
    assert_eq!(back.bootcode, m.bootcode);
    assert_eq!(back.disk_signature, m.disk_signature);
    assert_eq!(back.unknown, 0x0102);
    assert_eq!(back.partitions, m.partitions);
    assert_eq!(back.signature, m.signature);
}

#[test]
fn mbr_signature_rejected() {
    let mut b = sample_mbr().serialize();
    b[510] = 0;
    b[511] = 0;
    assert_eq!(ProtectiveMBR::deserialize(&b).unwrap_err(), MBRError::InvalidMBRSignature);
}

#[test]
fn mbr_short_buffer_rejected() {
    let b = sample_mbr().serialize();
    assert_eq!(ProtectiveMBR::deserialize(&b[..511]).unwrap_err(), MBRError::InvalidMBRLength);
}

#[test]
fn header_round_trip() {
    let b = sealed_header_bytes();
    assert_eq!(&b[0..8], b"EFI PART");
    assert_eq!(&b[8..12], &[0, 0, 1, 0]);
    let h = Header::deserialize(&b).unwrap();
    let s = sample_header();
    assert_eq!(h.signature, *b"EFI PART");
    assert_eq!(h.revision, (1, 0));
    assert_eq!(h.header_size, 92);
    assert_eq!(h.crc32, header_checksum(&b));
    assert_eq!(h.my_lba, s.my_lba);
    assert_eq!(h.backup_lba, 0x0001_0203_0405_0607);
    assert_eq!(h.first_usable, s.first_usable);
    assert_eq!(h.last_usable, s.last_usable);
    assert_eq!(h.disk_guid, s.disk_guid);
    assert_eq!(h.part_start, s.part_start);
    assert_eq!(h.num_parts, 128);
    assert_eq!(h.part_size, 128);
    assert_eq!(h.crc32_parts, 0xDEAD_BEEF);
}

#[test]
fn header_reads_little_endian() {
    let b = sealed_header_bytes();
    assert_eq!(&b[32..40], &[7, 6, 5, 4, 3, 2, 1, 0]);
    assert_eq!(&b[88..92], &[0xEF, 0xBE, 0xAD, 0xDE]);
}

#[test]
fn header_checksum_ignores_crc_field() {
    let mut b = sealed_header_bytes();
    let c = header_checksum(&b);
    b[16] ^= 0xFF;
    assert_eq!(header_checksum(&b), c);
}

#[test]
fn header_signature_rejected() {
    let mut b = sealed_header_bytes();
    b[7] = b'X';
    assert_eq!(Header::deserialize(&b).unwrap_err(), HeaderError::InvalidGptSignature);
    assert_eq!(Header::deserialize(&[0u8; 4]).unwrap_err(), HeaderError::InvalidGptSignature);
    assert_eq!(check_signature(b"EFI PART"), Ok(()));
    assert_eq!(check_signature(b"EFI PARt"), Err(HeaderError::InvalidGptSignature));
}

#[test]
fn header_crc_rejected() {
    let good = sealed_header_bytes();
    for k in [8usize, 20, 24, 40, 60, 91] {
        let mut b = good;
        b[k] ^= 0x01;
        assert_eq!(Header::deserialize(&b).unwrap_err(), HeaderError::InvalidCRC32Checksum);
    }
}

#[test]
fn header_bad_size_rejected() {
    let mut h = sample_header();
    h.header_size = 93;
    let raw = h.serialize();
    h.crc32 = header_checksum(&raw);
    let b = h.serialize();
    assert_eq!(Header::deserialize(&b).unwrap_err(), HeaderError::InvalidCRC32Checksum);
    let good = sealed_header_bytes();
    assert_eq!(Header::deserialize(&good[..91]).unwrap_err(), HeaderError::InvalidCRC32Checksum);
}

#[test]
fn header_in_longer_block() {
    let mut blk = [0u8; 512];
    blk[..92].copy_from_slice(&sealed_header_bytes());
    blk[300] = 0x5A;
    let h = Header::deserialize(&blk).unwrap();
    assert_eq!(h.my_lba, 1);
}

#[test]
fn partition_round_trip() {
    let p = sample_partition();
    let b = p.serialize();
    assert_eq!(&b[32..40], &[0, 8, 0, 0, 0, 0, 0, 0]);
    assert_eq!(&b[56..60], b"boot");
    assert_eq!(Partition::deserialize(&b), Some(p));
}

#[test]
fn partition_presence_filter() {
    let mut b = [0xA5u8; 128];
    for x in b[..16].iter_mut() {
        *x = 0;
    }
    assert_eq!(Partition::deserialize(&b), None);
}

#[test]
fn partition_default_is_empty() {
    let p = Partition::default();
    assert!(!p.part_type_guid.validate());
    assert_eq!(p.serialize(), [0u8; 128]);
}
