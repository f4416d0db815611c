//! A codec for the GUID Partition Table layout: the protective MBR, the
//! primary and backup GPT headers and their partition-entry arrays.
use vstd::prelude::*;

mod bytes;
pub mod crc;
pub mod err;
pub mod hdr;
pub mod mbr;
pub mod partition;
pub mod uuid;

pub use crate::err::{HeaderError, MBRError};
pub use crate::hdr::{
    check_signature, header_checksum, Header, HeaderView, HEADER_SIZE, PRIMARY_HEADER_LBA,
};
pub use crate::mbr::{MbrView, PartRecord, ProtectiveMBR, PROTECTIVE_MBR_LBA};
pub use crate::partition::{
    Partition, PartitionName, PartitionView, MIN_PARTITION_NUM, PARTITION_LBA_SIZE,
};
pub use crate::uuid::Uuid;

use crate::hdr::header_result;
use crate::mbr::mbr_result;
use crate::partition::{entry_at, entry_present, partition_of};

verus! {

/// A disk's GPT regions as they have been loaded so far: each single region
/// is absent until its initializer succeeds, and each partition table holds
/// the in-use entries loaded so far, each tagged with its 1-based slot.
#[derive(Debug)]
pub struct GptLayout {
    protective_mbr: Option<ProtectiveMBR>,
    primary_header: Option<Header>,
    partitions: Vec<(Partition, usize)>,
    backup_partitions: Vec<(Partition, usize)>,
    backup_header: Option<Header>,
}

/// The regions of a layout as values.
pub struct GptLayoutView {
    pub protective_mbr: Option<MbrView>,
    pub primary_header: Option<HeaderView>,
    pub backup_header: Option<HeaderView>,
    pub partitions: Seq<(PartitionView, usize)>,
    pub backup_partitions: Seq<(PartitionView, usize)>,
}

/// A table of slot-tagged entries as values.
pub open spec fn tagged_view(s: Seq<(Partition, usize)>) -> Seq<(PartitionView, usize)> {
    s.map_values(|e: (Partition, usize)| (e.0@, e.1))
}

/// An optional header as values.
pub open spec fn header_view(h: Option<Header>) -> Option<HeaderView> {
    match h {
        Some(h) => Some(h@),
        None => None,
    }
}

impl View for GptLayout {
    type V = GptLayoutView;

    closed spec fn view(&self) -> GptLayoutView {
        GptLayoutView {
            protective_mbr: match self.protective_mbr {
                Some(m) => Some(m@),
                None => None,
            },
            primary_header: header_view(self.primary_header),
            backup_header: header_view(self.backup_header),
            partitions: tagged_view(self.partitions@),
            backup_partitions: tagged_view(self.backup_partitions@),
        }
    }
}

/// The 128-byte entry `k` of a table block.
pub open spec fn block_entry(blk: Seq<u8>, k: int) -> Seq<u8> {
    blk.subrange(k * 128, k * 128 + 128)
}

/// The in-use entries among the first `n` entries of a table block, in
/// order, entry `k` tagged with slot `base + k + 1`.
pub open spec fn entries_upto(blk: Seq<u8>, base: int, n: int) -> Seq<(PartitionView, usize)>
    decreases n,
{
    if n <= 0 {
        seq![]
    } else {
        let rest = entries_upto(blk, base, n - 1);
        if entry_present(block_entry(blk, n - 1)) {
            rest.push((partition_of(block_entry(blk, n - 1)), (base + n) as usize))
        } else {
            rest
        }
    }
}

/// The in-use entries of the table block with 1-based index `entry_index`,
/// each tagged with its absolute 1-based slot
/// `(entry_index - 1) * entries_per_block + k + 1`.
pub open spec fn block_entries(blk: Seq<u8>, entry_index: int) -> Seq<(PartitionView, usize)> {
    entries_upto(blk, (entry_index - 1) * (blk.len() / 128) as int, (blk.len() / 128) as int)
}

/// The position of the first entry tagged `slot`, or the length of `s` when
/// there is none.
pub open spec fn slot_position(s: Seq<(PartitionView, usize)>, slot: usize) -> int
    decreases s.len(),
{
    if s.len() == 0 {
        0
    } else if s[0].1 == slot {
        0
    } else {
        1 + slot_position(s.drop_first(), slot)
    }
}

/// The first entry tagged `slot`, if any.
pub open spec fn slot_lookup(s: Seq<(PartitionView, usize)>, slot: usize) -> Option<PartitionView> {
    if slot_position(s, slot) < s.len() {
        Some(s[slot_position(s, slot)].0)
    } else {
        None
    }
}

proof fn lemma_slot_position_bound(s: Seq<(PartitionView, usize)>, slot: usize)
    ensures
        0 <= slot_position(s, slot) <= s.len(),
        slot_position(s, slot) < s.len() ==> s[slot_position(s, slot)].1 == slot,
    decreases s.len(),
{
    if s.len() > 0 && s[0].1 != slot {
        lemma_slot_position_bound(s.drop_first(), slot);
    }
}

proof fn lemma_tagged_view_update(s: Seq<(Partition, usize)>, i: int)
    requires
        0 <= i < s.len(),
    ensures
        forall|e: (Partition, usize)|
            #[trigger] tagged_view(s.update(i, e)) == tagged_view(s).update(i, (e.0@, e.1)),
{
    assert forall|e: (Partition, usize)|
        #[trigger] tagged_view(s.update(i, e)) == tagged_view(s).update(i, (e.0@, e.1)) by {
        assert(tagged_view(s.update(i, e)) =~= tagged_view(s).update(i, (e.0@, e.1)));
    }
}

/// Appends the in-use entries of one table block to `table`.
fn load_entries(table: &mut Vec<(Partition, usize)>, blk: &[u8], entry_index: usize)
    requires
        entry_index >= 1,
        entry_index * (blk@.len() / 128) <= usize::MAX,
    ensures
        tagged_view(final(table)@) == tagged_view(old(table)@) + block_entries(
            blk@,
            entry_index as int,
        ),
{
    let len = blk.len();
    let part_num = len / PARTITION_LBA_SIZE;
    assert((entry_index - 1) * part_num + part_num == entry_index * part_num) by (nonlinear_arith);
    let part_index = (entry_index - 1) * part_num;
    let mut index: usize = 0;
    while index < part_num
        invariant
            len == blk@.len(),
            part_num == len / 128,
            part_index == (entry_index - 1) * part_num,
            part_index + part_num <= usize::MAX,
            index <= part_num,
            tagged_view(table@) == tagged_view(old(table)@) + entries_upto(
                blk@,
                part_index as int,
                index as int,
            ),
        decreases part_num - index,
    {
        assert(index * 128 + 128 <= len) by (nonlinear_arith)
            requires
                index < part_num,
                part_num == len / 128,
        ;
        let start = index * PARTITION_LBA_SIZE;
        let p = entry_at(blk, start);
        let ghost prev = table@;
        if p.part_type_guid.validate() {
            table.push((p, part_index + index + 1));
            assert(tagged_view(table@) =~= tagged_view(prev).push((p@, (part_index + index + 1) as usize)));
        }
        index += 1;
        assert(block_entry(blk@, index - 1).subrange(0, 16) =~= blk@.subrange(start as int, start + 16));
        assert(tagged_view(table@) =~= tagged_view(old(table)@) + entries_upto(
            blk@,
            part_index as int,
            index as int,
        ));
    }
}

/// The position of the first entry of `table` tagged `slot`, or its length.
fn find_slot(table: &Vec<(Partition, usize)>, slot: usize) -> (r: usize)
    ensures
        r == slot_position(tagged_view(table@), slot),
        r <= table@.len(),
{
    let ghost s = tagged_view(table@);
    let n = table.len();
    let mut i: usize = 0;
    assert(s.skip(0) =~= s);
    while i < n
        invariant
            n == table@.len(),
            s == tagged_view(table@),
            i <= n,
            slot_position(s, slot) == i + slot_position(s.skip(i as int), slot),
        decreases n - i,
    {
        assert(s.skip(i as int)[0] == s[i as int]);
        if table[i].1 == slot {
            return i;
        }
        assert(s.skip(i as int).drop_first() =~= s.skip(i + 1));
        i += 1;
    }
    i
}

impl GptLayout {
    /// A layout with no region loaded.
    pub fn new() -> (r: Self)
        ensures
            r@.protective_mbr is None,
            r@.primary_header is None,
            r@.backup_header is None,
            r@.partitions == Seq::<(PartitionView, usize)>::empty(),
            r@.backup_partitions == Seq::<(PartitionView, usize)>::empty(),
    {
        let r = GptLayout {
            protective_mbr: None,
            primary_header: None,
            partitions: Vec::new(),
            backup_partitions: Vec::new(),
            backup_header: None,
        };
        assert(r@.partitions =~= Seq::<(PartitionView, usize)>::empty());
        assert(r@.backup_partitions =~= Seq::<(PartitionView, usize)>::empty());
        r
    }
}

impl GptLayout {
    /// Parses `blk` as the primary header and stores it; on an error the
    /// layout is left as it was.
    pub fn init_primary_header(&mut self, blk: &[u8]) -> (r: Result<(), HeaderError>)
        ensures
            r is Ok <==> header_result(blk@) is Ok,
            r is Ok ==> final(self)@ == (GptLayoutView {
                primary_header: Some(header_result(blk@)->Ok_0),
                ..old(self)@
            }),
            r is Err ==> header_result(blk@) == Err::<HeaderView, HeaderError>(r->Err_0),
            r is Err ==> final(self)@ == old(self)@,
    {
        let header = Header::deserialize(blk)?;
        self.primary_header = Some(header);
        Ok(())
    }

    /// Parses `blk` as the backup header and stores it; on an error the
    /// layout is left as it was.
    pub fn init_backup_header(&mut self, blk: &[u8]) -> (r: Result<(), HeaderError>)
        ensures
            r is Ok <==> header_result(blk@) is Ok,
            r is Ok ==> final(self)@ == (GptLayoutView {
                backup_header: Some(header_result(blk@)->Ok_0),
                ..old(self)@
            }),
            r is Err ==> header_result(blk@) == Err::<HeaderView, HeaderError>(r->Err_0),
            r is Err ==> final(self)@ == old(self)@,
    {
        let header = Header::deserialize(blk)?;
        self.backup_header = Some(header);
        Ok(())
    }

    /// Parses `blk` as the protective MBR and stores it; on an error the
    /// layout is left as it was.
    pub fn init_protective_mbr(&mut self, blk: &[u8]) -> (r: Result<(), MBRError>)
        ensures
            r is Ok <==> mbr_result(blk@) is Ok,
            r is Ok ==> final(self)@ == (GptLayoutView {
                protective_mbr: Some(mbr_result(blk@)->Ok_0),
                ..old(self)@
            }),
            r is Err ==> mbr_result(blk@) == Err::<MbrView, MBRError>(r->Err_0),
            r is Err ==> final(self)@ == old(self)@,
    {
        let mbr = ProtectiveMBR::deserialize(blk)?;
        self.protective_mbr = Some(mbr);
        Ok(())
    }

    /// Appends the in-use entries of the primary table block with 1-based
    /// index `entry_index`, each tagged with its absolute slot.
    pub fn init_partitions(&mut self, blk: &[u8], entry_index: usize)
        requires
            entry_index >= 1,
            entry_index * (blk@.len() / 128) <= usize::MAX,
        ensures
            final(self)@ == (GptLayoutView {
                partitions: old(self)@.partitions + block_entries(blk@, entry_index as int),
                ..old(self)@
            }),
    {
        load_entries(&mut self.partitions, blk, entry_index);
    }

    /// Appends the in-use entries of the backup table block with 1-based
    /// index `entry_index`, each tagged with its absolute slot.
    pub fn init_backup_partitions(&mut self, blk: &[u8], entry_index: usize)
        requires
            entry_index >= 1,
            entry_index * (blk@.len() / 128) <= usize::MAX,
        ensures
            final(self)@ == (GptLayoutView {
                backup_partitions: old(self)@.backup_partitions + block_entries(
                    blk@,
                    entry_index as int,
                ),
                ..old(self)@
            }),
    {
        load_entries(&mut self.backup_partitions, blk, entry_index);
    }

    /// The protective MBR, which must have been loaded.
    pub fn protective_mbr(&self) -> (r: &ProtectiveMBR)
        requires
            self@.protective_mbr is Some,
        ensures
            self@.protective_mbr == Some(r@),
    {
        self.protective_mbr.as_ref().unwrap()
    }

    /// The primary header, which must have been loaded.
    pub fn primary_header(&self) -> (r: &Header)
        requires
            self@.primary_header is Some,
        ensures
            self@.primary_header == Some(r@),
    {
        self.primary_header.as_ref().unwrap()
    }

    /// The backup header, which must have been loaded.
    pub fn backup_header(&self) -> (r: &Header)
        requires
            self@.backup_header is Some,
        ensures
            self@.backup_header == Some(r@),
    {
        self.backup_header.as_ref().unwrap()
    }

    /// True when the loaded primary and backup headers name each other's
    /// LBA as the place of the other copy.
    pub fn headers_agree(&self) -> (r: bool)
        requires
            self@.primary_header is Some,
            self@.backup_header is Some,
        ensures
            r == (self@.primary_header->Some_0.backup_lba == self@.backup_header->Some_0.my_lba
                && self@.backup_header->Some_0.backup_lba == self@.primary_header->Some_0.my_lba),
    {
        let p = self.primary_header();
        let b = self.backup_header();
        p.backup_lba == b.my_lba && b.backup_lba == p.my_lba
    }

    /// The primary-table entry in slot `part_index`, if one was loaded.
    pub fn partition(&self, part_index: usize) -> (r: Option<&Partition>)
        requires
            part_index < MIN_PARTITION_NUM,
        ensures
            r is None <==> slot_lookup(self@.partitions, part_index) is None,
            r is Some ==> slot_lookup(self@.partitions, part_index) == Some(r->Some_0@),
    {
        let i = find_slot(&self.partitions, part_index);
        if i < self.partitions.len() {
            Some(&self.partitions[i].0)
        } else {
            None
        }
    }

    /// The backup-table entry in slot `part_index`, if one was loaded.
    pub fn backup_partition(&self, part_index: usize) -> (r: Option<&Partition>)
        requires
            part_index < MIN_PARTITION_NUM,
        ensures
            r is None <==> slot_lookup(self@.backup_partitions, part_index) is None,
            r is Some ==> slot_lookup(self@.backup_partitions, part_index) == Some(r->Some_0@),
    {
        let i = find_slot(&self.backup_partitions, part_index);
        if i < self.backup_partitions.len() {
            Some(&self.backup_partitions[i].0)
        } else {
            None
        }
    }
}

impl GptLayout {
    /// The protective MBR, which must have been loaded, for changing in place.
    pub fn protective_mbr_mut(&mut self) -> (r: &mut ProtectiveMBR)
        requires
            old(self)@.protective_mbr is Some,
        ensures
            old(self)@.protective_mbr == Some(r@),
            final(self)@ == (GptLayoutView {
                protective_mbr: Some((*final(r))@),
                ..old(self)@
            }),
    {
        self.protective_mbr.as_mut().unwrap()
    }

    /// The primary header, which must have been loaded, for changing in place.
    pub fn primary_header_mut(&mut self) -> (r: &mut Header)
        requires
            old(self)@.primary_header is Some,
        ensures
            old(self)@.primary_header == Some(r@),
            final(self)@ == (GptLayoutView { primary_header: Some((*final(r))@), ..old(self)@ }),
    {
        self.primary_header.as_mut().unwrap()
    }

    /// The backup header, which must have been loaded, for changing in place.
    pub fn backup_header_mut(&mut self) -> (r: &mut Header)
        requires
            old(self)@.backup_header is Some,
        ensures
            old(self)@.backup_header == Some(r@),
            final(self)@ == (GptLayoutView { backup_header: Some((*final(r))@), ..old(self)@ }),
    {
        self.backup_header.as_mut().unwrap()
    }

    /// The primary-table entry in slot `part_index`, if one was loaded, for
    /// changing in place.
    pub fn partition_mut(&mut self, part_index: usize) -> (r: Option<&mut Partition>)
        requires
            part_index < MIN_PARTITION_NUM,
        ensures
            r is None <==> slot_lookup(old(self)@.partitions, part_index) is None,
            r is None ==> final(self)@ == old(self)@,
            r is Some ==> slot_lookup(old(self)@.partitions, part_index) == Some(
                (*r->Some_0)@,
            ),
            r is Some ==> final(self)@ == (GptLayoutView {
                partitions: old(self)@.partitions.update(
                    slot_position(old(self)@.partitions, part_index),
                    ((*final(r->Some_0))@, part_index),
                ),
                ..old(self)@
            }),
    {
        let i = find_slot(&self.partitions, part_index);
        proof {
            lemma_slot_position_bound(tagged_view(self.partitions@), part_index);
        }
        if i < self.partitions.len() {
            proof {
                lemma_tagged_view_update(self.partitions@, i as int);
            }
            Some(&mut self.partitions[i].0)
        } else {
            None
        }
    }

    /// The backup-table entry in slot `part_index`, if one was loaded, for
    /// changing in place.
    pub fn backup_partition_mut(&mut self, part_index: usize) -> (r: Option<&mut Partition>)
        requires
            part_index < MIN_PARTITION_NUM,
        ensures
            r is None <==> slot_lookup(old(self)@.backup_partitions, part_index) is None,
            r is None ==> final(self)@ == old(self)@,
            r is Some ==> slot_lookup(old(self)@.backup_partitions, part_index) == Some(
                (*r->Some_0)@,
            ),
            r is Some ==> final(self)@ == (GptLayoutView {
                backup_partitions: old(self)@.backup_partitions.update(
                    slot_position(old(self)@.backup_partitions, part_index),
                    ((*final(r->Some_0))@, part_index),
                ),
                ..old(self)@
            }),
    {
        let i = find_slot(&self.backup_partitions, part_index);
        proof {
            lemma_slot_position_bound(tagged_view(self.backup_partitions@), part_index);
        }
        if i < self.backup_partitions.len() {
            proof {
                lemma_tagged_view_update(self.backup_partitions@, i as int);
            }
            Some(&mut self.backup_partitions[i].0)
        } else {
            None
        }
    }
}

proof fn lemma_entries_upto_slots(blk: Seq<u8>, base: int, n: int)
    requires
        0 <= base,
        0 <= n,
        base + n <= usize::MAX,
    ensures
        ({
            let e = entries_upto(blk, base, n);
            &&& e.len() <= n
            &&& forall|i: int| 0 <= i < e.len() ==> base < #[trigger] e[i].1 <= base + n
            &&& forall|i: int, j: int| 0 <= i < j < e.len() ==> e[i].1 < e[j].1
            &&& forall|i: int|
                0 <= i < e.len() ==> entry_present(block_entry(blk, #[trigger] e[i].1 - base - 1))
                    && e[i].0 == partition_of(block_entry(blk, e[i].1 - base - 1))
            &&& forall|k: int|
                0 <= k < n && entry_present(#[trigger] block_entry(blk, k)) ==> exists|i: int|
                    0 <= i < e.len() && e[i].1 == base + k + 1
            &&& (forall|k: int| 0 <= k < n ==> entry_present(#[trigger] block_entry(blk, k)))
                ==> e.len() == n && forall|i: int| 0 <= i < e.len() ==> #[trigger] e[i].1 == base
                + i + 1
        }),
    decreases n,
{
    if n > 0 {
        lemma_entries_upto_slots(blk, base, n - 1);
        let rest = entries_upto(blk, base, n - 1);
        let e = entries_upto(blk, base, n);
        assert forall|k: int|
            0 <= k < n && entry_present(#[trigger] block_entry(blk, k)) implies exists|i: int|
                0 <= i < e.len() && e[i].1 == base + k + 1 by {
            if k < n - 1 {
                let i = choose|i: int| 0 <= i < rest.len() && rest[i].1 == base + k + 1;
                assert(e[i] == rest[i]);
            } else {
                assert(e[rest.len() as int].1 == base + k + 1);
            }
        }
    }
}

/// Loading a table block tags each in-use entry with its absolute 1-based
/// slot `(entry_index - 1) * entries_per_block + k + 1`: the tags lie within
/// the block's own range of slots, rise strictly in the order of the block,
/// each tagged entry is the in-use entry stored at its slot, every in-use
/// entry of the block is there, and when every entry is in use the tags are
/// consecutive.
pub proof fn lemma_block_slots(blk: Seq<u8>, entry_index: int)
    requires
        entry_index >= 1,
        entry_index * (blk.len() / 128) <= usize::MAX,
    ensures
        ({
            let per = (blk.len() / 128) as int;
            let base = (entry_index - 1) * per;
            let e = block_entries(blk, entry_index);
            &&& forall|i: int| 0 <= i < e.len() ==> base < #[trigger] e[i].1 <= base + per
            &&& forall|i: int, j: int| 0 <= i < j < e.len() ==> e[i].1 < e[j].1
            &&& forall|i: int|
                0 <= i < e.len() ==> entry_present(block_entry(blk, #[trigger] e[i].1 - base - 1))
                    && e[i].0 == partition_of(block_entry(blk, e[i].1 - base - 1))
            &&& forall|k: int|
                0 <= k < per && entry_present(#[trigger] block_entry(blk, k)) ==> exists|i: int|
                    0 <= i < e.len() && e[i].1 == base + k + 1
            &&& (forall|k: int| 0 <= k < per ==> entry_present(#[trigger] block_entry(blk, k)))
                ==> e.len() == per && forall|i: int| 0 <= i < e.len() ==> #[trigger] e[i].1 == base
                + i + 1
        }),
{
    let per = (blk.len() / 128) as int;
    assert((entry_index - 1) * per + per == entry_index * per) by (nonlinear_arith);
    assert(0 <= (entry_index - 1) * per) by (nonlinear_arith)
        requires
            entry_index >= 1,
            per >= 0,
    ;
    let base = (entry_index - 1) * per;
    assert(block_entries(blk, entry_index) == entries_upto(blk, base, per));
    lemma_entries_upto_slots(blk, base, per);
}

/// Loading two consecutive 512-byte table blocks, at indices 1 and 2, tags
/// the entries of the first with slots 1 to 4 and those of the second with
/// slots 5 to 8, in the order in which they stand; when every entry is in use
/// the tags are exactly 1 to 8.
pub proof fn lemma_consecutive_blocks(b1: Seq<u8>, b2: Seq<u8>)
    requires
        b1.len() == 512,
        b2.len() == 512,
    ensures
        ({
            let e1 = block_entries(b1, 1);
            let e = e1 + block_entries(b2, 2);
            &&& forall|i: int| 0 <= i < e1.len() ==> 1 <= #[trigger] e[i].1 <= 4
            &&& forall|i: int| e1.len() <= i < e.len() ==> 5 <= #[trigger] e[i].1 <= 8
            &&& forall|i: int, j: int| 0 <= i < j < e.len() ==> e[i].1 < e[j].1
            &&& (forall|k: int|
                0 <= k < 4 ==> entry_present(#[trigger] block_entry(b1, k)) && entry_present(
                    block_entry(b2, k),
                )) ==> e.len() == 8 && forall|i: int| 0 <= i < 8 ==> #[trigger] e[i].1 == i + 1
        }),
{
    lemma_block_slots(b1, 1);
    lemma_block_slots(b2, 2);
    let e1 = block_entries(b1, 1);
    let e2 = block_entries(b2, 2);
    let e = e1 + e2;
    assert forall|i: int| 0 <= i < e1.len() implies 1 <= #[trigger] e[i].1 <= 4 by {
        assert(e[i] == e1[i]);
    }
    assert forall|i: int| e1.len() <= i < e.len() implies 5 <= #[trigger] e[i].1 <= 8 by {
        assert(e[i] == e2[i - e1.len()]);
    }
    assert forall|i: int, j: int| 0 <= i < j < e.len() implies e[i].1 < e[j].1 by {
        if j < e1.len() {
            assert(e[i] == e1[i] && e[j] == e1[j]);
        } else if i >= e1.len() {
            assert(e[i] == e2[i - e1.len()] && e[j] == e2[j - e1.len()]);
        } else {
            assert(e[i] == e1[i] && e[j] == e2[j - e1.len()]);
        }
    }
    if forall|k: int|
        0 <= k < 4 ==> entry_present(#[trigger] block_entry(b1, k)) && entry_present(
            block_entry(b2, k),
        ) {
        assert(forall|k: int| 0 <= k < 4 ==> entry_present(#[trigger] block_entry(b1, k)));
        assert forall|k: int| 0 <= k < 4 implies entry_present(#[trigger] block_entry(b2, k)) by {
            assert(entry_present(block_entry(b1, k)));
        }
        assert forall|i: int| 0 <= i < 8 implies #[trigger] e[i].1 == i + 1 by {
            if i < 4 {
                assert(e[i] == e1[i]);
            } else {
                assert(e[i] == e2[i - 4]);
            }
        }
    }
}

} // verus!
