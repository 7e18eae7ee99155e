//! Carrying the partitions behind the first four of a table over to another table.

use crate::disk::Disk;
use crate::number::{decimal, decimal_text};
use crate::space::{
    are_disjoint, are_in_range, bounds_in_order, can_be_measured, holds_sector, is_measurable,
    largest_size, last_start, law_free_stretches_are_free, law_largest_size_has_a_place,
    law_place_is_free, law_stretches_are_aligned, table_stretches,
};
use crate::table::{
    entry_views, gpt_entries, gpt_geometry, last_place, maximum_partition_size, read_entries,
    read_geometry, write_entry, GptEntry, GptEntryView, GptGeometry,
};
use crate::text::texts;
use vstd::prelude::*;

verus! {

/// A partition to be put into the slot `idx` of a table.
#[derive(Debug)]
pub struct GptPart {
    pub idx: u32,
    pub partition_type: [u8; 16],
    pub guid: [u8; 16],
    pub start_lba: u64,
    pub end_lba: u64,
    pub attributes: u64,
    pub name: String,
}

/// The mathematical value of a [`GptPart`].
#[verifier::ext_equal]
pub struct GptPartView {
    pub idx: u32,
    pub partition_type: Seq<u8>,
    pub guid: Seq<u8>,
    pub start_lba: u64,
    pub end_lba: u64,
    pub attributes: u64,
    pub name: Seq<char>,
}

impl View for GptPart {
    type V = GptPartView;

    open spec fn view(&self) -> GptPartView {
        GptPartView {
            idx: self.idx,
            partition_type: self.partition_type@,
            guid: self.guid@,
            start_lba: self.start_lba,
            end_lba: self.end_lba,
            attributes: self.attributes,
            name: self.name@,
        }
    }
}

/// The values of a list of partitions.
pub open spec fn part_views(parts: Seq<GptPart>) -> Seq<GptPartView> {
    parts.map_values(|p: GptPart| p@)
}

/// How many used slots at the front of a table belong to the installed system.
pub const SYSTEM_PARTITIONS: u32 = 4;

/// The slot that a data partition goes into.
pub const DATASTORE_SLOT: u32 = 5;

/// How many bytes of the largest free stretch a data partition leaves free.
pub const RESERVED_BYTES: u64 = 2147483648;

/// How many usable sectors at the end of the disk a data partition leaves free.
pub const TRAILING_SECTORS: u64 = 5;

/// The slot contents `entry` as a partition with the number `idx`.
pub open spec fn part_of_entry(entry: GptEntryView, idx: u32) -> GptPartView {
    GptPartView {
        idx,
        partition_type: entry.partition_type_guid,
        guid: entry.unique_partition_guid,
        start_lba: entry.starting_lba,
        end_lba: entry.ending_lba,
        attributes: entry.attribute_bits,
        name: entry.partition_name,
    }
}

/// What a slot holds when `part` has been put into it.
pub open spec fn entry_of_part(part: GptPartView) -> GptEntryView {
    GptEntryView {
        partition_type_guid: part.partition_type,
        unique_partition_guid: part.guid,
        starting_lba: part.start_lba,
        ending_lba: part.end_lba,
        attribute_bits: part.attributes,
        partition_name: part.name,
    }
}

/// The used slots, in the order of the table.
pub open spec fn used_entries(entries: Seq<GptEntryView>) -> Seq<GptEntryView> {
    entries.filter(|e: GptEntryView| e.is_used())
}

/// The partitions behind the first four used slots. They are numbered from five on in their order
/// among the used slots, whichever slots they stand in.
pub open spec fn extra_parts(entries: Seq<GptEntryView>) -> Seq<GptPartView> {
    let used = used_entries(entries);
    let count = if used.len() > SYSTEM_PARTITIONS {
        (used.len() - SYSTEM_PARTITIONS) as nat
    } else {
        0
    };
    Seq::new(
        count,
        |i: int| part_of_entry(used[i + SYSTEM_PARTITIONS], (i + SYSTEM_PARTITIONS + 1) as u32),
    )
}

/// The slots after each of `parts` has been put into the slot with its number, in this order.
pub open spec fn with_parts(
    entries: Seq<GptEntryView>,
    parts: Seq<GptPartView>,
) -> Seq<GptEntryView>
    decreases parts.len(),
{
    if parts.len() == 0 {
        entries
    } else {
        with_parts(entries, parts.drop_last()).update(
            parts.last().idx - 1,
            entry_of_part(parts.last()),
        )
    }
}

/// The sectors of a data partition: where the largest free stretch has more bytes than are
/// reserved, what it has beyond them, in whole sectors; else no data partition is made.
pub open spec fn datastore_sectors(largest: Option<u64>, sector_size: u64) -> Option<u64> {
    let bytes = largest.unwrap_or(0) * sector_size;
    if bytes > RESERVED_BYTES {
        Some(((bytes - RESERVED_BYTES) / sector_size as int) as u64)
    } else {
        None
    }
}

/// A data partition from `starting_lba` up to a few sectors before the last usable one.
pub open spec fn datastore_view(starting_lba: u64, last_usable_lba: u64) -> GptEntryView {
    GptEntryView {
        partition_type_guid: Seq::new(16, |i: int| 0xffu8),
        unique_partition_guid: Seq::new(16, |i: int| 0xffu8),
        starting_lba,
        ending_lba: (last_usable_lba - TRAILING_SECTORS) as u64,
        attribute_bits: 0,
        partition_name: "datastore"@,
    }
}

/// The slots after the partitions of an earlier table have been put into a table, or, where
/// there are none, a data partition, if there is room for one.
pub open spec fn with_extra_parts(
    entries: Seq<GptEntryView>,
    geometry: GptGeometry,
    parts: Seq<GptPartView>,
) -> Seq<GptEntryView> {
    if parts.len() > 0 {
        with_parts(entries, parts)
    } else {
        match datastore_sectors(
            largest_size(table_stretches(entries, geometry), geometry.align),
            geometry.sector_size,
        ) {
            Some(size) => entries.update(
                DATASTORE_SLOT - 1,
                datastore_view(
                    last_start(
                        table_stretches(entries, geometry),
                        geometry.align,
                        size,
                    ).unwrap(),
                    geometry.last_usable_lba,
                ),
            ),
            None => entries,
        }
    }
}

/// Whether the partitions can be put into the table: its free sectors can be computed; every
/// number is that of a slot; and, where a data partition comes in question, the bytes of the
/// largest free stretch fit in 64 bits, the table has the slot for it, and the usable range does
/// not end before its trailing sectors.
pub open spec fn accepts_extra_parts(
    entries: Seq<GptEntryView>,
    geometry: GptGeometry,
    parts: Seq<GptPartView>,
) -> bool {
    let largest = largest_size(table_stretches(entries, geometry), geometry.align);
    &&& is_measurable(entries, geometry)
    &&& forall|i: int| 0 <= i < parts.len() ==> 1 <= (#[trigger] parts[i]).idx <= entries.len()
    &&& parts.len() == 0 ==> largest.unwrap_or(0) * geometry.sector_size <= u64::MAX
    &&& parts.len() == 0 && datastore_sectors(largest, geometry.sector_size) is Some ==> {
        &&& geometry.last_usable_lba >= TRAILING_SECTORS
        &&& entries.len() >= DATASTORE_SLOT
    }
}

impl GptPart {
    /// The slot contents for this partition.
    pub fn to_entry(&self) -> (entry: GptEntry)
        ensures
            entry@ == entry_of_part(self@),
    {
        GptEntry {
            partition_type_guid: self.partition_type,
            unique_partition_guid: self.guid,
            starting_lba: self.start_lba,
            ending_lba: self.end_lba,
            attribute_bits: self.attributes,
            partition_name: self.name.clone(),
        }
    }
}

/// The partitions behind the first four used ones of `entries`.
pub fn extra_partitions(entries: &Vec<GptEntry>) -> (parts: Vec<GptPart>)
    requires
        entries@.len() <= u32::MAX,
    ensures
        part_views(parts@) == extra_parts(entry_views(entries@)),
{
    let mut parts: Vec<GptPart> = Vec::new();
    let mut used: u32 = 0;
    let ghost views = entry_views(entries@);
    let mut i: usize = 0;
    proof {
        reveal(Seq::filter);
        assert(part_views(parts@) == extra_parts(views.take(0)));
    }
    while i < entries.len()
        invariant
            i <= entries@.len() <= u32::MAX,
            views == entry_views(entries@),
            used == used_entries(views.take(i as int)).len(),
            used <= i,
            part_views(parts@) == extra_parts(views.take(i as int)),
        decreases entries@.len() - i,
    {
        let entry: &GptEntry = &entries[i];
        let ghost before = views.take(i as int);
        let ghost after = views.take(i + 1);
        proof {
            reveal(Seq::filter);
            assert(after.drop_last() == before);
            assert(after.last() == entry@);
        }
        if entry.is_used() {
            let ghost earlier = parts@;
            if used >= SYSTEM_PARTITIONS {
                parts.push(
                    GptPart {
                        idx: used + 1,
                        partition_type: entry.partition_type_guid,
                        guid: entry.unique_partition_guid,
                        start_lba: entry.starting_lba,
                        end_lba: entry.ending_lba,
                        attributes: entry.attribute_bits,
                        name: entry.partition_name.clone(),
                    },
                );
                assert(part_views(parts@) == part_views(earlier).push(
                    part_of_entry(entry@, (used + 1) as u32),
                ));
            }
            assert(used_entries(after) == used_entries(before).push(entry@));
            used = used + 1;
            assert(part_views(parts@) =~= extra_parts(after));
        } else {
            assert(used_entries(after) == used_entries(before));
        }
        i = i + 1;
    }
    assert(views.take(i as int) == views);
    parts
}

/// How many sectors a data partition gets, given the largest free stretch, if one is made.
pub fn datastore_size(largest: Option<u64>, sector_size: u64) -> (size: Option<u64>)
    requires
        largest.unwrap_or(0) * sector_size <= u64::MAX,
    ensures
        size == datastore_sectors(largest, sector_size),
{
    let max_size: u64 = match largest {
        Some(size) => size,
        None => 0,
    };
    let bytes: u64 = max_size * sector_size;
    if bytes > RESERVED_BYTES {
        proof {
            lemma_datastore_fits(largest, sector_size);
            assert(sector_size > 0) by (nonlinear_arith)
                requires
                    bytes == max_size * sector_size,
                    bytes > 0,
                    sector_size >= 0,
            ;
        }
        Some((bytes - RESERVED_BYTES) / sector_size)
    } else {
        None
    }
}

/// The slot contents of a data partition that starts at `starting_lba`.
pub fn datastore_entry(starting_lba: u64, last_usable_lba: u64) -> (entry: GptEntry)
    requires
        last_usable_lba >= TRAILING_SECTORS,
    ensures
        entry@ == datastore_view(starting_lba, last_usable_lba),
{
    let entry = GptEntry {
        partition_type_guid: [0xff; 16],
        unique_partition_guid: [0xff; 16],
        starting_lba,
        ending_lba: last_usable_lba - TRAILING_SECTORS,
        attribute_bits: 0,
        partition_name: "datastore".to_owned(),
    };
    assert(entry@ =~= datastore_view(starting_lba, last_usable_lba));
    entry
}

/// A data partition is no larger than the largest free stretch.
proof fn lemma_datastore_fits(largest: Option<u64>, sector_size: u64)
    requires
        largest.unwrap_or(0) * sector_size <= u64::MAX,
        datastore_sectors(largest, sector_size) is Some,
    ensures
        largest matches Some(most) && datastore_sectors(largest, sector_size).unwrap() <= most,
{
    let most = largest.unwrap_or(0);
    let bytes = most * sector_size;
    let sectors = (bytes - RESERVED_BYTES) / sector_size as int;
    assert(most > 0 && sector_size > 0 && 0 <= sectors <= most) by (nonlinear_arith)
        requires
            bytes == most * sector_size,
            sectors == (bytes - RESERVED_BYTES) / sector_size as int,
            bytes > RESERVED_BYTES,
            RESERVED_BYTES >= 0,
            most >= 0,
            sector_size >= 0,
    ;
}

/// Where a data partition is made, there is a place for it.
proof fn lemma_data_partition_has_a_place(
    entries: Seq<GptEntryView>,
    geometry: GptGeometry,
    size: u64,
)
    requires
        geometry.align > 0,
        largest_size(table_stretches(entries, geometry), geometry.align) matches Some(largest)
            && size <= largest,
    ensures
        last_start(table_stretches(entries, geometry), geometry.align, size) is Some,
{
    let bounds = bounds_in_order(entries, geometry);
    let stretches = table_stretches(entries, geometry);
    assert forall|i: int| 0 <= i < stretches.len() implies (#[trigger] stretches[i]).0
        <= stretches[i].1 by {
        law_stretches_are_aligned(bounds, geometry.align, i);
    }
    law_largest_size_has_a_place(stretches, geometry.align, size);
}

/// The partitions of the table that was found on a disk and are not among its first four. Where no
/// table was found, there are none.
pub fn extra_gptpartitions_found(gpt: Option<&gptman::GPT>) -> (parts: Vec<GptPart>)
    ensures
        part_views(parts@) == match gpt {
            Some(table) => extra_parts(gpt_entries(*table)),
            None => Seq::empty(),
        },
        gpt matches Some(table) ==> gpt_entries(*table).len() <= u32::MAX,
{
    match gpt {
        Some(table) => Disk::get_extra_gptpartitions(table),
        None => {
            let none: Vec<GptPart> = Vec::new();
            assert(part_views(none@) == Seq::<GptPartView>::empty());
            none
        },
    }
}

/// What is said before `part` is put into its slot.
pub open spec fn announcement(part: GptPartView) -> Seq<char> {
    "Adding "@ + part.name + " into slot "@ + decimal(part.idx as nat) + "\n"@
}

/// What is said of the partitions, one by one, up to the first whose number is not that of a slot.
pub open spec fn announcements(parts: Seq<GptPartView>, slots: nat) -> Seq<Seq<char>>
    decreases parts.len(),
{
    if parts.len() == 0 {
        Seq::empty()
    } else {
        seq![announcement(parts[0])] + if 1 <= parts[0].idx <= slots {
            announcements(parts.drop_first(), slots)
        } else {
            Seq::empty()
        }
    }
}

impl Disk {
    /// What is said while the partitions are put into the table: a line for each, up to the first
    /// whose number is not that of a slot. Nothing is said of a table whose free sectors cannot be
    /// computed.
    pub fn announced_gptpartitions(gpt: &gptman::GPT, parts: &Vec<GptPart>) -> (said: Vec<String>)
        ensures
            texts(said@) == if is_measurable(gpt_entries(*gpt), gpt_geometry(*gpt)) {
                announcements(part_views(parts@), gpt_entries(*gpt).len())
            } else {
                Seq::empty()
            },
    {
        let entries: Vec<GptEntry> = read_entries(gpt);
        let mut said: Vec<String> = Vec::new();
        assert(texts(said@) == Seq::<Seq<char>>::empty());
        if !can_be_measured(&entries, read_geometry(gpt)) {
            return said;
        }
        let ghost views = part_views(parts@);
        let ghost slots = gpt_entries(*gpt).len();
        let mut i: usize = 0;
        assert(views.skip(0) == views);
        while i < parts.len()
            invariant
                i <= parts@.len(),
                views == part_views(parts@),
                slots == gpt_entries(*gpt).len(),
                entry_views(entries@) == gpt_entries(*gpt),
                entries@.len() <= u32::MAX,
                is_measurable(gpt_entries(*gpt), gpt_geometry(*gpt)),
                texts(said@) + announcements(views.skip(i as int), slots) == announcements(
                    views,
                    slots,
                ),
            decreases parts@.len() - i,
        {
            let part: &GptPart = &parts[i];
            let mut line: String = "Adding ".to_owned();
            line.append(part.name.as_str());
            line.append(" into slot ");
            line.append(decimal_text(part.idx as u64).as_str());
            line.append("\n");
            let ghost before = said@;
            said.push(line);
            proof {
                assert(views.skip(i as int)[0] == part@);
                assert(views.skip(i as int).drop_first() == views.skip(i + 1));
                assert(line@ == announcement(part@));
                assert(texts(said@) == texts(before) + seq![line@]);
            }
            if part.idx < 1 || part.idx as usize > entries.len() {
                assert(announcements(views.skip(i as int), slots) == seq![line@]);
                return said;
            }
            i = i + 1;
        }
        assert(announcements(views.skip(i as int), slots) == Seq::<Seq<char>>::empty());
        said
    }

    /// The partitions of a table that are not among its first four.
    pub fn get_extra_gptpartitions(gpt: &gptman::GPT) -> (parts: Vec<GptPart>)
        ensures
            part_views(parts@) == extra_parts(gpt_entries(*gpt)),
            gpt_entries(*gpt).len() <= u32::MAX,
    {
        let entries: Vec<GptEntry> = read_entries(gpt);
        extra_partitions(&entries)
    }

    /// Puts the partitions into the slots with their numbers. Where there are none, makes a data
    /// partition, if the largest free stretch is longer than the reserve.
    pub fn add_extra_gptpartitions(gpt: &mut gptman::GPT, extra_parts: &Vec<GptPart>)
        requires
            accepts_extra_parts(
                gpt_entries(*old(gpt)),
                gpt_geometry(*old(gpt)),
                part_views(extra_parts@),
            ),
        ensures
            gpt_entries(*final(gpt)) == with_extra_parts(
                gpt_entries(*old(gpt)),
                gpt_geometry(*old(gpt)),
                part_views(extra_parts@),
            ),
            gpt_geometry(*final(gpt)) == gpt_geometry(*old(gpt)),
    {
        let ghost entries = gpt_entries(*gpt);
        let ghost geometry = gpt_geometry(*gpt);
        let ghost parts = part_views(extra_parts@);
        let largest: Option<u64> = maximum_partition_size(gpt);
        if extra_parts.len() == 0 {
            let limits: GptGeometry = read_geometry(gpt);
            if let Some(size) = datastore_size(largest, limits.sector_size) {
                proof {
                    lemma_datastore_fits(largest, geometry.sector_size);
                    lemma_data_partition_has_a_place(entries, geometry, size);
                }
                let starting_lba: u64 = last_place(gpt, size).unwrap();
                let entry: GptEntry = datastore_entry(starting_lba, limits.last_usable_lba);
                write_entry(gpt, DATASTORE_SLOT, &entry);
            }
        }
        let mut i: usize = 0;
        let ghost start = gpt_entries(*gpt);
        while i < extra_parts.len()
            invariant
                i <= extra_parts@.len(),
                parts == part_views(extra_parts@),
                extra_parts@.len() > 0 ==> start == entries,
                gpt_entries(*gpt) == with_parts(start, parts.take(i as int)),
                gpt_entries(*gpt).len() == entries.len(),
                gpt_geometry(*gpt) == geometry,
                forall|j: int|
                    0 <= j < parts.len() ==> 1 <= (#[trigger] parts[j]).idx <= entries.len(),
            decreases extra_parts@.len() - i,
        {
            let part: &GptPart = &extra_parts[i];
            assert(part@ == parts[i as int]);
            let entry: GptEntry = part.to_entry();
            write_entry(gpt, part.idx, &entry);
            proof {
                assert(parts.take(i + 1).drop_last() == parts.take(i as int));
            }
            i = i + 1;
        }
        assert(parts.take(i as int) == parts);
    }

    /// Does what [`Disk::add_extra_gptpartitions`] does where the table accepts the partitions,
    /// and leaves the table alone where it does not. Says which.
    pub fn try_add_extra_gptpartitions(
        gpt: &mut gptman::GPT,
        extra_parts: &Vec<GptPart>,
    ) -> (added: bool)
        ensures
            added == accepts_extra_parts(
                gpt_entries(*old(gpt)),
                gpt_geometry(*old(gpt)),
                part_views(extra_parts@),
            ),
            gpt_entries(*final(gpt)) == if added {
                with_extra_parts(
                    gpt_entries(*old(gpt)),
                    gpt_geometry(*old(gpt)),
                    part_views(extra_parts@),
                )
            } else {
                gpt_entries(*old(gpt))
            },
            gpt_geometry(*final(gpt)) == gpt_geometry(*old(gpt)),
    {
        let entries: Vec<GptEntry> = read_entries(gpt);
        let geometry: GptGeometry = read_geometry(gpt);
        let ghost parts = part_views(extra_parts@);
        if !can_be_measured(&entries, geometry) {
            return false;
        }
        let mut i: usize = 0;
        while i < extra_parts.len()
            invariant
                i <= extra_parts@.len(),
                parts == part_views(extra_parts@),
                entry_views(entries@) == gpt_entries(*gpt),
                *gpt == *old(gpt),
                entries@.len() <= u32::MAX,
                forall|j: int|
                    0 <= j < i ==> 1 <= (#[trigger] parts[j]).idx <= entries@.len(),
            decreases extra_parts@.len() - i,
        {
            assert(parts[i as int] == extra_parts@[i as int]@);
            let idx: u32 = extra_parts[i].idx;
            if idx < 1 || idx as usize > entries.len() {
                return false;
            }
            i = i + 1;
        }
        if extra_parts.len() == 0 {
            let largest: Option<u64> = maximum_partition_size(gpt);
            let max_size: u64 = match largest {
                Some(size) => size,
                None => 0,
            };
            if max_size.checked_mul(geometry.sector_size).is_none() {
                return false;
            }
            if datastore_size(largest, geometry.sector_size).is_some() {
                if geometry.last_usable_lba < TRAILING_SECTORS || entries.len()
                    < DATASTORE_SLOT as usize {
                    return false;
                }
            }
        }
        Disk::add_extra_gptpartitions(gpt, extra_parts);
        true
    }
}

/// The extra partitions of a table are its used slots from the fifth on, numbered from five on.
pub proof fn law_extra_parts_are_numbered(entries: Seq<GptEntryView>, i: int)
    requires
        entries.len() <= u32::MAX,
        0 <= i < extra_parts(entries).len(),
    ensures
        extra_parts(entries)[i].idx == SYSTEM_PARTITIONS + 1 + i,
        entry_of_part(extra_parts(entries)[i]) == used_entries(entries)[SYSTEM_PARTITIONS + i],
{
    entries.lemma_filter_len(|e: GptEntryView| e.is_used());
}

/// Where every number is that of a slot, every partition is announced, in their order.
pub proof fn law_accepted_parts_are_announced(parts: Seq<GptPartView>, slots: nat)
    requires
        forall|i: int| 0 <= i < parts.len() ==> 1 <= (#[trigger] parts[i]).idx <= slots,
    ensures
        announcements(parts, slots) == parts.map_values(|p: GptPartView| announcement(p)),
    decreases parts.len(),
{
    if parts.len() > 0 {
        let rest = parts.drop_first();
        assert(forall|i: int| 0 <= i < rest.len() ==> #[trigger] rest[i] == parts[i + 1]);
        law_accepted_parts_are_announced(rest, slots);
        assert(announcements(parts, slots) =~= parts.map_values(
            |p: GptPartView| announcement(p),
        ));
    }
}

/// The slots of a table stay in number, and one whose number no partition carries keeps what it
/// holds.
pub proof fn law_other_slots_stay(entries: Seq<GptEntryView>, parts: Seq<GptPartView>, slot: int)
    requires
        0 <= slot < entries.len(),
        forall|i: int| 0 <= i < parts.len() ==> (#[trigger] parts[i]).idx - 1 != slot,
        forall|i: int| 0 <= i < parts.len() ==> 1 <= (#[trigger] parts[i]).idx <= entries.len(),
    ensures
        with_parts(entries, parts).len() == entries.len(),
        with_parts(entries, parts)[slot] == entries[slot],
    decreases parts.len(),
{
    if parts.len() > 0 {
        assert(parts.last() == parts[parts.len() - 1]);
        assert forall|i: int| 0 <= i < parts.drop_last().len() implies 1 <= (
        #[trigger] parts.drop_last()[i]).idx <= entries.len() && parts.drop_last()[i].idx - 1
            != slot by {
            assert(parts.drop_last()[i] == parts[i]);
        }
        law_other_slots_stay(entries, parts.drop_last(), slot);
    }
}

/// Making a data partition touches the slot for it and no other.
pub proof fn law_datastore_takes_one_slot(
    entries: Seq<GptEntryView>,
    geometry: GptGeometry,
    slot: int,
)
    requires
        accepts_extra_parts(entries, geometry, Seq::empty()),
        0 <= slot < entries.len(),
        slot != DATASTORE_SLOT - 1,
    ensures
        with_extra_parts(entries, geometry, Seq::empty()).len() == entries.len(),
        with_extra_parts(entries, geometry, Seq::empty())[slot] == entries[slot],
{
}

/// Where a data partition of `size` sectors is made, it starts at an aligned sector of a free
/// stretch that holds `size` sectors from there on.
pub proof fn law_data_partition_starts_in_free_space(
    entries: Seq<GptEntryView>,
    geometry: GptGeometry,
    size: u64,
)
    requires
        accepts_extra_parts(entries, geometry, Seq::empty()),
        datastore_sectors(
            largest_size(table_stretches(entries, geometry), geometry.align),
            geometry.sector_size,
        ) == Some(size),
    ensures
        ({
            let made = with_extra_parts(entries, geometry, Seq::empty())[DATASTORE_SLOT - 1];
            &&& made.starting_lba % geometry.align == 0
            &&& exists|i: int|
                0 <= i < table_stretches(entries, geometry).len() && (#[trigger] table_stretches(
                    entries,
                    geometry,
                )[i]).0 <= made.starting_lba && made.starting_lba + size <= table_stretches(
                    entries,
                    geometry,
                )[i].1
        }),
{
    let largest = largest_size(table_stretches(entries, geometry), geometry.align);
    lemma_datastore_fits(largest, geometry.sector_size);
    lemma_data_partition_has_a_place(entries, geometry, size);
    law_place_is_free(bounds_in_order(entries, geometry), geometry.align, size);
}

/// Where a data partition is made in a free stretch up to the end of the usable range, it takes no
/// sector of another partition, if the used slots lie in the usable range and no two of them hold
/// the same sector.
pub proof fn law_data_partition_takes_free_sectors(
    entries: Seq<GptEntryView>,
    geometry: GptGeometry,
    i: int,
    slot: int,
    x: int,
)
    requires
        accepts_extra_parts(entries, geometry, Seq::empty()),
        datastore_sectors(
            largest_size(table_stretches(entries, geometry), geometry.align),
            geometry.sector_size,
        ) is Some,
        are_in_range(entries, geometry),
        are_disjoint(entries),
        0 <= i < table_stretches(entries, geometry).len(),
        table_stretches(entries, geometry)[i].0 <= with_extra_parts(
            entries,
            geometry,
            Seq::empty(),
        )[DATASTORE_SLOT - 1].starting_lba,
        table_stretches(entries, geometry)[i].1 == geometry.last_usable_lba + 1,
        0 <= slot < entries.len(),
        holds_sector(
            with_extra_parts(entries, geometry, Seq::empty())[DATASTORE_SLOT - 1],
            x,
        ),
    ensures
        !holds_sector(entries[slot], x),
{
    law_free_stretches_are_free(entries, geometry, i, x, slot);
}

/// A data partition has all the sectors of the largest free stretch but the reserve, rounded to
/// whole sectors so that no byte of the reserve is taken.
pub proof fn law_datastore_leaves_reserve(largest: u64, sector_size: u64)
    requires
        largest * sector_size > RESERVED_BYTES,
        largest * sector_size <= u64::MAX,
    ensures
        datastore_sectors(Some(largest), sector_size) is Some,
        ({
            let sectors = datastore_sectors(Some(largest), sector_size).unwrap();
            &&& sectors * sector_size + RESERVED_BYTES <= largest * sector_size
            &&& largest * sector_size < (sectors + 1) * sector_size + RESERVED_BYTES
        }),
{
    let bytes = largest * sector_size;
    assert(sector_size > 0) by (nonlinear_arith)
        requires
            largest * sector_size > RESERVED_BYTES,
            largest >= 0,
            sector_size >= 0,
            RESERVED_BYTES >= 0,
    ;
    let spare = bytes - RESERVED_BYTES;
    let sectors = spare / sector_size as int;
    vstd::arithmetic::div_mod::lemma_fundamental_div_mod(spare, sector_size as int);
    vstd::arithmetic::div_mod::lemma_mod_bound(spare, sector_size as int);
    assert(sectors * sector_size <= spare < (sectors + 1) * sector_size && 0 <= sectors <= spare)
        by (nonlinear_arith)
        requires
            spare == sector_size * sectors + spare % (sector_size as int),
            0 <= spare % (sector_size as int) < sector_size,
            spare > 0,
            sector_size > 0,
    ;
}

/// What the first `n` of the extra partitions of a table do to another table.
proof fn lemma_first_parts(saved: Seq<GptEntryView>, target: Seq<GptEntryView>, n: int)
    requires
        saved.len() <= u32::MAX,
        used_entries(saved).len() <= target.len(),
        0 <= n <= extra_parts(saved).len(),
    ensures
        with_parts(target, extra_parts(saved).take(n)) == Seq::new(
            target.len(),
            |i: int|
                if SYSTEM_PARTITIONS <= i < SYSTEM_PARTITIONS + n {
                    used_entries(saved)[i]
                } else {
                    target[i]
                },
        ),
    decreases n,
{
    let used = used_entries(saved);
    saved.lemma_filter_len(|e: GptEntryView| e.is_used());
    let parts = extra_parts(saved);
    if n > 0 {
        lemma_first_parts(saved, target, n - 1);
        assert(parts.take(n).drop_last() == parts.take(n - 1));
        let last = parts.take(n).last();
        assert(last == part_of_entry(
            used[n - 1 + SYSTEM_PARTITIONS],
            (n + SYSTEM_PARTITIONS) as u32,
        ));
        assert(entry_of_part(last) == used[n - 1 + SYSTEM_PARTITIONS]);
    }
}

/// Putting the extra partitions of one table into another makes the slots from the fifth on hold
/// the used slots of the first table from the fifth on, field by field, and leaves the other
/// slots alone.
pub proof fn law_extra_parts_restored(saved: Seq<GptEntryView>, target: Seq<GptEntryView>)
    requires
        saved.len() <= u32::MAX,
        used_entries(saved).len() <= target.len(),
    ensures
        with_parts(target, extra_parts(saved)) == Seq::new(
            target.len(),
            |i: int|
                if SYSTEM_PARTITIONS <= i < used_entries(saved).len() {
                    used_entries(saved)[i]
                } else {
                    target[i]
                },
        ),
{
    let parts = extra_parts(saved);
    lemma_first_parts(saved, target, parts.len() as int);
    assert(parts.take(parts.len() as int) == parts);
    assert(with_parts(target, parts) =~= Seq::new(
        target.len(),
        |i: int|
            if SYSTEM_PARTITIONS <= i < used_entries(saved).len() {
                used_entries(saved)[i]
            } else {
                target[i]
            },
    ));
}

/// Where the used slots are the first `n`, they are what a walk over the used slots finds.
proof fn lemma_used_prefix(entries: Seq<GptEntryView>, n: int)
    requires
        0 <= n <= entries.len(),
        forall|i: int| 0 <= i < n ==> (#[trigger] entries[i]).is_used(),
        forall|i: int| n <= i < entries.len() ==> !(#[trigger] entries[i]).is_used(),
    ensures
        used_entries(entries) == entries.take(n),
    decreases entries.len(),
{
    reveal(Seq::filter);
    if entries.len() > 0 {
        let rest = entries.drop_last();
        if n < entries.len() {
            lemma_used_prefix(rest, n);
            assert(rest.take(n) == entries.take(n));
        } else {
            lemma_used_prefix(rest, n - 1);
            assert(rest.take(n - 1).push(entries.last()) == entries.take(n));
        }
        assert(entries.last() == entries[entries.len() - 1]);
    } else {
        assert(entries.take(n) == entries);
    }
}

/// What is read of a table is what was put into it: a table whose first four slots are used, and
/// in which nothing stands behind the slots that the extra partitions go to, has exactly the extra
/// partitions of the other table once they have been put into it.
pub proof fn law_extra_parts_read_back(saved: Seq<GptEntryView>, target: Seq<GptEntryView>)
    requires
        saved.len() <= u32::MAX,
        used_entries(saved).len() <= target.len(),
        SYSTEM_PARTITIONS <= target.len(),
        forall|i: int| 0 <= i < SYSTEM_PARTITIONS ==> (#[trigger] target[i]).is_used(),
        forall|i: int|
            SYSTEM_PARTITIONS <= i < target.len() && used_entries(saved).len() <= i ==> !(
            #[trigger] target[i]).is_used(),
    ensures
        extra_parts(with_parts(target, extra_parts(saved))) == extra_parts(saved),
{
    let pred = |e: GptEntryView| e.is_used();
    let used = used_entries(saved);
    let after = with_parts(target, extra_parts(saved));
    law_extra_parts_restored(saved, target);
    let n: int = if used.len() > SYSTEM_PARTITIONS {
        used.len() as int
    } else {
        SYSTEM_PARTITIONS as int
    };
    assert forall|i: int| 0 <= i < n implies (#[trigger] after[i]).is_used() by {
        if SYSTEM_PARTITIONS <= i {
            saved.lemma_filter_pred(pred, i);
        }
    }
    lemma_used_prefix(after, n);
    assert(extra_parts(after) =~= extra_parts(saved));
}

} // verus!
