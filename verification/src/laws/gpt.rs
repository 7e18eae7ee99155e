//! What callers can rely on of carrying partitions from one table to another.

use crate::disk::Disk;
use crate::gpt::{
    accepts_extra_parts, announcement, announcements, datastore_entry, datastore_sectors,
    datastore_size, datastore_view, entry_of_part, extra_gptpartitions_found, extra_partitions,
    law_data_partition_starts_in_free_space, law_datastore_leaves_reserve, part_views,
    used_entries, with_parts, GptPart, GptPartView,
};
use crate::number::decimal;
use crate::space::{
    are_disjoint, are_in_range, is_measurable, largest_size, law_place_is_last,
    law_tidy_tables_are_measurable, table_stretches,
};
use crate::table::{entry_views, gpt_entries, gpt_geometry, GptEntry, GptEntryView};
use crate::text::texts;
use vstd::prelude::*;

verus! {

/// A slot is used exactly if its partition type has a byte that is not zero.
pub proof fn law_type_makes_a_slot_used(entry: GptEntry, used: bool)
    requires
        call_ensures(GptEntry::is_used, (&entry,), used),
    ensures
        used <==> exists|i: int| 0 <= i < 16 && #[trigger] entry.partition_type_guid@[i] != 0,
{
    if exists|i: int| 0 <= i < 16 && #[trigger] entry.partition_type_guid@[i] != 0 {
        let i = choose|i: int| 0 <= i < 16 && #[trigger] entry.partition_type_guid@[i] != 0;
        assert(entry@.partition_type_guid[i] != 0);
    }
}

/// Two slots with the same partition type are both used or both not, whatever their names and other
/// fields are.
pub proof fn law_only_the_type_counts(a: GptEntry, b: GptEntry, used_a: bool, used_b: bool)
    requires
        call_ensures(GptEntry::is_used, (&a,), used_a),
        call_ensures(GptEntry::is_used, (&b,), used_b),
        forall|i: int|
            0 <= i < 16 ==> (#[trigger] a.partition_type_guid@[i] == 0) == (
            b.partition_type_guid@[i] == 0),
    ensures
        used_a == used_b,
{
    law_type_makes_a_slot_used(a, used_a);
    law_type_makes_a_slot_used(b, used_b);
    if used_b {
        let i = choose|i: int| 0 <= i < 16 && #[trigger] b.partition_type_guid@[i] != 0;
        assert(a.partition_type_guid@[i] != 0);
    }
}

/// Filtering by two conditions that agree on every item gives the same.
proof fn lemma_same_filter<A>(items: Seq<A>, p: spec_fn(A) -> bool, q: spec_fn(A) -> bool)
    requires
        forall|i: int| 0 <= i < items.len() ==> p(#[trigger] items[i]) == q(items[i]),
    ensures
        items.filter(p) == items.filter(q),
    decreases items.len(),
{
    reveal(Seq::filter);
    if items.len() > 0 {
        let front = items.drop_last();
        assert(forall|i: int| 0 <= i < front.len() ==> #[trigger] front[i] == items[i]);
        lemma_same_filter(front, p, q);
        assert(items.last() == items[items.len() - 1]);
    }
}

/// The used slots of a list are the values of those with a type that is not all zero.
proof fn lemma_used_slots(entries: Seq<GptEntry>)
    ensures
        used_entries(entry_views(entries)) == entry_views(
            entries.filter(
                |e: GptEntry|
                    exists|i: int| 0 <= i < 16 && #[trigger] e.partition_type_guid@[i] != 0,
            ),
        ),
    decreases entries.len(),
{
    let typed = |e: GptEntry|
        exists|i: int| 0 <= i < 16 && #[trigger] e.partition_type_guid@[i] != 0;
    reveal(Seq::filter);
    if entries.len() > 0 {
        let front = entries.drop_last();
        let last = entries.last();
        lemma_used_slots(front);
        assert(entry_views(entries).drop_last() == entry_views(front));
        assert(entry_views(entries).last() == last@);
        assert(last@.is_used() == typed(last)) by {
            if typed(last) {
                let i = choose|i: int| 0 <= i < 16 && #[trigger] last.partition_type_guid@[i] != 0;
                assert(last@.partition_type_guid[i] != 0);
            }
            if last@.is_used() {
                let i = choose|i: int|
                    0 <= i < last@.partition_type_guid.len()
                        && #[trigger] last@.partition_type_guid[i] != 0;
                assert(last.partition_type_guid@[i] != 0);
            }
        }
        if typed(last) {
            assert(entry_views(front.filter(typed).push(last)) == entry_views(
                front.filter(typed),
            ).push(last@));
        }
    } else {
        assert(entry_views(entries) =~= Seq::<GptEntryView>::empty());
        assert(entry_views(entries.filter(typed)) =~= Seq::<GptEntryView>::empty());
    }
}

/// The extra partitions are the slots with a type that is not all zero, less the first four of
/// them, numbered from five on, with all that stands in the slots.
pub proof fn law_extra_partitions_are_the_used_slots(entries: &Vec<GptEntry>, parts: Vec<GptPart>)
    requires
        call_ensures(extra_partitions, (entries,), parts),
        entries@.len() <= u32::MAX,
    ensures
        ({
            let used = entries@.filter(
                |e: GptEntry|
                    exists|i: int| 0 <= i < 16 && #[trigger] e.partition_type_guid@[i] != 0,
            );
            &&& parts@.len() == (if used.len() > 4 {
                used.len() - 4
            } else {
                0
            })
            &&& forall|k: int| #![trigger parts@[k]]
                0 <= k < parts@.len() ==> {
                    &&& parts@[k].idx == 5 + k
                    &&& parts@[k].partition_type@ == used[4 + k].partition_type_guid@
                    &&& parts@[k].guid@ == used[4 + k].unique_partition_guid@
                    &&& parts@[k].start_lba == used[4 + k].starting_lba
                    &&& parts@[k].end_lba == used[4 + k].ending_lba
                    &&& parts@[k].attributes == used[4 + k].attribute_bits
                    &&& parts@[k].name@ == used[4 + k].partition_name@
                }
        }),
{
    let typed = |e: GptEntry|
        exists|i: int| 0 <= i < 16 && #[trigger] e.partition_type_guid@[i] != 0;
    let used = entries@.filter(typed);
    lemma_used_slots(entries@);
    entries@.lemma_filter_len(typed);
    let views = part_views(parts@);
    assert(views.len() == parts@.len());
    assert forall|k: int| #![trigger parts@[k]] 0 <= k < parts@.len() implies {
        &&& parts@[k].idx == 5 + k
        &&& parts@[k].partition_type@ == used[4 + k].partition_type_guid@
        &&& parts@[k].guid@ == used[4 + k].unique_partition_guid@
        &&& parts@[k].start_lba == used[4 + k].starting_lba
        &&& parts@[k].end_lba == used[4 + k].ending_lba
        &&& parts@[k].attributes == used[4 + k].attribute_bits
        &&& parts@[k].name@ == used[4 + k].partition_name@
    } by {
        assert(views[k] == parts@[k]@);
        assert(entry_views(used)[4 + k] == used[4 + k]@);
    }
}

/// The same of the table of a disk: its extra partitions are its slots with a type that is not all
/// zero, less the first four of them, numbered from five on. A disk without a table has none.
pub proof fn law_extra_partitions_of_a_table(
    gpt: gptman::GPT,
    parts: Vec<GptPart>,
    found: Vec<GptPart>,
    none: Vec<GptPart>,
)
    requires
        call_ensures(Disk::get_extra_gptpartitions, (&gpt,), parts),
        call_ensures(extra_gptpartitions_found, (Some(&gpt),), found),
        call_ensures(extra_gptpartitions_found, (None,), none),
    ensures
        none@.len() == 0,
        part_views(found@) == part_views(parts@),
        ({
            let used = gpt_entries(gpt).filter(
                |e: GptEntryView|
                    exists|i: int|
                        0 <= i < e.partition_type_guid.len() && #[trigger] e.partition_type_guid[i]
                            != 0,
            );
            &&& parts@.len() == (if used.len() > 4 {
                used.len() - 4
            } else {
                0
            })
            &&& forall|k: int| #![trigger parts@[k]]
                0 <= k < parts@.len() ==> {
                    &&& parts@[k].idx == 5 + k
                    &&& parts@[k].partition_type@ == used[4 + k].partition_type_guid
                    &&& parts@[k].guid@ == used[4 + k].unique_partition_guid
                    &&& parts@[k].start_lba == used[4 + k].starting_lba
                    &&& parts@[k].end_lba == used[4 + k].ending_lba
                    &&& parts@[k].attributes == used[4 + k].attribute_bits
                    &&& parts@[k].name@ == used[4 + k].partition_name
                }
        }),
{
    let typed = |e: GptEntryView|
        exists|i: int|
            0 <= i < e.partition_type_guid.len() && #[trigger] e.partition_type_guid[i] != 0;
    let entries = gpt_entries(gpt);
    let used = entries.filter(typed);
    lemma_same_filter(entries, |e: GptEntryView| e.is_used(), typed);
    entries.lemma_filter_len(typed);
    assert(part_views(none@).len() == none@.len());
    let views = part_views(parts@);
    assert(views.len() == parts@.len());
    assert forall|k: int| #![trigger parts@[k]] 0 <= k < parts@.len() implies {
        &&& parts@[k].idx == 5 + k
        &&& parts@[k].partition_type@ == used[4 + k].partition_type_guid
        &&& parts@[k].guid@ == used[4 + k].unique_partition_guid
        &&& parts@[k].start_lba == used[4 + k].starting_lba
        &&& parts@[k].end_lba == used[4 + k].ending_lba
        &&& parts@[k].attributes == used[4 + k].attribute_bits
        &&& parts@[k].name@ == used[4 + k].partition_name
    } by {
        assert(views[k] == parts@[k]@);
    }
}

/// A slot takes over every field of the partition that is put into it.
pub proof fn law_slot_takes_every_field(part: GptPart, entry: GptEntry)
    requires
        call_ensures(GptPart::to_entry, (&part,), entry),
    ensures
        entry.partition_type_guid@ == part.partition_type@,
        entry.unique_partition_guid@ == part.guid@,
        entry.starting_lba == part.start_lba,
        entry.ending_lba == part.end_lba,
        entry.attribute_bits == part.attributes,
        entry.partition_name@ == part.name@,
{
    assert(entry@.partition_type_guid == entry.partition_type_guid@);
    assert(part@.partition_type == part.partition_type@);
}

/// A data partition runs from the place found for it up to five sectors before the last usable one,
/// however large the disk is.
pub proof fn law_data_partition_runs_to_the_end(
    starting_lba: u64,
    last_usable_lba: u64,
    entry: GptEntry,
)
    requires
        call_ensures(datastore_entry, (starting_lba, last_usable_lba), entry),
        last_usable_lba >= 5,
    ensures
        entry.starting_lba == starting_lba,
        entry.ending_lba == last_usable_lba - 5,
        entry.attribute_bits == 0,
        entry.partition_name@ == "datastore"@,
        forall|i: int| 0 <= i < 16 ==> #[trigger] entry.partition_type_guid@[i] == 0xff,
        forall|i: int| 0 <= i < 16 ==> #[trigger] entry.unique_partition_guid@[i] == 0xff,
{
    let view = datastore_view(starting_lba, last_usable_lba);
    assert(entry@.partition_type_guid == view.partition_type_guid);
    assert(entry@.unique_partition_guid == view.unique_partition_guid);
    assert(forall|i: int|
        0 <= i < 16 ==> #[trigger] entry.partition_type_guid@[i] == view.partition_type_guid[i]);
    assert(forall|i: int|
        0 <= i < 16 ==> #[trigger] entry.unique_partition_guid@[i]
            == view.unique_partition_guid[i]);
}

/// Where the largest free stretch has more than two gibibytes, a data partition has all of it but
/// two gibibytes, in whole sectors; else none is made.
pub proof fn law_data_partition_leaves_two_gibibytes(
    largest: u64,
    sector_size: u64,
    size: Option<u64>,
    without: Option<u64>,
)
    requires
        largest * sector_size <= u64::MAX,
        call_ensures(datastore_size, (Some(largest), sector_size), size),
        call_ensures(datastore_size, (None, sector_size), without),
    ensures
        without is None,
        size is Some <==> largest * sector_size > 0x8000_0000,
        size matches Some(sectors) ==> {
            &&& sectors * sector_size + 0x8000_0000 <= largest * sector_size
            &&& largest * sector_size < (sectors + 1) * sector_size + 0x8000_0000
        },
{
    assert(0 * sector_size == 0) by (nonlinear_arith);
    if largest * sector_size > 0x8000_0000 {
        law_datastore_leaves_reserve(largest, sector_size);
    }
}

/// What a slot holds after partitions have been put into a table.
proof fn lemma_slot_after_parts(entries: Seq<GptEntryView>, parts: Seq<GptPartView>, slot: int)
    requires
        0 <= slot < entries.len(),
        forall|i: int| 0 <= i < parts.len() ==> 1 <= (#[trigger] parts[i]).idx <= entries.len(),
    ensures
        with_parts(entries, parts).len() == entries.len(),
        (forall|i: int| 0 <= i < parts.len() ==> (#[trigger] parts[i]).idx != slot + 1)
            ==> with_parts(entries, parts)[slot] == entries[slot],
        forall|k: int|
            0 <= k < parts.len() && (#[trigger] parts[k]).idx == slot + 1 && (forall|i: int|
                k < i < parts.len() ==> (#[trigger] parts[i]).idx != slot + 1) ==> with_parts(
                entries,
                parts,
            )[slot] == entry_of_part(parts[k]),
    decreases parts.len(),
{
    if parts.len() > 0 {
        let front = parts.drop_last();
        assert(forall|i: int| 0 <= i < front.len() ==> #[trigger] front[i] == parts[i]);
        lemma_slot_after_parts(entries, front, slot);
        assert(parts.last() == parts[parts.len() - 1]);
        assert forall|k: int|
            0 <= k < parts.len() && (#[trigger] parts[k]).idx == slot + 1 && (forall|i: int|
                k < i < parts.len() ==> (#[trigger] parts[i]).idx != slot + 1) implies with_parts(
            entries,
            parts,
        )[slot] == entry_of_part(parts[k]) by {
            if k < front.len() {
                assert(front[k] == parts[k]);
                assert(parts[parts.len() - 1].idx != slot + 1);
                assert forall|i: int| k < i < front.len() implies (#[trigger] front[i]).idx != slot
                    + 1 by {
                    assert(parts[i].idx != slot + 1);
                }
            }
        }
        if forall|i: int| 0 <= i < parts.len() ==> (#[trigger] parts[i]).idx != slot + 1 {
            assert(parts[parts.len() - 1].idx != slot + 1);
            assert forall|i: int| 0 <= i < front.len() implies (#[trigger] front[i]).idx != slot
                + 1 by {
                assert(parts[i].idx != slot + 1);
            }
        }
    }
}

/// Putting partitions into a table: the slot whose number the partition `k`, and none after it,
/// carries holds every field of that partition; a slot whose number none carries keeps what it
/// holds; and the table stays as large, and its disk as it is.
pub proof fn law_parts_are_put_into_their_slots(
    gpt: &mut gptman::GPT,
    parts: &Vec<GptPart>,
    k: int,
    slot: int,
)
    requires
        call_ensures(Disk::add_extra_gptpartitions, (gpt, parts), ()),
        parts@.len() > 0,
        forall|i: int|
            0 <= i < parts@.len() ==> 1 <= (#[trigger] parts@[i]).idx <= gpt_entries(
                *old(gpt),
            ).len(),
        0 <= k < parts@.len(),
        forall|i: int| k < i < parts@.len() ==> (#[trigger] parts@[i]).idx != parts@[k].idx,
        0 <= slot < gpt_entries(*old(gpt)).len(),
        forall|i: int| 0 <= i < parts@.len() ==> (#[trigger] parts@[i]).idx != slot + 1,
    ensures
        gpt_geometry(*final(gpt)) == gpt_geometry(*old(gpt)),
        gpt_entries(*final(gpt)).len() == gpt_entries(*old(gpt)).len(),
        gpt_entries(*final(gpt))[slot] == gpt_entries(*old(gpt))[slot],
        ({
            let filled = gpt_entries(*final(gpt))[parts@[k].idx - 1];
            &&& filled.partition_type_guid == parts@[k].partition_type@
            &&& filled.unique_partition_guid == parts@[k].guid@
            &&& filled.starting_lba == parts@[k].start_lba
            &&& filled.ending_lba == parts@[k].end_lba
            &&& filled.attribute_bits == parts@[k].attributes
            &&& filled.partition_name == parts@[k].name@
        }),
{
    let views = part_views(parts@);
    let entries = gpt_entries(*old(gpt));
    assert(forall|i: int| 0 <= i < views.len() ==> #[trigger] views[i] == parts@[i]@);
    assert(views[k].idx == parts@[k].idx);
    lemma_slot_after_parts(entries, views, slot);
    lemma_slot_after_parts(entries, views, parts@[k].idx - 1);
    assert forall|i: int| 0 <= i < views.len() implies (#[trigger] views[i]).idx != slot + 1 by {
        assert(parts@[i].idx != slot + 1);
    }
    assert forall|i: int| k < i < views.len() implies (#[trigger] views[i]).idx
        != parts@[k].idx by {
        assert(parts@[i].idx != parts@[k].idx);
    }
}

/// Where no partitions were saved and the largest free stretch has no more than two gibibytes, a
/// table stays as it is.
pub proof fn law_small_disks_stay_as_they_are(gpt: &mut gptman::GPT, parts: &Vec<GptPart>)
    requires
        call_ensures(Disk::add_extra_gptpartitions, (gpt, parts), ()),
        parts@.len() == 0,
        largest_size(
            table_stretches(gpt_entries(*old(gpt)), gpt_geometry(*old(gpt))),
            gpt_geometry(*old(gpt)).align,
        ).unwrap_or(0) * gpt_geometry(*old(gpt)).sector_size <= 0x8000_0000,
    ensures
        gpt_entries(*final(gpt)) == gpt_entries(*old(gpt)),
        gpt_geometry(*final(gpt)) == gpt_geometry(*old(gpt)),
{
}

/// Where no partitions were saved and the largest free stretch has more than two gibibytes, a data
/// partition is made in the fifth slot, up to five sectors before the last usable one. It starts at
/// an aligned sector with room for all sectors of the largest free stretch but two gibibytes, and
/// at the last such sector of the disk. The other slots keep what they hold.
pub proof fn law_large_disks_get_a_data_partition(
    gpt: &mut gptman::GPT,
    parts: &Vec<GptPart>,
    sectors: u64,
    slot: int,
    i: int,
    other: u64,
)
    requires
        call_ensures(Disk::add_extra_gptpartitions, (gpt, parts), ()),
        parts@.len() == 0,
        accepts_extra_parts(gpt_entries(*old(gpt)), gpt_geometry(*old(gpt)), Seq::empty()),
        ({
            let geometry = gpt_geometry(*old(gpt));
            let stretches = table_stretches(gpt_entries(*old(gpt)), geometry);
            let bytes = largest_size(stretches, geometry.align).unwrap_or(0)
                * geometry.sector_size;
            &&& bytes > 0x8000_0000
            &&& sectors * geometry.sector_size + 0x8000_0000 <= bytes
            &&& bytes < (sectors + 1) * geometry.sector_size + 0x8000_0000
            &&& 0 <= i < stretches.len()
            &&& stretches[i].0 <= other
            &&& other + sectors <= stretches[i].1
            &&& other % geometry.align == 0
        }),
        0 <= slot < gpt_entries(*old(gpt)).len(),
        slot != 4,
    ensures
        gpt_geometry(*final(gpt)) == gpt_geometry(*old(gpt)),
        gpt_entries(*final(gpt)).len() == gpt_entries(*old(gpt)).len(),
        gpt_entries(*final(gpt))[slot] == gpt_entries(*old(gpt))[slot],
        ({
            let geometry = gpt_geometry(*old(gpt));
            let stretches = table_stretches(gpt_entries(*old(gpt)), geometry);
            let made = gpt_entries(*final(gpt))[4];
            &&& made.ending_lba == geometry.last_usable_lba - 5
            &&& made.partition_name == "datastore"@
            &&& made.attribute_bits == 0
            &&& made.partition_type_guid == Seq::new(16, |n: int| 0xffu8)
            &&& made.unique_partition_guid == Seq::new(16, |n: int| 0xffu8)
            &&& made.starting_lba % geometry.align == 0
            &&& exists|n: int|
                0 <= n < stretches.len() && (#[trigger] stretches[n]).0 <= made.starting_lba
                    && made.starting_lba + sectors <= stretches[n].1
            &&& other <= made.starting_lba
        }),
{
    let entries = gpt_entries(*old(gpt));
    let geometry = gpt_geometry(*old(gpt));
    let stretches = table_stretches(entries, geometry);
    let largest = largest_size(stretches, geometry.align);
    assert(part_views(parts@) == Seq::<GptPartView>::empty());
    if largest is None {
        assert(0 * geometry.sector_size == 0) by (nonlinear_arith);
    }
    law_datastore_leaves_reserve(largest.unwrap(), geometry.sector_size);
    let size = datastore_sectors(largest, geometry.sector_size).unwrap();
    assert(size == sectors) by (nonlinear_arith)
        requires
            size * geometry.sector_size + 0x8000_0000 <= largest.unwrap() * geometry.sector_size,
            largest.unwrap() * geometry.sector_size < (size + 1) * geometry.sector_size
                + 0x8000_0000,
            sectors * geometry.sector_size + 0x8000_0000 <= largest.unwrap()
                * geometry.sector_size,
            largest.unwrap() * geometry.sector_size < (sectors + 1) * geometry.sector_size
                + 0x8000_0000,
            geometry.sector_size >= 0,
            size >= 0,
            sectors >= 0,
    ;
    law_data_partition_starts_in_free_space(entries, geometry, size);
    law_place_is_last(entries, geometry, size, i, other);
}

/// A table that is refused stays as it is; one that is not ends up as if the partitions had been
/// put into it without asking.
pub proof fn law_trying_adds_all_or_nothing(
    tried: &mut gptman::GPT,
    other: &mut gptman::GPT,
    parts: &Vec<GptPart>,
    added: bool,
)
    requires
        call_ensures(Disk::try_add_extra_gptpartitions, (tried, parts), added),
        call_ensures(Disk::add_extra_gptpartitions, (other, parts), ()),
        gpt_entries(*old(tried)) == gpt_entries(*old(other)),
        gpt_geometry(*old(tried)) == gpt_geometry(*old(other)),
    ensures
        !added ==> gpt_entries(*final(tried)) == gpt_entries(*old(tried)),
        added ==> gpt_entries(*final(tried)) == gpt_entries(*final(other)),
        gpt_geometry(*final(tried)) == gpt_geometry(*old(tried)),
{
}

/// A table takes partitions exactly if its free sectors can be computed and their numbers are those
/// of slots. Without partitions it takes a data partition, or nothing, exactly if the bytes of the
/// largest free stretch can be counted and, where there are more than two gibibytes, it has five
/// slots and five usable sectors.
pub proof fn law_what_tables_take(gpt: &mut gptman::GPT, parts: &Vec<GptPart>, added: bool)
    requires
        call_ensures(Disk::try_add_extra_gptpartitions, (gpt, parts), added),
    ensures
        !is_measurable(gpt_entries(*old(gpt)), gpt_geometry(*old(gpt))) ==> !added,
        is_measurable(gpt_entries(*old(gpt)), gpt_geometry(*old(gpt))) && parts@.len() > 0 ==> (
        added <==> forall|i: int|
            0 <= i < parts@.len() ==> 1 <= (#[trigger] parts@[i]).idx <= gpt_entries(
                *old(gpt),
            ).len()),
        is_measurable(gpt_entries(*old(gpt)), gpt_geometry(*old(gpt))) && parts@.len() == 0 ==> {
            let geometry = gpt_geometry(*old(gpt));
            let stretches = table_stretches(gpt_entries(*old(gpt)), geometry);
            let bytes = largest_size(stretches, geometry.align).unwrap_or(0)
                * geometry.sector_size;
            added <==> bytes <= u64::MAX && (bytes > 0x8000_0000 ==> geometry.last_usable_lba >= 5
                && gpt_entries(*old(gpt)).len() >= 5)
        },
{
    let entries = gpt_entries(*old(gpt));
    let views = part_views(parts@);
    assert(forall|i: int| 0 <= i < views.len() ==> #[trigger] views[i] == parts@[i]@);
    if forall|i: int| 0 <= i < parts@.len() ==> 1 <= (#[trigger] parts@[i]).idx <= entries.len() {
        assert forall|i: int| 0 <= i < views.len() implies 1 <= (#[trigger] views[i]).idx
            <= entries.len() by {
            assert(1 <= parts@[i].idx <= entries.len());
        }
    }
    if added {
        assert forall|i: int| 0 <= i < parts@.len() implies 1 <= (#[trigger] parts@[i]).idx
            <= entries.len() by {
            assert(1 <= views[i].idx <= entries.len());
        }
    }
}

/// Partitions are put into every table whose used slots lie in the usable range and hold no sector
/// twice, if their numbers are those of slots.
pub proof fn law_tidy_tables_take_parts(gpt: &mut gptman::GPT, parts: &Vec<GptPart>, added: bool)
    requires
        call_ensures(Disk::try_add_extra_gptpartitions, (gpt, parts), added),
        gpt_geometry(*old(gpt)).align > 0,
        0 < gpt_geometry(*old(gpt)).first_usable_lba,
        gpt_geometry(*old(gpt)).first_usable_lba <= gpt_geometry(*old(gpt)).last_usable_lba,
        gpt_geometry(*old(gpt)).last_usable_lba + gpt_geometry(*old(gpt)).align <= u64::MAX,
        are_in_range(gpt_entries(*old(gpt)), gpt_geometry(*old(gpt))),
        are_disjoint(gpt_entries(*old(gpt))),
        parts@.len() > 0,
    ensures
        added <==> forall|i: int|
            0 <= i < parts@.len() ==> 1 <= (#[trigger] parts@[i]).idx <= gpt_entries(
                *old(gpt),
            ).len(),
{
    law_tidy_tables_are_measurable(gpt_entries(*old(gpt)), gpt_geometry(*old(gpt)));
    law_what_tables_take(gpt, parts, added);
}

/// Without saved partitions, every table whose used slots lie in the usable range and hold no
/// sector twice is accepted, if it has five slots and five usable sectors, and the bytes of the
/// largest free stretch can be counted.
pub proof fn law_tidy_tables_take_a_data_partition(
    gpt: &mut gptman::GPT,
    parts: &Vec<GptPart>,
    added: bool,
)
    requires
        call_ensures(Disk::try_add_extra_gptpartitions, (gpt, parts), added),
        gpt_geometry(*old(gpt)).align > 0,
        0 < gpt_geometry(*old(gpt)).first_usable_lba,
        gpt_geometry(*old(gpt)).first_usable_lba <= gpt_geometry(*old(gpt)).last_usable_lba,
        gpt_geometry(*old(gpt)).last_usable_lba + gpt_geometry(*old(gpt)).align <= u64::MAX,
        are_in_range(gpt_entries(*old(gpt)), gpt_geometry(*old(gpt))),
        are_disjoint(gpt_entries(*old(gpt))),
        parts@.len() == 0,
        gpt_entries(*old(gpt)).len() >= 5,
        gpt_geometry(*old(gpt)).last_usable_lba >= 5,
        largest_size(
            table_stretches(gpt_entries(*old(gpt)), gpt_geometry(*old(gpt))),
            gpt_geometry(*old(gpt)).align,
        ).unwrap_or(0) * gpt_geometry(*old(gpt)).sector_size <= u64::MAX,
    ensures
        added,
{
    law_tidy_tables_are_measurable(gpt_entries(*old(gpt)), gpt_geometry(*old(gpt)));
}

/// How many announcements there are, and what each says.
proof fn lemma_announced(parts: Seq<GptPartView>, slots: nat, bad: int)
    requires
        0 <= bad <= parts.len(),
        forall|i: int| 0 <= i < bad ==> 1 <= (#[trigger] parts[i]).idx <= slots,
        bad < parts.len() ==> !(1 <= parts[bad].idx <= slots),
    ensures
        announcements(parts, slots).len() == (if bad < parts.len() {
            bad + 1
        } else {
            bad
        }),
        forall|i: int|
            0 <= i < announcements(parts, slots).len() ==> #[trigger] announcements(
                parts,
                slots,
            )[i] == announcement(parts[i]),
    decreases parts.len(),
{
    if parts.len() > 0 && bad > 0 {
        let rest = parts.drop_first();
        assert(forall|i: int| 0 <= i < rest.len() ==> #[trigger] rest[i] == parts[i + 1]);
        lemma_announced(rest, slots, bad - 1);
        assert(1 <= parts[0].idx <= slots);
        assert(announcements(parts, slots) == seq![announcement(parts[0])] + announcements(
            rest,
            slots,
        ));
    }
}

/// Nothing is said of a table whose free sectors cannot be computed.
pub proof fn law_nothing_is_announced_without_measure(
    gpt: gptman::GPT,
    parts: &Vec<GptPart>,
    said: Vec<String>,
)
    requires
        call_ensures(Disk::announced_gptpartitions, (&gpt, parts), said),
        !is_measurable(gpt_entries(gpt), gpt_geometry(gpt)),
    ensures
        said@.len() == 0,
{
    assert(texts(said@).len() == said@.len());
}

/// Every partition is announced by its name and number, up to and including the first, at the index
/// `bad`, whose number is not that of a slot.
pub proof fn law_announcements_name_the_parts(
    gpt: gptman::GPT,
    parts: &Vec<GptPart>,
    said: Vec<String>,
    bad: int,
)
    requires
        call_ensures(Disk::announced_gptpartitions, (&gpt, parts), said),
        is_measurable(gpt_entries(gpt), gpt_geometry(gpt)),
        0 <= bad <= parts@.len(),
        forall|i: int|
            0 <= i < bad ==> 1 <= (#[trigger] parts@[i]).idx <= gpt_entries(gpt).len(),
        bad < parts@.len() ==> !(1 <= parts@[bad].idx <= gpt_entries(gpt).len()),
    ensures
        said@.len() == (if bad < parts@.len() {
            bad + 1
        } else {
            bad
        }),
        forall|i: int|
            0 <= i < said@.len() ==> (#[trigger] said@[i])@ == "Adding "@ + parts@[i].name@
                + " into slot "@ + decimal(parts@[i].idx as nat) + "\n"@,
{
    let views = part_views(parts@);
    let slots = gpt_entries(gpt).len();
    assert(forall|i: int| 0 <= i < views.len() ==> #[trigger] views[i] == parts@[i]@);
    assert forall|i: int| 0 <= i < bad implies 1 <= (#[trigger] views[i]).idx <= slots by {
        assert(1 <= parts@[i].idx <= slots);
    }
    lemma_announced(views, slots, bad);
    assert(texts(said@).len() == said@.len());
    assert forall|i: int| 0 <= i < said@.len() implies (#[trigger] said@[i])@ == "Adding "@
        + parts@[i].name@ + " into slot "@ + decimal(parts@[i].idx as nat) + "\n"@ by {
        assert(texts(said@)[i] == said@[i]@);
        assert(views[i] == parts@[i]@);
    }
}

} // verus!
