//! A GUID partition table: its slots, and what the `gptman` crate computes of it.

use crate::space::{is_measurable, largest_size, last_start, table_stretches};
use vstd::prelude::*;

verus! {

/// One slot of a GUID partition table.
#[derive(Debug)]
pub struct GptEntry {
    pub partition_type_guid: [u8; 16],
    pub unique_partition_guid: [u8; 16],
    pub starting_lba: u64,
    pub ending_lba: u64,
    pub attribute_bits: u64,
    pub partition_name: String,
}

/// The mathematical value of a [`GptEntry`].
#[verifier::ext_equal]
pub struct GptEntryView {
    pub partition_type_guid: Seq<u8>,
    pub unique_partition_guid: Seq<u8>,
    pub starting_lba: u64,
    pub ending_lba: u64,
    pub attribute_bits: u64,
    pub partition_name: Seq<char>,
}

impl View for GptEntry {
    type V = GptEntryView;

    open spec fn view(&self) -> GptEntryView {
        GptEntryView {
            partition_type_guid: self.partition_type_guid@,
            unique_partition_guid: self.unique_partition_guid@,
            starting_lba: self.starting_lba,
            ending_lba: self.ending_lba,
            attribute_bits: self.attribute_bits,
            partition_name: self.partition_name@,
        }
    }
}

impl GptEntryView {
    /// A slot is used unless its partition type is all zero bytes.
    pub open spec fn is_used(self) -> bool {
        exists|i: int|
            0 <= i < self.partition_type_guid.len() && #[trigger] self.partition_type_guid[i] != 0
    }
}

/// The values of a list of slots.
pub open spec fn entry_views(entries: Seq<GptEntry>) -> Seq<GptEntryView> {
    entries.map_values(|e: GptEntry| e@)
}

impl GptEntry {
    /// Whether the slot holds a partition.
    pub fn is_used(&self) -> (used: bool)
        ensures
            used == self@.is_used(),
    {
        let mut i: usize = 0;
        while i < 16
            invariant
                i <= 16,
                forall|j: int| 0 <= j < i ==> self.partition_type_guid@[j] == 0,
            decreases 16 - i,
        {
            if self.partition_type_guid[i] != 0 {
                assert(self@.partition_type_guid[i as int] != 0);
                return true;
            }
            i = i + 1;
        }
        false
    }
}

/// What a partition table says of its disk, in sectors but for `sector_size`, which is in bytes.
#[derive(Clone, Copy, Debug, PartialEq, Eq, Structural)]
pub struct GptGeometry {
    pub sector_size: u64,
    pub first_usable_lba: u64,
    pub last_usable_lba: u64,
    pub align: u64,
}

/// The partition table type of the `gptman` crate, which the library only carries.
#[verifier::external_type_specification]
#[verifier::external_body]
pub struct ExGpt(gptman::GPT);

/// What the slots of a `gptman` table hold, the slot with number 1 first.
pub uninterp spec fn gpt_entries(gpt: gptman::GPT) -> Seq<GptEntryView>;

/// The sector size, usable range and alignment of a `gptman` table.
pub uninterp spec fn gpt_geometry(gpt: gptman::GPT) -> GptGeometry;

/// Calls `gptman::GPT::iter`, which walks the slots in the order of their numbers, and copies
/// each slot's fields. A table holds as many slots as a 32-bit count in its header said when it
/// was made.
#[verifier::external_body]
pub(crate) fn read_entries(gpt: &gptman::GPT) -> (entries: Vec<GptEntry>)
    ensures
        entry_views(entries@) == gpt_entries(*gpt),
        entries@.len() <= u32::MAX,
{
    gpt.iter()
        .map(|(_, p)| GptEntry {
            partition_type_guid: p.partition_type_guid,
            unique_partition_guid: p.unique_parition_guid,
            starting_lba: p.starting_lba,
            ending_lba: p.ending_lba,
            attribute_bits: p.attribute_bits,
            partition_name: p.partition_name.to_string(),
        })
        .collect()
}

/// Copies the public fields `sector_size`, `align` and, of the header, `first_usable_lba` and
/// `last_usable_lba` of a `gptman::GPT`.
#[verifier::external_body]
pub(crate) fn read_geometry(gpt: &gptman::GPT) -> (geometry: GptGeometry)
    ensures
        geometry == gpt_geometry(*gpt),
{
    GptGeometry {
        sector_size: gpt.sector_size,
        first_usable_lba: gpt.header.first_usable_lba,
        last_usable_lba: gpt.header.last_usable_lba,
        align: gpt.align,
    }
}

/// Calls `gptman::GPT::get_maximum_partition_size`, which takes the longest of the free stretches
/// in whole multiples of the alignment. Its only error is that there is none.
#[verifier::external_body]
pub(crate) fn maximum_partition_size(gpt: &gptman::GPT) -> (size: Option<u64>)
    requires
        is_measurable(gpt_entries(*gpt), gpt_geometry(*gpt)),
    ensures
        size == largest_size(
            table_stretches(gpt_entries(*gpt), gpt_geometry(*gpt)),
            gpt_geometry(*gpt).align,
        ),
{
    gpt.get_maximum_partition_size().ok()
}

/// Calls `gptman::GPT::find_last_place`, which takes the last of the free stretches that are long
/// enough, and in it the last aligned sector that leaves room for `size` sectors.
#[verifier::external_body]
pub(crate) fn last_place(gpt: &gptman::GPT, size: u64) -> (place: Option<u64>)
    requires
        is_measurable(gpt_entries(*gpt), gpt_geometry(*gpt)),
    ensures
        place == last_start(
            table_stretches(gpt_entries(*gpt), gpt_geometry(*gpt)),
            gpt_geometry(*gpt).align,
            size,
        ),
{
    gpt.find_last_place(size)
}

/// Assigns to one slot of a `gptman::GPT` through its `IndexMut`, whose numbers begin at 1. The
/// other slots and the geometry stay.
#[verifier::external_body]
pub(crate) fn write_entry(gpt: &mut gptman::GPT, slot: u32, entry: &GptEntry)
    requires
        1 <= slot <= gpt_entries(*old(gpt)).len(),
    ensures
        gpt_entries(*final(gpt)) == gpt_entries(*old(gpt)).update(slot - 1, entry@),
        gpt_geometry(*final(gpt)) == gpt_geometry(*old(gpt)),
{
    gpt[slot] = gptman::GPTPartitionEntry {
        partition_type_guid: entry.partition_type_guid,
        unique_parition_guid: entry.unique_partition_guid,
        starting_lba: entry.starting_lba,
        ending_lba: entry.ending_lba,
        attribute_bits: entry.attribute_bits,
        partition_name: entry.partition_name.as_str().into(),
    };
}

} // verus!
