use blockdev::disk::Disk;
use blockdev::gpt::{
    datastore_entry, datastore_size, extra_gptpartitions_found, extra_partitions, GptPart,
};
use blockdev::space::can_be_measured;
use blockdev::table::{GptEntry, GptGeometry};
use gptman::{GPTPartitionEntry, GPT};
use std::io::Cursor;

const GIB: u64 = 1 << 30;

/// An empty table of a disk with the given number of sectors of 512 bytes.
fn table(sectors: u64) -> GPT {
    // the length of the disk is all that is looked at
    struct Length(u64);
    impl std::io::Read for Length {
        fn read(&mut self, _: &mut [u8]) -> std::io::Result<usize> {
            Ok(0)
        }
    }
    impl std::io::Seek for Length {
        fn seek(&mut self, pos: std::io::SeekFrom) -> std::io::Result<u64> {
            match pos {
                std::io::SeekFrom::End(0) => Ok(self.0),
                _ => unreachable!(),
            }
        }
    }
    GPT::new_from(&mut Length(sectors * 512), 512, [0x22; 16]).unwrap()
}

fn entry(n: u8, start: u64, end: u64) -> GPTPartitionEntry {
    GPTPartitionEntry {
        partition_type_guid: [n; 16],
        unique_parition_guid: [n + 100; 16],
        starting_lba: start,
        ending_lba: end,
        attribute_bits: u64::from(n) << 8,
        partition_name: format!("part {}", n).as_str().into(),
    }
}

/// A table whose used slots are the given ones, each with the slot's number in its fields.
fn table_with(slots: &[u32]) -> GPT {
    let mut gpt = table(1 << 20);
    for &slot in slots {
        let start = 2048 * u64::from(slot);
        gpt[slot] = entry(slot as u8, start, start + 1023);
    }
    gpt
}

#[test]
fn first_four_used_slots_are_no_extra_partitions() {
    assert!(Disk::get_extra_gptpartitions(&table_with(&[])).is_empty());
    assert!(Disk::get_extra_gptpartitions(&table_with(&[1, 2, 3, 4])).is_empty());
    assert!(Disk::get_extra_gptpartitions(&table_with(&[2, 5, 7, 9])).is_empty());
}

#[test]
fn extra_partitions_carry_all_fields() {
    let parts = Disk::get_extra_gptpartitions(&table_with(&[1, 2, 3, 4, 5, 6]));
    assert_eq!(parts.len(), 2);
    assert_eq!(parts[0].idx, 5);
    assert_eq!(parts[0].partition_type, [5; 16]);
    assert_eq!(parts[0].guid, [105; 16]);
    assert_eq!(parts[0].start_lba, 10240);
    assert_eq!(parts[0].end_lba, 11263);
    assert_eq!(parts[0].attributes, 1280);
    assert_eq!(parts[0].name, "part 5");
    assert_eq!(parts[1].idx, 6);
    assert_eq!(parts[1].name, "part 6");
}

#[test]
fn extra_partitions_are_numbered_among_the_used_slots() {
    let parts = Disk::get_extra_gptpartitions(&table_with(&[1, 3, 5, 7, 9, 20, 128]));
    let numbers: Vec<(u32, &str)> = parts.iter().map(|p| (p.idx, p.name.as_str())).collect();
    assert_eq!(numbers, [(5, "part 9"), (6, "part 20"), (7, "part 128")]);
}

fn plain_entry(used: bool) -> GptEntry {
    GptEntry {
        partition_type_guid: if used { [1; 16] } else { [0; 16] },
        unique_partition_guid: [9; 16],
        starting_lba: 3,
        ending_lba: 4,
        attribute_bits: 5,
        partition_name: "x".to_string(),
    }
}

#[test]
fn a_slot_is_used_if_its_type_has_a_byte_that_is_not_zero() {
    let mut entry = plain_entry(false);
    assert!(!entry.is_used());
    entry.partition_type_guid[15] = 1;
    assert!(entry.is_used());

    let mut entries: Vec<GptEntry> = (0..5).map(|_| plain_entry(true)).collect();
    assert_eq!(extra_partitions(&entries).len(), 1);
    entries[2] = plain_entry(false);
    assert_eq!(extra_partitions(&entries).len(), 0);
}

#[test]
fn extra_partitions_are_put_into_their_slots() {
    let saved = Disk::get_extra_gptpartitions(&table_with(&[1, 2, 3, 4, 5, 6]));
    let mut gpt = table_with(&[1, 2, 3, 4, 9]);
    assert!(Disk::try_add_extra_gptpartitions(&mut gpt, &saved));
    for slot in 1..=6u32 {
        assert_eq!(gpt[slot].partition_type_guid, [slot as u8; 16]);
        assert_eq!(gpt[slot].unique_parition_guid, [slot as u8 + 100; 16]);
        assert_eq!(gpt[slot].starting_lba, 2048 * u64::from(slot));
        assert_eq!(gpt[slot].ending_lba, 2048 * u64::from(slot) + 1023);
        assert_eq!(gpt[slot].attribute_bits, u64::from(slot) << 8);
        assert_eq!(gpt[slot].partition_name.as_str(), format!("part {}", slot));
    }
    assert!(gpt[7].is_unused());
    assert_eq!(gpt[9].partition_name.as_str(), "part 9");
}

#[test]
fn extra_partitions_are_read_back() {
    let saved = Disk::get_extra_gptpartitions(&table_with(&[1, 2, 4, 8, 16, 32, 64]));
    let mut gpt = table_with(&[1, 2, 3, 4]);
    Disk::add_extra_gptpartitions(&mut gpt, &saved);
    let read = Disk::get_extra_gptpartitions(&gpt);
    assert_eq!(read.len(), 3);
    for (a, b) in saved.iter().zip(&read) {
        assert_eq!(
            (a.idx, a.partition_type, a.guid, a.start_lba, a.end_lba, a.attributes, &a.name),
            (b.idx, b.partition_type, b.guid, b.start_lba, b.end_lba, b.attributes, &b.name)
        );
    }
    assert_eq!(read[2].name, "part 64");
}

#[test]
fn extra_partitions_survive_a_disk() {
    let mut disk = Cursor::new(vec![0u8; (1 << 17) * 512]);
    let mut gpt = GPT::new_from(&mut disk, 512, [0x33; 16]).unwrap();
    for slot in 1..=4u32 {
        gpt[slot] = entry(slot as u8, 2048 * u64::from(slot), 2048 * u64::from(slot) + 9);
    }
    let saved = Disk::get_extra_gptpartitions(&table_with(&[1, 2, 3, 4, 5]));
    assert!(Disk::try_add_extra_gptpartitions(&mut gpt, &saved));
    gpt.write_into(&mut disk).unwrap();
    let read = Disk::get_extra_gptpartitions(&GPT::find_from(&mut disk).unwrap());
    assert_eq!(read.len(), 1);
    assert_eq!(read[0].name, "part 5");
    assert_eq!(read[0].start_lba, 10240);
}

fn part(idx: u32) -> GptPart {
    GptPart {
        idx,
        partition_type: [1; 16],
        guid: [2; 16],
        start_lba: 2048,
        end_lba: 4095,
        attributes: 0,
        name: "p".to_string(),
    }
}

#[test]
fn numbers_that_are_no_slots_are_refused() {
    for idx in [0, 129, u32::MAX] {
        let mut gpt = table(1 << 20);
        assert!(!Disk::try_add_extra_gptpartitions(&mut gpt, &vec![part(1), part(idx)]));
        assert!(gpt[1].is_unused());
    }
    let mut gpt = table(1 << 20);
    assert!(Disk::try_add_extra_gptpartitions(&mut gpt, &vec![part(1), part(128)]));
    assert!(gpt[1].is_used() && gpt[128].is_used());
}

#[test]
fn the_last_partition_with_a_number_stays() {
    let mut second = part(7);
    second.name = "second".to_string();
    let mut gpt = table(1 << 20);
    assert!(Disk::try_add_extra_gptpartitions(&mut gpt, &vec![part(7), second]));
    assert_eq!(gpt[7].partition_name.as_str(), "second");
}

#[test]
fn a_large_disk_gets_a_data_partition() {
    let sectors = 10 * GIB / 512;
    let mut gpt = table(sectors);
    gpt[1] = entry(1, 2048, 4095);
    assert!(Disk::try_add_extra_gptpartitions(&mut gpt, &Vec::new()));
    assert_eq!(gpt[5].partition_type_guid, [0xff; 16]);
    assert_eq!(gpt[5].unique_parition_guid, [0xff; 16]);
    // 16771072 sectors from the end, down to a multiple of 2048
    assert_eq!(gpt[5].starting_lba, 4198400);
    assert_eq!(gpt[5].ending_lba, 20971481);
    assert_eq!(gpt.header.last_usable_lba, 20971486);
    // the start is aligned, and nothing of the first partition is taken
    assert_eq!(gpt[5].starting_lba % gpt.align, 0);
    assert!(gpt[1].ending_lba < gpt[5].starting_lba);
    assert_eq!(gpt[5].attribute_bits, 0);
    assert_eq!(gpt[5].partition_name.as_str(), "datastore");
    assert_eq!(gpt[1].partition_name.as_str(), "part 1");
    assert_eq!(gpt.iter().filter(|(_, p)| p.is_used()).count(), 2);
}

#[test]
fn a_data_partition_starts_in_the_last_stretch_that_is_long_enough() {
    let mut gpt = table(20 * GIB / 512);
    gpt[1] = entry(1, 20971520, 20973567);
    assert!(Disk::try_add_extra_gptpartitions(&mut gpt, &Vec::new()));
    assert_eq!((gpt[5].starting_lba, gpt[5].ending_lba), (25165824, 41943001));

    // the stretch behind the first partition is too short, and yet the end is that of the disk
    let mut gpt = table(10 * GIB / 512);
    gpt[1] = entry(1, 20480000, 20482047);
    assert!(Disk::try_add_extra_gptpartitions(&mut gpt, &Vec::new()));
    assert_eq!((gpt[5].starting_lba, gpt[5].ending_lba), (4196352, 20971481));
}

#[test]
fn a_small_disk_gets_no_data_partition() {
    let mut gpt = table(2 * GIB / 512);
    assert!(Disk::try_add_extra_gptpartitions(&mut gpt, &Vec::new()));
    assert!(gpt.iter().all(|(_, p)| p.is_unused()));
}

#[test]
fn a_full_disk_gets_no_data_partition() {
    let mut gpt = table(10 * GIB / 512);
    let (first, last) = (gpt.header.first_usable_lba, gpt.header.last_usable_lba);
    gpt[1] = entry(1, first, last);
    assert!(gpt.get_maximum_partition_size().is_err());
    assert!(Disk::try_add_extra_gptpartitions(&mut gpt, &Vec::new()));
    assert!(gpt[5].is_unused());
}

#[test]
fn data_partitions_leave_the_reserve() {
    assert_eq!(datastore_size(None, 512), None);
    assert_eq!(datastore_size(Some(0), 512), None);
    assert_eq!(datastore_size(Some(4194304), 512), None);
    assert_eq!(datastore_size(Some(4194305), 512), Some(1));
    assert_eq!(datastore_size(Some(524289), 4096), Some(1));
    // whole sectors only: 1000 does not divide the reserve
    assert_eq!(datastore_size(Some(2147485), 1000), Some(1));
    assert_eq!(datastore_size(Some(2147484), 1000), Some(0));
    assert_eq!(datastore_size(Some(5), 0), None);
}

#[test]
fn data_partitions_end_before_the_last_sectors() {
    let entry = datastore_entry(1000, 2000);
    assert_eq!((entry.starting_lba, entry.ending_lba), (1000, 1995));
    assert_eq!(entry.partition_name, "datastore");
    assert_eq!(datastore_entry(0, 5).ending_lba, 0);
}

#[test]
fn tables_that_cannot_be_measured_are_refused() {
    // two partitions share a sector
    let mut gpt = table(1 << 20);
    gpt[1] = entry(1, 2048, 4095);
    gpt[2] = entry(2, 4095, 8191);
    assert!(!Disk::try_add_extra_gptpartitions(&mut gpt, &vec![part(3)]));
    assert!(gpt[3].is_unused());

    // no alignment
    let mut gpt = table(1 << 20);
    gpt.align = 0;
    assert!(!Disk::try_add_extra_gptpartitions(&mut gpt, &vec![part(3)]));

    // no sector before the first usable one, none after the last
    let mut gpt = table(1 << 20);
    gpt.header.first_usable_lba = 0;
    assert!(!Disk::try_add_extra_gptpartitions(&mut gpt, &vec![part(3)]));
    let mut gpt = table(1 << 20);
    gpt.header.last_usable_lba = u64::MAX;
    assert!(!Disk::try_add_extra_gptpartitions(&mut gpt, &vec![part(3)]));

    // more bytes than can be counted
    let mut gpt = table(1 << 20);
    gpt.sector_size = u64::MAX;
    assert!(!Disk::try_add_extra_gptpartitions(&mut gpt, &Vec::new()));
    assert!(gpt[5].is_unused());
    assert!(Disk::try_add_extra_gptpartitions(&mut gpt, &vec![part(3)]));
}

#[test]
fn measurable_tables_are_measured() {
    let geometry = GptGeometry {
        sector_size: 512,
        first_usable_lba: 34,
        last_usable_lba: 10000,
        align: 8,
    };
    let slot = |start: u64, end: u64| {
        let mut entry = plain_entry(true);
        entry.starting_lba = start;
        entry.ending_lba = end;
        entry
    };
    assert!(can_be_measured(&Vec::new(), geometry));
    // partitions side by side, out of order, and of one sector
    assert!(can_be_measured(&vec![slot(200, 300), slot(100, 199), slot(34, 34)], geometry));
    // one partition begins with the sector before the first usable one
    assert!(!can_be_measured(&vec![slot(33, 50)], geometry));
    // unused slots do not count
    let mut unused = plain_entry(false);
    unused.starting_lba = 33;
    assert!(can_be_measured(&vec![unused], geometry));
    // the next aligned sector has no number
    let huge = GptGeometry { last_usable_lba: u64::MAX - 1, align: 1 << 62, ..geometry };
    assert!(can_be_measured(&vec![slot(34, (3 << 62) - 1)], huge));
    assert!(!can_be_measured(&vec![slot(34, 3 << 62)], huge));
}

#[test]
fn a_disk_without_a_table_has_no_extra_partitions() {
    assert!(extra_gptpartitions_found(None).is_empty());
    let gpt = table_with(&[1, 2, 3, 4, 8]);
    let parts = extra_gptpartitions_found(Some(&gpt));
    assert_eq!(parts.len(), 1);
    assert_eq!((parts[0].idx, parts[0].name.as_str()), (5, "part 8"));
}

#[test]
fn partitions_are_announced_up_to_the_first_without_a_slot() {
    let said = |idx: &[u32]| {
        let parts = idx.iter().map(|i| part(*i)).collect();
        Disk::announced_gptpartitions(&table(1 << 20), &parts)
    };
    assert!(said(&[]).is_empty());
    assert_eq!(said(&[5, 128]), ["Adding p into slot 5\n", "Adding p into slot 128\n"]);
    assert_eq!(said(&[5, 129, 6]), ["Adding p into slot 5\n", "Adding p into slot 129\n"]);
    assert_eq!(said(&[0, 6]), ["Adding p into slot 0\n"]);

    let mut gpt = table(1 << 20);
    gpt.align = 0;
    assert!(Disk::announced_gptpartitions(&gpt, &vec![part(5)]).is_empty());
}
