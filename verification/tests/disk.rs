use blockdev::disk::{Disk, PartTableKind};
use blockdev::error::ErrorKind;
use blockdev::partition::Partition;

fn partition(path: &str, label: Option<&str>, fstype: Option<&str>) -> Partition {
    Partition {
        path: path.to_string(),
        label: label.map(str::to_string),
        fstype: fstype.map(str::to_string),
        parent: "/dev/sda".to_string(),
        mountpoint: None,
        swap: false,
    }
}

#[test]
fn mapper_paths_are_recognised() {
    for path in ["/dev/mapper/mpatha", "/dev/mapper/", "/dev/dm-0", "/dev/dm-"] {
        let disk = Disk::new(path);
        assert!(disk.is_dm_device(), "{}", path);
        assert_eq!(disk.get_partition_table(), PartTableKind::Kpartx);
    }
    for path in ["/dev/sda", "/dev/mapper", "/dev/dm", "dev/dm-0", "", "/mnt/dev/mapper/x"] {
        let disk = Disk::new(path);
        assert!(!disk.is_dm_device(), "{}", path);
        assert_eq!(disk.get_partition_table(), PartTableKind::Kernel);
    }
}

#[test]
fn the_only_carrier_of_a_label_is_mounted() {
    let partitions = vec![
        partition("/dev/sda1", Some("boot"), Some("ext4")),
        partition("/dev/sda2", None, None),
        partition("/dev/sda3", Some("root"), Some("xfs")),
    ];
    let disk = Disk::new("/dev/sda");
    let request = disk.mount_partition_by_label(&partitions, "root").unwrap();
    assert_eq!(request.device, "/dev/sda3");
    assert_eq!(request.fstype, "xfs");
    let request = disk.mount_partition_by_label(&partitions, "boot").unwrap();
    assert_eq!(request.device, "/dev/sda1");
    assert_eq!(request.fstype, "ext4");
}

#[test]
fn a_disk_without_partitions_is_an_error() {
    let error = Disk::new("/dev/sdb").mount_partition_by_label(&Vec::new(), "boot").unwrap_err();
    assert_eq!(error.kind, ErrorKind::NoPartitions);
    assert_eq!(error.text, "couldn't find any partitions on /dev/sdb");
    assert_eq!(error.cause, None);
}

#[test]
fn a_label_that_nothing_carries_is_an_error() {
    let partitions = vec![partition("/dev/sda1", Some("boot2"), Some("ext4"))];
    let error = Disk::new("/dev/sda").mount_partition_by_label(&partitions, "boot").unwrap_err();
    assert_eq!(error.kind, ErrorKind::NoSuchLabel);
    assert_eq!(error.text, "couldn't find boot device for /dev/sda");
}

#[test]
fn a_label_that_two_partitions_carry_is_an_error() {
    let partitions = vec![
        partition("/dev/sda1", Some("boot"), Some("ext4")),
        partition("/dev/sda2", Some("boot"), None),
    ];
    let error = Disk::new("/dev/sda").mount_partition_by_label(&partitions, "boot").unwrap_err();
    assert_eq!(error.kind, ErrorKind::AmbiguousLabel);
    assert_eq!(error.text, "found multiple devices on /dev/sda with label \"boot\"");
}

#[test]
fn a_carrier_without_a_file_system_type_is_an_error() {
    let partitions = vec![partition("/dev/sda1", Some("boot"), None)];
    let error = Disk::new("/dev/sda").mount_partition_by_label(&partitions, "boot").unwrap_err();
    assert_eq!(error.kind, ErrorKind::NoFilesystem);
    assert_eq!(error.text, "couldn't get filesystem type of boot device for /dev/sda");
}

#[test]
fn no_label_is_the_empty_label() {
    let mut partitions = vec![
        partition("/dev/sda1", Some("boot"), Some("ext4")),
        partition("/dev/sda2", None, Some("vfat")),
    ];
    let disk = Disk::new("/dev/sda");
    assert_eq!(disk.mount_partition_by_label(&partitions, "").unwrap().device, "/dev/sda2");
    partitions.push(partition("/dev/sda3", Some(""), Some("vfat")));
    let error = disk.mount_partition_by_label(&partitions, "").unwrap_err();
    assert_eq!(error.kind, ErrorKind::AmbiguousLabel);
}
