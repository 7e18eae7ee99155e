use blockdev::error::ErrorKind;
use blockdev::mount::Mount;
use blockdev::partition::Partition;
use blockdev::sysfs::{
    offsets_of_blocks, read_sysfs_dev_block_value, read_sysfs_dev_block_value_u64,
    sysfs_value_path,
};

fn ok(text: &str) -> Result<String, String> {
    Ok(text.to_string())
}

#[test]
fn value_files_are_named_by_device_numbers() {
    // major 8, minor 1
    assert_eq!(sysfs_value_path(0x801, "start"), "/sys/dev/block/8:1/start");
    // major 259, minor 5
    assert_eq!(sysfs_value_path(0x10305, "size"), "/sys/dev/block/259:5/size");
    // major 253, minor 256, whose upper bits stand above the major number
    assert_eq!(sysfs_value_path(0x10_fd00, "x"), "/sys/dev/block/253:256/x");
    assert_eq!(sysfs_value_path(0, ""), "/sys/dev/block/0:0/");
    assert_eq!(
        sysfs_value_path(u64::MAX, "start"),
        "/sys/dev/block/4294967295:4294967295/start"
    );
}

#[test]
fn different_devices_have_different_value_files() {
    let devices: Vec<u64> = (0..64).map(|bit| 1u64 << bit).collect();
    for a in &devices {
        for b in &devices {
            let same = sysfs_value_path(*a, "start") == sysfs_value_path(*b, "start");
            assert_eq!(same, a == b);
        }
    }
}

#[test]
fn device_numbers_are_taken_apart_as_they_are_put_together() {
    for (major, minor) in [(8, 1), (259, 70000), (4095, 255), (4096, 1 << 20)] {
        let dev = nix::sys::stat::makedev(major, minor);
        assert_eq!(
            sysfs_value_path(dev, "start"),
            format!("/sys/dev/block/{}:{}/start", major, minor)
        );
    }
}

#[test]
fn white_space_behind_a_value_is_passed_over() {
    assert_eq!(read_sysfs_dev_block_value("2048\n"), "2048");
    assert_eq!(read_sysfs_dev_block_value(" 2048 \t\r\n\n"), " 2048");
    assert_eq!(read_sysfs_dev_block_value("a\u{a0}\u{3000}"), "a");
    assert_eq!(read_sysfs_dev_block_value(" \n"), "");
    // as the standard library trims
    for code in 0..0x3100u32 {
        if let Some(c) = char::from_u32(code) {
            let text = format!("x{}", c);
            assert_eq!(read_sysfs_dev_block_value(&text), text.trim_end());
        }
    }
}

#[test]
fn numbers_are_read_from_value_files() {
    let read = |content| read_sysfs_dev_block_value_u64(8, 1, "start", ok(content));
    assert_eq!(read("2048\n").unwrap(), 2048);
    assert_eq!(read("0").unwrap(), 0);
    assert_eq!(read("18446744073709551615\n").unwrap(), u64::MAX);

    let error = read("20x48\n").unwrap_err();
    assert_eq!(error.kind, ErrorKind::NotANumber);
    assert_eq!(error.text, "parsing partition 8:1 start value \"20x48\" as u64");
    assert_eq!(error.cause, Some("20x48".parse::<u64>().unwrap_err().to_string()));

    let error = read("18446744073709551616\n").unwrap_err();
    assert_eq!(error.kind, ErrorKind::NotANumber);
    assert_eq!(error.cause, Some("18446744073709551616".parse::<u64>().unwrap_err().to_string()));
}

#[test]
fn a_value_file_that_cannot_be_read_is_an_error() {
    let error =
        read_sysfs_dev_block_value_u64(8, 1, "size", Err("ENOENT".to_string())).unwrap_err();
    assert_eq!(error.kind, ErrorKind::System);
    assert_eq!(error.text, "reading partition 8:1 size value from sysfs");
    assert_eq!(error.cause, Some("ENOENT".to_string()));
}

#[test]
fn offsets_are_in_bytes() {
    assert_eq!(offsets_of_blocks(2048, 1024).unwrap(), (1048576, 1572864));
    assert_eq!(offsets_of_blocks(0, 0).unwrap(), (0, 0));
    let last = u64::MAX / 512;
    assert_eq!(offsets_of_blocks(last, 0).unwrap(), (last * 512, last * 512));
    assert_eq!(offsets_of_blocks(1, last - 1).unwrap(), (512, last * 512));
}

#[test]
fn offsets_that_do_not_fit_are_errors() {
    let last = u64::MAX / 512;
    let text = |start, size| {
        let error = offsets_of_blocks(start, size).unwrap_err();
        assert_eq!(error.kind, ErrorKind::OffsetOverflow);
        error.text
    };
    assert_eq!(text(last + 1, 0), "start offset mult overflow");
    assert_eq!(text(last + 1, last + 1), "start offset mult overflow");
    assert_eq!(text(0, last + 1), "end offset mult overflow");
    assert_eq!(text(1, last), "end offset add overflow");
}

#[test]
fn offsets_of_a_partition_are_read() {
    let offsets = Partition::get_offsets("/dev/sda1", Ok(0x801), ok("2048\n"), ok("8\n"));
    assert_eq!(offsets.unwrap(), (1048576, 1052672));
}

#[test]
fn offsets_fail_with_what_they_are_read_from() {
    let no = || Err("no".to_string());
    let error =
        Partition::get_offsets("/dev/sda1", Err("no".to_string()), ok("1"), ok("1")).unwrap_err();
    assert_eq!(error.kind, ErrorKind::System);
    assert_eq!(error.text, "getting metadata for /dev/sda1");
    assert_eq!(error.cause, Some("no".to_string()));

    // the device number comes first, then the start
    let error = Partition::get_offsets("/dev/sda1", Ok(0x801), no(), no()).unwrap_err();
    assert_eq!(error.text, "reading partition 8:1 start value from sysfs");
    let error = Partition::get_offsets("/dev/sda1", Ok(0x801), ok("1"), no()).unwrap_err();
    assert_eq!(error.text, "reading partition 8:1 size value from sysfs");
    let error = Partition::get_offsets("/dev/sda1", Ok(0x801), ok("1"), ok("")).unwrap_err();
    assert_eq!(error.text, "parsing partition 8:1 size value \"\" as u64");
    let error = Partition::get_offsets("/dev/sda1", Ok(0x801), ok("1"), ok("99999999999999999"))
        .unwrap_err();
    assert_eq!(error.text, "end offset mult overflow");
}

#[test]
fn offsets_of_a_mount_are_those_of_its_device() {
    let mount = Mount::new("/dev/sda1", "/tmp/m");
    assert_eq!(mount.get_partition_offsets(Ok(0x801), ok("1"), ok("2")).unwrap(), (512, 1536));
    let error =
        mount.get_partition_offsets(Err("no".to_string()), ok("1"), ok("2")).unwrap_err();
    assert_eq!(error.text, "getting metadata for /dev/sda1");
}
