use blockdev::error::ErrorKind;
use blockdev::sector::{
    detect_formatted_sector_size, get_block_device_size, get_sector_size, get_sector_size_for_path,
};
use std::io::Cursor;
use std::num::NonZeroU32;

/// The beginning of a disk that was formatted for the given sector size.
fn formatted_disk(sector_size: u64) -> Vec<u8> {
    let mut disk = Cursor::new(vec![0u8; 128 * 4096]);
    let mut gpt = gptman::GPT::new_from(&mut disk, sector_size, [0x11; 16]).unwrap();
    gpt.write_into(&mut disk).unwrap();
    let mut data = disk.into_inner();
    data.truncate(8192);
    data
}

#[test]
fn disk_sector_size_reader() {
    struct Test {
        name: &'static str,
        data: Vec<u8>,
        result: Option<NonZeroU32>,
    }
    let tests = vec![
        Test {
            name: "zero-length",
            data: b"".to_vec(),
            result: None,
        },
        Test {
            name: "empty-disk",
            data: vec![0; 8192],
            result: None,
        },
        Test {
            name: "gpt-512",
            data: formatted_disk(512),
            result: NonZeroU32::new(512),
        },
        Test {
            name: "gpt-4096",
            data: formatted_disk(4096),
            result: NonZeroU32::new(4096),
        },
    ];

    for test in tests {
        let result = detect_formatted_sector_size(&test.data).and_then(NonZeroU32::new);
        if result != test.result {
            panic!(
                "\"{}\" returned incorrect result: expected {:?}, found {:?}",
                test.name, test.result, result
            );
        }
    }
}

fn with_magic(len: usize, at: usize) -> Vec<u8> {
    let mut data = vec![0u8; len];
    data[at..at + 8].copy_from_slice(b"EFI PART");
    data
}

#[test]
fn sector_size_is_told_from_just_enough_bytes() {
    assert_eq!(detect_formatted_sector_size(&with_magic(520, 512)), Some(512));
    assert_eq!(detect_formatted_sector_size(&with_magic(520, 512)[..519]), None);
    assert_eq!(detect_formatted_sector_size(&with_magic(4104, 4096)), Some(4096));
    assert_eq!(detect_formatted_sector_size(&with_magic(4104, 4096)[..4103]), None);
}

#[test]
fn small_sectors_come_first() {
    let mut data = with_magic(8192, 4096);
    data[512..520].copy_from_slice(b"EFI PART");
    assert_eq!(detect_formatted_sector_size(&data), Some(512));
    data[519] = b't';
    assert_eq!(detect_formatted_sector_size(&data), Some(4096));
}

#[test]
fn beginning_of_an_image_is_enough() {
    for image in [formatted_disk(512), formatted_disk(4096), vec![7; 8192]] {
        assert_eq!(
            detect_formatted_sector_size(&image[..4104]),
            detect_formatted_sector_size(&image)
        );
    }
}

#[test]
fn sector_sizes_are_positive() {
    assert_eq!(get_sector_size(Ok(512)).unwrap(), 512);
    assert_eq!(get_sector_size(Ok(i32::MAX)).unwrap(), 2147483647);

    let error = get_sector_size(Ok(0)).unwrap_err();
    assert_eq!(error.kind, ErrorKind::BadSize);
    assert_eq!(error.text, "found sector size of zero");

    let error = get_sector_size(Ok(-1)).unwrap_err();
    assert_eq!(error.kind, ErrorKind::BadSize);
    assert_eq!(error.text, "sector size -1 doesn't fit in u32");
    assert_eq!(error.cause, Some(u32::try_from(-1i32).unwrap_err().to_string()));
    assert_eq!(
        get_sector_size(Ok(i32::MIN)).unwrap_err().text,
        "sector size -2147483648 doesn't fit in u32"
    );

    let error = get_sector_size(Err("ENOTTY".to_string())).unwrap_err();
    assert_eq!(error.kind, ErrorKind::System);
    assert_eq!(error.text, "getting sector size");
    assert_eq!(error.cause, Some("ENOTTY".to_string()));
}

#[test]
fn sector_size_is_that_of_a_block_device() {
    assert_eq!(get_sector_size_for_path("\"/dev/sda\"", true, Ok(4096)).unwrap(), 4096);
    let error = get_sector_size_for_path("\"/tmp/x\"", false, Ok(4096)).unwrap_err();
    assert_eq!(error.kind, ErrorKind::NotABlockDevice);
    assert_eq!(error.text, "\"/tmp/x\" is not a block device");
    assert_eq!(
        get_sector_size_for_path("\"/dev/sda\"", true, Ok(0)).unwrap_err().text,
        "found sector size of zero"
    );
}

#[test]
fn device_sizes_are_positive() {
    assert_eq!(get_block_device_size(Ok(1 << 30)).unwrap(), 1 << 30);
    let error = get_block_device_size(Ok(0)).unwrap_err();
    assert_eq!(error.kind, ErrorKind::BadSize);
    assert_eq!(error.text, "found block size of zero");
    let error = get_block_device_size(Err("EIO".to_string())).unwrap_err();
    assert_eq!(error.text, "getting block size");
    assert_eq!(error.cause, Some("EIO".to_string()));
}
