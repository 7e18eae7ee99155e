//! Sizes of block devices and of their sectors.

use crate::error::{outcome, plain_error, Error, ErrorKind, ErrorView};
use crate::number::{decimal, decimal_text};
use vstd::prelude::*;

verus! {

/// The sector size of most disks, in bytes.
pub const SMALL_SECTOR: usize = 512;

/// The sector size of disks with large sectors, in bytes.
pub const LARGE_SECTOR: usize = 4096;

/// The bytes that a GUID partition table begins with.
pub open spec fn gpt_magic() -> Seq<u8> {
    seq![0x45u8, 0x46u8, 0x49u8, 0x20u8, 0x50u8, 0x41u8, 0x52u8, 0x54u8]
}

/// Whether a GUID partition table begins `at` bytes into `image`.
pub open spec fn has_gpt_at(image: Seq<u8>, at: int) -> bool {
    image.len() >= at + 8 && image.subrange(at, at + 8) == gpt_magic()
}

/// The sector size that an image was formatted for: its partition table begins with the second
/// sector.
pub open spec fn formatted_sector_size(image: Seq<u8>) -> Option<u32> {
    if has_gpt_at(image, SMALL_SECTOR as int) {
        Some(SMALL_SECTOR as u32)
    } else if has_gpt_at(image, LARGE_SECTOR as int) {
        Some(LARGE_SECTOR as u32)
    } else {
        None
    }
}

/// Whether a GUID partition table begins `at` bytes into `buf`.
fn gpt_begins_at(buf: &[u8], at: usize) -> (yes: bool)
    requires
        at <= LARGE_SECTOR,
    ensures
        yes == has_gpt_at(buf@, at as int),
{
    if buf.len() < at + 8 {
        return false;
    }
    let magic: [u8; 8] = [0x45, 0x46, 0x49, 0x20, 0x50, 0x41, 0x52, 0x54];
    assert(magic@ == gpt_magic());
    let ghost part = buf@.subrange(at as int, at + 8);
    let mut i: usize = 0;
    while i < 8
        invariant
            i <= 8,
            at <= LARGE_SECTOR,
            at + 8 <= buf@.len(),
            part == buf@.subrange(at as int, at + 8),
            magic@ == gpt_magic(),
            forall|j: int| 0 <= j < i ==> part[j] == magic@[j],
        decreases 8 - i,
    {
        assert(part[i as int] == buf@[at + i]);
        if buf[at + i] != magic[i] {
            assert(part[i as int] != gpt_magic()[i as int]);
            return false;
        }
        i = i + 1;
    }
    assert(part == gpt_magic());
    true
}

/// The sector size that a disk image was formatted for, from the bytes at its beginning, if it can
/// be told.
pub fn detect_formatted_sector_size(buf: &[u8]) -> (size: Option<u32>)
    ensures
        size == formatted_sector_size(buf@),
{
    if gpt_begins_at(buf, SMALL_SECTOR) {
        Some(SMALL_SECTOR as u32)
    } else if gpt_begins_at(buf, LARGE_SECTOR) {
        Some(LARGE_SECTOR as u32)
    } else {
        None
    }
}

/// A number with its sign in decimal notation.
pub open spec fn signed_decimal(n: int) -> Seq<char> {
    if n < 0 {
        "-"@ + decimal((-n) as nat)
    } else {
        decimal(n as nat)
    }
}

/// The sector size that the system reported, or the error of a report that is no size.
pub open spec fn sector_size_outcome(report: Result<i32, Seq<char>>) -> Result<u32, ErrorView> {
    match report {
        Err(cause) => Err(
            ErrorView {
                kind: ErrorKind::System,
                text: "getting sector size"@,
                cause: Some(cause),
            },
        ),
        Ok(size) => if size < 0 {
            Err(
                ErrorView {
                    kind: ErrorKind::BadSize,
                    text: "sector size "@ + signed_decimal(size as int) + " doesn't fit in u32"@,
                    cause: Some("out of range integral type conversion attempted"@),
                },
            )
        } else if size == 0 {
            Err(plain_error(ErrorKind::BadSize, "found sector size of zero"@))
        } else {
            Ok(size as u32)
        },
    }
}

/// The size of a device that the system reported, or the error of a report that is no size.
pub open spec fn device_size_outcome(report: Result<usize, Seq<char>>) -> Result<u64, ErrorView> {
    match report {
        Err(cause) => Err(
            ErrorView {
                kind: ErrorKind::System,
                text: "getting block size"@,
                cause: Some(cause),
            },
        ),
        Ok(size) => if size == 0 {
            Err(plain_error(ErrorKind::BadSize, "found block size of zero"@))
        } else {
            Ok(size as u64)
        },
    }
}

/// What the system reported, or what it said instead.
pub open spec fn reported<T>(report: Result<T, String>) -> Result<T, Seq<char>> {
    match report {
        Ok(value) => Ok(value),
        Err(cause) => Err(cause@),
    }
}

/// The logical sector size of a block device, from the system's report. It is not zero.
pub fn get_sector_size(report: Result<i32, String>) -> (result: Result<u32, Error>)
    ensures
        outcome(result) == sector_size_outcome(reported(report)),
        result matches Ok(size) ==> size > 0,
{
    let size: i32 = match report {
        Ok(size) => size,
        Err(cause) => return Err(
            Error::with_cause(ErrorKind::System, "getting sector size".to_owned(), cause),
        ),
    };
    if size < 0 {
        let magnitude: i64 = -(size as i64);
        let mut text: String = "sector size ".to_owned();
        text.append("-");
        text.append(decimal_text(magnitude as u64).as_str());
        text.append(" doesn't fit in u32");
        assert(text@ =~= "sector size "@ + signed_decimal(size as int)
            + " doesn't fit in u32"@);
        return Err(
            Error::with_cause(
                ErrorKind::BadSize,
                text,
                "out of range integral type conversion attempted".to_owned(),
            ),
        );
    }
    if size == 0 {
        return Err(Error::new(ErrorKind::BadSize, "found sector size of zero".to_owned()));
    }
    Ok(size as u32)
}

/// The sector size of what the path shown as `device` names, given whether it is a block device
/// and, if so, the system's report.
pub fn get_sector_size_for_path(
    device: &str,
    is_block_device: bool,
    report: Result<i32, String>,
) -> (result: Result<u32, Error>)
    ensures
        outcome(result) == (if is_block_device {
            sector_size_outcome(reported(report))
        } else {
            Err(plain_error(ErrorKind::NotABlockDevice, device@ + " is not a block device"@))
        }),
        result matches Ok(size) ==> size > 0,
{
    if !is_block_device {
        let mut text: String = device.to_owned();
        text.append(" is not a block device");
        return Err(Error::new(ErrorKind::NotABlockDevice, text));
    }
    get_sector_size(report)
}

/// The size of a block device in bytes, from the system's report. It is not zero.
pub fn get_block_device_size(report: Result<usize, String>) -> (result: Result<u64, Error>)
    ensures
        outcome(result) == device_size_outcome(reported(report)),
        result matches Ok(size) ==> size > 0,
{
    let size: usize = match report {
        Ok(size) => size,
        Err(cause) => return Err(
            Error::with_cause(ErrorKind::System, "getting block size".to_owned(), cause),
        ),
    };
    if size == 0 {
        return Err(Error::new(ErrorKind::BadSize, "found block size of zero".to_owned()));
    }
    Ok(size as u64)
}

/// What is told from the beginning of an image stands for the whole image, and 4104 bytes are
/// enough to tell all that can be told.
pub proof fn law_beginning_tells_the_sector_size(image: Seq<u8>, n: int)
    requires
        0 <= n <= image.len(),
    ensures
        formatted_sector_size(image.take(n)) is Some ==> formatted_sector_size(image.take(n))
            == formatted_sector_size(image),
        n >= LARGE_SECTOR + 8 ==> formatted_sector_size(image.take(n)) == formatted_sector_size(
            image,
        ),
{
    let part = image.take(n);
    if n >= SMALL_SECTOR + 8 {
        assert(part.subrange(SMALL_SECTOR as int, SMALL_SECTOR + 8) == image.subrange(
            SMALL_SECTOR as int,
            SMALL_SECTOR + 8,
        ));
    }
    if n >= LARGE_SECTOR + 8 {
        assert(part.subrange(LARGE_SECTOR as int, LARGE_SECTOR + 8) == image.subrange(
            LARGE_SECTOR as int,
            LARGE_SECTOR + 8,
        ));
    }
}

/// A sector size is only told where a partition table begins that many bytes into the image, and
/// it is told wherever one begins at either place.
pub proof fn law_sector_size_is_that_of_a_table(image: Seq<u8>)
    ensures
        formatted_sector_size(image) matches Some(size) ==> has_gpt_at(image, size as int) && (size
            == SMALL_SECTOR || size == LARGE_SECTOR),
        formatted_sector_size(image) is None ==> !has_gpt_at(image, SMALL_SECTOR as int)
            && !has_gpt_at(image, LARGE_SECTOR as int),
{
}

} // verus!
