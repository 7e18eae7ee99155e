//! What callers can rely on of sector sizes.

use crate::error::{Error, ErrorKind};
use crate::number::decimal;
use crate::sector::{
    detect_formatted_sector_size, get_block_device_size, get_sector_size, get_sector_size_for_path,
};
use vstd::prelude::*;

verus! {

/// A buffer with `EFI PART` at byte 512 has sectors of 512 bytes, whatever its other bytes are.
pub proof fn law_table_behind_512_bytes(buf: &[u8], size: Option<u32>)
    requires
        call_ensures(detect_formatted_sector_size, (buf,), size),
        buf@.len() >= 520,
        buf@.subrange(512, 520) == seq![0x45u8, 0x46, 0x49, 0x20, 0x50, 0x41, 0x52, 0x54],
    ensures
        size == Some(512u32),
{
}

/// A buffer with `EFI PART` at byte 4096 and not at byte 512 has sectors of 4096 bytes, whatever
/// its other bytes are.
pub proof fn law_table_behind_4096_bytes(buf: &[u8], size: Option<u32>)
    requires
        call_ensures(detect_formatted_sector_size, (buf,), size),
        buf@.len() >= 4104,
        buf@.subrange(4096, 4104) == seq![0x45u8, 0x46, 0x49, 0x20, 0x50, 0x41, 0x52, 0x54],
        buf@.subrange(512, 520) != seq![0x45u8, 0x46, 0x49, 0x20, 0x50, 0x41, 0x52, 0x54],
    ensures
        size == Some(4096u32),
{
}

/// A buffer that has `EFI PART` at neither place, or ends before it is complete, tells no sector
/// size.
pub proof fn law_no_table_tells_no_size(buf: &[u8], size: Option<u32>)
    requires
        call_ensures(detect_formatted_sector_size, (buf,), size),
        buf@.len() < 520 || buf@.subrange(512, 520) != seq![
            0x45u8,
            0x46,
            0x49,
            0x20,
            0x50,
            0x41,
            0x52,
            0x54,
        ],
        buf@.len() < 4104 || buf@.subrange(4096, 4104) != seq![
            0x45u8,
            0x46,
            0x49,
            0x20,
            0x50,
            0x41,
            0x52,
            0x54,
        ],
    ensures
        size is None,
{
}

/// The sixteen bytes at the two places are all that counts.
pub proof fn law_other_bytes_do_not_count(
    a: &[u8],
    b: &[u8],
    size_a: Option<u32>,
    size_b: Option<u32>,
)
    requires
        call_ensures(detect_formatted_sector_size, (a,), size_a),
        call_ensures(detect_formatted_sector_size, (b,), size_b),
        a@.len() >= 4104,
        b@.len() >= 4104,
        forall|i: int| 512 <= i < 520 || 4096 <= i < 4104 ==> #[trigger] a@[i] == b@[i],
    ensures
        size_a == size_b,
{
    assert(a@.subrange(512, 520) == b@.subrange(512, 520));
    assert(a@.subrange(4096, 4104) == b@.subrange(4096, 4104));
}

/// A sector size is the one that was reported, if it is positive. Zero, a negative number and a
/// failed report are errors that say so.
pub proof fn law_sector_size_is_as_reported(
    report: Result<i32, String>,
    result: Result<u32, Error>,
)
    requires
        call_ensures(get_sector_size, (report,), result),
    ensures
        match report {
            Ok(n) => if n > 0 {
                result matches Ok(size) && size == n
            } else if n == 0 {
                &&& result matches Err(error)
                &&& error.kind == ErrorKind::BadSize
                &&& error.text@ == "found sector size of zero"@
                &&& error.cause is None
            } else {
                &&& result matches Err(error)
                &&& error.kind == ErrorKind::BadSize
                &&& error.text@ == "sector size "@ + ("-"@ + decimal((-n) as nat))
                    + " doesn't fit in u32"@
                &&& error.cause matches Some(cause)
                &&& cause@ == "out of range integral type conversion attempted"@
            },
            Err(said) => {
                &&& result matches Err(error)
                &&& error.kind == ErrorKind::System
                &&& error.text@ == "getting sector size"@
                &&& error.cause matches Some(cause)
                &&& cause@ == said@
            },
        },
{
}

/// What is not a block device has no sector size; of a block device the report counts.
pub proof fn law_sector_size_for_path(
    device: &str,
    is_block_device: bool,
    report: Result<i32, String>,
    result: Result<u32, Error>,
)
    requires
        call_ensures(get_sector_size_for_path, (device, is_block_device, report), result),
    ensures
        !is_block_device ==> {
            &&& result matches Err(error)
            &&& error.kind == ErrorKind::NotABlockDevice
            &&& error.text@ == device@ + " is not a block device"@
        },
        is_block_device ==> forall|n: i32|
            n > 0 && report == Ok::<i32, String>(n) ==> (result matches Ok(size) && size == n),
        is_block_device && (report is Err || report->Ok_0 <= 0) ==> result is Err,
{
}

/// The size of a device is the one that was reported, unless it is zero.
pub proof fn law_device_size_is_as_reported(
    report: Result<usize, String>,
    result: Result<u64, Error>,
)
    requires
        call_ensures(get_block_device_size, (report,), result),
    ensures
        match report {
            Ok(n) => if n > 0 {
                result matches Ok(size) && size == n
            } else {
                &&& result matches Err(error)
                &&& error.kind == ErrorKind::BadSize
                &&& error.text@ == "found block size of zero"@
            },
            Err(said) => {
                &&& result matches Err(error)
                &&& error.kind == ErrorKind::System
                &&& error.text@ == "getting block size"@
                &&& error.cause matches Some(cause)
                &&& cause@ == said@
            },
        },
{
}

} // verus!
