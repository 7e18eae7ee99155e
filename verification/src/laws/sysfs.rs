//! What callers can rely on of where a partition lies.

use crate::error::{Error, ErrorKind};
use crate::number::{decimal, parsed_u64};
use crate::partition::Partition;
use crate::sysfs::{
    device_major, device_minor, law_kernel_values_are_read, offsets_of_blocks,
    read_sysfs_dev_block_value, read_sysfs_dev_block_value_u64, sysfs_value_path,
};
use crate::text::trimmed_end;
use vstd::prelude::*;

verus! {

/// Values of a device lie under its two numbers.
pub proof fn law_value_files(rdev: u64, field: &str, path: String)
    requires
        call_ensures(sysfs_value_path, (rdev, field), path),
    ensures
        path@ == "/sys/dev/block/"@ + decimal(device_major(rdev) as nat) + ":"@ + decimal(
            device_minor(rdev) as nat,
        ) + "/"@ + field@,
{
}

/// The numbers of a device that is not among the few with large ones: the first is in bits 8 to 19
/// of the device number, the second in the eight bits below.
pub proof fn law_small_device_numbers(maj: u64, min: u64)
    requires
        maj < 4096,
        min < 256,
    ensures
        device_major((maj * 256 + min) as u64) == maj,
        device_minor((maj * 256 + min) as u64) == min,
{
    let dev = (maj * 256 + min) as u64;
    assert(((dev >> 32) & 0xffff_f000) | ((dev >> 8) & 0x0000_0fff) == maj && ((dev >> 12)
        & 0xffff_ff00) | (dev & 0x0000_00ff) == min) by (bit_vector)
        requires
            dev == maj * 256 + min,
            maj < 4096,
            min < 256,
    ;
}

/// Where everything fits, a partition begins 512 bytes for each block before it into the disk, and
/// ends 512 bytes for each of its blocks behind.
pub proof fn law_offsets_are_blocks_of_512_bytes(
    start: u64,
    size: u64,
    result: Result<(u64, u64), Error>,
)
    requires
        call_ensures(offsets_of_blocks, (start, size), result),
    ensures
        512 * (start + size) <= u64::MAX ==> (result matches Ok((first, end)) && first == 512
            * start && end == 512 * (start + size)),
        512 * (start + size) > u64::MAX ==> (result matches Err(error) && error.kind
            == ErrorKind::OffsetOverflow && error.text@ == if 512 * start > u64::MAX {
            "start offset mult overflow"@
        } else if 512 * size > u64::MAX {
            "end offset mult overflow"@
        } else {
            "end offset add overflow"@
        }),
{
}

/// What is read of a value file is the number in it, without white space behind it; an error names
/// the device, the field and what stood there.
pub proof fn law_value_files_hold_numbers(
    maj: u64,
    min: u64,
    field: &str,
    content: Result<String, String>,
    result: Result<u64, Error>,
)
    requires
        call_ensures(read_sysfs_dev_block_value_u64, (maj, min, field, content), result),
    ensures
        ({
            let subject = "partition "@ + decimal(maj as nat) + ":"@ + decimal(min as nat) + " "@
                + field@;
            match content {
                Err(said) => {
                    &&& result matches Err(error)
                    &&& error.kind == ErrorKind::System
                    &&& error.text@ == "reading "@ + subject + " value from sysfs"@
                    &&& error.cause matches Some(cause)
                    &&& cause@ == said@
                },
                Ok(text) => match parsed_u64(trimmed_end(text@)) {
                    Ok(n) => result == Ok::<u64, Error>(n),
                    Err(fault) => {
                        &&& result matches Err(error)
                        &&& error.kind == ErrorKind::NotANumber
                        &&& error.text@ == "parsing "@ + subject + " value \""@ + trimmed_end(
                            text@,
                        ) + "\" as u64"@
                        &&& error.cause matches Some(cause)
                        &&& cause@ == fault.words()
                    },
                },
            }
        }),
{
}

/// A number as the kernel writes it is read as that number.
pub proof fn law_numbers_of_the_kernel_are_read(
    maj: u64,
    min: u64,
    field: &str,
    content: String,
    n: u64,
    result: Result<u64, Error>,
)
    requires
        call_ensures(read_sysfs_dev_block_value_u64, (maj, min, field, Ok(content)), result),
        content@ == decimal(n as nat) + seq!['\n'],
    ensures
        result == Ok::<u64, Error>(n),
{
    assert(content@ == decimal(n as nat).push('\n'));
    law_kernel_values_are_read(maj, min, field@, n);
}

/// The value in a file is its content without white space at the end.
pub proof fn law_values_are_trimmed(content: &str, value: String)
    requires
        call_ensures(read_sysfs_dev_block_value, (content,), value),
    ensures
        value@ == trimmed_end(content@),
        value@.is_prefix_of(content@),
{
    lemma_trimmed_is_prefix(content@);
}

/// A trimmed text is what the text begins with.
proof fn lemma_trimmed_is_prefix(text: Seq<char>)
    ensures
        trimmed_end(text).is_prefix_of(text),
    decreases text.len(),
{
    if text.len() > 0 {
        lemma_trimmed_is_prefix(text.drop_last());
        let n = trimmed_end(text.drop_last()).len() as int;
        assert(text.subrange(0, n) == text.drop_last().subrange(0, n));
    }
    assert(text.subrange(0, text.len() as int) == text);
}

/// A partition that begins with the block `start` and has `size` blocks, as the kernel says, has
/// the offsets of these blocks, in bytes.
pub proof fn law_offsets_are_what_the_kernel_says(
    path: &str,
    rdev: u64,
    start_text: String,
    size_text: String,
    start: u64,
    size: u64,
    result: Result<(u64, u64), Error>,
)
    requires
        call_ensures(
            Partition::get_offsets,
            (path, Ok(rdev), Ok(start_text), Ok(size_text)),
            result,
        ),
        start_text@ == decimal(start as nat) + seq!['\n'],
        size_text@ == decimal(size as nat) + seq!['\n'],
    ensures
        512 * (start + size) <= u64::MAX ==> (result matches Ok((first, end)) && first == 512
            * start && end == 512 * (start + size)),
        512 * (start + size) > u64::MAX ==> (result matches Err(error) && error.kind
            == ErrorKind::OffsetOverflow),
{
    assert(start_text@ == decimal(start as nat).push('\n'));
    assert(size_text@ == decimal(size as nat).push('\n'));
    law_kernel_values_are_read(device_major(rdev), device_minor(rdev), "start"@, start);
    law_kernel_values_are_read(device_major(rdev), device_minor(rdev), "size"@, size);
}

/// Offsets need the device number, then the start, then the size: the first that is missing is the
/// error.
pub proof fn law_offsets_need_everything(
    path: &str,
    rdev: Result<u64, String>,
    start: Result<String, String>,
    size: Result<String, String>,
    result: Result<(u64, u64), Error>,
)
    requires
        call_ensures(Partition::get_offsets, (path, rdev, start, size), result),
    ensures
        rdev matches Err(said) ==> {
            &&& result matches Err(error)
            &&& error.kind == ErrorKind::System
            &&& error.text@ == "getting metadata for "@ + path@
            &&& error.cause matches Some(cause)
            &&& cause@ == said@
        },
        rdev is Ok && start is Err ==> {
            &&& result matches Err(error)
            &&& error.kind == ErrorKind::System
            &&& error.text@ == "reading "@ + ("partition "@ + decimal(
                device_major(rdev->Ok_0) as nat,
            ) + ":"@ + decimal(device_minor(rdev->Ok_0) as nat) + " "@ + "start"@)
                + " value from sysfs"@
        },
        rdev is Ok && start is Ok && size is Err ==> result is Err,
{
}

} // verus!
