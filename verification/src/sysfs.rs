//! Where a partition lies on its disk, from what the kernel says under `/sys/dev/block`.

use crate::error::{outcome, plain_error, Error, ErrorKind, ErrorView};
use crate::number::{
    decimal, decimal_text, law_decimal_is_injective, law_decimal_is_parsed_back, lemma_decimal,
    parse_u64, parsed_u64,
};
use crate::partition::Partition;
use crate::text::{read_text, trim_end, trimmed_end};
use nix::sys::stat::{major, minor};
use vstd::prelude::*;

verus! {

/// The bytes of the blocks that the kernel counts in, whatever the sector size of the device is.
pub const KERNEL_BLOCK: u64 = 512;

/// The major number in a device number: bits 8 to 19 below bits 44 to 63.
pub open spec fn device_major(dev: u64) -> u64 {
    ((dev >> 32) & 0xffff_f000) | ((dev >> 8) & 0x0000_0fff)
}

/// The minor number in a device number: bits 0 to 7 below bits 20 to 43.
pub open spec fn device_minor(dev: u64) -> u64 {
    ((dev >> 12) & 0xffff_ff00) | (dev & 0x0000_00ff)
}

/// The major number of a device, as `nix::sys::stat::major` takes it out of the device number.
pub assume_specification[ nix::sys::stat::major ](dev: nix::sys::stat::dev_t) -> (number: u64)
    ensures
        number == device_major(dev),
;

/// The minor number of a device, as `nix::sys::stat::minor` takes it out of the device number.
pub assume_specification[ nix::sys::stat::minor ](dev: nix::sys::stat::dev_t) -> (number: u64)
    ensures
        number == device_minor(dev),
;

/// The file that holds the value `field` of the block device with these numbers.
pub open spec fn value_path(maj: u64, min: u64, field: Seq<char>) -> Seq<char> {
    "/sys/dev/block/"@ + decimal(maj as nat) + ":"@ + decimal(min as nat) + "/"@ + field
}

/// The number in the file at [`value_path`], given what was read of it. White space at the end is
/// passed over.
pub open spec fn value_outcome(
    maj: u64,
    min: u64,
    field: Seq<char>,
    content: Result<Seq<char>, Seq<char>>,
) -> Result<u64, ErrorView> {
    let subject = "partition "@ + decimal(maj as nat) + ":"@ + decimal(min as nat) + " "@ + field;
    match content {
        Err(cause) => Err(
            ErrorView {
                kind: ErrorKind::System,
                text: "reading "@ + subject + " value from sysfs"@,
                cause: Some(cause),
            },
        ),
        Ok(text) => match parsed_u64(trimmed_end(text)) {
            Ok(number) => Ok(number),
            Err(fault) => Err(
                ErrorView {
                    kind: ErrorKind::NotANumber,
                    text: "parsing "@ + subject + " value \""@ + trimmed_end(text) + "\" as u64"@,
                    cause: Some(fault.words()),
                },
            ),
        },
    }
}

/// The bytes from the first of a partition up to the one behind its last, from its first block
/// and the number of its blocks.
pub open spec fn byte_range(start: u64, size: u64) -> Result<(u64, u64), ErrorView> {
    if start * KERNEL_BLOCK > u64::MAX {
        Err(plain_error(ErrorKind::OffsetOverflow, "start offset mult overflow"@))
    } else if size * KERNEL_BLOCK > u64::MAX {
        Err(plain_error(ErrorKind::OffsetOverflow, "end offset mult overflow"@))
    } else if start * KERNEL_BLOCK + size * KERNEL_BLOCK > u64::MAX {
        Err(plain_error(ErrorKind::OffsetOverflow, "end offset add overflow"@))
    } else {
        Ok(
            (
                (start * KERNEL_BLOCK) as u64,
                (start * KERNEL_BLOCK + size * KERNEL_BLOCK) as u64,
            ),
        )
    }
}

/// The offsets of the partition at `path`, given its device number and what was read of its
/// `start` and `size` files.
pub open spec fn offsets_outcome(
    path: Seq<char>,
    rdev: Result<u64, Seq<char>>,
    start: Result<Seq<char>, Seq<char>>,
    size: Result<Seq<char>, Seq<char>>,
) -> Result<(u64, u64), ErrorView> {
    match rdev {
        Err(cause) => Err(
            ErrorView {
                kind: ErrorKind::System,
                text: "getting metadata for "@ + path,
                cause: Some(cause),
            },
        ),
        Ok(dev) => match value_outcome(device_major(dev), device_minor(dev), "start"@, start) {
            Err(error) => Err(error),
            Ok(first) => match value_outcome(
                device_major(dev),
                device_minor(dev),
                "size"@,
                size,
            ) {
                Err(error) => Err(error),
                Ok(count) => byte_range(first, count),
            },
        },
    }
}

/// A device number, or what the system said instead.
pub open spec fn read_number(rdev: Result<u64, String>) -> Result<u64, Seq<char>> {
    match rdev {
        Ok(dev) => Ok(dev),
        Err(cause) => Err(cause@),
    }
}

/// The file that holds the value `field` of the block device `rdev`.
pub fn sysfs_value_path(rdev: u64, field: &str) -> (path: String)
    ensures
        path@ == value_path(device_major(rdev), device_minor(rdev), field@),
{
    let mut path: String = "/sys/dev/block/".to_owned();
    path.append(decimal_text(major(rdev)).as_str());
    path.append(":");
    path.append(decimal_text(minor(rdev)).as_str());
    path.append("/");
    path.append(field);
    path
}

/// The value in the content of a file under `/sys/dev/block`.
pub fn read_sysfs_dev_block_value(content: &str) -> (value: String)
    ensures
        value@ == trimmed_end(content@),
{
    trim_end(content)
}

/// The number in the file for `field` of the block device with these numbers, given what was
/// read of the file or what the system said instead.
pub fn read_sysfs_dev_block_value_u64(
    maj: u64,
    min: u64,
    field: &str,
    content: Result<String, String>,
) -> (result: Result<u64, Error>)
    ensures
        outcome(result) == value_outcome(maj, min, field@, read_text(content)),
{
    let mut subject: String = "partition ".to_owned();
    subject.append(decimal_text(maj).as_str());
    subject.append(":");
    subject.append(decimal_text(min).as_str());
    subject.append(" ");
    subject.append(field);
    match content {
        Err(cause) => {
            let mut text: String = "reading ".to_owned();
            text.append(subject.as_str());
            text.append(" value from sysfs");
            Err(Error::with_cause(ErrorKind::System, text, cause))
        },
        Ok(content) => {
            let value: String = read_sysfs_dev_block_value(content.as_str());
            match parse_u64(value.as_str()) {
                Ok(number) => Ok(number),
                Err(fault) => {
                    let mut text: String = "parsing ".to_owned();
                    text.append(subject.as_str());
                    text.append(" value \"");
                    text.append(value.as_str());
                    text.append("\" as u64");
                    Err(Error::with_cause(ErrorKind::NotANumber, text, fault.to_text()))
                },
            }
        },
    }
}

/// The byte offsets of a partition from its first block and the number of its blocks.
pub fn offsets_of_blocks(start: u64, size: u64) -> (result: Result<(u64, u64), Error>)
    ensures
        outcome(result) == byte_range(start, size),
{
    let start_offset: u64 = match start.checked_mul(KERNEL_BLOCK) {
        Some(offset) => offset,
        None => return Err(
            Error::new(ErrorKind::OffsetOverflow, "start offset mult overflow".to_owned()),
        ),
    };
    let length: u64 = match size.checked_mul(KERNEL_BLOCK) {
        Some(length) => length,
        None => return Err(
            Error::new(ErrorKind::OffsetOverflow, "end offset mult overflow".to_owned()),
        ),
    };
    match start_offset.checked_add(length) {
        Some(end_offset) => Ok((start_offset, end_offset)),
        None => Err(Error::new(ErrorKind::OffsetOverflow, "end offset add overflow".to_owned())),
    }
}

impl Partition {
    /// The start and end offsets, in bytes, of the partition at `path` within its disk, given
    /// its device number and what was read at [`sysfs_value_path`] for `start` and `size`, each
    /// or what the system said instead. Without a device number the other two do not matter.
    pub fn get_offsets(
        path: &str,
        rdev: Result<u64, String>,
        start: Result<String, String>,
        size: Result<String, String>,
    ) -> (result: Result<(u64, u64), Error>)
        ensures
            outcome(result) == offsets_outcome(
                path@,
                read_number(rdev),
                read_text(start),
                read_text(size),
            ),
    {
        let dev: u64 = match rdev {
            Ok(dev) => dev,
            Err(cause) => {
                let mut text: String = "getting metadata for ".to_owned();
                text.append(path);
                return Err(Error::with_cause(ErrorKind::System, text, cause));
            },
        };
        let maj: u64 = major(dev);
        let min: u64 = minor(dev);
        let first: u64 = match read_sysfs_dev_block_value_u64(maj, min, "start", start) {
            Ok(first) => first,
            Err(error) => return Err(error),
        };
        let count: u64 = match read_sysfs_dev_block_value_u64(maj, min, "size", size) {
            Ok(count) => count,
            Err(error) => return Err(error),
        };
        offsets_of_blocks(first, count)
    }
}

/// Offsets lie on block boundaries, in order, and as far apart as the partition has blocks.
pub proof fn law_offsets_span_the_blocks(start: u64, size: u64)
    ensures
        byte_range(start, size) matches Ok((first, end)) ==> {
            &&& first % KERNEL_BLOCK == 0
            &&& end % KERNEL_BLOCK == 0
            &&& first <= end
            &&& end - first == size * KERNEL_BLOCK
        },
{
}

/// Offsets are given exactly where the last of them fits in 64 bits.
pub proof fn law_offsets_are_given_where_they_fit(start: u64, size: u64)
    ensures
        byte_range(start, size) is Ok <==> (start + size) * KERNEL_BLOCK <= u64::MAX,
{
}

/// A number as the kernel writes it, with a line feed behind it, is read as that number.
pub proof fn law_kernel_values_are_read(maj: u64, min: u64, field: Seq<char>, n: u64)
    ensures
        value_outcome(maj, min, field, Ok(decimal(n as nat).push('\n'))) == Ok::<u64, ErrorView>(n),
{
    let digits = decimal(n as nat);
    let text = digits.push('\n');
    lemma_decimal(n as nat);
    assert(text.drop_last() == digits);
    assert(digits.last() == digits[digits.len() - 1]);
    assert(trimmed_end(digits) == digits);
    assert(trimmed_end(text) == digits);
    law_decimal_is_parsed_back(n);
}

/// A device is determined by its two numbers.
pub proof fn law_numbers_determine_the_device(a: u64, b: u64)
    requires
        device_major(a) == device_major(b),
        device_minor(a) == device_minor(b),
    ensures
        a == b,
{
    assert(((a >> 32) & 0xffff_f000) | ((a >> 8) & 0x0000_0fff) == ((b >> 32) & 0xffff_f000) | ((b
        >> 8) & 0x0000_0fff) && ((a >> 12) & 0xffff_ff00) | (a & 0x0000_00ff) == ((b >> 12)
        & 0xffff_ff00) | (b & 0x0000_00ff) ==> a == b) by (bit_vector);
}

/// Two numbers with a mark between them can be told apart, as no digit is the mark.
proof fn lemma_split_at_mark(
    a: nat,
    b: nat,
    mark: char,
    rest_a: Seq<char>,
    rest_b: Seq<char>,
)
    requires
        decimal(a) + seq![mark] + rest_a == decimal(b) + seq![mark] + rest_b,
        !('0' <= mark <= '9'),
    ensures
        a == b,
        rest_a == rest_b,
{
    let x = decimal(a);
    let y = decimal(b);
    let whole = x + seq![mark] + rest_a;
    let other = y + seq![mark] + rest_b;
    lemma_decimal(a);
    lemma_decimal(b);
    if x.len() < y.len() {
        assert(whole[x.len() as int] == mark);
        assert(other[x.len() as int] == y[x.len() as int]);
    } else if y.len() < x.len() {
        assert(other[y.len() as int] == mark);
        assert(whole[y.len() as int] == x[y.len() as int]);
    }
    assert(whole.subrange(0, x.len() as int) == x);
    assert(other.subrange(0, y.len() as int) == y);
    law_decimal_is_injective(a, b);
    assert(whole.subrange(x.len() + 1int, whole.len() as int) == rest_a);
    assert(other.subrange(y.len() + 1int, other.len() as int) == rest_b);
}

/// No two devices share the file of a value.
pub proof fn law_value_paths_tell_devices_apart(a: u64, b: u64, field: Seq<char>)
    requires
        value_path(device_major(a), device_minor(a), field) == value_path(
            device_major(b),
            device_minor(b),
            field,
        ),
    ensures
        a == b,
{
    reveal_strlit(":");
    reveal_strlit("/");
    let prefix = "/sys/dev/block/"@;
    let rest_a = decimal(device_minor(a) as nat) + seq!['/'] + field;
    let rest_b = decimal(device_minor(b) as nat) + seq!['/'] + field;
    let tail_a = decimal(device_major(a) as nat) + seq![':'] + rest_a;
    let tail_b = decimal(device_major(b) as nat) + seq![':'] + rest_b;
    let path_a = value_path(device_major(a), device_minor(a), field);
    let path_b = value_path(device_major(b), device_minor(b), field);
    assert(":"@ == seq![':']);
    assert("/"@ == seq!['/']);
    assert(path_a == prefix + tail_a);
    assert(path_b == prefix + tail_b);
    assert(path_a.subrange(prefix.len() as int, path_a.len() as int) == tail_a);
    assert(path_b.subrange(prefix.len() as int, path_b.len() as int) == tail_b);
    lemma_split_at_mark(
        device_major(a) as nat,
        device_major(b) as nat,
        ':',
        rest_a,
        rest_b,
    );
    lemma_split_at_mark(device_minor(a) as nat, device_minor(b) as nat, '/', field, field);
    law_numbers_determine_the_device(a, b);
}

} // verus!
