//! What callers can rely on of mounts.

use crate::error::Error;
use crate::mount::{Mount, UnmountStep};
use crate::partition::Partition;
use crate::retry::Retry;
use vstd::prelude::*;

verus! {

/// A mount keeps its device and directory.
pub proof fn law_mounts_keep_device_and_directory(
    device: &str,
    mountpoint: &str,
    mount: Mount,
    its_device: &str,
    its_mountpoint: &str,
)
    requires
        call_ensures(Mount::new, (device, mountpoint), mount),
        call_ensures(Mount::device, (&mount,), its_device),
        call_ensures(Mount::mountpoint, (&mount,), its_mountpoint),
    ensures
        its_device@ == device@,
        its_mountpoint@ == mountpoint@,
{
}

/// The offsets of a mount are those of its device.
pub proof fn law_offsets_of_a_mount(
    mount: Mount,
    device: &str,
    rdev: Result<u64, String>,
    start: Result<String, String>,
    size: Result<String, String>,
    of_mount: Result<(u64, u64), Error>,
    of_device: Result<(u64, u64), Error>,
)
    requires
        call_ensures(Mount::device, (&mount,), device),
        call_ensures(Mount::get_partition_offsets, (&mount, rdev, start, size), of_mount),
        call_ensures(Partition::get_offsets, (device, rdev, start, size), of_device),
    ensures
        of_mount is Ok <==> of_device is Ok,
        of_mount matches Ok(offsets) ==> of_device->Ok_0 == offsets,
        of_mount matches Err(error) ==> of_device->Err_0@ == error@,
{
}

/// The directory is removed once the device is unmounted. A failure is tried again while attempts
/// are left; the last one is told with the device, and the directory stays.
pub proof fn law_unmounting_comes_before_removing(
    mount: Mount,
    device: &str,
    retry: Retry,
    attempt: Result<(), String>,
    step: UnmountStep,
)
    requires
        call_ensures(Mount::device, (&mount,), device),
        call_ensures(Mount::unmounted, (&mount, retry, attempt), step),
    ensures
        attempt is Ok <==> step == UnmountStep::RemoveDir,
        attempt matches Err(cause) ==> if retry.left > 0 {
            step matches UnmountStep::Again(next) && next.left == retry.left - 1
        } else {
            step matches UnmountStep::Report(text) && text@ == "umounting "@ + device@ + ": "@
                + cause@
        },
{
}

/// A directory that could not be removed is told.
pub proof fn law_directories_that_stay_are_told(
    mount: Mount,
    mountpoint: &str,
    attempt: Result<(), String>,
    report: Option<String>,
)
    requires
        call_ensures(Mount::mountpoint, (&mount,), mountpoint),
        call_ensures(Mount::dir_removed, (&mount, attempt), report),
    ensures
        report is Some <==> attempt is Err,
        attempt matches Err(cause) ==> report->Some_0@ == "removing "@ + mountpoint@ + ": "@
            + cause@,
{
}

} // verus!
