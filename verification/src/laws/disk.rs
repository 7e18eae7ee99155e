//! What callers can rely on of disks and of what is mounted.

use crate::disk::{
    carries_label, is_only_carrier, labelled, lemma_none_labelled, lemma_only_carrier, Disk,
    MountRequest, PartTableKind,
};
use crate::error::{Error, ErrorKind};
use crate::partition::{partition_views, Partition};
use vstd::prelude::*;

verus! {

/// A disk has the path that it was made with.
pub proof fn law_disk_keeps_its_path(path: &str, disk: Disk)
    requires
        call_ensures(Disk::new, (path,), disk),
    ensures
        disk.path@ == path@,
{
}

/// Device nodes are those of the device mapper exactly for paths that begin with `/dev/mapper/` or
/// `/dev/dm-`.
pub proof fn law_mapper_paths(disk: Disk, is_dm: bool, kind: PartTableKind)
    requires
        call_ensures(Disk::is_dm_device, (&disk,), is_dm),
        call_ensures(Disk::get_partition_table, (&disk,), kind),
    ensures
        is_dm <==> ("/dev/mapper/"@.is_prefix_of(disk.path@) || "/dev/dm-"@.is_prefix_of(
            disk.path@,
        )),
        kind == PartTableKind::Kpartx <==> is_dm,
{
}

/// Whether a partition has this label; where it has none, whether the label is empty.
pub open spec fn has_label(partition: Partition, label: Seq<char>) -> bool {
    ||| partition.label matches Some(own) && own@ == label
    ||| partition.label is None && label.len() == 0
}

/// Where one partition has the label and no other one does, it is the one to mount, with its own
/// file system type, and it is an error if that is not known.
pub proof fn law_the_one_with_the_label_is_mounted(
    disk: Disk,
    partitions: &Vec<Partition>,
    label: &str,
    result: Result<MountRequest, Error>,
    i: int,
)
    requires
        call_ensures(Disk::mount_partition_by_label, (&disk, partitions, label), result),
        0 <= i < partitions@.len(),
        has_label(partitions@[i], label@),
        forall|j: int|
            0 <= j < partitions@.len() && j != i ==> !has_label(
                #[trigger] partitions@[j],
                label@,
            ),
    ensures
        match partitions@[i].fstype {
            Some(fstype) => {
                &&& result matches Ok(request)
                &&& request.device@ == partitions@[i].path@
                &&& request.fstype@ == fstype@
            },
            None => {
                &&& result matches Err(error)
                &&& error.kind == ErrorKind::NoFilesystem
                &&& error.text@ == "couldn't get filesystem type of "@ + label@ + " device for "@
                    + disk.path@
            },
        },
{
    let views = partition_views(partitions@);
    assert(views[i] == partitions@[i]@);
    assert forall|j: int| 0 <= j < views.len() && j != i implies !carries_label(
        #[trigger] views[j],
        label@,
    ) by {
        assert(views[j] == partitions@[j]@);
        assert(!has_label(partitions@[j], label@));
    }
    assert(is_only_carrier(views, label@, i));
    lemma_only_carrier(views, label@, i);
}

/// Where no partition has the label, nothing is mounted, and the error says whether there are
/// partitions at all.
pub proof fn law_nothing_is_mounted_without_the_label(
    disk: Disk,
    partitions: &Vec<Partition>,
    label: &str,
    result: Result<MountRequest, Error>,
)
    requires
        call_ensures(Disk::mount_partition_by_label, (&disk, partitions, label), result),
        forall|j: int|
            0 <= j < partitions@.len() ==> !has_label(#[trigger] partitions@[j], label@),
    ensures
        result matches Err(error) && if partitions@.len() == 0 {
            &&& error.kind == ErrorKind::NoPartitions
            &&& error.text@ == "couldn't find any partitions on "@ + disk.path@
        } else {
            &&& error.kind == ErrorKind::NoSuchLabel
            &&& error.text@ == "couldn't find "@ + label@ + " device for "@ + disk.path@
        },
{
    let views = partition_views(partitions@);
    assert forall|j: int| 0 <= j < views.len() implies !carries_label(
        #[trigger] views[j],
        label@,
    ) by {
        assert(views[j] == partitions@[j]@);
        assert(!has_label(partitions@[j], label@));
    }
    lemma_none_labelled(views, label@);
}

/// Where two partitions have the label, nothing is mounted.
pub proof fn law_nothing_is_mounted_with_two_choices(
    disk: Disk,
    partitions: &Vec<Partition>,
    label: &str,
    result: Result<MountRequest, Error>,
    i: int,
    j: int,
)
    requires
        call_ensures(Disk::mount_partition_by_label, (&disk, partitions, label), result),
        0 <= i < j < partitions@.len(),
        has_label(partitions@[i], label@),
        has_label(partitions@[j], label@),
    ensures
        result matches Err(error) && {
            &&& error.kind == ErrorKind::AmbiguousLabel
            &&& error.text@ == "found multiple devices on "@ + disk.path@ + " with label \""@
                + label@ + "\""@
        },
{
    let views = partition_views(partitions@);
    assert(views[i] == partitions@[i]@ && views[j] == partitions@[j]@);
    let front = views.take(j);
    let back = views.skip(j);
    let pred = |p| carries_label(p, label@);
    assert(front[i] == views[i] && back[0] == views[j]);
    lemma_none_labelled(front, label@);
    lemma_none_labelled(back, label@);
    assert(!carries_label(front[i], label@) ==> false);
    assert(!carries_label(back[0], label@) ==> false);
    assert(front + back == views);
    Seq::filter_distributes_over_add(front, back, pred);
    assert(labelled(front, label@).len() > 0 && labelled(back, label@).len() > 0);
}

} // verus!
