//! A disk, by its device path.

use crate::error::{plain_error, Error, ErrorKind, ErrorView};
use crate::partition::{partition_views, Partition, PartitionView};
use crate::text::{begins_with, same_text, starts_with};
use vstd::prelude::*;

verus! {

/// A disk, named by the path of its device node.
#[derive(Debug)]
pub struct Disk {
    pub path: String,
}

/// Who keeps the device nodes of a disk's partitions.
#[derive(Clone, Copy, Debug, PartialEq, Eq, Structural)]
pub enum PartTableKind {
    /// The kernel, as for every disk that it can partition.
    Kernel,
    /// The device mapper, which `kpartx` has to set up.
    Kpartx,
}

/// What to mount: a device and the type of its file system.
#[derive(Debug)]
pub struct MountRequest {
    pub device: String,
    pub fstype: String,
}

/// Whether `path` is that of a device of the device mapper.
pub open spec fn is_mapper_path(path: Seq<char>) -> bool {
    begins_with(path, "/dev/mapper/"@) || begins_with(path, "/dev/dm-"@)
}

/// Whether a partition carries `label`. One without a label carries the empty one.
pub open spec fn carries_label(partition: PartitionView, label: Seq<char>) -> bool {
    match partition.label {
        Some(own) => own == label,
        None => label.len() == 0,
    }
}

/// The partitions that carry `label`, in their order.
pub open spec fn labelled(
    partitions: Seq<PartitionView>,
    label: Seq<char>,
) -> Seq<PartitionView> {
    partitions.filter(|p: PartitionView| carries_label(p, label))
}

/// The device and file system type to mount for `label`: those of the one partition that carries
/// it.
pub open spec fn mount_outcome(
    disk: Seq<char>,
    partitions: Seq<PartitionView>,
    label: Seq<char>,
) -> Result<(Seq<char>, Seq<char>), ErrorView> {
    let matching = labelled(partitions, label);
    if partitions.len() == 0 {
        Err(plain_error(ErrorKind::NoPartitions, "couldn't find any partitions on "@ + disk))
    } else if matching.len() == 0 {
        Err(
            plain_error(
                ErrorKind::NoSuchLabel,
                "couldn't find "@ + label + " device for "@ + disk,
            ),
        )
    } else if matching.len() > 1 {
        Err(
            plain_error(
                ErrorKind::AmbiguousLabel,
                "found multiple devices on "@ + disk + " with label \""@ + label + "\""@,
            ),
        )
    } else {
        match matching[0].fstype {
            Some(fstype) => Ok((matching[0].path, fstype)),
            None => Err(
                plain_error(
                    ErrorKind::NoFilesystem,
                    "couldn't get filesystem type of "@ + label + " device for "@ + disk,
                ),
            ),
        }
    }
}

/// The value of what [`Disk::mount_partition_by_label`] returns.
pub open spec fn request_outcome(
    result: Result<MountRequest, Error>,
) -> Result<(Seq<char>, Seq<char>), ErrorView> {
    match result {
        Ok(request) => Ok((request.device@, request.fstype@)),
        Err(error) => Err(error@),
    }
}

impl Disk {
    /// The disk at `path`.
    pub fn new(path: &str) -> (disk: Self)
        ensures
            disk.path@ == path@,
    {
        Disk { path: path.to_owned() }
    }

    /// Whether the disk is a device of the device mapper, which the kernel cannot partition.
    pub fn is_dm_device(&self) -> (yes: bool)
        ensures
            yes == is_mapper_path(self.path@),
    {
        starts_with(self.path.as_str(), "/dev/mapper/") || starts_with(
            self.path.as_str(),
            "/dev/dm-",
        )
    }

    /// Who keeps the device nodes of the disk's partitions.
    pub fn get_partition_table(&self) -> (kind: PartTableKind)
        ensures
            kind == (if is_mapper_path(self.path@) {
                PartTableKind::Kpartx
            } else {
                PartTableKind::Kernel
            }),
    {
        if self.is_dm_device() {
            PartTableKind::Kpartx
        } else {
            PartTableKind::Kernel
        }
    }

    /// What to mount for `label`, given the partitions of the disk.
    pub fn mount_partition_by_label(
        &self,
        partitions: &Vec<Partition>,
        label: &str,
    ) -> (result: Result<MountRequest, Error>)
        ensures
            request_outcome(result) == mount_outcome(
                self.path@,
                partition_views(partitions@),
                label@,
            ),
    {
        if partitions.len() == 0 {
            let mut text: String = "couldn't find any partitions on ".to_owned();
            text.append(self.path.as_str());
            return Err(Error::new(ErrorKind::NoPartitions, text));
        }
        let ghost views = partition_views(partitions@);
        let mut matches: usize = 0;
        let mut first: usize = 0;
        let mut i: usize = 0;
        proof {
            reveal(Seq::filter);
            assert(labelled(views.take(0), label@).len() == 0);
        }
        while i < partitions.len()
            invariant
                i <= partitions@.len(),
                views == partition_views(partitions@),
                matches == labelled(views.take(i as int), label@).len(),
                matches <= i,
                matches > 0 ==> first < partitions@.len() && labelled(
                    views.take(i as int),
                    label@,
                )[0] == views[first as int],
            decreases partitions@.len() - i,
        {
            proof {
                reveal(Seq::filter);
                assert(views.take(i + 1).drop_last() == views.take(i as int));
                assert(views.take(i + 1).last() == partitions@[i as int]@);
            }
            let carries: bool = match &partitions[i].label {
                Some(own) => same_text(own.as_str(), label),
                None => label.is_empty(),
            };
            assert(carries == carries_label(views[i as int], label@));
            if carries {
                if matches == 0 {
                    first = i;
                }
                matches = matches + 1;
            }
            i = i + 1;
        }
        assert(views.take(i as int) == views);
        if matches == 0 {
            let mut text: String = "couldn't find ".to_owned();
            text.append(label);
            text.append(" device for ");
            text.append(self.path.as_str());
            return Err(Error::new(ErrorKind::NoSuchLabel, text));
        }
        if matches > 1 {
            let mut text: String = "found multiple devices on ".to_owned();
            text.append(self.path.as_str());
            text.append(" with label \"");
            text.append(label);
            text.append("\"");
            return Err(Error::new(ErrorKind::AmbiguousLabel, text));
        }
        let part: &Partition = &partitions[first];
        match &part.fstype {
            Some(fstype) => Ok(
                MountRequest { device: part.path.clone(), fstype: fstype.clone() },
            ),
            None => {
                let mut text: String = "couldn't get filesystem type of ".to_owned();
                text.append(label);
                text.append(" device for ");
                text.append(self.path.as_str());
                Err(Error::new(ErrorKind::NoFilesystem, text))
            },
        }
    }
}

/// No partition carries a label exactly where none is found to.
pub proof fn lemma_none_labelled(partitions: Seq<PartitionView>, label: Seq<char>)
    ensures
        labelled(partitions, label).len() == 0 <==> forall|i: int|
            0 <= i < partitions.len() ==> !carries_label(#[trigger] partitions[i], label),
    decreases partitions.len(),
{
    reveal(Seq::filter);
    if partitions.len() > 0 {
        let rest = partitions.drop_last();
        lemma_none_labelled(rest, label);
        assert(forall|i: int| 0 <= i < rest.len() ==> #[trigger] rest[i] == partitions[i]);
        assert(partitions.last() == partitions[partitions.len() - 1]);
        if labelled(rest, label).len() == 0 && !carries_label(partitions.last(), label) {
            assert forall|i: int| 0 <= i < partitions.len() implies !carries_label(
                #[trigger] partitions[i],
                label,
            ) by {
                if i < rest.len() {
                    assert(!carries_label(rest[i], label));
                }
            }
        }
    }
}

/// Whether the partition with the index `i` carries the label, and no other one does.
pub open spec fn is_only_carrier(
    partitions: Seq<PartitionView>,
    label: Seq<char>,
    i: int,
) -> bool {
    &&& 0 <= i < partitions.len()
    &&& carries_label(partitions[i], label)
    &&& forall|j: int|
        0 <= j < partitions.len() && j != i ==> !carries_label(#[trigger] partitions[j], label)
}

/// The only carrier of a label is the one that is found.
pub proof fn lemma_only_carrier(partitions: Seq<PartitionView>, label: Seq<char>, i: int)
    requires
        is_only_carrier(partitions, label, i),
    ensures
        labelled(partitions, label) == seq![partitions[i]],
    decreases partitions.len(),
{
    reveal(Seq::filter);
    let rest = partitions.drop_last();
    assert(forall|j: int| 0 <= j < rest.len() ==> #[trigger] rest[j] == partitions[j]);
    if i == rest.len() {
        lemma_none_labelled(rest, label);
        assert(labelled(partitions, label) =~= seq![partitions[i]]);
    } else {
        assert(!carries_label(partitions[partitions.len() - 1], label));
        lemma_only_carrier(rest, label, i);
    }
}

/// Where one carrier of a label is found, there is only one.
proof fn lemma_one_labelled(partitions: Seq<PartitionView>, label: Seq<char>) -> (i: int)
    requires
        labelled(partitions, label).len() == 1,
    ensures
        is_only_carrier(partitions, label, i),
    decreases partitions.len(),
{
    reveal(Seq::filter);
    let rest = partitions.drop_last();
    assert(forall|j: int| 0 <= j < rest.len() ==> #[trigger] rest[j] == partitions[j]);
    if carries_label(partitions.last(), label) {
        lemma_none_labelled(rest, label);
        assert forall|j: int|
            0 <= j < partitions.len() && j != partitions.len() - 1 implies !carries_label(
            #[trigger] partitions[j],
            label,
        ) by {
            assert(!carries_label(rest[j], label));
        }
        partitions.len() - 1
    } else {
        let i = lemma_one_labelled(rest, label);
        assert forall|j: int| 0 <= j < partitions.len() && j != i implies !carries_label(
            #[trigger] partitions[j],
            label,
        ) by {
            if j < rest.len() {
                assert(!carries_label(rest[j], label));
            }
        }
        i
    }
}

/// A partition is mounted exactly where it alone carries the label and has a file system type.
pub proof fn law_only_carrier_is_mounted(
    disk: Seq<char>,
    partitions: Seq<PartitionView>,
    label: Seq<char>,
    device: Seq<char>,
    fstype: Seq<char>,
)
    ensures
        mount_outcome(disk, partitions, label) == Ok::<(Seq<char>, Seq<char>), ErrorView>(
            (device, fstype),
        ) <==> exists|i: int| #[trigger]
            is_only_carrier(partitions, label, i) && partitions[i].path == device
                && partitions[i].fstype == Some(fstype),
{
    let mounted = Ok::<(Seq<char>, Seq<char>), ErrorView>((device, fstype));
    if mount_outcome(disk, partitions, label) == mounted {
        let i = lemma_one_labelled(partitions, label);
        lemma_only_carrier(partitions, label, i);
        assert(is_only_carrier(partitions, label, i));
    }
    if exists|i: int| #[trigger]
        is_only_carrier(partitions, label, i) && partitions[i].path == device
            && partitions[i].fstype == Some(fstype) {
        let i = choose|i: int| #[trigger]
            is_only_carrier(partitions, label, i) && partitions[i].path == device
                && partitions[i].fstype == Some(fstype);
        lemma_only_carrier(partitions, label, i);
    }
}

} // verus!
