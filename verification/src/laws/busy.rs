//! What callers can rely on of the check whether a disk is in use.

use crate::busy::{
    check_from, first_busy_step, first_unreadable, is_in_use, law_check_finds_what_is_in_use,
    lemma_walk_takes_active, partitions_in_use, BusyCheck, BusyScan, BusyStep,
};
use crate::disk::Disk;
use crate::error::{Error, ErrorView};
use crate::partition::{partition_views, Partition, PartitionView};
use vstd::prelude::*;

verus! {

/// A disk whose partition table was reread is free; else its partitions are asked for, and why
/// rereading failed is kept.
pub proof fn law_a_reread_table_means_free(disk: Disk, reread: Result<(), Error>, step: BusyStep)
    requires
        call_ensures(Disk::get_busy_partitions, (disk, reread), step),
    ensures
        match reread {
            Ok(_) => step matches BusyStep::Done(Ok(busy)) && busy@.len() == 0,
            Err(error) => step matches BusyStep::ListPartitions(check) && check.disk.path@
                == disk.path@ && check.reread_error@ == error@,
        },
{
    if let BusyStep::Done(Ok(busy)) = step {
        assert(partition_views(busy@).len() == busy@.len());
    }
}

/// How far a list of partitions that are mounted or swapped to reaches.
proof fn lemma_first_idle(views: Seq<PartitionView>) -> (n: int)
    ensures
        0 <= n <= views.len(),
        forall|i: int|
            0 <= i < n ==> (#[trigger] views[i]).mountpoint is Some || views[i].swap,
        n < views.len() ==> views[n].mountpoint is None && !views[n].swap,
    decreases views.len(),
{
    if views.len() == 0 {
        0
    } else {
        let front = views.drop_last();
        let n = lemma_first_idle(front);
        assert(forall|i: int| 0 <= i < front.len() ==> #[trigger] front[i] == views[i]);
        assert forall|i: int| 0 <= i < n implies (#[trigger] views[i]).mountpoint is Some
            || views[i].swap by {
            assert(front[i].mountpoint is Some || front[i].swap);
        }
        assert(views.last() == views[views.len() - 1]);
        if n == front.len() && (views.last().mountpoint is Some || views.last().swap) {
            n + 1
        } else {
            n
        }
    }
}

/// Whether the path of a disk is one of the device mapper.
pub open spec fn is_mapped(path: Seq<char>) -> bool {
    "/dev/mapper/"@.is_prefix_of(path) || "/dev/dm-"@.is_prefix_of(path)
}

/// Of the partitions `pending`, those that are mounted or swapped to are taken as they come, and
/// the holders of the first other one are asked for; where there is no other one, the check is over
/// with all that are in use, or, if none is, with why rereading failed, unless the disk is one of
/// the device mapper.
pub open spec fn goes_on_with(
    path: Seq<char>,
    reread_error: ErrorView,
    pending: Seq<PartitionView>,
    known: Seq<PartitionView>,
    step: BusyStep,
) -> bool {
    match step {
        BusyStep::ListPartitions(_) => false,
        BusyStep::ReadHolders(scan) => {
            let n = pending.len() - 1 - scan.rest@.len();
            &&& 0 <= n
            &&& scan.check.disk.path@ == path
            &&& scan.check.reread_error@ == reread_error
            &&& scan.current@ == pending[n]
            &&& scan.current.mountpoint is None
            &&& !scan.current.swap
            &&& partition_views(scan.rest@) == pending.skip(n + 1)
            &&& partition_views(scan.busy@) == known + pending.take(n)
            &&& forall|i: int|
                0 <= i < n ==> (#[trigger] pending[i]).mountpoint is Some || pending[i].swap
        },
        BusyStep::Done(Ok(busy)) => {
            &&& partition_views(busy@) == known + pending
            &&& busy@.len() > 0 || is_mapped(path)
            &&& forall|i: int|
                0 <= i < pending.len() ==> (#[trigger] pending[i]).mountpoint is Some
                    || pending[i].swap
        },
        BusyStep::Done(Err(error)) => {
            &&& known.len() == 0
            &&& pending.len() == 0
            &&& !is_mapped(path)
            &&& error@ == reread_error
        },
    }
}

/// When the partitions of a disk are known, the mounted ones and those swapped to are in use,
/// whatever their file system types, labels and paths are.
pub proof fn law_mounted_partitions_are_in_use(
    check: BusyCheck,
    found: Vec<Partition>,
    step: BusyStep,
)
    requires
        call_ensures(BusyCheck::partitions_listed, (check, Ok(found)), step),
    ensures
        goes_on_with(
            check.disk.path@,
            check.reread_error@,
            partition_views(found@),
            Seq::empty(),
            step,
        ),
{
    let views = partition_views(found@);
    let n = lemma_first_idle(views);
    lemma_walk_takes_active(check@, views, Seq::empty(), n);
    if let BusyStep::ReadHolders(scan) = step {
        assert(partition_views(scan.rest@).len() == scan.rest@.len());
        assert(scan.current@.mountpoint is Some <==> scan.current.mountpoint is Some);
    }
    if let BusyStep::Done(Ok(busy)) = step {
        assert(partition_views(busy@).len() == busy@.len());
    }
}

/// When the holders of a partition are known, it is in use exactly if there are any, and the check
/// goes on with the partitions behind it.
pub proof fn law_held_partitions_are_in_use(scan: BusyScan, holders: Vec<String>, step: BusyStep)
    requires
        call_ensures(BusyScan::holders_read, (scan, Ok(holders)), step),
    ensures
        goes_on_with(
            scan.check.disk.path@,
            scan.check.reread_error@,
            partition_views(scan.rest@),
            if holders@.len() > 0 {
                partition_views(scan.busy@).push(scan.current@)
            } else {
                partition_views(scan.busy@)
            },
            step,
        ),
{
    let views = partition_views(scan.rest@);
    let known = if holders@.len() > 0 {
        partition_views(scan.busy@).push(scan.current@)
    } else {
        partition_views(scan.busy@)
    };
    let n = lemma_first_idle(views);
    lemma_walk_takes_active(scan.check@, views, known, n);
    if let BusyStep::ReadHolders(next) = step {
        assert(partition_views(next.rest@).len() == next.rest@.len());
        assert(next.current@.mountpoint is Some <==> next.current.mountpoint is Some);
    }
    if let BusyStep::Done(Ok(busy)) = step {
        assert(partition_views(busy@).len() == busy@.len());
    }
}

/// A failure to list the partitions, or to read holders, ends the check.
pub proof fn law_failures_end_the_check(
    check: BusyCheck,
    scan: BusyScan,
    error: Error,
    listed: BusyStep,
    read: BusyStep,
)
    requires
        call_ensures(BusyCheck::partitions_listed, (check, Err(error)), listed),
        call_ensures(BusyScan::holders_read, (scan, Err(error)), read),
    ensures
        listed matches BusyStep::Done(Err(e)) && e@ == error@,
        read matches BusyStep::Done(Err(e)) && e@ == error@,
{
}

/// Every partition that is mounted, swapped to or held is among those that a check comes to, and no
/// other one is, whatever its file system type, label and path are.
pub proof fn law_check_comes_to_what_is_in_use(
    disk: Seq<char>,
    error: ErrorView,
    partitions: Seq<PartitionView>,
    holders: spec_fn(PartitionView) -> Result<Seq<Seq<char>>, ErrorView>,
    p: PartitionView,
)
    requires
        forall|i: int|
            0 <= i < partitions.len() && (#[trigger] partitions[i]).mountpoint is None
                && !partitions[i].swap ==> holders(partitions[i]) is Ok,
        partitions.contains(p),
    ensures
        match check_from(first_busy_step(disk, Err(error)), Ok(partitions), holders) {
            Ok(busy) => busy.contains(p) <==> (p.mountpoint is Some || p.swap || (holders(
                p,
            ) matches Ok(found) && found.len() > 0)),
            Err(e) => e == error && p.mountpoint is None && !p.swap && holders(p)->Ok_0.len()
                == 0,
        },
{
    law_check_finds_what_is_in_use(disk, Err(error), Ok(partitions), holders);
    lemma_all_readable(partitions, holders);
    let busy = partitions_in_use(partitions, holders);
    let i = choose|i: int| 0 <= i < partitions.len() && partitions[i] == p;
    assert(partitions[i] == p);
    let keep = |q: PartitionView| is_in_use(q, holders);
    if keep(p) {
        partitions.lemma_filter_contains(keep, i);
        assert(busy.contains(p));
        let j = choose|j: int| 0 <= j < busy.len() && busy[j] == p;
        assert(busy.len() > 0);
    }
    if busy.contains(p) {
        let j = choose|j: int| 0 <= j < busy.len() && busy[j] == p;
        partitions.lemma_filter_pred(keep, j);
        assert(keep(p));
    }
}

/// Where the holders of every partition that is neither mounted nor swapped to can be read, none is
/// found unreadable.
proof fn lemma_all_readable(
    partitions: Seq<PartitionView>,
    holders: spec_fn(PartitionView) -> Result<Seq<Seq<char>>, ErrorView>,
)
    requires
        forall|i: int|
            0 <= i < partitions.len() && (#[trigger] partitions[i]).mountpoint is None
                && !partitions[i].swap ==> holders(partitions[i]) is Ok,
    ensures
        first_unreadable(partitions, holders) is None,
    decreases partitions.len(),
{
    if partitions.len() > 0 {
        let rest = partitions.drop_first();
        assert(forall|i: int| 0 <= i < rest.len() ==> #[trigger] rest[i] == partitions[i + 1]);
        lemma_all_readable(rest, holders);
        assert(partitions[0] == partitions.first());
    }
}

} // verus!
