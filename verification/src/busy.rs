//! Finding out what keeps a disk from being used exclusively.

use crate::disk::{is_mapper_path, Disk};
use crate::error::{texts_outcome, Error, ErrorView};
use crate::partition::{partition_views, Partition, PartitionView};
use crate::text::lemma_filter_first;
use std::collections::VecDeque;
use vstd::prelude::*;

verus! {

/// The check of a disk whose partition table could not be reread.
#[derive(Debug)]
pub struct BusyCheck {
    pub disk: Disk,
    pub reread_error: Error,
}

/// The check of a disk whose partitions are being walked.
#[derive(Debug)]
pub struct BusyScan {
    pub check: BusyCheck,
    /// The partition whose holders are asked for.
    pub current: Partition,
    /// The partitions behind it.
    pub rest: VecDeque<Partition>,
    /// The partitions that were found in use.
    pub busy: Vec<Partition>,
}

/// What a check needs next, or what it came to.
#[derive(Debug)]
pub enum BusyStep {
    /// The partitions of the disk; [`BusyCheck::partitions_listed`] goes on with them.
    ListPartitions(BusyCheck),
    /// The holders of the current partition; [`BusyScan::holders_read`] goes on with them.
    ReadHolders(BusyScan),
    /// Nothing: the check is over.
    Done(Result<Vec<Partition>, Error>),
}

/// The mathematical value of a [`BusyCheck`].
pub struct BusyCheckView {
    pub disk: Seq<char>,
    pub reread_error: ErrorView,
}

/// The mathematical value of a [`BusyScan`].
#[verifier::ext_equal]
pub struct BusyScanView {
    pub check: BusyCheckView,
    pub current: PartitionView,
    pub rest: Seq<PartitionView>,
    pub busy: Seq<PartitionView>,
}

/// The mathematical value of a [`BusyStep`].
pub enum BusyStepView {
    ListPartitions(BusyCheckView),
    ReadHolders(BusyScanView),
    Done(Result<Seq<PartitionView>, ErrorView>),
}

impl View for BusyCheck {
    type V = BusyCheckView;

    open spec fn view(&self) -> BusyCheckView {
        BusyCheckView { disk: self.disk.path@, reread_error: self.reread_error@ }
    }
}

impl View for BusyScan {
    type V = BusyScanView;

    open spec fn view(&self) -> BusyScanView {
        BusyScanView {
            check: self.check@,
            current: self.current@,
            rest: partition_views(self.rest@),
            busy: partition_views(self.busy@),
        }
    }
}

/// The value of a list of partitions or an error.
pub open spec fn partitions_outcome(
    result: Result<Vec<Partition>, Error>,
) -> Result<Seq<PartitionView>, ErrorView> {
    match result {
        Ok(partitions) => Ok(partition_views(partitions@)),
        Err(error) => Err(error@),
    }
}

impl View for BusyStep {
    type V = BusyStepView;

    open spec fn view(&self) -> BusyStepView {
        match *self {
            BusyStep::ListPartitions(check) => BusyStepView::ListPartitions(check@),
            BusyStep::ReadHolders(scan) => BusyStepView::ReadHolders(scan@),
            BusyStep::Done(result) => BusyStepView::Done(partitions_outcome(result)),
        }
    }
}

/// Whether a partition is mounted or swapped to.
pub open spec fn is_active(partition: PartitionView) -> bool {
    partition.mountpoint is Some || partition.swap
}

impl BusyCheckView {
    /// What the check comes to when the partitions in use are known. Where none is, rereading a
    /// disk that the kernel can partition should not have failed.
    pub open spec fn verdict(
        self,
        busy: Seq<PartitionView>,
    ) -> Result<Seq<PartitionView>, ErrorView> {
        if busy.len() > 0 || is_mapper_path(self.disk) {
            Ok(busy)
        } else {
            Err(self.reread_error)
        }
    }

    /// What the check needs when the partitions `pending` are still to be looked at: the holders
    /// of the first of them that is neither mounted nor swapped to.
    pub open spec fn walk(
        self,
        pending: Seq<PartitionView>,
        busy: Seq<PartitionView>,
    ) -> BusyStepView
        decreases pending.len(),
    {
        if pending.len() == 0 {
            BusyStepView::Done(self.verdict(busy))
        } else if is_active(pending[0]) {
            self.walk(pending.drop_first(), busy.push(pending[0]))
        } else {
            BusyStepView::ReadHolders(
                BusyScanView {
                    check: self,
                    current: pending[0],
                    rest: pending.drop_first(),
                    busy,
                },
            )
        }
    }

    /// How the check goes on when the partitions of the disk are known.
    pub open spec fn step_after_listing(
        self,
        partitions: Result<Seq<PartitionView>, ErrorView>,
    ) -> BusyStepView {
        match partitions {
            Ok(found) => self.walk(found, Seq::empty()),
            Err(error) => BusyStepView::Done(Err(error)),
        }
    }
}

impl BusyScanView {
    /// How the check goes on when the holders of the current partition are known.
    pub open spec fn step_after_holders(
        self,
        holders: Result<Seq<Seq<char>>, ErrorView>,
    ) -> BusyStepView {
        match holders {
            Ok(found) => self.check.walk(
                self.rest,
                if found.len() > 0 {
                    self.busy.push(self.current)
                } else {
                    self.busy
                },
            ),
            Err(error) => BusyStepView::Done(Err(error)),
        }
    }
}

/// How a check begins, given whether the partition table could be reread, which is the most
/// complete check but works on partitionable devices only.
pub open spec fn first_busy_step(disk: Seq<char>, reread: Result<(), ErrorView>) -> BusyStepView {
    match reread {
        Ok(_) => BusyStepView::Done(Ok(Seq::empty())),
        Err(error) => BusyStepView::ListPartitions(BusyCheckView { disk, reread_error: error }),
    }
}

/// The value of whether a partition table was reread.
pub open spec fn reread_outcome(reread: Result<(), Error>) -> Result<(), ErrorView> {
    match reread {
        Ok(_) => Ok(()),
        Err(error) => Err(error@),
    }
}

impl BusyCheck {
    /// Goes on with the partitions `unseen`, where `known` have been found in use.
    fn scan(self, unseen: VecDeque<Partition>, known: Vec<Partition>) -> (step: BusyStep)
        ensures
            step@ == self@.walk(partition_views(unseen@), partition_views(known@)),
    {
        let ghost all = partition_views(unseen@);
        let ghost found = partition_views(known@);
        let mut pending: VecDeque<Partition> = unseen;
        let mut busy: Vec<Partition> = known;
        loop
            invariant
                all == partition_views(unseen@),
                found == partition_views(known@),
                self@.walk(partition_views(pending@), partition_views(busy@)) == self@.walk(
                    all,
                    found,
                ),
            decreases pending@.len(),
        {
            let ghost before = pending@;
            let ghost earlier = busy@;
            match pending.pop_front() {
                None => {
                    if busy.len() > 0 || self.disk.is_dm_device() {
                        return BusyStep::Done(Ok(busy));
                    }
                    return BusyStep::Done(Err(self.reread_error));
                },
                Some(partition) => {
                    assert(partition_views(pending@) == partition_views(before).drop_first());
                    if partition.mountpoint.is_some() || partition.swap {
                        busy.push(partition);
                        assert(partition_views(busy@) == partition_views(earlier).push(
                            partition@,
                        ));
                    } else {
                        return BusyStep::ReadHolders(
                            BusyScan { check: self, current: partition, rest: pending, busy },
                        );
                    }
                },
            }
        }
    }

    /// Goes on with the check when the partitions of the disk are known.
    pub fn partitions_listed(self, partitions: Result<Vec<Partition>, Error>) -> (step: BusyStep)
        ensures
            step@ == self@.step_after_listing(partitions_outcome(partitions)),
    {
        match partitions {
            Err(error) => BusyStep::Done(Err(error)),
            Ok(found) => {
                let ghost all = found@;
                let mut pending: VecDeque<Partition> = VecDeque::new();
                for partition in it: found
                    invariant
                        it.seq() == all,
                        pending@ == all.take(it.index()),
                {
                    pending.push_back(partition);
                }
                assert(pending@ == all);
                let busy: Vec<Partition> = Vec::new();
                assert(partition_views(busy@) == Seq::<PartitionView>::empty());
                self.scan(pending, busy)
            },
        }
    }
}

impl BusyScan {
    /// Goes on with the check when the holders of the current partition are known.
    pub fn holders_read(self, holders: Result<Vec<String>, Error>) -> (step: BusyStep)
        ensures
            step@ == self@.step_after_holders(texts_outcome(holders)),
    {
        match holders {
            Err(error) => BusyStep::Done(Err(error)),
            Ok(found) => {
                let mut busy: Vec<Partition> = self.busy;
                let ghost before = busy@;
                if found.len() > 0 {
                    busy.push(self.current);
                    assert(partition_views(busy@) == partition_views(before).push(
                        self.current@,
                    ));
                }
                self.check.scan(self.rest, busy)
            },
        }
    }
}

impl Disk {
    /// Begins the check whether the disk can be used exclusively, given whether its partition
    /// table could be reread. The check comes to an empty list if it can, and else to the
    /// partitions that are in the way.
    pub fn get_busy_partitions(self, reread: Result<(), Error>) -> (step: BusyStep)
        ensures
            step@ == first_busy_step(self.path@, reread_outcome(reread)),
    {
        match reread {
            Ok(_) => {
                let none: Vec<Partition> = Vec::new();
                assert(partition_views(none@) == Seq::<PartitionView>::empty());
                BusyStep::Done(Ok(none))
            },
            Err(error) => BusyStep::ListPartitions(
                BusyCheck { disk: self, reread_error: error },
            ),
        }
    }
}

/// Walking takes the partitions that are mounted or swapped to, up to the first that is neither.
pub proof fn lemma_walk_takes_active(
    check: BusyCheckView,
    pending: Seq<PartitionView>,
    busy: Seq<PartitionView>,
    n: int,
)
    requires
        0 <= n <= pending.len(),
        forall|i: int| 0 <= i < n ==> is_active(#[trigger] pending[i]),
        n < pending.len() ==> !is_active(pending[n]),
    ensures
        check.walk(pending, busy) == if n < pending.len() {
            BusyStepView::ReadHolders(
                BusyScanView {
                    check,
                    current: pending[n],
                    rest: pending.skip(n + 1),
                    busy: busy + pending.take(n),
                },
            )
        } else {
            BusyStepView::Done(check.verdict(busy + pending))
        },
    decreases pending.len(),
{
    if pending.len() == 0 {
        assert(busy + pending == busy);
    } else if n == 0 {
        assert(busy + pending.take(0) == busy);
        assert(pending.skip(1) == pending.drop_first());
    } else {
        let rest = pending.drop_first();
        let next = busy.push(pending[0]);
        assert(forall|i: int| 0 <= i < rest.len() ==> #[trigger] rest[i] == pending[i + 1]);
        lemma_walk_takes_active(check, rest, next, n - 1);
        assert(next + rest == busy + pending);
        assert(next + rest.take(n - 1) == busy + pending.take(n));
        if n < pending.len() {
            assert(rest.skip(n) == pending.skip(n + 1));
        }
    }
}

/// Walking on leaves fewer partitions to look at, or ends the check.
proof fn lemma_walk_advances(
    check: BusyCheckView,
    pending: Seq<PartitionView>,
    busy: Seq<PartitionView>,
)
    ensures
        match check.walk(pending, busy) {
            BusyStepView::ReadHolders(scan) => scan.rest.len() < pending.len() && scan.check
                == check,
            BusyStepView::Done(_) => true,
            BusyStepView::ListPartitions(_) => false,
        },
    decreases pending.len(),
{
    if pending.len() > 0 && is_active(pending[0]) {
        lemma_walk_advances(check, pending.drop_first(), busy.push(pending[0]));
    }
}

/// What a check comes to from `step` on, where `listing` is what listing the partitions gives and
/// `holders` what reading the holders of each partition gives.
pub open spec fn check_from(
    step: BusyStepView,
    listing: Result<Seq<PartitionView>, ErrorView>,
    holders: spec_fn(PartitionView) -> Result<Seq<Seq<char>>, ErrorView>,
) -> Result<Seq<PartitionView>, ErrorView>
    decreases
            match step {
                BusyStepView::ListPartitions(_) => 2int,
                BusyStepView::ReadHolders(_) => 1int,
                BusyStepView::Done(_) => 0int,
            },
            match step {
                BusyStepView::ReadHolders(scan) => scan.rest.len() as int,
                _ => 0int,
            },
    via check_from_ends
{
    match step {
        BusyStepView::ListPartitions(check) => check_from(
            check.step_after_listing(listing),
            listing,
            holders,
        ),
        BusyStepView::ReadHolders(scan) => check_from(
            scan.step_after_holders(holders(scan.current)),
            listing,
            holders,
        ),
        BusyStepView::Done(result) => result,
    }
}

/// A check comes to an end.
#[via_fn]
proof fn check_from_ends(
    step: BusyStepView,
    listing: Result<Seq<PartitionView>, ErrorView>,
    holders: spec_fn(PartitionView) -> Result<Seq<Seq<char>>, ErrorView>,
) {
    match step {
        BusyStepView::ListPartitions(check) => {
            if let Ok(found) = listing {
                lemma_walk_advances(check, found, Seq::empty());
            }
        },
        BusyStepView::ReadHolders(scan) => {
            lemma_walk_advances(scan.check, scan.rest, scan.busy);
            lemma_walk_advances(scan.check, scan.rest, scan.busy.push(scan.current));
        },
        BusyStepView::Done(_) => {},
    }
}

/// Whether a partition is mounted, swapped to or held.
pub open spec fn is_in_use(
    partition: PartitionView,
    holders: spec_fn(PartitionView) -> Result<Seq<Seq<char>>, ErrorView>,
) -> bool {
    ||| partition.mountpoint is Some
    ||| partition.swap
    ||| (holders(partition) matches Ok(found) && found.len() > 0)
}

/// The partitions in use, in their order.
pub open spec fn partitions_in_use(
    partitions: Seq<PartitionView>,
    holders: spec_fn(PartitionView) -> Result<Seq<Seq<char>>, ErrorView>,
) -> Seq<PartitionView> {
    partitions.filter(|p: PartitionView| is_in_use(p, holders))
}

/// Why the holders of a partition could not be read, for the first partition of which they had to
/// be and could not.
pub open spec fn first_unreadable(
    partitions: Seq<PartitionView>,
    holders: spec_fn(PartitionView) -> Result<Seq<Seq<char>>, ErrorView>,
) -> Option<ErrorView>
    decreases partitions.len(),
{
    if partitions.len() == 0 {
        None
    } else if partitions[0].mountpoint is None && !partitions[0].swap && holders(
        partitions[0],
    ) is Err {
        Some(holders(partitions[0])->Err_0)
    } else {
        first_unreadable(partitions.drop_first(), holders)
    }
}

/// What walking the partitions comes to.
proof fn lemma_walk_outcome(
    check: BusyCheckView,
    pending: Seq<PartitionView>,
    busy: Seq<PartitionView>,
    listing: Result<Seq<PartitionView>, ErrorView>,
    holders: spec_fn(PartitionView) -> Result<Seq<Seq<char>>, ErrorView>,
)
    ensures
        check_from(check.walk(pending, busy), listing, holders) == match first_unreadable(
            pending,
            holders,
        ) {
            Some(error) => Err(error),
            None => check.verdict(busy + partitions_in_use(pending, holders)),
        },
    decreases pending.len(),
{
    let pred = |p: PartitionView| is_in_use(p, holders);
    if pending.len() == 0 {
        reveal(Seq::filter);
        assert(busy + partitions_in_use(pending, holders) == busy);
    } else {
        let first = pending[0];
        let rest = pending.drop_first();
        lemma_filter_first(pending, pred);
        reveal_with_fuel(check_from, 2);
        if !is_active(first) {
            let scan = BusyScanView { check, current: first, rest, busy };
            assert(check.walk(pending, busy) == BusyStepView::ReadHolders(scan));
            assert(check_from(check.walk(pending, busy), listing, holders) == check_from(
                scan.step_after_holders(holders(first)),
                listing,
                holders,
            ));
        }
        if is_in_use(first, holders) {
            lemma_walk_outcome(check, rest, busy.push(first), listing, holders);
            assert(busy.push(first) + partitions_in_use(rest, holders) == busy
                + partitions_in_use(pending, holders));
        } else {
            lemma_walk_outcome(check, rest, busy, listing, holders);
            assert(partitions_in_use(rest, holders) == partitions_in_use(pending, holders));
        }
    }
}

/// What a check comes to: nothing is in the way of a disk whose partition table can be reread; else
/// the partitions in use are, in their order; and where there are none, the disk is free if the
/// kernel cannot partition it, and the failure to reread stands if it can. Where the partitions
/// cannot be listed, or the holders of one cannot be read, that failure stands.
pub proof fn law_check_finds_what_is_in_use(
    disk: Seq<char>,
    reread: Result<(), ErrorView>,
    listing: Result<Seq<PartitionView>, ErrorView>,
    holders: spec_fn(PartitionView) -> Result<Seq<Seq<char>>, ErrorView>,
)
    ensures
        check_from(first_busy_step(disk, reread), listing, holders) == match reread {
            Ok(_) => Ok(Seq::empty()),
            Err(error) => match listing {
                Err(unlisted) => Err(unlisted),
                Ok(partitions) => match first_unreadable(partitions, holders) {
                    Some(unread) => Err(unread),
                    None => {
                        let busy = partitions_in_use(partitions, holders);
                        if busy.len() > 0 || is_mapper_path(disk) {
                            Ok(busy)
                        } else {
                            Err(error)
                        }
                    },
                },
            },
        },
{
    if let Err(error) = reread {
        let check = BusyCheckView { disk, reread_error: error };
        if let Ok(partitions) = listing {
            lemma_walk_outcome(check, partitions, Seq::empty(), listing, holders);
            assert(Seq::<PartitionView>::empty() + partitions_in_use(partitions, holders)
                == partitions_in_use(partitions, holders));
        }
        assert(check_from(first_busy_step(disk, reread), listing, holders) == check_from(
            check.step_after_listing(listing),
            listing,
            holders,
        ));
    }
}

} // verus!
