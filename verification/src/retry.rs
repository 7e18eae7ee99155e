//! Trying an operation of the system again when it fails.

use crate::error::{Error, ErrorKind, ErrorView};
use nix::errno::Errno;
use vstd::prelude::*;

verus! {

/// How often an operation is tried before it is given up.
pub const ATTEMPTS: u32 = 20;

/// How long to wait before the next attempt, in milliseconds.
pub const PAUSE_MILLIS: u64 = 100;

/// An attempt under way, by the number of attempts that are left after it.
#[derive(Clone, Copy, Debug, PartialEq, Eq, Structural)]
pub struct Retry {
    pub left: u32,
}

/// What to do after an attempt.
#[derive(Clone, Copy, Debug, PartialEq, Eq, Structural)]
pub enum RetryStep {
    /// The operation succeeded.
    Succeeded,
    /// Wait for [`PAUSE_MILLIS`] and try again.
    Again(Retry),
    /// The operation has failed for good.
    GiveUp,
}

impl Retry {
    /// What follows an attempt that succeeded or failed.
    pub open spec fn next(self, succeeded: bool) -> RetryStep {
        if succeeded {
            RetryStep::Succeeded
        } else if self.left == 0 {
            RetryStep::GiveUp
        } else {
            RetryStep::Again(Retry { left: (self.left - 1) as u32 })
        }
    }

    /// The first of the [`ATTEMPTS`].
    pub fn new() -> (retry: Self)
        ensures
            retry.left == ATTEMPTS - 1,
    {
        Retry { left: ATTEMPTS - 1 }
    }

    /// What follows an attempt that succeeded or failed.
    pub fn after(self, succeeded: bool) -> (step: RetryStep)
        ensures
            step == self.next(succeeded),
    {
        if succeeded {
            RetryStep::Succeeded
        } else if self.left == 0 {
            RetryStep::GiveUp
        } else {
            RetryStep::Again(Retry { left: self.left - 1 })
        }
    }
}

/// How a series of attempts ends and how many there were, where `succeeds` says of each attempt,
/// by its number, whether it succeeds, and `number` is that of the attempt under way.
pub open spec fn series(retry: Retry, number: nat, succeeds: spec_fn(nat) -> bool) -> (bool, nat)
    decreases retry.left,
{
    match retry.next(succeeds(number)) {
        RetryStep::Succeeded => (true, number + 1),
        RetryStep::GiveUp => (false, number + 1),
        RetryStep::Again(next) => if next.left < retry.left {
            series(next, number + 1, succeeds)
        } else {
            (false, number + 1)
        },
    }
}

/// A series ends with the first success, if one comes before the attempts are used up.
proof fn lemma_series(retry: Retry, number: nat, succeeds: spec_fn(nat) -> bool)
    ensures
        ({
            let (succeeded, count) = series(retry, number, succeeds);
            &&& number < count <= number + retry.left + 1
            &&& succeeded == succeeds((count - 1) as nat)
            &&& !succeeded ==> count == number + retry.left + 1
            &&& forall|n: nat| number <= n < count - 1 ==> !#[trigger] succeeds(n)
        }),
    decreases retry.left,
{
    if !succeeds(number) && retry.left > 0 {
        lemma_series(Retry { left: (retry.left - 1) as u32 }, number + 1, succeeds);
    }
}

/// An operation is tried until it succeeds, at most [`ATTEMPTS`] times: the series succeeds
/// exactly where one of the first [`ATTEMPTS`] attempts does, its last attempt is the first that
/// succeeds, and a series that fails has used all attempts.
pub proof fn law_tried_until_it_succeeds(succeeds: spec_fn(nat) -> bool)
    ensures
        ({
            let (succeeded, count) = series(
                Retry { left: (ATTEMPTS - 1) as u32 },
                0,
                succeeds,
            );
            &&& 1 <= count <= ATTEMPTS
            &&& succeeded <==> exists|n: nat| n < ATTEMPTS && #[trigger] succeeds(n)
            &&& succeeded ==> succeeds((count - 1) as nat)
            &&& !succeeded ==> count == ATTEMPTS
            &&& forall|n: nat| n < count - 1 ==> !#[trigger] succeeds(n)
        }),
{
    let first = Retry { left: (ATTEMPTS - 1) as u32 };
    lemma_series(first, 0, succeeds);
    let (succeeded, count) = series(first, 0, succeeds);
    if !succeeded {
        assert(forall|n: nat| n < ATTEMPTS ==> !#[trigger] succeeds(n)) by {
            assert forall|n: nat| n < ATTEMPTS implies !#[trigger] succeeds(n) by {
                if n == ATTEMPTS - 1 {
                    assert(n == (count - 1) as nat);
                }
            }
        }
    } else {
        assert(succeeds((count - 1) as nat));
    }
}

/// The error numbers that rereading a partition table tells apart.
#[derive(Clone, Copy, Debug, PartialEq, Eq, Structural)]
pub enum ErrnoKind {
    /// Invalid argument.
    Invalid,
    /// Device or resource busy.
    Busy,
    /// Any other.
    Other,
}

/// The meaning of an error number of Linux.
pub open spec fn errno_meaning(errno: i32) -> ErrnoKind {
    if errno == 22 {
        ErrnoKind::Invalid
    } else if errno == 16 {
        ErrnoKind::Busy
    } else {
        ErrnoKind::Other
    }
}

/// Calls `nix::errno::Errno::from_i32`, which names the error number after the constants of the C
/// library, and tells `EINVAL`, which is 22 on Linux, and `EBUSY`, which is 16, from the rest.
#[verifier::external_body]
fn errno_kind(errno: i32) -> (kind: ErrnoKind)
    ensures
        kind == errno_meaning(errno),
{
    match Errno::from_i32(errno) {
        Errno::EINVAL => ErrnoKind::Invalid,
        Errno::EBUSY => ErrnoKind::Busy,
        _ => ErrnoKind::Other,
    }
}

/// A call of the system that failed: its error number, and the same in words.
#[derive(Debug)]
pub struct SystemFailure {
    pub errno: i32,
    pub cause: String,
}

/// What to do after an attempt to have the kernel reread a partition table.
#[derive(Debug)]
pub enum RereadStep {
    /// Wait for [`PAUSE_MILLIS`] and try again.
    Again(Retry),
    /// Nothing: the partition table has been reread, or will not be.
    Done(Result<(), Error>),
}

/// The mathematical value of a [`RereadStep`].
pub enum RereadStepView {
    Again(Retry),
    Done(Result<(), ErrorView>),
}

impl View for RereadStep {
    type V = RereadStepView;

    open spec fn view(&self) -> RereadStepView {
        match *self {
            RereadStep::Again(retry) => RereadStepView::Again(retry),
            RereadStep::Done(Ok(())) => RereadStepView::Done(Ok(())),
            RereadStep::Done(Err(error)) => RereadStepView::Done(Err(error@)),
        }
    }
}

/// The error of a partition table that was not reread.
pub open spec fn reread_error(errno: i32, cause: Seq<char>) -> ErrorView {
    match errno_meaning(errno) {
        ErrnoKind::Invalid => ErrorView {
            kind: ErrorKind::NotPartitionable,
            text: "couldn't reread partition table: device may not support partitions"@,
            cause: Some(cause),
        },
        ErrnoKind::Busy => ErrorView {
            kind: ErrorKind::DeviceInUse,
            text: "couldn't reread partition table: device is in use"@,
            cause: Some(cause),
        },
        ErrnoKind::Other => ErrorView {
            kind: ErrorKind::RereadFailed,
            text: "couldn't reread partition table"@,
            cause: Some(cause),
        },
    }
}

/// What follows an attempt to have a partition table reread: rereading sometimes fails
/// inexplicably, so only the last failure counts.
pub open spec fn reread_next(
    retry: Retry,
    attempt: Result<(), (i32, Seq<char>)>,
) -> RereadStepView {
    match attempt {
        Ok(_) => RereadStepView::Done(Ok(())),
        Err((errno, cause)) => match retry.next(false) {
            RetryStep::Again(next) => RereadStepView::Again(next),
            _ => RereadStepView::Done(Err(reread_error(errno, cause))),
        },
    }
}

/// The value of an attempt.
pub open spec fn attempt_value(
    attempt: Result<(), SystemFailure>,
) -> Result<(), (i32, Seq<char>)> {
    match attempt {
        Ok(_) => Ok(()),
        Err(failure) => Err((failure.errno, failure.cause@)),
    }
}

/// What follows an attempt to have the kernel reread a partition table.
pub fn reread_partition_table(retry: Retry, attempt: Result<(), SystemFailure>) -> (step:
    RereadStep)
    ensures
        step@ == reread_next(retry, attempt_value(attempt)),
{
    let failure: SystemFailure = match attempt {
        Ok(_) => return RereadStep::Done(Ok(())),
        Err(failure) => failure,
    };
    match retry.after(false) {
        RetryStep::Again(next) => RereadStep::Again(next),
        _ => {
            let error: Error = match errno_kind(failure.errno) {
                ErrnoKind::Invalid => Error::with_cause(
                    ErrorKind::NotPartitionable,
                    "couldn't reread partition table: device may not support partitions".to_owned(),
                    failure.cause,
                ),
                ErrnoKind::Busy => Error::with_cause(
                    ErrorKind::DeviceInUse,
                    "couldn't reread partition table: device is in use".to_owned(),
                    failure.cause,
                ),
                ErrnoKind::Other => Error::with_cause(
                    ErrorKind::RereadFailed,
                    "couldn't reread partition table".to_owned(),
                    failure.cause,
                ),
            };
            RereadStep::Done(Err(error))
        },
    }
}

/// How rereading a partition table ends, where `attempts` says what comes of each attempt, by its
/// number, and `number` is that of the attempt under way.
pub open spec fn reread_series(
    retry: Retry,
    number: nat,
    attempts: spec_fn(nat) -> Result<(), (i32, Seq<char>)>,
) -> Result<(), ErrorView>
    decreases retry.left,
{
    match reread_next(retry, attempts(number)) {
        RereadStepView::Done(result) => result,
        RereadStepView::Again(next) => if next.left < retry.left {
            reread_series(next, number + 1, attempts)
        } else {
            Ok(())
        },
    }
}

/// How rereading ends from an attempt on.
proof fn lemma_reread_series(
    retry: Retry,
    number: nat,
    attempts: spec_fn(nat) -> Result<(), (i32, Seq<char>)>,
)
    ensures
        reread_series(retry, number, attempts) is Ok <==> exists|n: nat|
            number <= n <= number + retry.left && (#[trigger] attempts(n)) is Ok,
        reread_series(retry, number, attempts) is Err ==> {
            let last = attempts(number + retry.left as nat);
            &&& last is Err
            &&& reread_series(retry, number, attempts) == Err::<(), ErrorView>(
                reread_error(last->Err_0.0, last->Err_0.1),
            )
        },
    decreases retry.left,
{
    if attempts(number) is Err && retry.left > 0 {
        lemma_reread_series(Retry { left: (retry.left - 1) as u32 }, number + 1, attempts);
    }
}

/// Rereading succeeds exactly where one of the first [`ATTEMPTS`] attempts does; else its error
/// is that of the last of them.
pub proof fn law_last_failure_is_reported(attempts: spec_fn(nat) -> Result<(), (i32, Seq<char>)>)
    ensures
        ({
            let result = reread_series(Retry { left: (ATTEMPTS - 1) as u32 }, 0, attempts);
            let last = attempts((ATTEMPTS - 1) as nat);
            &&& result is Ok <==> exists|n: nat| n < ATTEMPTS && (#[trigger] attempts(n)) is Ok
            &&& result is Err ==> last is Err && result == Err::<(), ErrorView>(
                reread_error(last->Err_0.0, last->Err_0.1),
            )
        }),
{
    lemma_reread_series(Retry { left: (ATTEMPTS - 1) as u32 }, 0, attempts);
}

} // verus!
