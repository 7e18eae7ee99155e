//! What callers can rely on of trying again.

use crate::error::ErrorKind;
use crate::retry::{
    law_last_failure_is_reported, law_tried_until_it_succeeds, reread_partition_table,
    reread_series, series, RereadStep, Retry, RetryStep, SystemFailure, PAUSE_MILLIS,
};
use vstd::prelude::*;

verus! {

/// A first attempt leaves nineteen more, a tenth of a second apart.
pub proof fn law_there_are_twenty_attempts(retry: Retry)
    requires
        call_ensures(Retry::new, (), retry),
    ensures
        retry.left == 19,
        PAUSE_MILLIS == 100,
{
}

/// A success ends the attempts; a failure leaves one attempt fewer, or none.
pub proof fn law_failures_use_up_attempts(retry: Retry, succeeded: bool, step: RetryStep)
    requires
        call_ensures(Retry::after, (retry, succeeded), step),
    ensures
        succeeded ==> step == RetryStep::Succeeded,
        !succeeded && retry.left == 0 ==> step == RetryStep::GiveUp,
        !succeeded && retry.left > 0 ==> (step matches RetryStep::Again(next) && next.left
            == retry.left - 1),
{
}

/// Rereading a partition table is over with a success, or with a failure of the last attempt, which
/// is then told by its error number: 22 for a device that may not have partitions, 16 for one that
/// is in use.
pub proof fn law_the_last_failure_to_reread_is_told(
    retry: Retry,
    attempt: Result<(), SystemFailure>,
    step: RereadStep,
)
    requires
        call_ensures(reread_partition_table, (retry, attempt), step),
    ensures
        match attempt {
            Ok(_) => step matches RereadStep::Done(Ok(_)),
            Err(failure) => if retry.left > 0 {
                step matches RereadStep::Again(next) && next.left == retry.left - 1
            } else {
                &&& step matches RereadStep::Done(Err(error))
                &&& error.cause matches Some(cause)
                &&& cause@ == failure.cause@
                &&& failure.errno == 22 ==> error.kind == ErrorKind::NotPartitionable
                    && error.text@
                    == "couldn't reread partition table: device may not support partitions"@
                &&& failure.errno == 16 ==> error.kind == ErrorKind::DeviceInUse && error.text@
                    == "couldn't reread partition table: device is in use"@
                &&& failure.errno != 22 && failure.errno != 16 ==> error.kind
                    == ErrorKind::RereadFailed && error.text@
                    == "couldn't reread partition table"@
            },
        },
{
}

/// A series of attempts succeeds exactly if one of the first twenty does, with the first that does.
pub proof fn law_twenty_attempts_decide(succeeds: spec_fn(nat) -> bool, retry: Retry)
    requires
        call_ensures(Retry::new, (), retry),
    ensures
        ({
            let (succeeded, count) = series(retry, 0, succeeds);
            &&& 1 <= count <= 20
            &&& succeeded <==> exists|n: nat| n < 20 && #[trigger] succeeds(n)
            &&& succeeded ==> succeeds((count - 1) as nat)
            &&& !succeeded ==> count == 20
            &&& forall|n: nat| n < count - 1 ==> !#[trigger] succeeds(n)
        }),
{
    assert(retry == Retry { left: 19 });
    law_tried_until_it_succeeds(succeeds);
}

/// Rereading succeeds exactly if one of the first twenty attempts does; else the twentieth failure
/// is told.
pub proof fn law_twenty_rereads_decide(
    attempts: spec_fn(nat) -> Result<(), (i32, Seq<char>)>,
    retry: Retry,
)
    requires
        call_ensures(Retry::new, (), retry),
    ensures
        ({
            let result = reread_series(retry, 0, attempts);
            &&& result is Ok <==> exists|n: nat| n < 20 && (#[trigger] attempts(n)) is Ok
            &&& result matches Err(error) ==> error.cause == Some(attempts(19)->Err_0.1)
        }),
{
    assert(retry == Retry { left: 19 });
    law_last_failure_is_reported(attempts);
}

} // verus!
