//! Waiting until udev has taken notice of what changed.

use crate::command::{CommandLine, CommandLineView};
use crate::error::{plain_error, Error, ErrorKind, ErrorView};
use vstd::prelude::*;

verus! {

/// The control socket of udev. Without it, `udevadm settle` does nothing and says nothing.
pub const UDEV_CONTROL: &'static str = "/run/udev/control";

/// How long to wait before udev is asked to settle, in milliseconds. There is a time after a
/// partition table was reread in which udev has not heard of it yet and would settle at once.
pub const SETTLE_PAUSE_MILLIS: u64 = 200;

/// The command that waits for udev.
pub open spec fn settle_command() -> CommandLineView {
    CommandLineView { program: "udevadm"@, args: seq!["settle"@] }
}

/// What to run, after [`SETTLE_PAUSE_MILLIS`], to wait for udev, given whether [`UDEV_CONTROL`]
/// exists.
pub fn udev_settle(control_exists: bool) -> (result: Result<CommandLine, Error>)
    ensures
        match result {
            Ok(command) => control_exists && command@ == settle_command(),
            Err(error) => !control_exists && error@ == plain_error(
                ErrorKind::UdevMissing,
                "udevd socket missing; are we running in a container without /run/udev mounted?"@,
            ),
        },
{
    if !control_exists {
        return Err(
            Error::new(
                ErrorKind::UdevMissing,
                "udevd socket missing; are we running in a container without /run/udev mounted?".to_owned(),
            ),
        );
    }
    let command: CommandLine = CommandLine::new("udevadm").arg("settle");
    assert(command@ =~= settle_command());
    Ok(command)
}

/// What came of waiting for udev, given whether the command succeeded, or what the system said if
/// it could not be run.
pub fn udev_settled(run: Result<bool, String>) -> (result: Result<(), Error>)
    ensures
        match run {
            Ok(true) => result is Ok,
            Ok(false) => result matches Err(error) && error@ == plain_error(
                ErrorKind::CommandFailed,
                "udevadm settle failed"@,
            ),
            Err(cause) => result matches Err(error) && error@ == (ErrorView {
                kind: ErrorKind::System,
                text: "running udevadm settle"@,
                cause: Some(cause@),
            }),
        },
{
    match run {
        Ok(true) => Ok(()),
        Ok(false) => Err(
            Error::new(ErrorKind::CommandFailed, "udevadm settle failed".to_owned()),
        ),
        Err(cause) => Err(
            Error::with_cause(ErrorKind::System, "running udevadm settle".to_owned(), cause),
        ),
    }
}

} // verus!
