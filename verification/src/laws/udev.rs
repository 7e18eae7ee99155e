//! What callers can rely on of waiting for udev.

use crate::command::CommandLine;
use crate::error::{Error, ErrorKind};
use crate::text::texts;
use crate::udev::{udev_settle, udev_settled, SETTLE_PAUSE_MILLIS, UDEV_CONTROL};
use vstd::prelude::*;

verus! {

/// Udev is waited for exactly where its control socket is there, with `udevadm settle`, after a
/// fifth of a second.
pub proof fn law_udev_is_waited_for_where_it_runs(
    control_exists: bool,
    result: Result<CommandLine, Error>,
)
    requires
        call_ensures(udev_settle, (control_exists,), result),
    ensures
        UDEV_CONTROL@ == "/run/udev/control"@,
        SETTLE_PAUSE_MILLIS == 200,
        control_exists ==> {
            &&& result matches Ok(command)
            &&& command.program@ == "udevadm"@
            &&& command.args@.len() == 1
            &&& command.args@[0]@ == "settle"@
        },
        !control_exists ==> {
            &&& result matches Err(error)
            &&& error.kind == ErrorKind::UdevMissing
            &&& error.text@
                == "udevd socket missing; are we running in a container without /run/udev mounted?"@
        },
{
    if let Ok(command) = result {
        assert(texts(command.args@).len() == command.args@.len());
        assert(command@.args[0] == command.args@[0]@);
    }
}

/// Udev has settled exactly if the command could be run and succeeded.
pub proof fn law_udev_settles_if_the_command_succeeds(
    run: Result<bool, String>,
    result: Result<(), Error>,
)
    requires
        call_ensures(udev_settled, (run,), result),
    ensures
        result is Ok <==> run == Ok::<bool, String>(true),
        run == Ok::<bool, String>(false) ==> {
            &&& result matches Err(error)
            &&& error.kind == ErrorKind::CommandFailed
            &&& error.text@ == "udevadm settle failed"@
        },
        run matches Err(said) ==> {
            &&& result matches Err(error)
            &&& error.kind == ErrorKind::System
            &&& error.text@ == "running udevadm settle"@
            &&& error.cause matches Some(cause)
            &&& cause@ == said@
        },
{
}

} // verus!
