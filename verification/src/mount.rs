//! A mounted partition, and taking it down again.

use crate::error::{outcome, Error};
use crate::partition::Partition;
use crate::retry::{series, Retry, RetryStep};
use crate::sysfs::{offsets_outcome, read_number};
use crate::text::read_text;
use vstd::prelude::*;

verus! {

/// A device that is mounted on a temporary directory.
#[derive(Debug)]
pub struct Mount {
    device: String,
    mountpoint: String,
}

/// The mathematical value of a [`Mount`].
pub struct MountView {
    pub device: Seq<char>,
    pub mountpoint: Seq<char>,
}

impl View for Mount {
    type V = MountView;

    closed spec fn view(&self) -> MountView {
        MountView { device: self.device@, mountpoint: self.mountpoint@ }
    }
}

/// What to do after an attempt to unmount.
#[derive(Debug)]
pub enum UnmountStep {
    /// Wait and try again.
    Again(Retry),
    /// Remove the directory that the device was mounted on.
    RemoveDir,
    /// Leave everything as it is, and say why.
    Report(String),
}

/// The mathematical value of an [`UnmountStep`].
pub enum UnmountStepView {
    Again(Retry),
    RemoveDir,
    Report(Seq<char>),
}

impl View for UnmountStep {
    type V = UnmountStepView;

    open spec fn view(&self) -> UnmountStepView {
        match *self {
            UnmountStep::Again(retry) => UnmountStepView::Again(retry),
            UnmountStep::RemoveDir => UnmountStepView::RemoveDir,
            UnmountStep::Report(text) => UnmountStepView::Report(text@),
        }
    }
}

/// The value of an attempt: what the system said if it failed.
pub open spec fn attempt_cause(attempt: Result<(), String>) -> Result<(), Seq<char>> {
    match attempt {
        Ok(_) => Ok(()),
        Err(cause) => Err(cause@),
    }
}

impl MountView {
    /// What follows an attempt to unmount. Unmounting sometimes fails right after the last file
    /// was closed, so it is tried several times; the directory is touched only after it
    /// succeeded.
    pub open spec fn unmount_next(
        self,
        retry: Retry,
        attempt: Result<(), Seq<char>>,
    ) -> UnmountStepView {
        match attempt {
            Ok(_) => UnmountStepView::RemoveDir,
            Err(cause) => match retry.next(false) {
                RetryStep::Again(next) => UnmountStepView::Again(next),
                _ => UnmountStepView::Report(
                    "umounting "@ + self.device + ": "@ + cause,
                ),
            },
        }
    }

    /// The last step of unmounting, where `attempts` says what comes of each attempt, by its
    /// number, and `number` is that of the attempt under way.
    pub open spec fn unmount_series(
        self,
        retry: Retry,
        number: nat,
        attempts: spec_fn(nat) -> Result<(), Seq<char>>,
    ) -> UnmountStepView
        decreases retry.left,
    {
        match self.unmount_next(retry, attempts(number)) {
            UnmountStepView::Again(next) => if next.left < retry.left {
                self.unmount_series(next, number + 1, attempts)
            } else {
                UnmountStepView::Again(next)
            },
            last => last,
        }
    }
}

impl Mount {
    /// The device at the path `device`, mounted on the directory `mountpoint`.
    pub fn new(device: &str, mountpoint: &str) -> (mount: Self)
        ensures
            mount@.device == device@,
            mount@.mountpoint == mountpoint@,
    {
        Mount { device: device.to_owned(), mountpoint: mountpoint.to_owned() }
    }

    /// The device that is mounted.
    pub fn device(&self) -> (device: &str)
        ensures
            device@ == self@.device,
    {
        self.device.as_str()
    }

    /// The directory that the device is mounted on.
    pub fn mountpoint(&self) -> (mountpoint: &str)
        ensures
            mountpoint@ == self@.mountpoint,
    {
        self.mountpoint.as_str()
    }

    /// The offsets of the mounted device within its disk, from what [`Partition::get_offsets`]
    /// takes.
    pub fn get_partition_offsets(
        &self,
        rdev: Result<u64, String>,
        start: Result<String, String>,
        size: Result<String, String>,
    ) -> (result: Result<(u64, u64), Error>)
        ensures
            outcome(result) == offsets_outcome(
                self@.device,
                read_number(rdev),
                read_text(start),
                read_text(size),
            ),
    {
        Partition::get_offsets(self.device.as_str(), rdev, start, size)
    }

    /// What follows an attempt to unmount the device.
    pub fn unmounted(&self, retry: Retry, attempt: Result<(), String>) -> (step: UnmountStep)
        ensures
            step@ == self@.unmount_next(retry, attempt_cause(attempt)),
    {
        match attempt {
            Ok(_) => UnmountStep::RemoveDir,
            Err(cause) => match retry.after(false) {
                RetryStep::Again(next) => UnmountStep::Again(next),
                _ => {
                    let mut text: String = "umounting ".to_owned();
                    text.append(self.device.as_str());
                    text.append(": ");
                    text.append(cause.as_str());
                    UnmountStep::Report(text)
                },
            },
        }
    }

    /// What to say after the attempt to remove the directory, if anything.
    pub fn dir_removed(&self, attempt: Result<(), String>) -> (report: Option<String>)
        ensures
            match report {
                Some(text) => attempt matches Err(cause) && text@ == "removing "@
                    + self@.mountpoint + ": "@ + cause@,
                None => attempt is Ok,
            },
    {
        match attempt {
            Ok(_) => None,
            Err(cause) => {
                let mut text: String = "removing ".to_owned();
                text.append(self.mountpoint.as_str());
                text.append(": ");
                text.append(cause.as_str());
                Some(text)
            },
        }
    }
}

/// The directory is removed exactly where the series of attempts to unmount succeeds; else what
/// the system said of the last attempt is reported.
pub proof fn law_directory_is_removed_after_unmounting(
    mount: MountView,
    retry: Retry,
    number: nat,
    attempts: spec_fn(nat) -> Result<(), Seq<char>>,
)
    ensures
        ({
            let (succeeded, count) = series(retry, number, |n: nat| attempts(n) is Ok);
            mount.unmount_series(retry, number, attempts) == if succeeded {
                UnmountStepView::RemoveDir
            } else {
                UnmountStepView::Report(
                    "umounting "@ + mount.device + ": "@ + attempts((count - 1) as nat)->Err_0,
                )
            }
        }),
    decreases retry.left,
{
    if attempts(number) is Err && retry.left > 0 {
        law_directory_is_removed_after_unmounting(
            mount,
            Retry { left: (retry.left - 1) as u32 },
            number + 1,
            attempts,
        );
    }
}

} // verus!
