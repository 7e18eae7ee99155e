use blockdev::error::{Error, ErrorKind};
use blockdev::mount::{Mount, UnmountStep};
use blockdev::retry::{
    reread_partition_table, RereadStep, Retry, RetryStep, SystemFailure, ATTEMPTS, PAUSE_MILLIS,
};
use blockdev::udev::{udev_settle, udev_settled, SETTLE_PAUSE_MILLIS, UDEV_CONTROL};

/// Runs a series in which the given attempt succeeds, counting from one. Gives whether the series
/// succeeded, and how many attempts there were.
fn run_series(good: Option<u32>) -> (bool, u32) {
    let mut retry = Retry::new();
    let mut count = 0;
    loop {
        count += 1;
        match retry.after(Some(count) == good) {
            RetryStep::Succeeded => return (true, count),
            RetryStep::GiveUp => return (false, count),
            RetryStep::Again(next) => retry = next,
        }
    }
}

#[test]
fn operations_are_tried_twenty_times() {
    assert_eq!(ATTEMPTS, 20);
    assert_eq!(PAUSE_MILLIS, 100);
    assert_eq!(run_series(None), (false, 20));
    assert_eq!(run_series(Some(21)), (false, 20));
    for good in 1..=20 {
        assert_eq!(run_series(Some(good)), (true, good));
    }
}

/// Runs rereading with the same failure in every attempt but the given one.
fn run_reread(errno: i32, good: Option<u32>) -> (Result<(), Error>, u32) {
    let mut retry = Retry::new();
    let mut count = 0;
    loop {
        count += 1;
        let attempt = if Some(count) == good {
            Ok(())
        } else {
            Err(SystemFailure { errno, cause: format!("attempt {}", count) })
        };
        match reread_partition_table(retry, attempt) {
            RereadStep::Again(next) => retry = next,
            RereadStep::Done(result) => return (result, count),
        }
    }
}

#[test]
fn rereading_succeeds_with_the_first_success() {
    for good in [1, 2, 20] {
        let (result, count) = run_reread(libc::EBUSY, Some(good));
        assert!(result.is_ok());
        assert_eq!(count, good);
    }
}

#[test]
fn rereading_reports_the_last_failure() {
    for (errno, kind, text) in [
        (
            libc::EINVAL,
            ErrorKind::NotPartitionable,
            "couldn't reread partition table: device may not support partitions",
        ),
        (
            libc::EBUSY,
            ErrorKind::DeviceInUse,
            "couldn't reread partition table: device is in use",
        ),
        (libc::EIO, ErrorKind::RereadFailed, "couldn't reread partition table"),
        (0, ErrorKind::RereadFailed, "couldn't reread partition table"),
        (-22, ErrorKind::RereadFailed, "couldn't reread partition table"),
    ] {
        let (result, count) = run_reread(errno, None);
        let error = result.unwrap_err();
        assert_eq!(count, 20);
        assert_eq!(error.kind, kind);
        assert_eq!(error.text, text);
        assert_eq!(error.cause, Some("attempt 20".to_string()));
    }
}

#[test]
fn error_numbers_are_those_of_linux() {
    let kinds: Vec<i32> = (1..=133)
        .filter(|errno| {
            let kind = run_reread(*errno, None).0.unwrap_err().kind;
            kind != ErrorKind::RereadFailed
        })
        .collect();
    assert_eq!(kinds, [16, 22]);
}

#[test]
fn mounts_know_their_device_and_directory() {
    let mount = Mount::new("/dev/sda1", "/tmp/mnt");
    assert_eq!(mount.device(), "/dev/sda1");
    assert_eq!(mount.mountpoint(), "/tmp/mnt");
}

/// Runs unmounting with a failure in every attempt but the given one.
fn run_unmount(mount: &Mount, good: Option<u32>) -> (UnmountStep, u32) {
    let mut retry = Retry::new();
    let mut count = 0;
    loop {
        count += 1;
        let attempt = if Some(count) == good { Ok(()) } else { Err(format!("EBUSY {}", count)) };
        match mount.unmounted(retry, attempt) {
            UnmountStep::Again(next) => retry = next,
            last => return (last, count),
        }
    }
}

#[test]
fn directories_are_removed_after_unmounting_only() {
    let mount = Mount::new("/dev/sda1", "/tmp/mnt");
    for good in [1, 7, 20] {
        let (step, count) = run_unmount(&mount, Some(good));
        assert!(matches!(step, UnmountStep::RemoveDir));
        assert_eq!(count, good);
    }
    match run_unmount(&mount, None) {
        (UnmountStep::Report(text), 20) => assert_eq!(text, "umounting /dev/sda1: EBUSY 20"),
        other => panic!("{:?}", other),
    }
}

#[test]
fn directories_that_stay_are_reported() {
    let mount = Mount::new("/dev/sda1", "/tmp/mnt");
    assert_eq!(mount.dir_removed(Ok(())), None);
    assert_eq!(
        mount.dir_removed(Err("ENOTEMPTY".to_string())),
        Some("removing /tmp/mnt: ENOTEMPTY".to_string())
    );
}

#[test]
fn udev_is_waited_for_where_it_runs() {
    assert_eq!(UDEV_CONTROL, "/run/udev/control");
    assert_eq!(SETTLE_PAUSE_MILLIS, 200);
    let command = udev_settle(true).unwrap();
    assert_eq!(command.program, "udevadm");
    assert_eq!(command.args, ["settle"]);
    let error = udev_settle(false).unwrap_err();
    assert_eq!(error.kind, ErrorKind::UdevMissing);
    assert_eq!(
        error.text,
        "udevd socket missing; are we running in a container without /run/udev mounted?"
    );
}

#[test]
fn udev_that_does_not_settle_is_an_error() {
    assert!(udev_settled(Ok(true)).is_ok());
    let error = udev_settled(Err("ENOENT".to_string())).unwrap_err();
    assert_eq!(error.kind, ErrorKind::System);
    assert_eq!(error.text, "running udevadm settle");
    assert_eq!(error.cause, Some("ENOENT".to_string()));
    let error = udev_settled(Ok(false)).unwrap_err();
    assert_eq!(error.kind, ErrorKind::CommandFailed);
    assert_eq!(error.text, "udevadm settle failed");
}
