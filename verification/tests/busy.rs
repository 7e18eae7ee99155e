use blockdev::busy::BusyStep;
use blockdev::disk::Disk;
use blockdev::error::{Error, ErrorKind};
use blockdev::partition::Partition;

fn partition(path: &str, mountpoint: Option<&str>, swap: bool) -> Partition {
    Partition {
        path: path.to_string(),
        label: None,
        fstype: None,
        parent: "/dev/sda".to_string(),
        mountpoint: mountpoint.map(str::to_string),
        swap,
    }
}

fn failure(text: &str) -> Error {
    Error::new(ErrorKind::RereadFailed, text.to_string())
}

/// Runs a check to its end. Holders are given by path; those of other partitions are not to be
/// asked for. Gives the paths of the busy partitions or the text of the error.
fn check(
    disk: &str,
    reread: Result<(), Error>,
    listing: Result<Vec<Partition>, Error>,
    holders: &[(&str, Result<&[&str], &str>)],
) -> Result<Vec<String>, String> {
    let mut listing = Some(listing);
    let mut asked = 0;
    let mut step = Disk::new(disk).get_busy_partitions(reread);
    loop {
        step = match step {
            BusyStep::ListPartitions(check) => {
                check.partitions_listed(listing.take().expect("the listing is asked for once"))
            }
            BusyStep::ReadHolders(scan) => {
                let (path, found) = &holders[asked];
                asked += 1;
                assert_eq!(scan.current.path, *path);
                let answer = match found {
                    Ok(names) => Ok(names.iter().map(|n| n.to_string()).collect()),
                    Err(text) => Err(failure(text)),
                };
                scan.holders_read(answer)
            }
            BusyStep::Done(result) => {
                assert_eq!(asked, holders.len());
                return match result {
                    Ok(busy) => Ok(busy.into_iter().map(|p| p.path).collect()),
                    Err(error) => Err(error.text),
                };
            }
        }
    }
}

fn paths(list: &[&str]) -> Result<Vec<String>, String> {
    Ok(list.iter().map(|p| p.to_string()).collect())
}

#[test]
fn a_reread_table_means_exclusive_access() {
    // neither the partitions nor their holders are looked at
    let listing = Ok(vec![partition("/dev/sda1", Some("/"), false)]);
    assert_eq!(check("/dev/sda", Ok(()), listing, &[]), paths(&[]));
}

#[test]
fn partitions_in_use_are_found_in_their_order() {
    let listing = Ok(vec![
        partition("/dev/sda1", None, false),
        partition("/dev/sda2", Some("/boot"), false),
        partition("/dev/sda3", None, true),
        partition("/dev/sda4", None, false),
        partition("/dev/sda5", None, false),
    ]);
    assert_eq!(
        check(
            "/dev/sda",
            Err(failure("busy")),
            listing,
            &[
                ("/dev/sda1", Ok(&["/dev/dm-0"])),
                ("/dev/sda4", Ok(&[])),
                ("/dev/sda5", Ok(&["/dev/md0", "/dev/md1"])),
            ],
        ),
        paths(&["/dev/sda1", "/dev/sda2", "/dev/sda3", "/dev/sda5"])
    );
}

#[test]
fn an_idle_kernel_disk_that_was_not_reread_is_an_error() {
    let listing = Ok(vec![partition("/dev/sda1", None, false)]);
    assert_eq!(
        check("/dev/sda", Err(failure("busy")), listing, &[("/dev/sda1", Ok(&[]))]),
        Err("busy".to_string())
    );
    assert_eq!(
        check("/dev/sda", Err(failure("busy")), Ok(Vec::new()), &[]),
        Err("busy".to_string())
    );
}

#[test]
fn an_idle_mapper_disk_is_free() {
    let listing = || Ok(vec![partition("/dev/mapper/a1", None, false)]);
    assert_eq!(
        check("/dev/mapper/a", Err(failure("no")), listing(), &[("/dev/mapper/a1", Ok(&[]))]),
        paths(&[])
    );
    assert_eq!(
        check("/dev/dm-1", Err(failure("no")), listing(), &[("/dev/mapper/a1", Ok(&["x"]))]),
        paths(&["/dev/mapper/a1"])
    );
}

#[test]
fn a_failure_on_the_way_ends_the_check() {
    assert_eq!(
        check("/dev/sda", Err(failure("busy")), Err(failure("unlisted")), &[]),
        Err("unlisted".to_string())
    );
    // also where a partition has been found in use before
    let listing = Ok(vec![
        partition("/dev/sda1", Some("/"), false),
        partition("/dev/sda2", None, false),
        partition("/dev/sda3", None, false),
    ]);
    assert_eq!(
        check("/dev/sda", Err(failure("busy")), listing, &[("/dev/sda2", Err("unread"))]),
        Err("unread".to_string())
    );
}
