use blockdev::error::{Error, ErrorKind};
use blockdev::partition::{Partition, SysfsStep};

fn partition(path: &str, parent: &str) -> Partition {
    Partition {
        path: path.to_string(),
        label: None,
        fstype: None,
        parent: parent.to_string(),
        mountpoint: None,
        swap: false,
    }
}

/// Runs a search to its end, where `dirs` exist and `link` is what resolving the path gives.
fn search(
    partition: &Partition,
    dirs: &[&str],
    link: Result<(&str, bool), &str>,
) -> Result<String, Error> {
    let mut step = partition.get_sysfs_dir();
    loop {
        step = match step {
            SysfsStep::CheckDir(search) => {
                let exists = dirs.contains(&search.dir.as_str());
                partition.dir_checked(search, exists)
            }
            SysfsStep::ResolveLink => partition.link_resolved(match link {
                Ok((target, is_link)) => Ok((target.to_string(), is_link)),
                Err(text) => Err(Error::new(ErrorKind::System, text.to_string())),
            }),
            SysfsStep::Done(result) => return result,
        }
    }
}

#[test]
fn regular_directories_come_first() {
    let p = partition("/dev/sda1", "/dev/sda");
    // the link is not even looked at
    assert_eq!(search(&p, &["/sys/block/sda/sda1"], Err("no")).unwrap(), "/sys/block/sda/sda1");
    assert_eq!(
        search(&p, &["/sys/block/sda/sda1", "/sys/block/dm-1"], Ok(("/dev/dm-1", true))).unwrap(),
        "/sys/block/sda/sda1"
    );
}

#[test]
fn linked_directories_come_second() {
    let p = partition("/dev/mapper/mpatha1", "/dev/mapper/mpatha");
    assert_eq!(
        search(&p, &["/sys/block/dm-1"], Ok(("/dev/dm-1", true))).unwrap(),
        "/sys/block/dm-1"
    );
}

#[test]
fn a_partition_without_a_directory_is_an_error() {
    let p = partition("/dev/mapper/mpatha1", "/dev/mapper/mpatha");
    let text = "couldn't find /sys/block directory for partition /dev/mapper/mpatha1 of \
                /dev/mapper/mpatha";
    // the target has none, or the path is no link
    for (dirs, link) in [
        (&["/sys/block/dm-2"][..], Ok(("/dev/dm-1", true))),
        (&["/sys/block/dm-1"][..], Ok(("/dev/dm-1", false))),
    ] {
        let error = search(&p, dirs, link).unwrap_err();
        assert_eq!(error.kind, ErrorKind::NoSysfsDirectory);
        assert_eq!(error.text, text);
    }
}

#[test]
fn a_link_that_cannot_be_resolved_is_an_error() {
    let p = partition("/dev/sda1", "/dev/sda");
    assert_eq!(search(&p, &[], Err("broken")).unwrap_err().text, "broken");
}

#[test]
fn paths_without_names_are_errors() {
    let error = search(&partition("/dev/sda1", "/"), &[], Err("no")).unwrap_err();
    assert_eq!(error.kind, ErrorKind::NoFileName);
    assert_eq!(error.text, "parent / has no filename");

    let error = search(&partition("/dev/..", "/dev/sda"), &[], Err("no")).unwrap_err();
    assert_eq!(error.kind, ErrorKind::NoFileName);
    assert_eq!(error.text, "path /dev/.. has no filename");

    // the parent comes first
    let error = search(&partition("..", ".."), &[], Err("no")).unwrap_err();
    assert_eq!(error.text, "parent .. has no filename");

    let p = partition("/dev/sda1", "/dev/sda");
    let error = search(&p, &[], Ok(("/", true))).unwrap_err();
    assert_eq!(error.kind, ErrorKind::NoFileName);
    assert_eq!(error.text, "target / has no filename");
}

#[test]
fn holders_are_device_nodes() {
    assert_eq!(Partition::holders_dir("/sys/block/sda/sda1"), "/sys/block/sda/sda1/holders");
    let names = vec![Ok("dm-0".to_string()), Ok("md127".to_string())];
    assert_eq!(Partition::get_holders("/h", Ok(names)).unwrap(), ["/dev/dm-0", "/dev/md127"]);
    assert!(Partition::get_holders("/h", Ok(Vec::new())).unwrap().is_empty());
}

#[test]
fn holders_that_cannot_be_read_are_errors() {
    let error = Partition::get_holders("/h", Err("gone".to_string())).unwrap_err();
    assert_eq!(error.kind, ErrorKind::System);
    assert_eq!(error.text, "reading /h");
    assert_eq!(error.cause, Some("gone".to_string()));

    // the first failure counts
    let names = vec![
        Ok("dm-0".to_string()),
        Err("first".to_string()),
        Ok("dm-1".to_string()),
        Err("second".to_string()),
    ];
    let error = Partition::get_holders("/h", Ok(names)).unwrap_err();
    assert_eq!(error.text, "reading /h entry");
    assert_eq!(error.cause, Some("first".to_string()));
}
