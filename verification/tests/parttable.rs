use blockdev::command::CommandRun;
use blockdev::error::{Error, ErrorKind};
use blockdev::parttable::{
    names_partition_of, settled, DirEntry, PartTable, PartTableKernel, PartTableKpartx,
    RefreshStep, SetUpStep, TableRefresh,
};

fn names(list: &[&str]) -> Result<Vec<DirEntry>, String> {
    Ok(list.iter().map(|n| DirEntry::Named(n.to_string())).collect())
}

#[test]
fn partition_names_are_a_disk_a_p_and_a_number() {
    for found in ["mpathap1", "mpathap10", "mpathap007"] {
        assert!(names_partition_of("mpatha", found), "{}", found);
    }
    for found in [
        "mpatha", "mpathap", "mpathapx", "mpathap1x", "mpathap 1", "mpatha1", "mpathbp1",
        "xmpathap1", "mpathap1\n", "mpathaP1", "mpathap\u{663}", "p1", "",
    ] {
        assert!(!names_partition_of("mpatha", found), "{:?}", found);
    }
    assert!(names_partition_of("", "p1"));
    assert!(names_partition_of("größe", "größep2"));
    assert!(!names_partition_of("größe", "gröp2"));
}

#[test]
fn nodes_exist_if_a_partition_is_listed() {
    let path = "/dev/mapper/mpatha";
    let set_up = |list: &[&str]| PartTableKpartx::already_set_up(path, names(list)).unwrap();
    assert!(!set_up(&[]));
    assert!(!set_up(&["control", "mpatha", "mpathb", "mpathbp1"]));
    assert!(set_up(&["control", "mpatha", "mpathap2"]));
}

#[test]
fn names_are_read_no_further_than_needed() {
    let path = "/dev/mapper/a";
    let unreadable = || DirEntry::Unreadable("EIO".to_string());
    let named = |n: &str| DirEntry::Named(n.to_string());
    let listing = Ok(vec![named("b"), named("ap1"), unreadable()]);
    assert!(PartTableKpartx::already_set_up(path, listing).unwrap());

    let listing = Ok(vec![named("b"), unreadable(), named("ap1")]);
    let error = PartTableKpartx::already_set_up(path, listing).unwrap_err();
    assert_eq!(error.kind, ErrorKind::System);
    assert_eq!(error.text, "reading /dev/mapper entry");
    assert_eq!(error.cause, Some("EIO".to_string()));

    let listing = Ok(vec![DirEntry::NotText("x\u{fffd}".to_string())]);
    let error = PartTableKpartx::already_set_up(path, listing).unwrap_err();
    assert_eq!(error.kind, ErrorKind::Decoding);
    assert_eq!(error.text, "converting filename of x\u{fffd}");
    assert_eq!(error.cause, None);
}

#[test]
fn a_directory_that_cannot_be_listed_is_an_error() {
    let listing = || Err("ENOENT".to_string());
    let error = PartTableKpartx::new("/dev/mapper/a", listing()).unwrap_err();
    assert_eq!(error.kind, ErrorKind::System);
    assert_eq!(error.text, "listing /dev/mapper");
    assert_eq!(error.cause, Some("ENOENT".to_string()));

    // the name of the disk comes first
    let error = PartTableKpartx::new("/dev/mapper/..", listing()).unwrap_err();
    assert_eq!(error.kind, ErrorKind::NoFileName);
    assert_eq!(error.text, "getting filename of /dev/mapper/..");
}

#[test]
fn only_nodes_that_were_made_are_removed() {
    let made = PartTableKpartx::new("/dev/mapper/a", names(&["a"])).unwrap();
    let command = made.teardown().unwrap();
    assert_eq!(command.program, "kpartx");
    assert_eq!(command.args, ["-d", "-n", "/dev/mapper/a"]);

    let found = PartTableKpartx::new("/dev/mapper/a", names(&["a", "ap1"])).unwrap();
    assert!(found.teardown().is_none());
}

#[test]
fn kpartx_updates_the_nodes() {
    let table = PartTableKpartx::new("/dev/dm-3", names(&[])).unwrap();
    match table.reread() {
        TableRefresh::Run(command) => {
            assert_eq!(command.program, "kpartx");
            assert_eq!(command.args, ["-u", "-n", "/dev/dm-3"]);
        }
        other => panic!("{:?}", other),
    }
}

fn run(success: bool, status: &str) -> Result<CommandRun, String> {
    Ok(CommandRun { success, status: status.to_string() })
}

fn failure(text: &str) -> Error {
    Error::new(ErrorKind::UdevMissing, text.to_string())
}

/// Runs a refresh to its end. Gives the result, how often udev was waited for, and whether standard
/// error was copied out.
fn finish(mut step: RefreshStep, settling: Result<(), &str>) -> (Result<(), Error>, u32, bool) {
    let mut settlings = 0;
    loop {
        step = match step {
            RefreshStep::Settle => {
                settlings += 1;
                settled(settling.map_err(failure))
            }
            RefreshStep::CopyStderr(error) => return (Err(error), settlings, true),
            RefreshStep::Done(result) => return (result, settlings, false),
        }
    }
}

#[test]
fn a_kpartx_that_succeeds_is_followed_by_udev() {
    let table = PartTableKpartx::new("/dev/dm-3", names(&[])).unwrap();
    let (result, settlings, copied) = finish(table.kpartx_finished("-u", run(true, "0")), Ok(()));
    assert!(result.is_ok());
    assert_eq!((settlings, copied), (1, false));

    let (result, settlings, copied) =
        finish(table.kpartx_finished("-d", run(true, "0")), Err("no udev"));
    assert_eq!(result.unwrap_err().text, "no udev");
    assert_eq!((settlings, copied), (1, false));
}

#[test]
fn a_failed_kpartx_is_an_error() {
    let table = PartTableKpartx::new("/dev/dm-3", names(&[])).unwrap();
    let step = table.kpartx_finished("-u", run(false, "exit code: 1"));
    let (result, settlings, copied) = finish(step, Ok(()));
    let error = result.unwrap_err();
    assert_eq!(error.kind, ErrorKind::CommandFailed);
    assert_eq!(error.text, "kpartx -u /dev/dm-3 failed: exit code: 1");
    assert_eq!(error.cause, None);
    assert_eq!((settlings, copied), (0, true));
}

#[test]
fn a_kpartx_that_cannot_be_run_is_an_error() {
    let table = PartTableKpartx::new("/dev/dm-3", names(&[])).unwrap();
    let step = table.kpartx_finished("-d", Err("ENOENT".to_string()));
    let (result, settlings, copied) = finish(step, Ok(()));
    let error = result.unwrap_err();
    assert_eq!(error.kind, ErrorKind::System);
    assert_eq!(error.text, "running kpartx -d /dev/dm-3");
    assert_eq!(error.cause, Some("ENOENT".to_string()));
    assert_eq!((settlings, copied), (0, false));
}

#[test]
fn udev_follows_a_reread_that_succeeded_only() {
    let table = PartTableKernel::new("/dev/sda");
    let (result, settlings, _) = finish(table.table_reread(Ok(())), Ok(()));
    assert!(result.is_ok());
    assert_eq!(settlings, 1);
    let (result, settlings, _) = finish(table.table_reread(Ok(())), Err("no udev"));
    assert_eq!(result.unwrap_err().text, "no udev");
    assert_eq!(settlings, 1);
    let (result, settlings, _) = finish(table.table_reread(Err(failure("busy"))), Err("no udev"));
    assert_eq!(result.unwrap_err().text, "busy");
    assert_eq!(settlings, 0);
}

#[test]
fn a_failed_set_up_removes_what_it_made() {
    let made = || PartTableKpartx::new("/dev/mapper/a", names(&["a"])).unwrap();
    let found = || PartTableKpartx::new("/dev/mapper/a", names(&["ap1"])).unwrap();
    assert!(matches!(made().set_up(Ok(())), SetUpStep::Ready(t) if t.teardown().is_some()));
    assert!(matches!(found().set_up(Ok(())), SetUpStep::Ready(t) if t.teardown().is_none()));
    match made().set_up(Err(failure("no nodes"))) {
        SetUpStep::TearDown { table, command, error } => {
            assert_eq!(command.program, "kpartx");
            assert_eq!(command.args, ["-d", "-n", "/dev/mapper/a"]);
            assert_eq!(error.text, "no nodes");
            assert_eq!(table.torn_down(Ok(())), None);
            assert_eq!(table.torn_down(Err(failure("stuck"))), Some("stuck".to_string()));
        }
        other => panic!("{:?}", other),
    }
    match found().set_up(Err(failure("no nodes"))) {
        SetUpStep::Failed(error) => assert_eq!(error.text, "no nodes"),
        other => panic!("{:?}", other),
    }
}

#[test]
fn the_kernel_updates_its_own_nodes() {
    let table = PartTableKernel::new("/dev/sda");
    assert_eq!(table.path, "/dev/sda");
    assert!(matches!(table.reread(), TableRefresh::Kernel));
}
