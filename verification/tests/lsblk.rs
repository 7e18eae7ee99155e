use blockdev::disk::Disk;
use blockdev::error::ErrorKind;
use blockdev::lsblk::split_lsblk_line;

/// Asserts that the line has exactly the given fields.
fn assert_fields(line: &str, expected: &[(&str, &str)]) {
    let fields = split_lsblk_line(line);
    assert_eq!(fields.len(), expected.len(), "fields of {}", line);
    for (key, value) in expected {
        assert_eq!(fields.get(key).map(|v| v.as_str()), Some(*value), "{} of {}", key, line);
    }
}

#[test]
fn lsblk_split() {
    assert_fields(r#"NAME="sda" LABEL="" FSTYPE="""#, &[("NAME", "sda")]);
    assert_fields(
        r#"NAME="sda1" LABEL="" FSTYPE="vfat""#,
        &[("NAME", "sda1"), ("FSTYPE", "vfat")],
    );
    assert_fields(
        r#"NAME="sda2" LABEL="boot" FSTYPE="ext4""#,
        &[("NAME", "sda2"), ("LABEL", "boot"), ("FSTYPE", "ext4")],
    );
    assert_fields(
        r#"NAME="sda3" LABEL="foo=\x22bar\x22 baz" FSTYPE="ext4""#,
        &[
            ("NAME", "sda3"),
            // hex escapes of lsblk are passed through
            ("LABEL", r#"foo=\x22bar\x22 baz"#),
            ("FSTYPE", "ext4"),
        ],
    );
}

#[test]
fn lines_without_pairs_have_no_fields() {
    assert_fields("", &[]);
    assert_fields("name=\"sda\"", &[]);
    assert_fields("NAME=sda", &[]);
    assert_fields("NAME=\"sda", &[]);
    assert_fields("=\"sda\"", &[]);
}

#[test]
fn pairs_are_found_as_far_left_as_possible() {
    // a key begins with the first capital letter or hyphen of its run
    assert_fields("xA-B=\"1\"", &[("A-B", "1")]);
    // a failed beginning does not hide a later pair
    assert_fields("A=B=\"1\"", &[("B", "1")]);
    // what one pair used is not looked at again
    assert_fields("A=\"B=\"C=\"1\"", &[("A", "B="), ("C", "1")]);
    // an empty value is no value, and its quotes begin none
    assert_fields("A=\"\"B=\"1\"", &[("B", "1")]);
}

#[test]
fn the_later_of_two_equal_keys_counts() {
    assert_fields("A=\"1\" A=\"2\"", &[("A", "2")]);
    assert_fields("A=\"1\" A=\"\"", &[("A", "1")]);
}

#[test]
fn characters_beyond_ascii_are_kept() {
    assert_fields("LABEL=\"größe\" NAME=\"/dev/sdä1\"", &[
        ("LABEL", "größe"),
        ("NAME", "/dev/sdä1"),
    ]);
}

#[test]
fn lsblk_command_is_the_one_for_older_versions() {
    let command = Disk::new("/dev/vda").lsblk_command();
    assert_eq!(command.program, "lsblk");
    assert_eq!(
        command.args,
        ["--pairs", "--paths", "--output", "NAME,LABEL,FSTYPE,TYPE,MOUNTPOINT", "/dev/vda"]
    );
}

#[test]
fn partitions_are_read_from_a_listing() {
    let listing = concat_lines(&[
        r#"NAME="/dev/sda" LABEL="" FSTYPE="" TYPE="disk" MOUNTPOINT="""#,
        r#"NAME="/dev/sda1" LABEL="boot" FSTYPE="ext4" TYPE="part" MOUNTPOINT="/boot""#,
        r#"NAME="/dev/sda2" LABEL="" FSTYPE="swap" TYPE="part" MOUNTPOINT="[SWAP]""#,
        r#"NAME="/dev/mapper/luks" LABEL="root" FSTYPE="xfs" TYPE="crypt" MOUNTPOINT="/""#,
        r#"LABEL="nameless" TYPE="part""#,
        r#"NAME="/dev/sda3" LABEL="" FSTYPE="" TYPE="part" MOUNTPOINT="""#,
    ]);
    let disk = Disk::new("/dev/sda");
    let partitions = disk.get_partitions(true, listing.into_bytes()).unwrap();
    assert_eq!(partitions.len(), 3);

    assert_eq!(partitions[0].path, "/dev/sda1");
    assert_eq!(partitions[0].label, Some("boot".to_string()));
    assert_eq!(partitions[0].fstype, Some("ext4".to_string()));
    assert_eq!(partitions[0].parent, "/dev/sda");
    assert_eq!(partitions[0].mountpoint, Some("/boot".to_string()));
    assert!(!partitions[0].swap);

    assert_eq!(partitions[1].path, "/dev/sda2");
    assert_eq!(partitions[1].label, None);
    assert_eq!(partitions[1].mountpoint, None);
    assert!(partitions[1].swap);

    assert_eq!(partitions[2].path, "/dev/sda3");
    assert_eq!(partitions[2].fstype, None);
    assert_eq!(partitions[2].mountpoint, None);
    assert!(!partitions[2].swap);
}

fn concat_lines(lines: &[&str]) -> String {
    let mut text = String::new();
    for line in lines {
        text.push_str(line);
        text.push('\n');
    }
    text
}

#[test]
fn listings_may_end_lines_in_other_ways() {
    let disk = Disk::new("/dev/sda");
    let listing = "NAME=\"a\" TYPE=\"part\"\r\n\nNAME=\"b\" TYPE=\"part\"";
    let partitions = disk.get_partitions(true, listing.as_bytes().to_vec()).unwrap();
    let paths: Vec<&str> = partitions.iter().map(|p| p.path.as_str()).collect();
    assert_eq!(paths, ["a", "b"]);
    assert!(disk.get_partitions(true, Vec::new()).unwrap().is_empty());
}

#[test]
fn a_failed_listing_is_an_error() {
    let error = Disk::new("/dev/sda").get_partitions(false, Vec::new()).unwrap_err();
    assert_eq!(error.kind, ErrorKind::CommandFailed);
    assert_eq!(error.text, "lsblk of /dev/sda failed");
}

#[test]
fn a_listing_that_is_no_text_is_an_error() {
    let error = Disk::new("/dev/sda").get_partitions(true, vec![0x41, 0xff]).unwrap_err();
    assert_eq!(error.kind, ErrorKind::Decoding);
    assert_eq!(error.text, "decoding lsblk output");
    let cause = String::from_utf8(vec![0x41, 0xff]).unwrap_err().to_string();
    assert_eq!(error.cause, Some(cause));
}

#[test]
fn written_lines_are_read_back() {
    let pairs = [("NAME", "/dev/sdb1"), ("LABEL", "a b=c"), ("FSTYPE", ""), ("PARTN-X", "7")];
    let line: Vec<String> = pairs.iter().map(|(k, v)| format!("{}=\"{}\"", k, v)).collect();
    assert_fields(&line.join(" "), &[pairs[0], pairs[1], pairs[3]]);
}

#[test]
fn written_listings_are_read_back() {
    let rows = [
        ("/dev/sda1", "EFI", "vfat", "", false),
        ("/dev/sda2", "", "swap", "", true),
        ("/dev/sda3", "a=b c", "xfs", "/var/lib/x", false),
        ("/dev/sda4", "", "", "", false),
    ];
    let lines: Vec<String> = rows
        .iter()
        .map(|(name, label, fstype, mountpoint, swap)| {
            let place = if *swap { "[SWAP]" } else { mountpoint };
            format!(
                "NAME=\"{}\" LABEL=\"{}\" FSTYPE=\"{}\" TYPE=\"part\" MOUNTPOINT=\"{}\"\n",
                name, label, fstype, place
            )
        })
        .collect();
    let found = Disk::new("/dev/sda").get_partitions(true, lines.concat().into_bytes()).unwrap();
    assert_eq!(found.len(), rows.len());
    let some = |text: &str| if text.is_empty() { None } else { Some(text.to_string()) };
    for (p, (name, label, fstype, mountpoint, swap)) in found.iter().zip(&rows) {
        assert_eq!(p.path, *name);
        assert_eq!(p.label, some(label));
        assert_eq!(p.fstype, some(fstype));
        assert_eq!(p.mountpoint, some(mountpoint));
        assert_eq!(p.swap, *swap);
        assert_eq!(p.parent, "/dev/sda");
    }
}

#[test]
fn fields_stand_in_their_line() {
    let line = "x=1 A=\"1\" junk B-=\"y z\"=\"q\" A=\"2\"";
    let fields = split_lsblk_line(line);
    assert_eq!(fields.len(), 2);
    for key in ["A", "B-"] {
        let written = format!("{}=\"{}\"", key, fields.get(key).unwrap());
        assert!(line.contains(&written), "{}", written);
    }
}

#[test]
fn a_later_part_of_a_line_overrides() {
    let first = "NAME=\"a\" LABEL=\"x\" TYPE=\"part\"";
    let second = "LABEL=\"y\" TYPE=\"\" FSTYPE=\"xfs\"";
    assert_fields(
        &format!("{} {}", first, second),
        &[("NAME", "a"), ("LABEL", "y"), ("TYPE", "part"), ("FSTYPE", "xfs")],
    );
    assert_fields(&format!(" {}", second), &[("LABEL", "y"), ("FSTYPE", "xfs")]);
}
