//! A partition of a disk, as the system describes it.

use crate::error::{plain_error, text_outcome, texts_outcome, Error, ErrorKind, ErrorView};
use crate::path::{file_name, join, joined, name_of};
use crate::text::{optional_text, read_text, texts};
use vstd::prelude::*;

verus! {

/// A partition: its device node, what is on it, and the disk that it is part of.
#[derive(Debug)]
pub struct Partition {
    pub path: String,
    pub label: Option<String>,
    pub fstype: Option<String>,
    pub parent: String,
    pub mountpoint: Option<String>,
    pub swap: bool,
}

/// The mathematical value of a [`Partition`].
#[verifier::ext_equal]
pub struct PartitionView {
    pub path: Seq<char>,
    pub label: Option<Seq<char>>,
    pub fstype: Option<Seq<char>>,
    pub parent: Seq<char>,
    pub mountpoint: Option<Seq<char>>,
    pub swap: bool,
}

impl View for Partition {
    type V = PartitionView;

    open spec fn view(&self) -> PartitionView {
        PartitionView {
            path: self.path@,
            label: optional_text(self.label),
            fstype: optional_text(self.fstype),
            parent: self.parent@,
            mountpoint: optional_text(self.mountpoint),
            swap: self.swap,
        }
    }
}

/// The values of a list of partitions.
pub open spec fn partition_views(partitions: Seq<Partition>) -> Seq<PartitionView> {
    partitions.map_values(|p: Partition| p@)
}

/// Where the kernel keeps a directory for every block device.
pub const SYSFS_BLOCK: &'static str = "/sys/block";

/// The device nodes of holders with these names.
pub open spec fn device_nodes(names: Seq<Seq<char>>) -> Seq<Seq<char>> {
    names.map_values(|name: Seq<char>| "/dev/"@ + name)
}

/// The names of a list up to its end, or what the system said of the first that could not be read.
pub open spec fn all_names(entries: Seq<Result<Seq<char>, Seq<char>>>) -> Result<
    Seq<Seq<char>>,
    Seq<char>,
>
    decreases entries.len(),
{
    if entries.len() == 0 {
        Ok(Seq::empty())
    } else {
        match all_names(entries.drop_last()) {
            Err(cause) => Err(cause),
            Ok(names) => match entries.last() {
                Ok(name) => Ok(names.push(name)),
                Err(cause) => Err(cause),
            },
        }
    }
}

/// A name that could not be read stays the first of its kind however the list goes on.
proof fn lemma_first_failure_stays(entries: Seq<Result<Seq<char>, Seq<char>>>, n: int)
    requires
        0 <= n <= entries.len(),
        all_names(entries.take(n)) is Err,
    ensures
        all_names(entries) == all_names(entries.take(n)),
    decreases entries.len() - n,
{
    if n < entries.len() {
        assert(entries.take(n + 1).drop_last() == entries.take(n));
        lemma_first_failure_stays(entries, n + 1);
    } else {
        assert(entries.take(n) == entries);
    }
}

/// The values of a list of names, each or what the system said instead.
pub open spec fn read_names(entries: Seq<Result<String, String>>) -> Seq<
    Result<Seq<char>, Seq<char>>,
> {
    entries.map_values(|entry: Result<String, String>| read_text(entry))
}

/// The value of a directory's listing, or what the system said instead.
pub open spec fn read_listing(listing: Result<Vec<Result<String, String>>, String>) -> Result<
    Seq<Result<Seq<char>, Seq<char>>>,
    Seq<char>,
> {
    match listing {
        Ok(entries) => Ok(read_names(entries@)),
        Err(cause) => Err(cause@),
    }
}

/// The device nodes of what holds a partition, given what listing its holders directory `dir`
/// gave.
pub open spec fn holders_outcome(
    dir: Seq<char>,
    listing: Result<Seq<Result<Seq<char>, Seq<char>>>, Seq<char>>,
) -> Result<Seq<Seq<char>>, ErrorView> {
    match listing {
        Err(cause) => Err(
            ErrorView { kind: ErrorKind::System, text: "reading "@ + dir, cause: Some(cause) },
        ),
        Ok(entries) => match all_names(entries) {
            Err(cause) => Err(
                ErrorView {
                    kind: ErrorKind::System,
                    text: "reading "@ + dir + " entry"@,
                    cause: Some(cause),
                },
            ),
            Ok(names) => Ok(device_nodes(names)),
        },
    }
}

/// A directory that may be the one of the partition. It is `linked` if the name comes from the
/// target of a symbolic link rather than from the partition itself.
#[derive(Debug)]
pub struct DirSearch {
    pub dir: String,
    pub linked: bool,
}

/// What the search for the directory of a partition needs next, or what it came to.
#[derive(Debug)]
pub enum SysfsStep {
    /// Whether the directory exists; [`Partition::dir_checked`] goes on with the answer.
    CheckDir(DirSearch),
    /// Where the path of the partition leads, and whether it is a symbolic link;
    /// [`Partition::link_resolved`] goes on with the answer.
    ResolveLink,
    /// Nothing: the search is over.
    Done(Result<String, Error>),
}

/// The mathematical value of a [`SysfsStep`].
pub enum SysfsStepView {
    CheckDir { dir: Seq<char>, linked: bool },
    ResolveLink,
    Done(Result<Seq<char>, ErrorView>),
}

impl View for SysfsStep {
    type V = SysfsStepView;

    open spec fn view(&self) -> SysfsStepView {
        match *self {
            SysfsStep::CheckDir(search) => SysfsStepView::CheckDir {
                dir: search.dir@,
                linked: search.linked,
            },
            SysfsStep::ResolveLink => SysfsStepView::ResolveLink,
            SysfsStep::Done(result) => SysfsStepView::Done(text_outcome(result)),
        }
    }
}

/// What resolving a link gave: the target and whether there was a link.
pub open spec fn link_outcome(
    link: Result<(String, bool), Error>,
) -> Result<(Seq<char>, bool), ErrorView> {
    match link {
        Ok((target, is_link)) => Ok((target@, is_link)),
        Err(error) => Err(error@),
    }
}

impl PartitionView {
    /// The error that the partition has no directory.
    pub open spec fn no_sysfs_dir(self) -> ErrorView {
        plain_error(
            ErrorKind::NoSysfsDirectory,
            "couldn't find /sys/block directory for partition "@ + self.path + " of "@
                + self.parent,
        )
    }

    /// How the search for the directory begins: with the directory of a regular partition, which
    /// has its own name in the directory of the disk.
    pub open spec fn first_step(self) -> SysfsStepView {
        match file_name(self.parent) {
            None => SysfsStepView::Done(
                Err(
                    plain_error(
                        ErrorKind::NoFileName,
                        "parent "@ + self.parent + " has no filename"@,
                    ),
                ),
            ),
            Some(disk) => match file_name(self.path) {
                None => SysfsStepView::Done(
                    Err(
                        plain_error(
                            ErrorKind::NoFileName,
                            "path "@ + self.path + " has no filename"@,
                        ),
                    ),
                ),
                Some(name) => SysfsStepView::CheckDir {
                    dir: joined(joined(SYSFS_BLOCK@, disk), name),
                    linked: false,
                },
            },
        }
    }

    /// How the search goes on when it is known whether a directory exists.
    pub open spec fn step_after_check(
        self,
        dir: Seq<char>,
        linked: bool,
        exists_there: bool,
    ) -> SysfsStepView {
        if exists_there {
            SysfsStepView::Done(Ok(dir))
        } else if linked {
            SysfsStepView::Done(Err(self.no_sysfs_dir()))
        } else {
            SysfsStepView::ResolveLink
        }
    }

    /// How the search goes on when it is known where the path of the partition leads: a link is
    /// taken for one to a device without partitions, which has a directory under its own name.
    pub open spec fn step_after_link(
        self,
        link: Result<(Seq<char>, bool), ErrorView>,
    ) -> SysfsStepView {
        match link {
            Err(error) => SysfsStepView::Done(Err(error)),
            Ok((target, is_link)) => if !is_link {
                SysfsStepView::Done(Err(self.no_sysfs_dir()))
            } else {
                match file_name(target) {
                    None => SysfsStepView::Done(
                        Err(
                            plain_error(
                                ErrorKind::NoFileName,
                                "target "@ + target + " has no filename"@,
                            ),
                        ),
                    ),
                    Some(name) => SysfsStepView::CheckDir {
                        dir: joined(SYSFS_BLOCK@, name),
                        linked: true,
                    },
                }
            },
        }
    }

    /// What the search comes to from `step` on, where `there` says which directories exist and
    /// `link` is what resolving the path of the partition gives.
    pub open spec fn search_from(
        self,
        step: SysfsStepView,
        there: spec_fn(Seq<char>) -> bool,
        link: Result<(Seq<char>, bool), ErrorView>,
    ) -> Result<Seq<char>, ErrorView>
        decreases
                match step {
                    SysfsStepView::CheckDir { dir, linked } => if linked {
                        1int
                    } else {
                        3int
                    },
                    SysfsStepView::ResolveLink => 2int,
                    SysfsStepView::Done(result) => 0int,
                },
    {
        match step {
            SysfsStepView::CheckDir { dir, linked } => self.search_from(
                self.step_after_check(dir, linked, there(dir)),
                there,
                link,
            ),
            SysfsStepView::ResolveLink => self.search_from(
                self.step_after_link(link),
                there,
                link,
            ),
            SysfsStepView::Done(result) => result,
        }
    }
}

impl Partition {
    /// The directory that lists what holds a partition, in its directory `sysfs_dir`.
    pub fn holders_dir(sysfs_dir: &str) -> (dir: String)
        ensures
            dir@ == joined(sysfs_dir@, "holders"@),
    {
        join(sysfs_dir, "holders")
    }

    /// The device nodes of what holds a partition, from the names in its holders directory `dir`,
    /// each or what the system said instead. The first name that could not be read decides.
    pub fn get_holders(
        dir: &str,
        listing: Result<Vec<Result<String, String>>, String>,
    ) -> (result: Result<Vec<String>, Error>)
        ensures
            texts_outcome(result) == holders_outcome(dir@, read_listing(listing)),
    {
        let entries: Vec<Result<String, String>> = match listing {
            Ok(entries) => entries,
            Err(cause) => {
                let mut text: String = "reading ".to_owned();
                text.append(dir);
                return Err(Error::with_cause(ErrorKind::System, text, cause));
            },
        };
        let ghost all = read_names(entries@);
        let ghost mut done: int = 0;
        let mut holders: Vec<String> = Vec::new();
        let ghost mut names: Seq<Seq<char>> = Seq::empty();
        proof {
            assert(all.take(0) == Seq::<Result<Seq<char>, Seq<char>>>::empty());
            assert(texts(holders@) == device_nodes(names));
        }
        for entry in it: entries
            invariant
                it.seq() == entries@,
                done == it.index(),
                all == read_names(entries@),
                read_listing(listing) == Ok::<
                    Seq<Result<Seq<char>, Seq<char>>>,
                    Seq<char>,
                >(all),
                all_names(all.take(done)) == Ok::<Seq<Seq<char>>, Seq<char>>(names),
                texts(holders@) == device_nodes(names),
        {
            proof {
                assert(all.take(done + 1).drop_last() == all.take(done));
                assert(all.take(done + 1).last() == read_text(entry));
            }
            match entry {
                Ok(name) => {
                    let mut node: String = "/dev/".to_owned();
                    node.append(name.as_str());
                    let ghost before = holders@;
                    holders.push(node);
                    proof {
                        assert(texts(holders@) == texts(before).push(node@));
                        assert(device_nodes(names.push(name@)) == device_nodes(names).push(
                            node@,
                        ));
                        names = names.push(name@);
                    }
                },
                Err(cause) => {
                    proof {
                        lemma_first_failure_stays(all, done + 1);
                    }
                    let mut text: String = "reading ".to_owned();
                    text.append(dir);
                    text.append(" entry");
                    return Err(Error::with_cause(ErrorKind::System, text, cause));
                },
            }
            proof {
                done = done + 1;
            }
        }
        assert(all.take(done) == all);
        Ok(holders)
    }

    /// Begins the search for the directory of the partition under `/sys/block`.
    pub fn get_sysfs_dir(&self) -> (step: SysfsStep)
        ensures
            step@ == self@.first_step(),
    {
        let disk: String = match name_of(self.parent.as_str()) {
            Some(disk) => disk,
            None => {
                let mut text: String = "parent ".to_owned();
                text.append(self.parent.as_str());
                text.append(" has no filename");
                return SysfsStep::Done(Err(Error::new(ErrorKind::NoFileName, text)));
            },
        };
        let name: String = match name_of(self.path.as_str()) {
            Some(name) => name,
            None => {
                let mut text: String = "path ".to_owned();
                text.append(self.path.as_str());
                text.append(" has no filename");
                return SysfsStep::Done(Err(Error::new(ErrorKind::NoFileName, text)));
            },
        };
        let disk_dir: String = join(SYSFS_BLOCK, disk.as_str());
        SysfsStep::CheckDir(
            DirSearch { dir: join(disk_dir.as_str(), name.as_str()), linked: false },
        )
    }

    /// The error that the partition has no directory.
    fn sysfs_dir_missing(&self) -> (error: Error)
        ensures
            error@ == self@.no_sysfs_dir(),
    {
        let mut text: String = "couldn't find /sys/block directory for partition ".to_owned();
        text.append(self.path.as_str());
        text.append(" of ");
        text.append(self.parent.as_str());
        Error::new(ErrorKind::NoSysfsDirectory, text)
    }

    /// Goes on with the search when it is known whether the directory exists.
    pub fn dir_checked(&self, search: DirSearch, exists_there: bool) -> (step: SysfsStep)
        ensures
            step@ == self@.step_after_check(search.dir@, search.linked, exists_there),
    {
        if exists_there {
            SysfsStep::Done(Ok(search.dir))
        } else if search.linked {
            SysfsStep::Done(Err(self.sysfs_dir_missing()))
        } else {
            SysfsStep::ResolveLink
        }
    }

    /// Goes on with the search when it is known where the path of the partition leads.
    pub fn link_resolved(&self, link: Result<(String, bool), Error>) -> (step: SysfsStep)
        ensures
            step@ == self@.step_after_link(link_outcome(link)),
    {
        match link {
            Err(error) => SysfsStep::Done(Err(error)),
            Ok((target, is_link)) => {
                if !is_link {
                    return SysfsStep::Done(Err(self.sysfs_dir_missing()));
                }
                match name_of(target.as_str()) {
                    None => {
                        let mut text: String = "target ".to_owned();
                        text.append(target.as_str());
                        text.append(" has no filename");
                        SysfsStep::Done(Err(Error::new(ErrorKind::NoFileName, text)))
                    },
                    Some(name) => SysfsStep::CheckDir(
                        DirSearch { dir: join(SYSFS_BLOCK, name.as_str()), linked: true },
                    ),
                }
            },
        }
    }
}

/// A regular partition's directory is taken where it exists, wherever the path of the partition
/// leads.
pub proof fn law_regular_directory_comes_first(
    p: PartitionView,
    there: spec_fn(Seq<char>) -> bool,
    link: Result<(Seq<char>, bool), ErrorView>,
)
    requires
        file_name(p.parent) is Some,
        file_name(p.path) is Some,
        there(
            joined(
                joined(SYSFS_BLOCK@, file_name(p.parent).unwrap()),
                file_name(p.path).unwrap(),
            ),
        ),
    ensures
        p.search_from(p.first_step(), there, link) == Ok::<Seq<char>, ErrorView>(
            joined(
                joined(SYSFS_BLOCK@, file_name(p.parent).unwrap()),
                file_name(p.path).unwrap(),
            ),
        ),
{
    reveal_with_fuel(PartitionView::search_from, 4);
}

/// Where a regular partition's directory does not exist and the path of the partition is a link,
/// the directory with the name of the link's target is taken, if it exists.
pub proof fn law_linked_directory_comes_second(
    p: PartitionView,
    there: spec_fn(Seq<char>) -> bool,
    target: Seq<char>,
)
    requires
        file_name(p.parent) is Some,
        file_name(p.path) is Some,
        !there(
            joined(
                joined(SYSFS_BLOCK@, file_name(p.parent).unwrap()),
                file_name(p.path).unwrap(),
            ),
        ),
        file_name(target) is Some,
        there(joined(SYSFS_BLOCK@, file_name(target).unwrap())),
    ensures
        p.search_from(p.first_step(), there, Ok((target, true))) == Ok::<Seq<char>, ErrorView>(
            joined(SYSFS_BLOCK@, file_name(target).unwrap()),
        ),
{
    reveal_with_fuel(PartitionView::search_from, 4);
}

/// The search never comes to a directory that does not exist.
pub proof fn law_found_directory_exists(
    p: PartitionView,
    there: spec_fn(Seq<char>) -> bool,
    link: Result<(Seq<char>, bool), ErrorView>,
)
    ensures
        p.search_from(p.first_step(), there, link) matches Ok(dir) ==> there(dir),
{
    reveal_with_fuel(PartitionView::search_from, 4);
}

} // verus!
