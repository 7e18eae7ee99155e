//! What callers can rely on of partitions, their directories and their holders.

use crate::error::{Error, ErrorKind};
use crate::gpt::GptPart;
use crate::partition::{
    all_names, device_nodes, read_names, DirSearch, Partition, SysfsStep,
};
use crate::path::file_name;
use crate::table::GptEntry;
use crate::text::{read_text, texts};
use vstd::prelude::*;

verus! {

/// What stands for a partition, a slot and a saved partition are their fields, each as it is.
pub proof fn law_values_are_the_fields(p: Partition, entry: GptEntry, part: GptPart)
    ensures
        p@.path == p.path@,
        p@.parent == p.parent@,
        p@.swap == p.swap,
        p@.label is Some <==> p.label is Some,
        p.label matches Some(label) ==> p@.label == Some(label@),
        p@.fstype is Some <==> p.fstype is Some,
        p.fstype matches Some(fstype) ==> p@.fstype == Some(fstype@),
        p@.mountpoint is Some <==> p.mountpoint is Some,
        p.mountpoint matches Some(mountpoint) ==> p@.mountpoint == Some(mountpoint@),
        entry@.partition_type_guid == entry.partition_type_guid@,
        entry@.unique_partition_guid == entry.unique_partition_guid@,
        entry@.starting_lba == entry.starting_lba,
        entry@.ending_lba == entry.ending_lba,
        entry@.attribute_bits == entry.attribute_bits,
        entry@.partition_name == entry.partition_name@,
        part@.idx == part.idx,
        part@.partition_type == part.partition_type@,
        part@.guid == part.guid@,
        part@.start_lba == part.start_lba,
        part@.end_lba == part.end_lba,
        part@.attributes == part.attributes,
        part@.name == part.name@,
{
}

/// The search for the directory of a partition begins under the names of the disk and of the
/// partition itself, each the file name of its path.
pub proof fn law_search_begins_with_both_names(p: Partition, step: SysfsStep)
    requires
        call_ensures(Partition::get_sysfs_dir, (&p,), step),
    ensures
        match (file_name(p.parent@), file_name(p.path@)) {
            (None, _) => {
                &&& step matches SysfsStep::Done(Err(error))
                &&& error.kind == ErrorKind::NoFileName
                &&& error.text@ == "parent "@ + p.parent@ + " has no filename"@
            },
            (Some(_), None) => {
                &&& step matches SysfsStep::Done(Err(error))
                &&& error.kind == ErrorKind::NoFileName
                &&& error.text@ == "path "@ + p.path@ + " has no filename"@
            },
            (Some(disk), Some(name)) => {
                &&& step matches SysfsStep::CheckDir(search)
                &&& !search.linked
                &&& search.dir@ == "/sys/block"@ + "/"@ + disk + "/"@ + name
            },
        },
{
}

/// A directory that exists is the one; one that does not leaves the link of the partition to look
/// at, or nothing.
pub proof fn law_existing_directories_are_taken(
    p: Partition,
    search: DirSearch,
    exists_there: bool,
    step: SysfsStep,
)
    requires
        call_ensures(Partition::dir_checked, (&p, search, exists_there), step),
    ensures
        exists_there ==> (step matches SysfsStep::Done(Ok(dir)) && dir@ == search.dir@),
        !exists_there && !search.linked ==> step == SysfsStep::ResolveLink,
        !exists_there && search.linked ==> {
            &&& step matches SysfsStep::Done(Err(error))
            &&& error.kind == ErrorKind::NoSysfsDirectory
            &&& error.text@ == "couldn't find /sys/block directory for partition "@ + p.path@
                + " of "@ + p.parent@
        },
{
}

/// A link leads to the directory with the name of its target; without a link there is none.
pub proof fn law_links_lead_to_directories(
    p: Partition,
    link: Result<(String, bool), Error>,
    step: SysfsStep,
)
    requires
        call_ensures(Partition::link_resolved, (&p, link), step),
    ensures
        match link {
            Err(said) => step matches SysfsStep::Done(Err(error)) && error@ == said@,
            Ok((target, is_link)) => if !is_link {
                &&& step matches SysfsStep::Done(Err(error))
                &&& error.kind == ErrorKind::NoSysfsDirectory
                &&& error.text@ == "couldn't find /sys/block directory for partition "@ + p.path@
                    + " of "@ + p.parent@
            } else {
                match file_name(target@) {
                    Some(name) => {
                        &&& step matches SysfsStep::CheckDir(search)
                        &&& search.linked
                        &&& search.dir@ == "/sys/block"@ + "/"@ + name
                    },
                    None => {
                        &&& step matches SysfsStep::Done(Err(error))
                        &&& error.kind == ErrorKind::NoFileName
                        &&& error.text@ == "target "@ + target@ + " has no filename"@
                    },
                }
            },
        },
{
}

/// Holders are listed in the directory `holders`.
pub proof fn law_holders_directory(sysfs_dir: &str, dir: String)
    requires
        call_ensures(Partition::holders_dir, (sysfs_dir,), dir),
    ensures
        dir@ == sysfs_dir@ + "/"@ + "holders"@,
{
}

/// The names of a list, where all can be read or the entry `bad` is the first that cannot.
proof fn lemma_names(entries: Seq<Result<Seq<char>, Seq<char>>>, bad: int)
    requires
        0 <= bad <= entries.len(),
        forall|i: int| 0 <= i < bad ==> (#[trigger] entries[i]) is Ok,
        bad < entries.len() ==> entries[bad] is Err,
    ensures
        bad == entries.len() ==> (all_names(entries) matches Ok(names) && names.len()
            == entries.len() && forall|i: int|
            0 <= i < names.len() ==> #[trigger] names[i] == entries[i]->Ok_0),
        bad < entries.len() ==> all_names(entries) == Err::<Seq<Seq<char>>, Seq<char>>(
            entries[bad]->Err_0,
        ),
    decreases entries.len(),
{
    if entries.len() > 0 {
        let front = entries.drop_last();
        assert(forall|i: int| 0 <= i < front.len() ==> #[trigger] front[i] == entries[i]);
        if bad < front.len() {
            lemma_names(front, bad);
        } else {
            lemma_names(front, front.len() as int);
        }
        assert(entries.last() == entries[entries.len() - 1]);
    }
}

/// Every name in the holders directory is a device under `/dev`, in their order.
pub proof fn law_every_holder_is_a_device(
    dir: &str,
    entries: Vec<Result<String, String>>,
    result: Result<Vec<String>, Error>,
)
    requires
        call_ensures(Partition::get_holders, (dir, Ok(entries)), result),
        forall|i: int| 0 <= i < entries@.len() ==> (#[trigger] entries@[i]) is Ok,
    ensures
        result matches Ok(holders) && holders@.len() == entries@.len() && forall|i: int|
            0 <= i < holders@.len() ==> (#[trigger] holders@[i])@ == "/dev/"@
                + entries@[i]->Ok_0@,
{
    let names = read_names(entries@);
    assert forall|i: int| 0 <= i < names.len() implies (#[trigger] names[i]) is Ok by {
        assert(names[i] == read_text(entries@[i]));
    }
    lemma_names(names, names.len() as int);
    let holders = result->Ok_0;
    assert(texts(holders@).len() == holders@.len());
    assert forall|i: int| 0 <= i < holders@.len() implies (#[trigger] holders@[i])@ == "/dev/"@
        + entries@[i]->Ok_0@ by {
        assert(texts(holders@)[i] == holders@[i]@);
        assert(device_nodes(all_names(names)->Ok_0)[i] == "/dev/"@ + all_names(names)->Ok_0[i]);
        assert(names[i] == read_text(entries@[i]));
    }
}

/// A holders directory that cannot be read, and the first name in it that cannot, are errors.
pub proof fn law_unreadable_holders_are_errors(
    dir: &str,
    listing: Result<Vec<Result<String, String>>, String>,
    result: Result<Vec<String>, Error>,
    bad: int,
)
    requires
        call_ensures(Partition::get_holders, (dir, listing), result),
        listing matches Ok(entries) ==> {
            &&& 0 <= bad < entries@.len()
            &&& entries@[bad] is Err
            &&& forall|i: int| 0 <= i < bad ==> (#[trigger] entries@[i]) is Ok
        },
    ensures
        result matches Err(error) && error.kind == ErrorKind::System && match listing {
            Err(said) => {
                &&& error.text@ == "reading "@ + dir@
                &&& error.cause matches Some(cause)
                &&& cause@ == said@
            },
            Ok(entries) => {
                &&& error.text@ == "reading "@ + dir@ + " entry"@
                &&& error.cause matches Some(cause)
                &&& cause@ == entries@[bad]->Err_0@
            },
        },
{
    if let Ok(entries) = listing {
        let names = read_names(entries@);
        assert(forall|i: int|
            0 <= i < names.len() ==> #[trigger] names[i] == read_text(entries@[i]));
        assert forall|i: int| 0 <= i < bad implies (#[trigger] names[i]) is Ok by {
            assert(entries@[i] is Ok);
        }
        lemma_names(names, bad);
    }
}

} // verus!
