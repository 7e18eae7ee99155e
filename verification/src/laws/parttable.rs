//! What callers can rely on of device nodes.

use crate::command::{CommandLine, CommandRun};
use crate::error::{Error, ErrorKind, ErrorView};
use crate::parttable::{
    entry_outcomes, is_partition_name, listed_outcome, names_partition_of, settled, DirEntry,
    PartTable, PartTableKernel, PartTableKpartx, RefreshStep, SetUpStep, TableRefresh,
    SUFFIX_PATTERN,
};
use crate::path::file_name;
use crate::text::texts;
use vstd::prelude::*;

verus! {

/// The pattern of what follows the name of a disk: the letter p and any number of digits, but one at
/// least.
pub proof fn law_suffix_pattern()
    ensures
        SUFFIX_PATTERN@ == r"^p[0-9]+$"@,
{
}

/// A name is that of a partition exactly if it is the name of the disk, the letter p, and behind it
/// digits, at least one, and nothing else.
pub proof fn law_partition_names(expected: &str, found: &str, yes: bool)
    requires
        call_ensures(names_partition_of, (expected, found), yes),
    ensures
        yes <==> exists|digits: Seq<char>|
            found@ == #[trigger] (expected@ + seq!['p'] + digits) && digits.len() > 0
                && forall|i: int| 0 <= i < digits.len() ==> '0' <= #[trigger] digits[i] <= '9',
{
    let n = expected@.len() as int;
    if yes {
        let suffix = found@.subrange(n, found@.len() as int);
        let digits = suffix.subrange(1, suffix.len() as int);
        assert(found@ =~= expected@ + seq!['p'] + digits);
    }
    if exists|digits: Seq<char>|
        found@ == #[trigger] (expected@ + seq!['p'] + digits) && digits.len() > 0 && forall|i: int|
            0 <= i < digits.len() ==> '0' <= #[trigger] digits[i] <= '9' {
        let digits = choose|digits: Seq<char>|
            found@ == #[trigger] (expected@ + seq!['p'] + digits) && digits.len() > 0
                && forall|i: int| 0 <= i < digits.len() ==> '0' <= #[trigger] digits[i] <= '9';
        let suffix = found@.subrange(n, found@.len() as int);
        assert(found@.subrange(0, n) == expected@);
        assert(suffix == seq!['p'] + digits);
        assert(suffix.subrange(1, suffix.len() as int) == digits);
    }
}

/// Whether a name is that of a partition of a disk: the disk's name, the letter p, and digits.
pub open spec fn is_numbered(expected: Seq<char>, found: Seq<char>) -> bool {
    let n = expected.len() as int;
    &&& found.len() >= n + 2
    &&& expected.is_prefix_of(found)
    &&& found[n] == 'p'
    &&& forall|i: int| n < i < found.len() ==> '0' <= #[trigger] found[i] <= '9'
}

/// A numbered name is that of a partition.
proof fn lemma_numbered(expected: Seq<char>, found: Seq<char>)
    ensures
        is_numbered(expected, found) == is_partition_name(expected, found),
{
    let n = expected.len() as int;
    if n <= found.len() {
        let suffix = found.subrange(n, found.len() as int);
        assert(forall|i: int| 0 <= i < suffix.len() ==> #[trigger] suffix[i] == found[n + i]);
        if suffix.len() >= 2 {
            let digits = suffix.subrange(1, suffix.len() as int);
            assert(forall|i: int|
                0 <= i < digits.len() ==> #[trigger] digits[i] == found[n + 1 + i]);
            if is_partition_name(expected, found) {
                assert forall|i: int| n < i < found.len() implies '0' <= #[trigger] found[i]
                    <= '9' by {
                    assert(digits[i - n - 1] == found[i]);
                }
            }
        }
    }
}

/// How far a listing is read.
proof fn lemma_listed_names(
    expected: Seq<char>,
    entries: Seq<Result<Seq<char>, ErrorView>>,
    n: int,
)
    requires
        0 <= n <= entries.len(),
        forall|i: int|
            0 <= i < n ==> (#[trigger] entries[i]) is Ok && !is_partition_name(
                expected,
                entries[i]->Ok_0,
            ),
    ensures
        n == entries.len() ==> listed_outcome(expected, entries) == Ok::<bool, ErrorView>(false),
        n < entries.len() && entries[n] is Err ==> listed_outcome(expected, entries) == Err::<
            bool,
            ErrorView,
        >(entries[n]->Err_0),
        n < entries.len() && entries[n] is Ok && is_partition_name(expected, entries[n]->Ok_0)
            ==> listed_outcome(expected, entries) == Ok::<bool, ErrorView>(true),
    decreases n,
{
    if n > 0 {
        let rest = entries.drop_first();
        assert(forall|i: int| 0 <= i < rest.len() ==> #[trigger] rest[i] == entries[i + 1]);
        assert(entries[0] is Ok);
        lemma_listed_names(expected, rest, n - 1);
    }
}

/// Device nodes are there exactly if a name under `/dev/mapper` is that of a partition of the disk.
/// Names are read in their order: up to the first such name, or to the first that cannot be read,
/// at the index `n`, or to the end.
pub proof fn law_nodes_are_there_if_one_is_listed(
    path: &str,
    entries: Vec<DirEntry>,
    result: Result<bool, Error>,
    expected: Seq<char>,
    n: int,
)
    requires
        call_ensures(PartTableKpartx::already_set_up, (path, Ok(entries)), result),
        file_name(path@) == Some(expected),
        0 <= n <= entries@.len(),
        forall|i: int|
            0 <= i < n ==> ((#[trigger] entries@[i]) matches DirEntry::Named(name)
                && !is_numbered(expected, name@)),
        n < entries@.len() ==> !(entries@[n] matches DirEntry::Named(name) && !is_numbered(
            expected,
            name@,
        )),
    ensures
        n == entries@.len() ==> result == Ok::<bool, Error>(false),
        n < entries@.len() ==> match entries@[n] {
            DirEntry::Named(_) => result == Ok::<bool, Error>(true),
            DirEntry::Unreadable(said) => {
                &&& result matches Err(error)
                &&& error.kind == ErrorKind::System
                &&& error.text@ == "reading /dev/mapper entry"@
                &&& error.cause matches Some(cause)
                &&& cause@ == said@
            },
            DirEntry::NotText(shown) => {
                &&& result matches Err(error)
                &&& error.kind == ErrorKind::Decoding
                &&& error.text@ == "converting filename of "@ + shown@
            },
        },
{
    let names = entry_outcomes(entries@);
    assert(forall|i: int| 0 <= i < names.len() ==> #[trigger] names[i] == entries@[i].outcome());
    assert forall|i: int| 0 <= i < n implies (#[trigger] names[i]) is Ok && !is_partition_name(
        expected,
        names[i]->Ok_0,
    ) by {
        assert(entries@[i] matches DirEntry::Named(name) && !is_numbered(expected, name@));
        lemma_numbered(expected, names[i]->Ok_0);
    }
    if n < entries@.len() {
        assert(names[n] == entries@[n].outcome());
        if names[n] is Ok {
            lemma_numbered(expected, names[n]->Ok_0);
        }
    }
    lemma_listed_names(expected, names, n);
}

/// A disk whose path has no name, and a `/dev/mapper` that cannot be listed, are errors.
pub proof fn law_nodes_cannot_be_looked_for(
    path: &str,
    listing: Result<Vec<DirEntry>, String>,
    result: Result<bool, Error>,
)
    requires
        call_ensures(PartTableKpartx::already_set_up, (path, listing), result),
    ensures
        file_name(path@) is None ==> {
            &&& result matches Err(error)
            &&& error.kind == ErrorKind::NoFileName
            &&& error.text@ == "getting filename of "@ + path@
        },
        file_name(path@) is Some && listing is Err ==> {
            &&& result matches Err(error)
            &&& error.kind == ErrorKind::System
            &&& error.text@ == "listing /dev/mapper"@
            &&& error.cause matches Some(cause)
            &&& cause@ == listing->Err_0@
        },
{
}

/// `kpartx` is run with the flag, without waiting for udev, for the disk.
pub proof fn law_kpartx_commands(
    path: &str,
    listing: Result<Vec<DirEntry>, String>,
    table: PartTableKpartx,
    flag: &str,
    command: CommandLine,
)
    requires
        call_ensures(PartTableKpartx::new, (path, listing), Ok(table)),
        call_ensures(PartTableKpartx::run_kpartx, (&table, flag), command),
    ensures
        command.program@ == "kpartx"@,
        command.args@.len() == 3,
        command.args@[0]@ == flag@,
        command.args@[1]@ == "-n"@,
        command.args@[2]@ == path@,
{
    let args = texts(command.args@);
    assert(command@.args == args);
    assert(args.len() == command.args@.len());
    assert(args[0] == command.args@[0]@);
    assert(args[1] == command.args@[1]@);
    assert(args[2] == command.args@[2]@);
}

/// A table can be made exactly if it can be told whether there are nodes. Its nodes are updated
/// with `-u`, and in the end removed, with `-d`, exactly if there were none.
pub proof fn law_tables_update_and_remove_nodes(
    path: &str,
    listing: Result<Vec<DirEntry>, String>,
    there: Result<bool, Error>,
    made: Result<PartTableKpartx, Error>,
    update: TableRefresh,
    removal: Option<CommandLine>,
)
    requires
        call_ensures(PartTableKpartx::already_set_up, (path, listing), there),
        call_ensures(PartTableKpartx::new, (path, listing), made),
        made matches Ok(table) ==> call_ensures(
            <PartTableKpartx as PartTable>::reread,
            (&table,),
            update,
        ) && call_ensures(PartTableKpartx::teardown, (&table,), removal),
    ensures
        there is Ok <==> made is Ok,
        there matches Err(error) ==> made->Err_0@ == error@,
        made is Ok ==> {
            &&& update matches TableRefresh::Run(command)
            &&& command.program@ == "kpartx"@
            &&& command.args@.len() == 3
            &&& command.args@[0]@ == "-u"@
            &&& command.args@[1]@ == "-n"@
            &&& command.args@[2]@ == path@
        },
        there matches Ok(found) ==> {
            &&& removal is Some <==> !found
            &&& removal matches Some(command) ==> {
                &&& command.program@ == "kpartx"@
                &&& command.args@.len() == 3
                &&& command.args@[0]@ == "-d"@
                &&& command.args@[1]@ == "-n"@
                &&& command.args@[2]@ == path@
            }
        },
{
    if made is Ok {
        if let TableRefresh::Run(command) = update {
            let args = texts(command.args@);
            assert(command@.args == args);
            assert(args.len() == command.args@.len());
            assert(args[0] == command.args@[0]@);
            assert(args[1] == command.args@[1]@);
            assert(args[2] == command.args@[2]@);
        }
        if let Some(command) = removal {
            let args = texts(command.args@);
            assert(command@.args == args);
            assert(args.len() == command.args@.len());
            assert(args[0] == command.args@[0]@);
            assert(args[1] == command.args@[1]@);
            assert(args[2] == command.args@[2]@);
        }
    }
}

/// A run of `kpartx` that succeeded is followed by waiting for udev; one that failed by copying out
/// its standard error; one that could not be run by nothing.
pub proof fn law_what_follows_kpartx(
    path: &str,
    listing: Result<Vec<DirEntry>, String>,
    table: PartTableKpartx,
    flag: &str,
    run: Result<CommandRun, String>,
    step: RefreshStep,
)
    requires
        call_ensures(PartTableKpartx::new, (path, listing), Ok(table)),
        call_ensures(PartTableKpartx::kpartx_finished, (&table, flag, run), step),
    ensures
        match run {
            Ok(ended) => if ended.success {
                step == RefreshStep::Settle
            } else {
                &&& step matches RefreshStep::CopyStderr(error)
                &&& error.kind == ErrorKind::CommandFailed
                &&& error.text@ == "kpartx "@ + flag@ + " "@ + path@ + " failed: "@
                    + ended.status@
            },
            Err(said) => {
                &&& step matches RefreshStep::Done(Err(error))
                &&& error.kind == ErrorKind::System
                &&& error.text@ == "running kpartx "@ + flag@ + " "@ + path@
                &&& error.cause matches Some(cause)
                &&& cause@ == said@
            },
        },
{
}

/// A partition table that the kernel reread is followed by waiting for udev, and that decides; one
/// that it did not is an error at once.
pub proof fn law_what_follows_a_reread(
    path: &str,
    table: PartTableKernel,
    work: TableRefresh,
    reread: Result<(), Error>,
    settling: Result<(), Error>,
    step: RefreshStep,
    last: RefreshStep,
)
    requires
        call_ensures(PartTableKernel::new, (path,), table),
        call_ensures(<PartTableKernel as PartTable>::reread, (&table,), work),
        call_ensures(PartTableKernel::table_reread, (&table, reread), step),
        call_ensures(settled, (settling,), last),
    ensures
        table.path@ == path@,
        work == TableRefresh::Kernel,
        reread is Ok <==> step == RefreshStep::Settle,
        reread matches Err(error) ==> (step matches RefreshStep::Done(Err(e)) && e@ == error@),
        settling is Ok <==> (last matches RefreshStep::Done(Ok(_))),
        settling matches Err(error) ==> (last matches RefreshStep::Done(Err(e)) && e@ == error@),
{
}

/// A table whose first refresh succeeded is ready. Where it failed, that error stands, and what
/// would be run in the end is run now, if anything.
pub proof fn law_failed_tables_are_torn_down(
    table: PartTableKpartx,
    refreshed: Result<(), Error>,
    step: SetUpStep,
    removal: Option<CommandLine>,
)
    requires
        call_ensures(PartTableKpartx::set_up, (table, refreshed), step),
        call_ensures(PartTableKpartx::teardown, (&table,), removal),
    ensures
        refreshed is Ok <==> step is Ready,
        step matches SetUpStep::Ready(ready) ==> ready@ == table@,
        refreshed matches Err(error) ==> match removal {
            Some(command) => {
                &&& step matches SetUpStep::TearDown { table: made, command: run, error: e }
                &&& made@ == table@
                &&& run@ == command@
                &&& e@ == error@
            },
            None => step matches SetUpStep::Failed(e) && e@ == error@,
        },
{
}

/// A failure to remove nodes is told in its own words.
pub proof fn law_failed_removals_are_told(
    table: PartTableKpartx,
    result: Result<(), Error>,
    report: Option<String>,
)
    requires
        call_ensures(PartTableKpartx::torn_down, (&table, result), report),
    ensures
        report is Some <==> result is Err,
        result matches Err(error) ==> report->Some_0@ == error.text@,
{
}

} // verus!
