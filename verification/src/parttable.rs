//! The device nodes of a disk's partitions, and who keeps them up to date.

use crate::command::{run_outcome, CommandLine, CommandLineView, CommandRun, CommandRunView};
use crate::error::{outcome, plain_error, text_outcome, Error, ErrorKind, ErrorView};
use crate::number::{all_digits, decimal, lemma_decimal};
use crate::path::{file_name, name_of};
use crate::text::{begins_with, starts_with};
use regex::Regex;
use vstd::prelude::*;

verus! {

/// What brings device nodes up to date.
#[derive(Debug)]
pub enum TableRefresh {
    /// Having the kernel reread the partition table, and waiting for udev.
    Kernel,
    /// Running a command, and waiting for udev.
    Run(CommandLine),
}

/// The mathematical value of a [`TableRefresh`].
pub enum TableRefreshView {
    Kernel,
    Run(CommandLineView),
}

impl View for TableRefresh {
    type V = TableRefreshView;

    open spec fn view(&self) -> TableRefreshView {
        match *self {
            TableRefresh::Kernel => TableRefreshView::Kernel,
            TableRefresh::Run(command) => TableRefreshView::Run(command@),
        }
    }
}

/// What a refresh of device nodes needs after the reread or the command, or what it came to.
#[derive(Debug)]
pub enum RefreshStep {
    /// Waiting for udev; [`settled`] goes on with what came of it.
    Settle,
    /// Copying out what the command wrote to its standard error. Then the refresh is over, with
    /// this error.
    CopyStderr(Error),
    /// Nothing: the refresh is over.
    Done(Result<(), Error>),
}

/// The mathematical value of a [`RefreshStep`].
pub enum RefreshStepView {
    Settle,
    CopyStderr(ErrorView),
    Done(Result<(), ErrorView>),
}

impl View for RefreshStep {
    type V = RefreshStepView;

    open spec fn view(&self) -> RefreshStepView {
        match *self {
            RefreshStep::Settle => RefreshStepView::Settle,
            RefreshStep::CopyStderr(error) => RefreshStepView::CopyStderr(error@),
            RefreshStep::Done(result) => RefreshStepView::Done(outcome(result)),
        }
    }
}

/// How a refresh goes on when the kernel has reread the partition table or failed to: udev is
/// waited for after a success only.
pub open spec fn step_after_reread(reread: Result<(), ErrorView>) -> RefreshStepView {
    match reread {
        Ok(_) => RefreshStepView::Settle,
        Err(error) => RefreshStepView::Done(Err(error)),
    }
}

/// How a refresh goes on when udev has been waited for: that decides.
pub open spec fn step_after_settling(settling: Result<(), ErrorView>) -> RefreshStepView {
    RefreshStepView::Done(settling)
}

/// Goes on with a refresh when udev has been waited for.
pub fn settled(settling: Result<(), Error>) -> (step: RefreshStep)
    ensures
        step@ == step_after_settling(outcome(settling)),
{
    RefreshStep::Done(settling)
}

/// A handle to the set of device nodes for the partitions of a disk. It must be held as long as
/// the device nodes are needed; they might be removed with it.
pub trait PartTable {
    /// What brings the device nodes up to date.
    spec fn refresh(&self) -> TableRefreshView;

    /// What brings the device nodes up to date with the partition table.
    fn reread(&self) -> (work: TableRefresh)
        ensures
            work@ == self.refresh(),
    ;
}

/// Device nodes of a disk that the kernel can partition, kept by the kernel.
#[derive(Debug)]
pub struct PartTableKernel {
    pub path: String,
}

impl PartTableKernel {
    /// The device nodes of the disk at `path`.
    pub fn new(path: &str) -> (table: Self)
        ensures
            table.path@ == path@,
    {
        PartTableKernel { path: path.to_owned() }
    }

    /// Goes on with a refresh when the kernel has reread the partition table or failed to.
    pub fn table_reread(&self, reread: Result<(), Error>) -> (step: RefreshStep)
        ensures
            step@ == step_after_reread(outcome(reread)),
    {
        match reread {
            Ok(_) => RefreshStep::Settle,
            Err(error) => RefreshStep::Done(Err(error)),
        }
    }
}

impl PartTable for PartTableKernel {
    open spec fn refresh(&self) -> TableRefreshView {
        TableRefreshView::Kernel
    }

    fn reread(&self) -> (work: TableRefresh) {
        TableRefresh::Kernel
    }
}

/// Device nodes of a disk that the kernel cannot partition, made by `kpartx` through the device
/// mapper. Nodes that were not there before are to be removed in the end.
#[derive(Debug)]
pub struct PartTableKpartx {
    path: String,
    need_teardown: bool,
}

/// The mathematical value of a [`PartTableKpartx`].
pub struct PartTableKpartxView {
    pub path: Seq<char>,
    pub need_teardown: bool,
}

impl View for PartTableKpartx {
    type V = PartTableKpartxView;

    closed spec fn view(&self) -> PartTableKpartxView {
        PartTableKpartxView { path: self.path@, need_teardown: self.need_teardown }
    }
}

/// The pattern of what follows the name of a disk in the name of one of its partitions.
pub const SUFFIX_PATTERN: &'static str = r"^p[0-9]+$";

/// Whether `text` is the letter p and a number.
pub open spec fn is_partition_suffix(text: Seq<char>) -> bool {
    text.len() >= 2 && text[0] == 'p' && all_digits(text.subrange(1, text.len() as int))
}

/// Whether `found` is the name of a partition of the disk with the name `expected`.
pub open spec fn is_partition_name(expected: Seq<char>, found: Seq<char>) -> bool {
    begins_with(found, expected) && is_partition_suffix(
        found.subrange(expected.len() as int, found.len() as int),
    )
}

/// Whether a partition of the disk `expected` is among the names, as far as they have to be read:
/// up to the first one, and no further than to the first that cannot be read.
pub open spec fn listed_outcome(
    expected: Seq<char>,
    entries: Seq<Result<Seq<char>, ErrorView>>,
) -> Result<bool, ErrorView>
    decreases entries.len(),
{
    if entries.len() == 0 {
        Ok(false)
    } else {
        match entries[0] {
            Err(error) => Err(error),
            Ok(found) => if is_partition_name(expected, found) {
                Ok(true)
            } else {
                listed_outcome(expected, entries.drop_first())
            },
        }
    }
}

/// Whether the device nodes for the disk at `path` exist, given the names under `/dev/mapper`.
pub open spec fn set_up_outcome(
    path: Seq<char>,
    listing: Result<Seq<Result<Seq<char>, ErrorView>>, ErrorView>,
) -> Result<bool, ErrorView> {
    match file_name(path) {
        None => Err(plain_error(ErrorKind::NoFileName, "getting filename of "@ + path)),
        Some(expected) => match listing {
            Err(error) => Err(error),
            Ok(entries) => listed_outcome(expected, entries),
        },
    }
}

/// What reading one entry of a directory gave.
#[derive(Debug)]
pub enum DirEntry {
    /// The entry's name.
    Named(String),
    /// What the system said instead.
    Unreadable(String),
    /// A name that is not text, as far as it can be shown.
    NotText(String),
}

impl DirEntry {
    /// The name of an entry of `/dev/mapper`, or the error that it has none.
    pub open spec fn outcome(self) -> Result<Seq<char>, ErrorView> {
        match self {
            DirEntry::Named(name) => Ok(name@),
            DirEntry::Unreadable(cause) => Err(
                ErrorView {
                    kind: ErrorKind::System,
                    text: "reading /dev/mapper entry"@,
                    cause: Some(cause@),
                },
            ),
            DirEntry::NotText(shown) => Err(
                plain_error(ErrorKind::Decoding, "converting filename of "@ + shown@),
            ),
        }
    }

    /// The name of an entry of `/dev/mapper`, or the error that it has none.
    fn name(self) -> (result: Result<String, Error>)
        ensures
            text_outcome(result) == self.outcome(),
    {
        match self {
            DirEntry::Named(name) => Ok(name),
            DirEntry::Unreadable(cause) => Err(
                Error::with_cause(
                    ErrorKind::System,
                    "reading /dev/mapper entry".to_owned(),
                    cause,
                ),
            ),
            DirEntry::NotText(shown) => {
                let mut text: String = "converting filename of ".to_owned();
                text.append(shown.as_str());
                Err(Error::new(ErrorKind::Decoding, text))
            },
        }
    }
}

/// The names of a list of entries of `/dev/mapper`, each or the error that there is none.
pub open spec fn entry_outcomes(entries: Seq<DirEntry>) -> Seq<Result<Seq<char>, ErrorView>> {
    entries.map_values(|entry: DirEntry| entry.outcome())
}

/// The names under `/dev/mapper`, or the error that they could not be listed.
pub open spec fn listing_outcome(listing: Result<Vec<DirEntry>, String>) -> Result<
    Seq<Result<Seq<char>, ErrorView>>,
    ErrorView,
> {
    match listing {
        Ok(entries) => Ok(entry_outcomes(entries@)),
        Err(cause) => Err(
            ErrorView {
                kind: ErrorKind::System,
                text: "listing /dev/mapper"@,
                cause: Some(cause@),
            },
        ),
    }
}

/// The command that has `kpartx` do what `flag` says with the disk at `path`. By default `kpartx`
/// waits for udev, which blocks for ever in a container, so it is told not to.
pub open spec fn kpartx_command(flag: Seq<char>, path: Seq<char>) -> CommandLineView {
    CommandLineView { program: "kpartx"@, args: seq![flag, "-n"@, path] }
}

impl PartTableKpartxView {
    /// What is to be run in the end: nodes that were made are removed, so that no device of the
    /// device mapper stays attached to the disk, and nodes that were found are left alone.
    pub open spec fn teardown_command(self) -> Option<CommandLineView> {
        if self.need_teardown {
            Some(kpartx_command("-d"@, self.path))
        } else {
            None
        }
    }
}

/// How a refresh goes on when `kpartx` has been run for the disk at `path` or could not be: udev is
/// waited for after a success only, and what a failed run wrote to its standard error is copied
/// out. A run that succeeds may write spurious warnings there.
pub open spec fn step_after_run(
    flag: Seq<char>,
    path: Seq<char>,
    run: Result<CommandRunView, Seq<char>>,
) -> RefreshStepView {
    match run {
        Err(cause) => RefreshStepView::Done(
            Err(
                ErrorView {
                    kind: ErrorKind::System,
                    text: "running kpartx "@ + flag + " "@ + path,
                    cause: Some(cause),
                },
            ),
        ),
        Ok(ended) => if ended.success {
            RefreshStepView::Settle
        } else {
            RefreshStepView::CopyStderr(
                plain_error(
                    ErrorKind::CommandFailed,
                    "kpartx "@ + flag + " "@ + path + " failed: "@ + ended.status,
                ),
            )
        },
    }
}

/// What setting up a table needs after its first refresh, or what it came to.
#[derive(Debug)]
pub enum SetUpStep {
    /// Nothing: the device nodes are there.
    Ready(PartTableKpartx),
    /// Running the command, as in a refresh, so that no node stays. Then setting up is over, with
    /// this error, whatever comes of the command.
    TearDown { table: PartTableKpartx, command: CommandLine, error: Error },
    /// Nothing: setting up has failed, and nothing is to be removed.
    Failed(Error),
}

/// The mathematical value of a [`SetUpStep`].
pub enum SetUpStepView {
    Ready(PartTableKpartxView),
    TearDown { table: PartTableKpartxView, command: CommandLineView, error: ErrorView },
    Failed(ErrorView),
}

impl View for SetUpStep {
    type V = SetUpStepView;

    open spec fn view(&self) -> SetUpStepView {
        match *self {
            SetUpStep::Ready(table) => SetUpStepView::Ready(table@),
            SetUpStep::TearDown { table, command, error } => SetUpStepView::TearDown {
                table: table@,
                command: command@,
                error: error@,
            },
            SetUpStep::Failed(error) => SetUpStepView::Failed(error@),
        }
    }
}

impl PartTableKpartxView {
    /// How setting up goes on after the first refresh.
    pub open spec fn step_after_refresh(self, refreshed: Result<(), ErrorView>) -> SetUpStepView {
        match refreshed {
            Ok(_) => SetUpStepView::Ready(self),
            Err(error) => match self.teardown_command() {
                Some(command) => SetUpStepView::TearDown { table: self, command, error },
                None => SetUpStepView::Failed(error),
            },
        }
    }
}

/// The device nodes of the disk at `path`, given the names under `/dev/mapper`. They are to be
/// removed in the end exactly if they do not exist yet.
pub open spec fn table_outcome(
    path: Seq<char>,
    listing: Result<Seq<Result<Seq<char>, ErrorView>>, ErrorView>,
) -> Result<PartTableKpartxView, ErrorView> {
    match set_up_outcome(path, listing) {
        Ok(set_up) => Ok(PartTableKpartxView { path, need_teardown: !set_up }),
        Err(error) => Err(error),
    }
}

/// Compiles `pattern` with `regex::Regex::new` and asks `is_match` of `text`. This pattern, which
/// compiles, is anchored at both ends of the text: the letter p, then one or more of the ten
/// digits.
#[verifier::external_body]
fn suffix_matches(pattern: &str, text: &str) -> (yes: bool)
    requires
        pattern@ == SUFFIX_PATTERN@,
    ensures
        yes == is_partition_suffix(text@),
{
    Regex::new(pattern).expect("compiling RE").is_match(text)
}

/// Whether `found` is the name of a partition of the disk with the name `expected`.
pub fn names_partition_of(expected: &str, found: &str) -> (yes: bool)
    ensures
        yes == is_partition_name(expected@, found@),
{
    if !starts_with(found, expected) {
        return false;
    }
    suffix_matches(
        SUFFIX_PATTERN,
        found.substring_char(expected.unicode_len(), found.unicode_len()),
    )
}

impl PartTableKpartx {
    /// The device nodes of the disk at `path`, given what listing `/dev/mapper` gave. They are to
    /// be removed in the end exactly if they do not exist yet. A refresh is to bring them up to
    /// date; [`PartTableKpartx::set_up`] goes on with what came of it.
    pub fn new(path: &str, listing: Result<Vec<DirEntry>, String>) -> (result: Result<
        Self,
        Error,
    >)
        ensures
            match result {
                Ok(table) => table_outcome(path@, listing_outcome(listing)) == Ok::<
                    PartTableKpartxView,
                    ErrorView,
                >(table@),
                Err(error) => table_outcome(path@, listing_outcome(listing)) == Err::<
                    PartTableKpartxView,
                    ErrorView,
                >(error@),
            },
    {
        match Self::already_set_up(path, listing) {
            Ok(set_up) => Ok(PartTableKpartx { path: path.to_owned(), need_teardown: !set_up }),
            Err(error) => Err(error),
        }
    }

    /// Whether the device nodes for the disk at `path` exist, given what listing
    /// `/dev/mapper` gave. There is no good way to tell.
    pub fn already_set_up(
        path: &str,
        listing: Result<Vec<DirEntry>, String>,
    ) -> (result: Result<bool, Error>)
        ensures
            match result {
                Ok(set_up) => set_up_outcome(path@, listing_outcome(listing)) == Ok::<
                    bool,
                    ErrorView,
                >(set_up),
                Err(error) => set_up_outcome(path@, listing_outcome(listing)) == Err::<
                    bool,
                    ErrorView,
                >(error@),
            },
    {
        let expected: String = match name_of(path) {
            Some(name) => name,
            None => {
                let mut text: String = "getting filename of ".to_owned();
                text.append(path);
                return Err(Error::new(ErrorKind::NoFileName, text));
            },
        };
        let entries: Vec<DirEntry> = match listing {
            Ok(entries) => entries,
            Err(cause) => return Err(
                Error::with_cause(ErrorKind::System, "listing /dev/mapper".to_owned(), cause),
            ),
        };
        let ghost all = entry_outcomes(entries@);
        let ghost mut done: int = 0;
        assert(all.skip(0) == all);
        for entry in it: entries
            invariant
                it.seq() == entries@,
                done == it.index(),
                all == entry_outcomes(entries@),
                listing_outcome(listing) == Ok::<
                    Seq<Result<Seq<char>, ErrorView>>,
                    ErrorView,
                >(all),
                file_name(path@) == Some(expected@),
                listed_outcome(expected@, all.skip(done)) == listed_outcome(expected@, all),
        {
            proof {
                assert(all.skip(done)[0] == entry.outcome());
                assert(all.skip(done).drop_first() == all.skip(done + 1));
            }
            let found: String = match entry.name() {
                Ok(found) => found,
                Err(error) => return Err(error),
            };
            if names_partition_of(expected.as_str(), found.as_str()) {
                return Ok(true);
            }
            proof {
                done = done + 1;
            }
        }
        assert(all.skip(done) == Seq::<Result<Seq<char>, ErrorView>>::empty());
        Ok(false)
    }

    /// The command that has `kpartx` do what `flag` says.
    pub fn run_kpartx(&self, flag: &str) -> (command: CommandLine)
        ensures
            command@ == kpartx_command(flag@, self@.path),
    {
        let command: CommandLine = CommandLine::new("kpartx").arg(flag).arg("-n").arg(
            self.path.as_str(),
        );
        assert(command@ =~= kpartx_command(flag@, self@.path));
        command
    }

    /// Goes on with a refresh when the command of [`PartTableKpartx::run_kpartx`] has been run, or
    /// what the system said if it could not be.
    pub fn kpartx_finished(&self, flag: &str, run: Result<CommandRun, String>) -> (step:
        RefreshStep)
        ensures
            step@ == step_after_run(flag@, self@.path, run_outcome(run)),
    {
        match run {
            Err(cause) => {
                let mut text: String = "running kpartx ".to_owned();
                text.append(flag);
                text.append(" ");
                text.append(self.path.as_str());
                RefreshStep::Done(Err(Error::with_cause(ErrorKind::System, text, cause)))
            },
            Ok(ended) => {
                if ended.success {
                    return RefreshStep::Settle;
                }
                let mut text: String = "kpartx ".to_owned();
                text.append(flag);
                text.append(" ");
                text.append(self.path.as_str());
                text.append(" failed: ");
                text.append(ended.status.as_str());
                RefreshStep::CopyStderr(Error::new(ErrorKind::CommandFailed, text))
            },
        }
    }

    /// Goes on with setting up when the first refresh is over.
    pub fn set_up(self, refreshed: Result<(), Error>) -> (step: SetUpStep)
        ensures
            step@ == self@.step_after_refresh(outcome(refreshed)),
    {
        match refreshed {
            Ok(_) => SetUpStep::Ready(self),
            Err(error) => match self.teardown() {
                Some(command) => SetUpStep::TearDown { table: self, command, error },
                None => SetUpStep::Failed(error),
            },
        }
    }

    /// What to say after the nodes were removed or could not be, if anything.
    pub fn torn_down(&self, result: Result<(), Error>) -> (report: Option<String>)
        ensures
            match report {
                Some(text) => result matches Err(error) && text@ == error.text@,
                None => result is Ok,
            },
    {
        match result {
            Ok(_) => None,
            Err(error) => Some(error.text),
        }
    }

    /// What is to be run in the end, if anything.
    pub fn teardown(&self) -> (command: Option<CommandLine>)
        ensures
            match command {
                Some(run) => self@.teardown_command() == Some(run@),
                None => self@.teardown_command() is None,
            },
    {
        if self.need_teardown {
            Some(self.run_kpartx("-d"))
        } else {
            None
        }
    }
}

impl PartTable for PartTableKpartx {
    open spec fn refresh(&self) -> TableRefreshView {
        TableRefreshView::Run(kpartx_command("-u"@, self@.path))
    }

    fn reread(&self) -> (work: TableRefresh) {
        TableRefresh::Run(self.run_kpartx("-u"))
    }
}

/// What a refresh did and came to: the rereads and commands, how often udev was waited for, whether
/// the standard error of a command was copied out, and the result.
#[verifier::ext_equal]
pub struct RefreshTrace {
    pub work: Seq<TableRefreshView>,
    pub settlings: nat,
    pub stderr_copied: bool,
    pub result: Result<(), ErrorView>,
}

/// What a refresh does and comes to from `step` on, where `settling` is what comes of waiting for
/// udev.
pub open spec fn refresh_from(
    step: RefreshStepView,
    settling: Result<(), ErrorView>,
) -> RefreshTrace
    decreases
            match step {
                RefreshStepView::Done(_) => 0int,
                _ => 1int,
            },
{
    match step {
        RefreshStepView::Settle => {
            let rest = refresh_from(step_after_settling(settling), settling);
            RefreshTrace { settlings: rest.settlings + 1, ..rest }
        },
        RefreshStepView::CopyStderr(error) => {
            let rest = refresh_from(RefreshStepView::Done(Err(error)), settling);
            RefreshTrace { stderr_copied: true, ..rest }
        },
        RefreshStepView::Done(result) => RefreshTrace {
            work: Seq::empty(),
            settlings: 0,
            stderr_copied: false,
            result,
        },
    }
}

/// A refresh that begins with `work` and goes on with `step`.
pub open spec fn refresh_trace(
    work: TableRefreshView,
    step: RefreshStepView,
    settling: Result<(), ErrorView>,
) -> RefreshTrace {
    let rest = refresh_from(step, settling);
    RefreshTrace { work: seq![work] + rest.work, ..rest }
}

/// A run of `kpartx` with `flag` for the disk at `path`, where `run` is what comes of the command.
pub open spec fn kpartx_trace(
    flag: Seq<char>,
    path: Seq<char>,
    run: Result<CommandRunView, Seq<char>>,
    settling: Result<(), ErrorView>,
) -> RefreshTrace {
    refresh_trace(
        TableRefreshView::Run(kpartx_command(flag, path)),
        step_after_run(flag, path, run),
        settling,
    )
}

/// A refresh by the kernel, where `reread` is what comes of rereading the partition table.
pub open spec fn kernel_trace(
    table: PartTableKernel,
    reread: Result<(), ErrorView>,
    settling: Result<(), ErrorView>,
) -> RefreshTrace {
    refresh_trace(table.refresh(), step_after_reread(reread), settling)
}

/// A refresh by the kernel has it reread the partition table once. Udev is waited for, once,
/// exactly after a reread that succeeded, and then decides; the error of a reread that failed
/// stands.
pub proof fn law_kernel_refresh_rereads_and_settles(
    table: PartTableKernel,
    reread: Result<(), ErrorView>,
    settling: Result<(), ErrorView>,
)
    ensures
        ({
            let trace = kernel_trace(table, reread, settling);
            &&& trace.work == seq![TableRefreshView::Kernel]
            &&& trace.settlings == (if reread is Ok {
                1nat
            } else {
                0nat
            })
            &&& !trace.stderr_copied
            &&& trace.result == (if reread is Ok {
                settling
            } else {
                reread
            })
            &&& trace.result is Ok <==> reread is Ok && settling is Ok
        }),
{
    reveal_with_fuel(refresh_from, 2);
}

/// `kpartx` is run once. Udev is waited for, once, exactly after a run that succeeded, and then
/// decides; standard error is copied out exactly after a run that failed. So all is well exactly
/// where the command could be run, it succeeded, and udev settled.
pub proof fn law_kpartx_runs_once_and_settles(
    flag: Seq<char>,
    path: Seq<char>,
    run: Result<CommandRunView, Seq<char>>,
    settling: Result<(), ErrorView>,
)
    ensures
        ({
            let trace = kpartx_trace(flag, path, run, settling);
            let succeeded = run matches Ok(ended) && ended.success;
            &&& trace.work == seq![TableRefreshView::Run(kpartx_command(flag, path))]
            &&& trace.settlings == (if succeeded {
                1nat
            } else {
                0nat
            })
            &&& trace.stderr_copied == (run matches Ok(ended) && !ended.success)
            &&& trace.result == match step_after_run(flag, path, run) {
                RefreshStepView::Settle => settling,
                RefreshStepView::CopyStderr(error) => Err(error),
                RefreshStepView::Done(result) => result,
            }
            &&& succeeded ==> trace.result == settling
            &&& trace.result is Ok <==> succeeded && settling is Ok
        }),
{
    reveal_with_fuel(refresh_from, 2);
}

/// What comes of the commands and of waiting for udev while a table is set up: for the first
/// refresh, and for removing the nodes.
pub struct SetUpAnswers {
    pub run: Result<CommandRunView, Seq<char>>,
    pub settling: Result<(), ErrorView>,
    pub teardown_run: Result<CommandRunView, Seq<char>>,
    pub teardown_settling: Result<(), ErrorView>,
}

/// What setting up a table did and came to.
#[verifier::ext_equal]
pub struct SetUpTrace {
    pub work: Seq<TableRefreshView>,
    pub result: Result<PartTableKpartxView, ErrorView>,
}

/// What setting up the table of the disk at `path` does and comes to, given the names under
/// `/dev/mapper`.
pub open spec fn set_up_trace(
    path: Seq<char>,
    listing: Result<Seq<Result<Seq<char>, ErrorView>>, ErrorView>,
    answers: SetUpAnswers,
) -> SetUpTrace {
    match table_outcome(path, listing) {
        Err(error) => SetUpTrace { work: Seq::empty(), result: Err(error) },
        Ok(table) => {
            let first = kpartx_trace("-u"@, table.path, answers.run, answers.settling);
            match table.step_after_refresh(first.result) {
                SetUpStepView::Ready(ready) => SetUpTrace { work: first.work, result: Ok(ready) },
                SetUpStepView::TearDown { table: made, command, error } => {
                    let last = refresh_trace(
                        TableRefreshView::Run(command),
                        step_after_run("-d"@, made.path, answers.teardown_run),
                        answers.teardown_settling,
                    );
                    SetUpTrace { work: first.work + last.work, result: Err(error) }
                },
                SetUpStepView::Failed(error) => SetUpTrace {
                    work: first.work,
                    result: Err(error),
                },
            }
        },
    }
}

/// A table is set up with one update of its nodes. Where it cannot be told whether there are nodes,
/// nothing is run and that error stands. Where the update or waiting for udev fails, its error
/// stands, and the nodes are removed exactly if there were none before.
pub proof fn law_failed_set_up_is_torn_down(
    path: Seq<char>,
    listing: Result<Seq<Result<Seq<char>, ErrorView>>, ErrorView>,
    answers: SetUpAnswers,
)
    ensures
        ({
            let trace = set_up_trace(path, listing, answers);
            let update = TableRefreshView::Run(kpartx_command("-u"@, path));
            let removal = TableRefreshView::Run(kpartx_command("-d"@, path));
            let refreshed = kpartx_trace("-u"@, path, answers.run, answers.settling).result;
            match set_up_outcome(path, listing) {
                Err(error) => trace == (SetUpTrace { work: Seq::empty(), result: Err(error) }),
                Ok(found) => match refreshed {
                    Ok(_) => trace == (SetUpTrace {
                        work: seq![update],
                        result: Ok(PartTableKpartxView { path, need_teardown: !found }),
                    }),
                    Err(error) => trace == (SetUpTrace {
                        work: if found {
                            seq![update]
                        } else {
                            seq![update, removal]
                        },
                        result: Err(error),
                    }),
                },
            }
        }),
{
    law_kpartx_runs_once_and_settles("-u"@, path, answers.run, answers.settling);
    law_kpartx_runs_once_and_settles(
        "-d"@,
        path,
        answers.teardown_run,
        answers.teardown_settling,
    );
}

/// A name made of the name of a disk, the letter p and a number names a partition of the disk.
pub proof fn law_partition_names_are_recognised(expected: Seq<char>, number: nat)
    ensures
        is_partition_name(expected, expected + seq!['p'] + decimal(number)),
{
    lemma_decimal(number);
    let found = expected + seq!['p'] + decimal(number);
    let suffix = found.subrange(expected.len() as int, found.len() as int);
    assert(found.subrange(0, expected.len() as int) == expected);
    assert(suffix == seq!['p'] + decimal(number));
    assert(suffix.subrange(1, suffix.len() as int) == decimal(number));
}

/// Where every name can be read, device nodes exist exactly if one of the names is that of a
/// partition of the disk.
pub proof fn law_set_up_if_a_partition_is_listed(
    expected: Seq<char>,
    entries: Seq<Result<Seq<char>, ErrorView>>,
)
    requires
        forall|i: int| 0 <= i < entries.len() ==> (#[trigger] entries[i]) is Ok,
    ensures
        listed_outcome(expected, entries) is Ok,
        listed_outcome(expected, entries)->Ok_0 <==> exists|i: int|
            0 <= i < entries.len() && is_partition_name(
                expected,
                (#[trigger] entries[i])->Ok_0,
            ),
    decreases entries.len(),
{
    if entries.len() > 0 {
        let rest = entries.drop_first();
        assert(forall|i: int| 0 <= i < rest.len() ==> #[trigger] rest[i] == entries[i + 1]);
        assert forall|i: int| 0 <= i < rest.len() implies (#[trigger] rest[i]) is Ok by {
            assert(entries[i + 1] is Ok);
        }
        law_set_up_if_a_partition_is_listed(expected, rest);
        if is_partition_name(expected, entries[0]->Ok_0) {
        } else if listed_outcome(expected, rest)->Ok_0 {
            let i = choose|i: int|
                0 <= i < rest.len() && is_partition_name(expected, (#[trigger] rest[i])->Ok_0);
            assert(is_partition_name(expected, entries[i + 1]->Ok_0));
        } else {
            assert forall|i: int| 0 <= i < entries.len() implies !is_partition_name(
                expected,
                (#[trigger] entries[i])->Ok_0,
            ) by {
                if i > 0 {
                    assert(rest[i - 1] == entries[i]);
                }
            }
        }
    }
}

/// Device nodes that were there before the table was made are not removed with it; others are,
/// and with the same disk.
pub proof fn law_found_nodes_are_left_alone(
    path: Seq<char>,
    listing: Result<Seq<Result<Seq<char>, ErrorView>>, ErrorView>,
)
    ensures
        table_outcome(path, listing) matches Ok(table) ==> {
            let found = set_up_outcome(path, listing) == Ok::<bool, ErrorView>(true);
            table.teardown_command() == if found {
                None
            } else {
                Some(kpartx_command("-d"@, path))
            }
        },
{
}

} // verus!
