//! The commands that the library asks for.

use crate::text::texts;
use vstd::prelude::*;

verus! {

/// A program to run and its arguments.
#[derive(Debug)]
pub struct CommandLine {
    pub program: String,
    pub args: Vec<String>,
}

/// The mathematical value of a [`CommandLine`].
#[verifier::ext_equal]
pub struct CommandLineView {
    pub program: Seq<char>,
    pub args: Seq<Seq<char>>,
}

impl View for CommandLine {
    type V = CommandLineView;

    open spec fn view(&self) -> CommandLineView {
        CommandLineView { program: self.program@, args: texts(self.args@) }
    }
}

/// How a command that could be run ended: whether it succeeded, and its exit status in words.
#[derive(Debug)]
pub struct CommandRun {
    pub success: bool,
    pub status: String,
}

/// The mathematical value of a [`CommandRun`].
pub struct CommandRunView {
    pub success: bool,
    pub status: Seq<char>,
}

impl View for CommandRun {
    type V = CommandRunView;

    open spec fn view(&self) -> CommandRunView {
        CommandRunView { success: self.success, status: self.status@ }
    }
}

/// The value of a run, or what the system said of a command that could not be run.
pub open spec fn run_outcome(run: Result<CommandRun, String>) -> Result<CommandRunView, Seq<char>> {
    match run {
        Ok(ended) => Ok(ended@),
        Err(cause) => Err(cause@),
    }
}

impl CommandLine {
    /// A command without arguments.
    pub fn new(program: &str) -> (command: Self)
        ensures
            command@ == (CommandLineView { program: program@, args: Seq::empty() }),
    {
        let command = CommandLine { program: program.to_owned(), args: Vec::new() };
        assert(command@ =~= CommandLineView { program: program@, args: Seq::empty() });
        command
    }

    /// The command with one more argument.
    pub fn arg(self, arg: &str) -> (command: Self)
        ensures
            command@ == (CommandLineView { program: self@.program, args: self@.args.push(arg@) }),
    {
        let mut args: Vec<String> = self.args;
        args.push(arg.to_owned());
        let command = CommandLine { program: self.program, args };
        assert(command@ =~= CommandLineView {
            program: self@.program,
            args: self@.args.push(arg@),
        });
        command
    }
}

} // verus!
