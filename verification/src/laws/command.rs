//! What callers can rely on of commands and errors.

use crate::command::CommandLine;
use crate::error::{Error, ErrorKind};
use crate::text::texts;
use vstd::prelude::*;

verus! {

/// A new command has its program and no arguments.
pub proof fn law_new_commands_have_no_arguments(program: &str, command: CommandLine)
    requires
        call_ensures(CommandLine::new, (program,), command),
    ensures
        command.program@ == program@,
        command.args@.len() == 0,
{
    assert(texts(command.args@).len() == command.args@.len());
}

/// An argument goes behind those that are there, and changes nothing else.
pub proof fn law_arguments_go_to_the_end(before: CommandLine, arg: &str, after: CommandLine)
    requires
        call_ensures(CommandLine::arg, (before, arg), after),
    ensures
        after.program@ == before.program@,
        after.args@.len() == before.args@.len() + 1,
        after.args@.last()@ == arg@,
        forall|i: int|
            0 <= i < before.args@.len() ==> (#[trigger] before.args@[i])@ == after.args@[i]@,
{
    let old_args = texts(before.args@);
    let new_args = texts(after.args@);
    assert(new_args == old_args.push(arg@));
    assert(new_args.len() == after.args@.len() && old_args.len() == before.args@.len());
    assert(new_args[old_args.len() as int] == after.args@[old_args.len() as int]@);
    assert forall|i: int| 0 <= i < before.args@.len() implies (#[trigger] before.args@[i])@
        == after.args@[i]@ by {
        assert(old_args[i] == before.args@[i]@);
        assert(new_args[i] == after.args@[i]@);
    }
}

/// An error has the kind, the text and the cause that it was made with.
pub proof fn law_errors_are_what_they_are_made_of(
    kind: ErrorKind,
    text: String,
    cause: String,
    plain: Error,
    caused: Error,
)
    requires
        call_ensures(Error::new, (kind, text), plain),
        call_ensures(Error::with_cause, (kind, text, cause), caused),
    ensures
        plain.kind == kind,
        plain.text@ == text@,
        plain.cause is None,
        caused.kind == kind,
        caused.text@ == text@,
        caused.cause matches Some(said) && said@ == cause@,
{
    assert(plain@.cause is None);
    assert(caused@.cause is Some);
}

} // verus!
