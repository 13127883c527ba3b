//! Command lines, which a shell runs.

use crate::action::Event;
use crate::action::EventView;
use crate::error::Error;
use crate::error::ErrorView;
use vstd::prelude::*;

verus! {

/// The program that runs the command lines.
pub open spec fn shell_name() -> Seq<char> {
    "bash"@
}

/// The flag that hands a command line to the shell.
pub open spec fn shell_flag() -> Seq<char> {
    "-c"@
}

/// What came of a command line: it was carried out if the shell ended with
/// success, and failed otherwise, with the shell and the line as the error.
pub open spec fn outcome_of(command: Seq<char>, success: bool) -> EventView {
    if success {
        EventView::Done
    } else {
        EventView::Failed(ErrorView::CommandError(shell_name(), command))
    }
}

/// The program that runs the command lines, and the flag that hands it one.
pub fn shell() -> (program: (String, String))
    ensures
        program.0@ == shell_name(),
        program.1@ == shell_flag(),
{
    ("bash".to_owned(), "-c".to_owned())
}

/// What came of a command line that the shell ran to its end.
pub fn outcome(command: String, success: bool) -> (event: Event)
    ensures
        event@ == outcome_of(command@, success),
{
    if success {
        Event::Done
    } else {
        Event::Failed(Error::CommandError("bash".to_owned(), command))
    }
}

} // verus!
