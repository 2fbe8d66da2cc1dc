use vstd::prelude::*;

verus! {

/// How a meta-command (a line beginning with a dot) was handled.
#[derive(Clone, Copy, Debug, PartialEq, Eq, Structural)]
pub enum MetaCommandResult {
    Success,
    UnrecognizedCommand,
}

/// The dispatcher for meta-commands, which bypass the statement pipeline.
pub struct MetaCommand {}

impl MetaCommand {
    /// Recognizes the exit directive; every other meta-command is reported
    /// as unrecognized.
    pub fn process(command: String) -> (r: MetaCommandResult)
        ensures
            r == if command@ == ".exit"@ {
                MetaCommandResult::Success
            } else {
                MetaCommandResult::UnrecognizedCommand
            },
    {
        let exit_directive: String = ".exit".to_owned();
        if command == exit_directive {
            MetaCommandResult::Success
        } else {
            MetaCommandResult::UnrecognizedCommand
        }
    }
}

} // verus!
