//! The command line: one positional argument, the path of the data file.

use vstd::prelude::*;

verus! {

/// The least number of arguments, the program's own name included.
pub const ARGS_SIZE_LIMIT: usize = 2;

/// Why a command line is refused.
#[derive(Clone, Copy, Debug, PartialEq, Eq, Structural)]
pub enum UsageError {
    /// No path was given.
    NotEnoughArguments,
    /// The path is the empty string.
    EmptyFilename,
}

impl UsageError {
    /// The text shown to the user for this error.
    pub open spec fn message_text(self) -> Seq<char> {
        match self {
            UsageError::NotEnoughArguments => "not enough input argument"@,
            UsageError::EmptyFilename => "filename is empty"@,
        }
    }

    /// Gives the text shown to the user for this error.
    pub fn message(&self) -> (text: String)
        ensures
            text@ == self.message_text(),
    {
        match self {
            UsageError::NotEnoughArguments => "not enough input argument".to_owned(),
            UsageError::EmptyFilename => "filename is empty".to_owned(),
        }
    }
}

/// The verdict on a command line, each argument given by its characters:
/// a line of fewer than two arguments lacks the path; otherwise the path,
/// the argument at index 1, must not be empty.
pub open spec fn usage_verdict(args: Seq<Seq<char>>) -> Result<(), UsageError> {
    if args.len() < ARGS_SIZE_LIMIT {
        Err(UsageError::NotEnoughArguments)
    } else if args[1].len() == 0 {
        Err(UsageError::EmptyFilename)
    } else {
        Ok(())
    }
}

/// The arguments of a command line, each by its characters.
pub open spec fn argument_texts(args: Seq<String>) -> Seq<Seq<char>> {
    Seq::new(args.len(), |i: int| args[i]@)
}

/// Checks that a command line names a data file.
pub fn argument_check(args: &[String]) -> (verdict: Result<(), UsageError>)
    ensures
        verdict == usage_verdict(argument_texts(args@)),
{
    if args.len() < ARGS_SIZE_LIMIT {
        Err(UsageError::NotEnoughArguments)
    } else if args[1].as_str().is_empty() {
        Err(UsageError::EmptyFilename)
    } else {
        Ok(())
    }
}

} // verus!
