//! The reasons for which building a rule or a machine is refused.

use vstd::prelude::*;

verus! {

/// Why a rule or a machine could not be built, or a machine not restarted.
#[derive(Copy, Clone, Debug, PartialEq, Eq, Structural)]
pub enum Error {
    /// A character that names no direction.
    InvalidChar,
    /// A rule without tapes, or with parts of different lengths.
    InvalidLength,
    /// A program that holds no rule.
    NoInstructions,
    /// An empty list of rules.
    NoCommands,
    /// The rules of a program are for another number of tapes than was given.
    TapeCountMismatch,
    /// A rule of a program whose parts are not all as long as its key.
    InvalidInstructionLength,
    /// A rule in a list is for another number of tapes than the first rule,
    /// or than was given.
    InvalidTapesLength,
    /// A program whose rules are keyed by the empty tuple.
    ZeroLengthKey,
    /// A restart with another number of tapes than the machine has.
    InvalidStartTapes,
}

impl Error {
    /// The reason in words.
    pub fn message(&self) -> (text: &'static str)
        ensures
            text@ == self.message_text(),
    {
        match self {
            Error::InvalidChar => "invalid char",
            Error::InvalidLength => "invalid length",
            Error::NoInstructions => "there's no instructions",
            Error::NoCommands => "no commands",
            Error::TapeCountMismatch => "length of instructions and tapes does not equal",
            Error::InvalidInstructionLength => "invalid instructions length",
            Error::InvalidTapesLength => "invalid tapes length",
            Error::ZeroLengthKey => "zero-length instruction key",
            Error::InvalidStartTapes => "invalid start tapes",
        }
    }

    /// The words that [`Error::message`] returns.
    pub open spec fn message_text(&self) -> Seq<char> {
        match self {
            Error::InvalidChar => "invalid char"@,
            Error::InvalidLength => "invalid length"@,
            Error::NoInstructions => "there's no instructions"@,
            Error::NoCommands => "no commands"@,
            Error::TapeCountMismatch => "length of instructions and tapes does not equal"@,
            Error::InvalidInstructionLength => "invalid instructions length"@,
            Error::InvalidTapesLength => "invalid tapes length"@,
            Error::ZeroLengthKey => "zero-length instruction key"@,
            Error::InvalidStartTapes => "invalid start tapes"@,
        }
    }

    /// The reason in words, as an owned string.
    pub fn to_string(&self) -> (text: String)
        ensures
            text@ == self.message_text(),
    {
        self.message().to_owned()
    }
}

} // verus!
