//! What can go wrong in the encoder.

use vstd::prelude::*;

verus! {

/// The failures of the encoder.
#[derive(Clone, Copy, Debug, PartialEq, Eq, Structural)]
pub enum PlayerInfoError {
    /// The registry already holds the most viewers it can.
    CapacityExceeded,
    /// A skip run longer than the table was asked for.
    SkipOutOfRange,
    /// A viewer's table lacks a record for some target.
    MissingRecord,
    /// A buffer refused a write.
    Io,
}

impl PlayerInfoError {
    /// A line of text for the failure.
    pub fn message(&self) -> (text: &'static str)
        ensures
            text@ == match *self {
                PlayerInfoError::CapacityExceeded => {
                    "Maximum amount of players processable by PlayerInfo reached"@
                },
                PlayerInfoError::SkipOutOfRange => "Skip count out of range error"@,
                PlayerInfoError::MissingRecord => "Update record missing from the table"@,
                PlayerInfoError::Io => "Buffer refused a write"@,
            },
    {
        match self {
            PlayerInfoError::CapacityExceeded => {
                "Maximum amount of players processable by PlayerInfo reached"
            },
            PlayerInfoError::SkipOutOfRange => "Skip count out of range error",
            PlayerInfoError::MissingRecord => "Update record missing from the table",
            PlayerInfoError::Io => "Buffer refused a write",
        }
    }
}

} // verus!
