//! What can go wrong when the terminfo database is asked about a terminal.

use vstd::prelude::*;
use vstd::string::*;

use crate::opts::joined3;

verus! {

#[derive(Debug, Clone, PartialEq, Eq)]
pub enum TermError {
    Hardcopy,
    UnknownType,
    DatabaseMissing,
    Unknown,
    InvalidCapability(String),
}

/// The error that setting up a terminal reports with this number.
pub open spec fn setup_failure(code: i32) -> TermError {
    if code == 1 {
        TermError::Hardcopy
    } else if code == 0 {
        TermError::UnknownType
    } else if code == -1 {
        TermError::DatabaseMissing
    } else {
        TermError::Unknown
    }
}

impl TermError {
    /// The message for a person.
    pub open spec fn message(self) -> Seq<char> {
        match self {
            TermError::Hardcopy =>
                "Terminal is hardcopy and cannot be used by curses applications."@,
            TermError::UnknownType => "Unknown terminal type."@,
            TermError::DatabaseMissing => "Terminfo database could not be found."@,
            TermError::Unknown => "Unknown terminfo error."@,
            TermError::InvalidCapability(c) => "Invalid terminfo capability "@ + c@,
        }
    }

    /// The error that setting up a terminal reports with this number.
    pub fn from_setup(code: i32) -> (e: Self)
        ensures
            e == setup_failure(code),
    {
        match code {
            1 => TermError::Hardcopy,
            0 => TermError::UnknownType,
            -1 => TermError::DatabaseMissing,
            _ => TermError::Unknown,
        }
    }

    /// The message for a person.
    pub fn text(&self) -> (s: String)
        ensures
            s@ == self.message(),
    {
        match self {
            TermError::Hardcopy =>
                "Terminal is hardcopy and cannot be used by curses applications.".to_owned(),
            TermError::UnknownType => "Unknown terminal type.".to_owned(),
            TermError::DatabaseMissing => "Terminfo database could not be found.".to_owned(),
            TermError::Unknown => "Unknown terminfo error.".to_owned(),
            TermError::InvalidCapability(c) => {
                proof {
                    reveal_strlit("");
                }
                let s = joined3("Invalid terminfo capability ", c.as_str(), "");
                assert(s@ =~= "Invalid terminfo capability "@ + c@);
                s
            },
        }
    }
}

} // verus!
