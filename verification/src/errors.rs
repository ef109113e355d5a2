//! The errors the store's operations surface to the command layer. I/O and
//! serialization failures belong to the host shell around the library, which
//! owns the backing file.

use vstd::prelude::*;

verus! {

/// Why an operation rejected its arguments.
#[derive(Clone, Copy, PartialEq, Eq, Structural, Debug)]
pub enum HarpoonError {
    /// No index argument was given.
    MissingArgument,
    /// The index argument is not a decimal integer in range.
    InvalidIndex,
    /// The active document has no backing path.
    NoBackingPath,
}

impl HarpoonError {
    /// The single-line message the command layer shows for this error.
    pub fn message(&self) -> (r: String)
        ensures
            r@ == self.spec_message(),
    {
        match self {
            HarpoonError::MissingArgument => String::from_str("index not provided"),
            HarpoonError::InvalidIndex => String::from_str("index must be an integer"),
            HarpoonError::NoBackingPath => String::from_str("current document has no path"),
        }
    }

    /// What [`Self::message`] returns, as a sequence of characters.
    pub open spec fn spec_message(self) -> Seq<char> {
        match self {
            HarpoonError::MissingArgument => "index not provided"@,
            HarpoonError::InvalidIndex => "index must be an integer"@,
            HarpoonError::NoBackingPath => "current document has no path"@,
        }
    }
}

} // verus!
