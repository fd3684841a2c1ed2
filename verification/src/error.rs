//! Error values returned by constructors and renderers.

use vstd::prelude::*;
use vstd::string::StringExecFns;

verus! {

/// A size parameter (bin size, shape, or buffer length) violated a
/// precondition; `var_name` identifies the offending parameter.
#[derive(Debug)]
pub struct InvalidSizeError {
    pub var_name: String,
}

impl InvalidSizeError {
    /// A human-readable description of the error.
    pub fn message(&self) -> (msg: String)
        ensures
            msg@ == seq_str_invalid_size() + self.var_name@,
    {
        let mut msg = String::from_str("Invalid size of ");
        msg.append(self.var_name.as_str());
        msg
    }
}

/// The spec-level prefix of every `InvalidSizeError` message.
pub open spec fn seq_str_invalid_size() -> Seq<char> {
    "Invalid size of "@
}

/// The foreground and background colors of a config do not share one
/// pixel format.
#[derive(Debug)]
pub struct InconsistentFormatError;

impl InconsistentFormatError {
    /// A human-readable description of the error.
    pub fn message(&self) -> (msg: String)
        ensures
            msg@ == "Color formats of background and foreground must be consistent."@,
    {
        String::from_str("Color formats of background and foreground must be consistent.")
    }
}

} // verus!
