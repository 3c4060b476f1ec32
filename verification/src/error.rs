//! What can end a run early.

use vstd::prelude::*;
use vstd::string::StringExecFns;
use crate::text::single_line;

verus! {

/// The failures of a run. None of them is retried.
#[derive(Clone, Copy, Debug, PartialEq, Eq)]
pub enum RenderError {
    /// The program was not given exactly one image path.
    Usage,
    /// The file could not be opened, is no decodable image, or its pixel
    /// buffer does not match its dimensions.
    Decode,
    /// The terminal's size is unknown or has no rows or no columns.
    Environment,
}

impl RenderError {
    /// The process exit code of each failure: 1 for a usage error, 101 for
    /// the two that abort the run.
    pub open spec fn code(self) -> int {
        match self {
            RenderError::Usage => 1,
            RenderError::Decode => 101,
            RenderError::Environment => 101,
        }
    }

    /// The one-line diagnostic of each failure.
    pub open spec fn text(self) -> Seq<char> {
        match self {
            RenderError::Usage => "Pass image as argument"@,
            RenderError::Decode => "Could not decode the image"@,
            RenderError::Environment => "Could not determine the terminal size"@,
        }
    }

    /// The exit code to end the process with. It is never zero.
    pub fn exit_code(&self) -> (code: i32)
        ensures
            code == self.code(),
            code != 0,
    {
        match self {
            RenderError::Usage => 1,
            RenderError::Decode => 101,
            RenderError::Environment => 101,
        }
    }

    /// The diagnostic to show the user: one line, without a line end.
    pub fn message(&self) -> (msg: String)
        ensures
            msg@ == self.text(),
            single_line(msg@),
    {
        proof {
            reveal_strlit("Pass image as argument");
            reveal_strlit("Could not decode the image");
            reveal_strlit("Could not determine the terminal size");
        }
        match self {
            RenderError::Usage => String::from_str("Pass image as argument"),
            RenderError::Decode => String::from_str("Could not decode the image"),
            RenderError::Environment => String::from_str("Could not determine the terminal size"),
        }
    }
}

} // verus!
