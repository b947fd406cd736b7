//! Errors of the engine.

use vstd::prelude::*;

verus! {

/// Kinds of failed input or output that the engine tells apart.
#[derive(Debug, Clone, Copy, PartialEq, Eq, Structural)]
pub enum IoErrorKind {
    /// A file ended before all that was asked for was read.
    UnexpectedEof,
    Other,
}

/// Failed input or output: its kind, and the text that describes it.
#[derive(Debug)]
pub struct IoError {
    pub kind: IoErrorKind,
    pub text: String,
}

/// What went wrong.
#[derive(Debug)]
pub enum MoEError {
    Metal(String),
    Io(IoError),
    Config(String),
    Shader(String),
}

impl MoEError {
    /// The text of an error, as shown to the user.
    pub open spec fn text(self) -> Seq<char> {
        match self {
            MoEError::Metal(s) => "Metal error: "@ + s@,
            MoEError::Io(e) => "I/O error: "@ + e.text@,
            MoEError::Config(s) => "Config error: "@ + s@,
            MoEError::Shader(s) => "Shader error: "@ + s@,
        }
    }

    /// The message shown to the user.
    pub fn message(&self) -> (r: String)
        ensures
            r@ == self.text(),
    {
        match self {
            MoEError::Metal(s) => String::from_str("Metal error: ").concat(s.as_str()),
            MoEError::Io(e) => String::from_str("I/O error: ").concat(e.text.as_str()),
            MoEError::Config(s) => String::from_str("Config error: ").concat(s.as_str()),
            MoEError::Shader(s) => String::from_str("Shader error: ").concat(s.as_str()),
        }
    }
}

impl From<IoError> for MoEError {
    fn from(e: IoError) -> (r: Self) {
        MoEError::Io(e)
    }
}

impl vstd::std_specs::convert::FromSpecImpl<IoError> for MoEError {
    open spec fn obeys_from_spec() -> bool {
        true
    }

    open spec fn from_spec(e: IoError) -> Self {
        MoEError::Io(e)
    }
}

impl From<String> for MoEError {
    fn from(s: String) -> (r: Self) {
        MoEError::Metal(s)
    }
}

impl vstd::std_specs::convert::FromSpecImpl<String> for MoEError {
    open spec fn obeys_from_spec() -> bool {
        true
    }

    open spec fn from_spec(s: String) -> Self {
        MoEError::Metal(s)
    }
}

/// The text of an error names its kind before its cause, and the cause is kept whole.
pub proof fn law_error_text(e: MoEError)
    ensures
        e matches MoEError::Metal(s) ==> e.text() == "Metal error: "@ + s@,
        e matches MoEError::Io(i) ==> e.text() == "I/O error: "@ + i.text@,
        e matches MoEError::Config(s) ==> e.text() == "Config error: "@ + s@,
        e matches MoEError::Shader(s) ==> e.text() == "Shader error: "@ + s@,
{
}

} // verus!
