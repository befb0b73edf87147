//! What can be wrong with the documentation of a definition.

use vstd::prelude::*;

verus! {

/// Why a documentation text gives no description. Each of these is a mistake
/// of the text's author, and none can be recovered from.
#[derive(Clone, Debug, PartialEq, Eq)]
pub enum DocError {
    /// After all known sections were taken out, the text still holds `# `.
    UnknownHeading,
    /// A parameter's bullet does not have the form `- name: type (flags)`.
    Malformed,
    /// A parameter's type, as written, is no type.
    InvalidType(String),
    /// A parameter's flag list names something that is no flag.
    UnknownFlag(String),
    /// A parameter's flags cannot stand together.
    InvalidFlags,
}

/// A `DocError` with its text as a sequence of characters.
pub enum DocFault {
    UnknownHeading,
    Malformed,
    InvalidType(Seq<char>),
    UnknownFlag(Seq<char>),
    InvalidFlags,
}

impl View for DocError {
    type V = DocFault;

    open spec fn view(&self) -> DocFault {
        match self {
            DocError::UnknownHeading => DocFault::UnknownHeading,
            DocError::Malformed => DocFault::Malformed,
            DocError::InvalidType(t) => DocFault::InvalidType(t@),
            DocError::UnknownFlag(t) => DocFault::UnknownFlag(t@),
            DocError::InvalidFlags => DocFault::InvalidFlags,
        }
    }
}

} // verus!
