use vstd::prelude::*;

verus! {

/// Why a single file failed to parse.
#[derive(Clone, Copy, Debug, PartialEq, Eq, Structural)]
pub enum ParseError {
    /// The structured block is missing, malformed, or violates the schema.
    SchemaViolation,
    /// A date string does not match the fixed `dd/mm/yyyy` format or names
    /// a day that does not exist.
    DateFormatMismatch,
    /// A week file's name stem is not a valid week number.
    InvalidIdentifier,
}

/// A load failure: the first parse error met during a load, together with
/// the path of the offending file.
#[derive(Debug, PartialEq, Eq)]
pub struct LoadError {
    pub path: String,
    pub kind: ParseError,
}

/// The mathematical content of a [`LoadError`].
pub ghost struct LoadErrorView {
    pub path: Seq<char>,
    pub kind: ParseError,
}

impl View for LoadError {
    type V = LoadErrorView;

    open spec fn view(&self) -> LoadErrorView {
        LoadErrorView { path: self.path@, kind: self.kind }
    }
}

} // verus!
