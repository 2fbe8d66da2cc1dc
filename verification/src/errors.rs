use vstd::prelude::*;

verus! {

/// The error kinds that the storage engine can report. Every kind names the
/// exact condition that produces it; none is ever swallowed or retried.
#[derive(Clone, Copy, Debug, PartialEq, Eq, Structural)]
pub enum ErrorKind {
    /// A statement's arguments are malformed (wrong count, unparsable id,
    /// or an unrecognized keyword).
    SyntaxError,
    /// A row field exceeds its fixed width in bytes.
    FieldTooLong,
    /// The table's fixed page capacity is exhausted.
    TableFull,
    /// A page-store byte range lies outside a page.
    OutOfBounds,
    /// A decode received a buffer whose length is not the fixed row size.
    StorageCorruption,
}

impl ErrorKind {
    /// The user-visible message for this kind.
    pub open spec fn message_spec(self) -> Seq<char> {
        match self {
            ErrorKind::SyntaxError => "syntax error: statement is malformed"@,
            ErrorKind::FieldTooLong => "field too long: string exceeds its fixed width"@,
            ErrorKind::TableFull => "table full: page capacity exhausted"@,
            ErrorKind::OutOfBounds => "out of bounds: byte range lies outside the page"@,
            ErrorKind::StorageCorruption => "storage corruption: buffer has the wrong length"@,
        }
    }

    /// A single descriptive message identifying the kind.
    pub fn message(&self) -> (m: String)
        ensures
            m@ == self.message_spec(),
    {
        match self {
            ErrorKind::SyntaxError => "syntax error: statement is malformed".to_owned(),
            ErrorKind::FieldTooLong => "field too long: string exceeds its fixed width".to_owned(),
            ErrorKind::TableFull => "table full: page capacity exhausted".to_owned(),
            ErrorKind::OutOfBounds => "out of bounds: byte range lies outside the page".to_owned(),
            ErrorKind::StorageCorruption => "storage corruption: buffer has the wrong length".to_owned(),
        }
    }
}

} // verus!
