//! Records and parse errors.
use vstd::prelude::*;

verus! {

/// One FASTA record: a header's identifier and description, and the bases of
/// its body folded into one sequence.
#[derive(Clone, Debug, PartialEq, Eq)]
pub struct Record {
    pub identifier: String,
    pub description: String,
    pub sequence: String,
}

/// What a record holds, as character sequences.
pub struct RecordModel {
    pub identifier: Seq<char>,
    pub description: Seq<char>,
    pub sequence: Seq<char>,
}

impl View for Record {
    type V = RecordModel;

    open spec fn view(&self) -> RecordModel {
        RecordModel {
            identifier: self.identifier@,
            description: self.description@,
            sequence: self.sequence@,
        }
    }
}

/// What the parser was looking for where it stopped.
#[derive(Clone, Copy, Debug, PartialEq, Eq, Structural)]
pub enum Expected {
    /// One of `A`, `C`, `G`, `T`.
    Base,
    /// The `>` that opens a header.
    Marker,
    /// A non-whitespace character of an identifier.
    IdentifierChar,
}

/// A failed parse: the character position where it stopped and what was
/// expected there.
#[derive(Clone, Copy, Debug, PartialEq, Eq, Structural)]
pub struct ParseError {
    pub position: usize,
    pub expected: Expected,
}

/// The models of the records of a parse result.
pub open spec fn models_of(r: Result<Vec<Record>, ParseError>) -> Result<
    Seq<RecordModel>,
    ParseError,
> {
    match r {
        Ok(v) => Ok(v@.map_values(|x: Record| x@)),
        Err(e) => Err(e),
    }
}

} // verus!
