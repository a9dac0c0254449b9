//! A parser for FASTA files holding DNA records.
//!
//! A document is a run of records. Each record is a header line (`>` marker,
//! identifier, free-text description) followed by sequence lines of the bases
//! `A`, `C`, `G` and `T`, which are folded into one sequence.
use vstd::prelude::*;

pub mod charset;
pub mod grammar;
pub mod laws;
pub mod record;
pub mod text;

pub use grammar::{description, dna_base, dna_sequence, identifier, record, records, sequence};
pub use record::{Expected, ParseError, Record};

verus! {

/// Parses a whole FASTA document into its records, or fails where it stops
/// making sense; no records are returned from a document that fails.
pub fn parser(input: &str) -> (r: Result<Vec<Record>, record::ParseError>)
    ensures
        record::models_of(r) == grammar::document(input@),
{
    let s = text::chars_of(input);
    grammar::records(&s)
}

} // verus!
