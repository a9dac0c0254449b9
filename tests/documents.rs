use fasta_rs::{parser, Expected, ParseError, Record};

fn rec(identifier: &str, description: &str, sequence: &str) -> Record {
    Record {
        identifier: identifier.to_string(),
        description: description.to_string(),
        sequence: sequence.to_string(),
    }
}

#[test]
fn test_parser() {
    assert_eq!(
        parser(">i|d multiple word description\nA\nC\nG\nT\n\n\n"),
        Ok(vec![Record {
            identifier: "i|d".to_string(),
            description: "multiple word description".to_string(),
            sequence: "ACGT".to_string()
        }])
    );
    assert_eq!(
        parser(
            ">i|d multiple word description\nAC\nGT\n>i|d multiple word description\nA\nC\nG\nT"
        ),
        Ok(vec![
            Record {
                identifier: "i|d".to_string(),
                description: "multiple word description".to_string(),
                sequence: "ACGT".to_string()
            },
            Record {
                identifier: "i|d".to_string(),
                description: "multiple word description".to_string(),
                sequence: "ACGT".to_string()
            }
        ])
    );
    assert_eq!(
        parser(
            ">i|d multiple word description\nA\n>i|d multiple word description\nA\nC\n\n>i|d multiple word description\nA\nC\nG\n\n\n>i|d multiple word description\nA\nC\nG\nT"
        ),
        Ok(vec![
            Record {
                identifier: "i|d".to_string(),
                description: "multiple word description".to_string(),
                sequence: "A".to_string()
            },
            Record {
                identifier: "i|d".to_string(),
                description: "multiple word description".to_string(),
                sequence: "AC".to_string()
            },
            Record {
                identifier: "i|d".to_string(),
                description: "multiple word description".to_string(),
                sequence: "ACG".to_string()
            },
            Record {
                identifier: "i|d".to_string(),
                description: "multiple word description".to_string(),
                sequence: "ACGT".to_string()
            }
        ])
    );
}

#[test]
fn single_record_document() {
    assert_eq!(parser(">seq1 a sample\nACGTTGCA"), Ok(vec![rec("seq1", "a sample", "ACGTTGCA")]));
}

#[test]
fn folding_does_not_depend_on_line_lengths() {
    let a = parser(">id desc\nA\nC\nG\nT\n");
    let b = parser(">id desc\nAC\nGT\n");
    assert_eq!(a, Ok(vec![rec("id", "desc", "ACGT")]));
    assert_eq!(a, b);
}

#[test]
fn trailing_blank_lines_are_ignored() {
    assert_eq!(parser(">id d\nACGT\n\n\n\n"), Ok(vec![rec("id", "d", "ACGT")]));
    assert_eq!(parser(">id d\nACGT"), parser(">id d\nACGT\n\n\n\n"));
}

#[test]
fn records_separated_by_blank_lines_keep_order() {
    assert_eq!(
        parser(">a one\nAAA\n\n>b two\nCCC\n\n\n>c three\nGGG\n"),
        Ok(vec![rec("a", "one", "AAA"), rec("b", "two", "CCC"), rec("c", "three", "GGG")])
    );
}

#[test]
fn empty_document_has_no_records() {
    assert_eq!(parser(""), Ok(vec![]));
    assert_eq!(parser("\n\n"), Ok(vec![]));
}

#[test]
fn header_without_body() {
    assert_eq!(parser(">id\n>id2 x\nA"), Ok(vec![rec("id", "", ""), rec("id2", "x", "A")]));
}

#[test]
fn missing_marker_fails() {
    assert_eq!(
        parser("id desc\nACGT\n"),
        Err(ParseError { position: 0, expected: Expected::Marker })
    );
}

#[test]
fn trailing_garbage_fails() {
    assert_eq!(
        parser(">id d\nACGT\nxyz"),
        Err(ParseError { position: 11, expected: Expected::Marker })
    );
    assert_eq!(
        parser(">id d\nAC\n\nGT\n"),
        Err(ParseError { position: 10, expected: Expected::Marker })
    );
}

#[test]
fn missing_identifier_fails() {
    assert_eq!(
        parser(">id d\nA\n> x\nC"),
        Err(ParseError { position: 9, expected: Expected::IdentifierChar })
    );
}

#[test]
fn foreign_character_ends_sequence_then_fails_document() {
    assert_eq!(
        parser(">id d\nACNGT\n"),
        Err(ParseError { position: 8, expected: Expected::Marker })
    );
}
