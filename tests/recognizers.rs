use fasta_rs::text::chars_of;
use fasta_rs::{
    description, dna_base, dna_sequence, identifier, record, records, sequence, Expected,
    ParseError, Record,
};

fn base_of(s: &str) -> Result<char, ParseError> {
    dna_base(&chars_of(s), 0).map(|r| r.0)
}

fn line_of(s: &str) -> Vec<char> {
    dna_sequence(&chars_of(s), 0).0
}

fn sequence_of(s: &str) -> String {
    sequence(&chars_of(s), 0).0
}

fn identifier_of(s: &str) -> Result<String, ParseError> {
    identifier(&chars_of(s), 0).map(|r| r.0)
}

fn description_of(s: &str) -> String {
    description(&chars_of(s), 0).0
}

#[test]
fn parse_dna_base() {
    assert_eq!(base_of("A"), Ok('A'));
    assert_eq!(base_of("C"), Ok('C'));
    assert_eq!(base_of("G"), Ok('G'));
    assert_eq!(base_of("T"), Ok('T'));
    base_of("X").unwrap_err();
}

#[test]
fn parse_dna_sequence() {
    assert_eq!(line_of("A"), vec!['A']);
    assert_eq!(line_of("T"), vec!['T']);
    assert_eq!(line_of("AT"), vec!['A', 'T']);
    assert_eq!(line_of("ATX"), vec!['A', 'T']);
    assert_eq!(line_of("AXT"), vec!['A']);
    assert_eq!(line_of("XAT"), vec![]);
}

#[test]
fn parse_sequence() {
    assert_eq!(sequence_of("A"), "A".to_string());
    assert_eq!(sequence_of("C\n"), "C".to_string());
    assert_eq!(sequence_of("A\nC"), "AC".to_string());
    assert_eq!(sequence_of("A\nG\n"), "AG".to_string());
    assert_eq!(sequence_of("A\nT\n\n"), "AT".to_string());
}

#[test]
fn parse_identifier() {
    assert_eq!(identifier_of(">i|d "), Ok("i|d".to_string()));
    assert_eq!(identifier_of(">i|d description\n"), Ok("i|d".to_string()));
}

#[test]
fn parse_description() {
    assert_eq!(description_of("description"), "description".to_string());
    assert_eq!(
        description_of(" multiple word description\n"),
        "multiple word description".to_string()
    );
}

#[test]
fn base_error_names_position() {
    let s = chars_of("AX");
    assert_eq!(dna_base(&s, 0), Ok(('A', 1)));
    assert_eq!(
        dna_base(&s, 1),
        Err(ParseError { position: 1, expected: Expected::Base })
    );
    assert_eq!(
        dna_base(&s, 2),
        Err(ParseError { position: 2, expected: Expected::Base })
    );
}

#[test]
fn lower_case_bases_are_not_bases() {
    base_of("a").unwrap_err();
    assert_eq!(line_of("ACgT"), vec!['A', 'C']);
}

#[test]
fn line_stops_at_position() {
    assert_eq!(dna_sequence(&chars_of("GGAX"), 1), (vec!['G', 'A'], 3));
}

#[test]
fn sequence_stops_at_blank_line() {
    let s = chars_of("AC\n\nGT");
    assert_eq!(sequence(&s, 0), ("AC".to_string(), 2));
}

#[test]
fn sequence_folds_crlf_lines() {
    assert_eq!(sequence(&chars_of("AC\r\nGT\r\n"), 0), ("ACGT".to_string(), 6));
}

#[test]
fn sequence_stops_at_foreign_character() {
    assert_eq!(sequence(&chars_of("AC\nGXT"), 0), ("ACG".to_string(), 4));
    assert_eq!(sequence(&chars_of("N"), 0), (String::new(), 0));
}

#[test]
fn identifier_errors() {
    assert_eq!(
        identifier(&chars_of("  id"), 0),
        Err(ParseError { position: 2, expected: Expected::Marker })
    );
    assert_eq!(
        identifier(&chars_of("> id"), 0),
        Err(ParseError { position: 1, expected: Expected::IdentifierChar })
    );
    assert_eq!(
        identifier(&chars_of(">"), 0),
        Err(ParseError { position: 1, expected: Expected::IdentifierChar })
    );
}

#[test]
fn identifier_keeps_line_break() {
    assert_eq!(identifier(&chars_of("\n >ab \t\nx"), 0), Ok(("ab".to_string(), 7)));
}

#[test]
fn description_trims_and_skips_blank_lines() {
    assert_eq!(
        description(&chars_of("  two words \t\n\n\r\nACGT"), 0),
        ("two words".to_string(), 17)
    );
    assert_eq!(description(&chars_of("\nACGT"), 0), (String::new(), 1));
}

#[test]
fn chars_of_keeps_every_character() {
    assert_eq!(chars_of("a\u{e9}\r\n\u{2028}z"), vec!['a', '\u{e9}', '\r', '\n', '\u{2028}', 'z']);
    assert_eq!(chars_of(""), Vec::<char>::new());
}

#[test]
fn record_reads_header_and_body() {
    let s = chars_of(">x y z\nAC\nG\n\n>n");
    assert_eq!(
        record(&s, 0),
        Ok((
            Record {
                identifier: "x".to_string(),
                description: "y z".to_string(),
                sequence: "ACG".to_string()
            },
            11
        ))
    );
    assert_eq!(
        record(&s, 11),
        Ok((
            Record {
                identifier: "n".to_string(),
                description: String::new(),
                sequence: String::new()
            },
            15
        ))
    );
}

#[test]
fn records_on_characters() {
    assert_eq!(records(&chars_of(">a\nA\n>b\nC")).map(|v| v.len()), Ok(2));
    assert_eq!(
        records(&chars_of("  \n")),
        Err(ParseError { position: 3, expected: Expected::Marker })
    );
}

#[test]
fn unicode_whitespace_pads_header() {
    assert_eq!(identifier(&chars_of("\u{3000}>id\u{a0}rest"), 0), Ok(("id".to_string(), 5)));
}
