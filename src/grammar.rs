//! The FASTA grammar: its meaning as spec functions over the input's
//! characters, and the recognizers that follow it.
//!
//! Every recognizer starts at a character position and returns what it
//! matched together with the position just past it.
use vstd::prelude::*;
use crate::charset::{
    base, inline_space, is_base, is_inline_space, is_line_break, is_space, line_break, space,
};
use crate::record::{models_of, Expected, ParseError, Record, RecordModel};
use crate::text::string_of;

verus! {

/// The position just past the longest run, starting at `i`, of characters
/// that satisfy `p`.
pub open spec fn run_end(s: Seq<char>, i: int, p: spec_fn(char) -> bool) -> int
    decreases s.len() - i,
{
    if 0 <= i < s.len() && p(s[i]) {
        run_end(s, i + 1, p)
    } else {
        i
    }
}

/// Past the bases that follow one another from `i`.
pub open spec fn bases_end(s: Seq<char>, i: int) -> int {
    run_end(s, i, |c: char| is_base(c))
}

/// Past the whitespace that follows `i`.
pub open spec fn spaces_end(s: Seq<char>, i: int) -> int {
    run_end(s, i, |c: char| is_space(c))
}

/// Past the whitespace from `i` that stays on the line.
pub open spec fn inline_spaces_end(s: Seq<char>, i: int) -> int {
    run_end(s, i, |c: char| is_inline_space(c))
}

/// Past the non-whitespace characters from `i`.
pub open spec fn word_end(s: Seq<char>, i: int) -> int {
    run_end(s, i, |c: char| !is_space(c))
}

/// The position of the next line break from `i`, or the end.
pub open spec fn line_end(s: Seq<char>, i: int) -> int {
    run_end(s, i, |c: char| !is_line_break(c))
}

/// The length of the line break at `i`: 2 for `"\r\n"`, 1 for another line
/// break character, 0 where none starts.
pub open spec fn line_break_len(s: Seq<char>, i: int) -> int {
    if 0 <= i && i + 1 < s.len() && s[i] == '\r' && s[i + 1] == '\n' {
        2
    } else if 0 <= i < s.len() && is_line_break(s[i]) {
        1
    } else {
        0
    }
}

/// The position past the line breaks that follow one another from `i`.
pub open spec fn blank_lines_end(s: Seq<char>, i: int) -> int
    decreases s.len() - i,
{
    if line_break_len(s, i) > 0 {
        blank_lines_end(s, i + line_break_len(s, i))
    } else {
        i
    }
}

/// The bases of `t`, in order.
pub open spec fn bases_of(t: Seq<char>) -> Seq<char>
    decreases t.len(),
{
    if t.len() == 0 {
        t
    } else if is_base(t.last()) {
        bases_of(t.drop_last()).push(t.last())
    } else {
        bases_of(t.drop_last())
    }
}

/// Where a sequence that has reached `i` ends: it goes on over bases, and
/// over a line break only where a base follows it at once.
pub open spec fn sequence_end(s: Seq<char>, i: int) -> int
    decreases s.len() - i,
{
    if 0 <= i < s.len() && is_base(s[i]) {
        sequence_end(s, i + 1)
    } else if line_break_len(s, i) > 0 && i + line_break_len(s, i) < s.len() && is_base(
        s[i + line_break_len(s, i)],
    ) {
        sequence_end(s, i + line_break_len(s, i))
    } else {
        i
    }
}

/// The sequence read from `i`: the bases up to `sequence_end`.
pub open spec fn sequence_value(s: Seq<char>, i: int) -> Seq<char> {
    bases_of(s.subrange(i, sequence_end(s, i)))
}

/// Where the `>` of a header is looked for: past leading whitespace.
pub open spec fn marker_pos(s: Seq<char>, i: int) -> int {
    spaces_end(s, i)
}

/// A header starts at `i`: `>` and at least one identifier character.
pub open spec fn identifier_ok(s: Seq<char>, i: int) -> bool {
    let m = marker_pos(s, i);
    &&& m < s.len()
    &&& s[m] == '>'
    &&& m + 1 < s.len()
    &&& !is_space(s[m + 1])
}

/// Why no header starts at `i`: no `>`, or nothing after it.
pub open spec fn identifier_error(s: Seq<char>, i: int) -> ParseError {
    let m = marker_pos(s, i);
    if m < s.len() && s[m] == '>' {
        ParseError { position: (m + 1) as usize, expected: Expected::IdentifierChar }
    } else {
        ParseError { position: m as usize, expected: Expected::Marker }
    }
}

/// The identifier of the header at `i`.
pub open spec fn identifier_value(s: Seq<char>, i: int) -> Seq<char> {
    let m = marker_pos(s, i);
    s.subrange(m + 1, word_end(s, m + 1))
}

/// Past the identifier and the whitespace that follows it on its line.
pub open spec fn identifier_end(s: Seq<char>, i: int) -> int {
    inline_spaces_end(s, word_end(s, marker_pos(s, i) + 1))
}

/// Where `s[lo..hi]` ends once its trailing whitespace is cut off.
pub open spec fn trimmed_end(s: Seq<char>, lo: int, hi: int) -> int
    decreases hi - lo,
{
    if lo < hi && is_space(s[hi - 1]) {
        trimmed_end(s, lo, hi - 1)
    } else {
        hi
    }
}

/// Where the text of a description starts: past whitespace on its line.
pub open spec fn description_start(s: Seq<char>, i: int) -> int {
    inline_spaces_end(s, i)
}

/// The description read from `i`: the rest of the line, trimmed.
pub open spec fn description_value(s: Seq<char>, i: int) -> Seq<char> {
    let a = description_start(s, i);
    s.subrange(a, trimmed_end(s, a, line_end(s, a)))
}

/// Past the rest of the line and any blank lines after it.
pub open spec fn description_end(s: Seq<char>, i: int) -> int {
    blank_lines_end(s, line_end(s, description_start(s, i)))
}

/// Where the body of the record that starts at `i` begins.
pub open spec fn body_start(s: Seq<char>, i: int) -> int {
    description_end(s, identifier_end(s, i))
}

/// The record that starts at `i`.
pub open spec fn record_model(s: Seq<char>, i: int) -> RecordModel {
    let e = identifier_end(s, i);
    RecordModel {
        identifier: identifier_value(s, i),
        description: description_value(s, e),
        sequence: sequence_value(s, body_start(s, i)),
    }
}

/// Where the record that starts at `i` ends: past its sequence.
pub open spec fn record_end(s: Seq<char>, i: int) -> int {
    sequence_end(s, body_start(s, i))
}

/// `ms` put before the records of `r`, if `r` succeeded.
pub open spec fn prepend(ms: Seq<RecordModel>, r: Result<Seq<RecordModel>, ParseError>) -> Result<
    Seq<RecordModel>,
    ParseError,
> {
    match r {
        Ok(rs) => Ok(ms + rs),
        Err(e) => Err(e),
    }
}

/// The records of the document from `i` on: as many records as follow one
/// another; then only line breaks may remain, else the failed header is the
/// error.
pub open spec fn records_from(s: Seq<char>, i: int) -> Result<Seq<RecordModel>, ParseError>
    decreases s.len() - i,
    via records_from_decreases
{
    if 0 <= i <= s.len() && identifier_ok(s, i) {
        prepend(seq![record_model(s, i)], records_from(s, record_end(s, i)))
    } else if blank_lines_end(s, i) == s.len() {
        Ok(Seq::empty())
    } else {
        Err(identifier_error(s, i))
    }
}

#[via_fn]
proof fn records_from_decreases(s: Seq<char>, i: int) {
    if 0 <= i <= s.len() && identifier_ok(s, i) {
        lemma_record_end_bounds(s, i);
    }
}

/// What a whole document parses to.
pub open spec fn document(s: Seq<char>) -> Result<Seq<RecordModel>, ParseError> {
    records_from(s, 0)
}

/// A run stays within the input, and holds exactly the characters of its
/// class up to the first one outside it.
pub proof fn lemma_run_end_bounds(s: Seq<char>, i: int, p: spec_fn(char) -> bool)
    requires
        0 <= i <= s.len(),
    ensures
        i <= run_end(s, i, p) <= s.len(),
        forall|k: int| i <= k < run_end(s, i, p) ==> #[trigger] p(s[k]),
        run_end(s, i, p) < s.len() ==> !p(s[run_end(s, i, p)]),
    decreases s.len() - i,
{
    if i < s.len() && p(s[i]) {
        lemma_run_end_bounds(s, i + 1, p);
    }
}

/// Blank lines stay within the input.
pub proof fn lemma_blank_lines_end_bounds(s: Seq<char>, i: int)
    requires
        0 <= i <= s.len(),
    ensures
        i <= blank_lines_end(s, i) <= s.len(),
    decreases s.len() - i,
{
    if line_break_len(s, i) > 0 {
        lemma_blank_lines_end_bounds(s, i + line_break_len(s, i));
    }
}

/// A sequence stays within the input.
pub proof fn lemma_sequence_end_bounds(s: Seq<char>, i: int)
    requires
        0 <= i <= s.len(),
    ensures
        i <= sequence_end(s, i) <= s.len(),
    decreases s.len() - i,
{
    if 0 <= i < s.len() && is_base(s[i]) {
        lemma_sequence_end_bounds(s, i + 1);
    } else if line_break_len(s, i) > 0 && i + line_break_len(s, i) < s.len() && is_base(
        s[i + line_break_len(s, i)],
    ) {
        lemma_sequence_end_bounds(s, i + line_break_len(s, i));
    }
}

/// A header and its body take up at least two characters.
pub proof fn lemma_record_end_bounds(s: Seq<char>, i: int)
    requires
        0 <= i <= s.len(),
        identifier_ok(s, i),
    ensures
        marker_pos(s, i) + 1 < word_end(s, marker_pos(s, i) + 1) <= identifier_end(s, i),
        identifier_end(s, i) <= body_start(s, i) <= record_end(s, i) <= s.len(),
        i < record_end(s, i),
{
    let m = marker_pos(s, i);
    lemma_run_end_bounds(s, i, |c: char| is_space(c));
    lemma_run_end_bounds(s, m + 1, |c: char| !is_space(c));
    let w = word_end(s, m + 1);
    lemma_run_end_bounds(s, w, |c: char| is_inline_space(c));
    let e = identifier_end(s, i);
    let a = description_start(s, e);
    lemma_run_end_bounds(s, e, |c: char| is_inline_space(c));
    lemma_run_end_bounds(s, a, |c: char| !is_line_break(c));
    lemma_blank_lines_end_bounds(s, line_end(s, a));
    lemma_sequence_end_bounds(s, body_start(s, i));
}

/// Taking one more character adds it to the bases if it is one.
proof fn lemma_bases_of_step(s: Seq<char>, lo: int, hi: int)
    requires
        0 <= lo <= hi < s.len(),
    ensures
        bases_of(s.subrange(lo, hi + 1)) == if is_base(s[hi]) {
            bases_of(s.subrange(lo, hi)).push(s[hi])
        } else {
            bases_of(s.subrange(lo, hi))
        },
{
    assert(s.subrange(lo, hi + 1).drop_last() =~= s.subrange(lo, hi));
}

fn skip_spaces(s: &Vec<char>, i: usize) -> (r: usize)
    requires
        i <= s.len(),
    ensures
        r == spaces_end(s@, i as int),
{
    let mut j = i;
    while j < s.len() && space(s[j])
        invariant
            i <= j <= s.len(),
            spaces_end(s@, i as int) == spaces_end(s@, j as int),
        decreases s.len() - j,
    {
        j = j + 1;
    }
    j
}

fn skip_inline_spaces(s: &Vec<char>, i: usize) -> (r: usize)
    requires
        i <= s.len(),
    ensures
        r == inline_spaces_end(s@, i as int),
{
    let mut j = i;
    while j < s.len() && inline_space(s[j])
        invariant
            i <= j <= s.len(),
            inline_spaces_end(s@, i as int) == inline_spaces_end(s@, j as int),
        decreases s.len() - j,
    {
        j = j + 1;
    }
    j
}

fn skip_word(s: &Vec<char>, i: usize) -> (r: usize)
    requires
        i <= s.len(),
    ensures
        r == word_end(s@, i as int),
{
    let mut j = i;
    while j < s.len() && !space(s[j])
        invariant
            i <= j <= s.len(),
            word_end(s@, i as int) == word_end(s@, j as int),
        decreases s.len() - j,
    {
        j = j + 1;
    }
    j
}

fn skip_line(s: &Vec<char>, i: usize) -> (r: usize)
    requires
        i <= s.len(),
    ensures
        r == line_end(s@, i as int),
{
    let mut j = i;
    while j < s.len() && !line_break(s[j])
        invariant
            i <= j <= s.len(),
            line_end(s@, i as int) == line_end(s@, j as int),
        decreases s.len() - j,
    {
        j = j + 1;
    }
    j
}

fn line_break_at(s: &Vec<char>, i: usize) -> (r: usize)
    requires
        i <= s.len(),
    ensures
        r == line_break_len(s@, i as int),
{
    if i < s.len() && i + 1 < s.len() && s[i] == '\r' && s[i + 1] == '\n' {
        2
    } else if i < s.len() && line_break(s[i]) {
        1
    } else {
        0
    }
}

fn skip_blank_lines(s: &Vec<char>, i: usize) -> (r: usize)
    requires
        i <= s.len(),
    ensures
        r == blank_lines_end(s@, i as int),
{
    let mut j = i;
    loop
        invariant
            i <= j <= s.len(),
            blank_lines_end(s@, i as int) == blank_lines_end(s@, j as int),
        decreases s.len() - j,
    {
        let k = line_break_at(s, j);
        if k == 0 {
            return j;
        }
        j = j + k;
    }
}

/// Recognizes one base at `pos`.
pub fn dna_base(s: &Vec<char>, pos: usize) -> (r: Result<(char, usize), ParseError>)
    requires
        pos <= s.len(),
    ensures
        pos < s.len() && is_base(s@[pos as int]) ==> r == Ok::<(char, usize), ParseError>(
            (s@[pos as int], (pos + 1) as usize),
        ),
        !(pos < s.len() && is_base(s@[pos as int])) ==> r == Err::<(char, usize), ParseError>(
            ParseError { position: pos, expected: Expected::Base },
        ),
{
    if pos < s.len() && base(s[pos]) {
        Ok((s[pos], pos + 1))
    } else {
        Err(ParseError { position: pos, expected: Expected::Base })
    }
}

/// Recognizes the bases of one line: the longest run of bases at `pos`,
/// which may be empty.
pub fn dna_sequence(s: &Vec<char>, pos: usize) -> (r: (Vec<char>, usize))
    requires
        pos <= s.len(),
    ensures
        r.1 == bases_end(s@, pos as int),
        r.0@ == s@.subrange(pos as int, r.1 as int),
{
    let mut out: Vec<char> = Vec::new();
    let mut j = pos;
    while j < s.len() && base(s[j])
        invariant
            pos <= j <= s.len(),
            bases_end(s@, pos as int) == bases_end(s@, j as int),
            out@ == s@.subrange(pos as int, j as int),
        decreases s.len() - j,
    {
        out.push(s[j]);
        j = j + 1;
        proof {
            assert(out@ =~= s@.subrange(pos as int, j as int));
        }
    }
    (out, j)
}

/// Recognizes a sequence over several lines and folds its bases into one
/// string. It stops at a line break that no base follows at once.
pub fn sequence(s: &Vec<char>, pos: usize) -> (r: (String, usize))
    requires
        pos <= s.len(),
    ensures
        r.1 == sequence_end(s@, pos as int),
        r.0@ == sequence_value(s@, pos as int),
{
    let mut out: Vec<char> = Vec::new();
    let mut j = pos;
    loop
        invariant
            pos <= j <= s.len(),
            sequence_end(s@, pos as int) == sequence_end(s@, j as int),
            out@ == bases_of(s@.subrange(pos as int, j as int)),
        ensures
            pos <= j <= s.len(),
            sequence_end(s@, pos as int) == j,
            out@ == bases_of(s@.subrange(pos as int, j as int)),
        decreases s.len() - j,
    {
        if j < s.len() && base(s[j]) {
            proof {
                lemma_bases_of_step(s@, pos as int, j as int);
            }
            out.push(s[j]);
            j = j + 1;
        } else {
            let k = line_break_at(s, j);
            if k > 0 && j + k < s.len() && base(s[j + k]) {
                proof {
                    lemma_bases_of_step(s@, pos as int, j as int);
                    if k == 2 {
                        lemma_bases_of_step(s@, pos as int, j + 1);
                    }
                }
                j = j + k;
            } else {
                break ;
            }
        }
    }
    (string_of(&out), j)
}

/// Recognizes a header's `>` and identifier, with the whitespace before it
/// and the whitespace after it on its line.
pub fn identifier(s: &Vec<char>, pos: usize) -> (r: Result<(String, usize), ParseError>)
    requires
        pos <= s.len(),
    ensures
        identifier_ok(s@, pos as int) ==> r is Ok && r->Ok_0.0@ == identifier_value(s@, pos as int)
            && r->Ok_0.1 == identifier_end(s@, pos as int),
        !identifier_ok(s@, pos as int) ==> r == Err::<(String, usize), ParseError>(
            identifier_error(s@, pos as int),
        ),
{
    let m = skip_spaces(s, pos);
    proof {
        lemma_run_end_bounds(s@, pos as int, |c: char| is_space(c));
    }
    if m >= s.len() || s[m] != '>' {
        return Err(ParseError { position: m, expected: Expected::Marker });
    }
    if m + 1 >= s.len() || space(s[m + 1]) {
        return Err(ParseError { position: m + 1, expected: Expected::IdentifierChar });
    }
    let w = skip_word(s, m + 1);
    proof {
        lemma_run_end_bounds(s@, (m + 1) as int, |c: char| !is_space(c));
    }
    let mut ident: Vec<char> = Vec::new();
    let mut k = m + 1;
    while k < w
        invariant
            m + 1 <= k <= w <= s.len(),
            ident@ == s@.subrange(m + 1, k as int),
        decreases w - k,
    {
        ident.push(s[k]);
        k = k + 1;
        proof {
            assert(ident@ =~= s@.subrange(m + 1, k as int));
        }
    }
    let e = skip_inline_spaces(s, w);
    Ok((string_of(&ident), e))
}

/// Recognizes the rest of a header line as the description, trimmed of
/// whitespace, and the line breaks that follow it.
pub fn description(s: &Vec<char>, pos: usize) -> (r: (String, usize))
    requires
        pos <= s.len(),
    ensures
        r.0@ == description_value(s@, pos as int),
        r.1 == description_end(s@, pos as int),
{
    let a = skip_inline_spaces(s, pos);
    proof {
        lemma_run_end_bounds(s@, pos as int, |c: char| is_inline_space(c));
    }
    let b = skip_line(s, a);
    proof {
        lemma_run_end_bounds(s@, a as int, |c: char| !is_line_break(c));
    }
    let mut t = b;
    while a < t && space(s[t - 1])
        invariant
            a <= t <= b <= s.len(),
            trimmed_end(s@, a as int, b as int) == trimmed_end(s@, a as int, t as int),
        decreases t - a,
    {
        t = t - 1;
    }
    let mut text: Vec<char> = Vec::new();
    let mut k = a;
    while k < t
        invariant
            a <= k <= t <= s.len(),
            text@ == s@.subrange(a as int, k as int),
        decreases t - k,
    {
        text.push(s[k]);
        k = k + 1;
        proof {
            assert(text@ =~= s@.subrange(a as int, k as int));
        }
    }
    let e = skip_blank_lines(s, b);
    (string_of(&text), e)
}

/// Recognizes one record: header, description and sequence.
pub fn record(s: &Vec<char>, pos: usize) -> (r: Result<(Record, usize), ParseError>)
    requires
        pos <= s.len(),
    ensures
        identifier_ok(s@, pos as int) ==> r is Ok && r->Ok_0.0@ == record_model(s@, pos as int)
            && r->Ok_0.1 == record_end(s@, pos as int),
        !identifier_ok(s@, pos as int) ==> r == Err::<(Record, usize), ParseError>(
            identifier_error(s@, pos as int),
        ),
{
    let (ident, e) = match identifier(s, pos) {
        Ok(v) => v,
        Err(err) => return Err(err),
    };
    proof {
        lemma_record_end_bounds(s@, pos as int);
    }
    let (desc, b) = description(s, e);
    let (seq, end) = sequence(s, b);
    Ok((Record { identifier: ident, description: desc, sequence: seq }, end))
}

/// Recognizes a whole document: records one after another, then nothing but
/// line breaks.
pub fn records(s: &Vec<char>) -> (r: Result<Vec<Record>, ParseError>)
    ensures
        models_of(r) == document(s@),
{
    let mut out: Vec<Record> = Vec::new();
    let mut pos: usize = 0;
    loop
        invariant
            pos <= s.len(),
            document(s@) == prepend(out@.map_values(|x: Record| x@), records_from(s@, pos as int)),
        decreases s.len() - pos,
    {
        match record(s, pos) {
            Ok((rec, end)) => {
                proof {
                    lemma_record_end_bounds(s@, pos as int);
                    let old_models = out@.map_values(|x: Record| x@);
                    let rest = records_from(s@, end as int);
                    assert(old_models + seq![rec@] =~= out@.push(rec).map_values(|x: Record| x@));
                    match rest {
                        Ok(rs) => {
                            assert(old_models + (seq![rec@] + rs) =~= (old_models + seq![rec@])
                                + rs);
                        },
                        Err(_) => {},
                    }
                }
                out.push(rec);
                pos = end;
            },
            Err(err) => {
                let t = skip_blank_lines(s, pos);
                if t == s.len() {
                    proof {
                        assert(out@.map_values(|x: Record| x@) + Seq::<RecordModel>::empty()
                            =~= out@.map_values(|x: Record| x@));
                    }
                    return Ok(out);
                } else {
                    return Err(err);
                }
            },
        }
    }
}

} // verus!
