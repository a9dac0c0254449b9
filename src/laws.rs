//! Properties of whole documents, proved from the grammar's definition.
use vstd::prelude::*;
use crate::charset::{is_base, is_inline_space, is_line_break, is_space};
use crate::grammar::{
    bases_end, bases_of, blank_lines_end, body_start, document, identifier_end, identifier_error,
    identifier_ok, line_break_len, marker_pos, prepend, record_end, record_model, records_from,
    lemma_run_end_bounds, run_end, sequence_end, spaces_end, trimmed_end,
};
use crate::record::{Expected, ParseError, RecordModel};

verus! {

/// `n` line feeds.
pub open spec fn newlines(n: nat) -> Seq<char> {
    Seq::new(n, |k: int| '\n')
}

/// An identifier: one or more characters, none of them whitespace.
pub open spec fn valid_identifier(id: Seq<char>) -> bool {
    &&& id.len() > 0
    &&& forall|k: int| 0 <= k < id.len() ==> !is_space(#[trigger] id[k])
}

/// A description: no line break in it, and no whitespace at either end.
pub open spec fn valid_description(d: Seq<char>) -> bool {
    &&& forall|k: int| 0 <= k < d.len() ==> !is_line_break(#[trigger] d[k])
    &&& d.len() > 0 ==> !is_space(d[0]) && !is_space(d.last())
}

/// A body: lines of bases, each line feed standing between two bases.
pub open spec fn valid_body(b: Seq<char>) -> bool {
    forall|k: int|
        0 <= k < b.len() ==> is_base(#[trigger] b[k]) || (b[k] == '\n' && 0 < k && k + 1 < b.len()
            && is_base(b[k - 1]) && is_base(b[k + 1]))
}

/// How one record is written: `>`, identifier, a space, description, line
/// feed, body, then some blank lines.
pub struct Entry {
    pub identifier: Seq<char>,
    pub description: Seq<char>,
    pub body: Seq<char>,
    pub blank_lines: nat,
}

pub open spec fn valid_entry(e: Entry) -> bool {
    valid_identifier(e.identifier) && valid_description(e.description) && valid_body(e.body)
}

pub open spec fn entry_text(e: Entry) -> Seq<char> {
    seq!['>'] + e.identifier + seq![' '] + e.description + seq!['\n'] + e.body + newlines(
        e.blank_lines,
    )
}

pub open spec fn entry_model(e: Entry) -> RecordModel {
    RecordModel { identifier: e.identifier, description: e.description, sequence: bases_of(e.body) }
}

pub open spec fn entries_text(es: Seq<Entry>) -> Seq<char>
    decreases es.len(),
{
    if es.len() == 0 {
        Seq::empty()
    } else {
        entry_text(es[0]) + entries_text(es.drop_first())
    }
}

pub open spec fn entry_models(es: Seq<Entry>) -> Seq<RecordModel> {
    es.map_values(|e: Entry| entry_model(e))
}

/// What may follow a written record without changing how it is read.
pub open spec fn ends_record(s: Seq<char>, n: int) -> bool {
    n == s.len() || (!is_base(s[n]) && !is_line_break(s[n]))
}

proof fn lemma_run_end_at(s: Seq<char>, i: int, j: int, p: spec_fn(char) -> bool)
    requires
        0 <= i <= j <= s.len(),
        forall|k: int| i <= k < j ==> #[trigger] p(s[k]),
        j < s.len() ==> !p(s[j]),
    ensures
        run_end(s, i, p) == j,
    decreases j - i,
{
    if i < j {
        lemma_run_end_at(s, i + 1, j, p);
    }
}

proof fn lemma_run_end_skip(s: Seq<char>, i: int, j: int, p: spec_fn(char) -> bool)
    requires
        0 <= i <= j <= s.len(),
        forall|k: int| i <= k < j ==> #[trigger] p(s[k]),
    ensures
        run_end(s, i, p) == run_end(s, j, p),
    decreases j - i,
{
    if i < j {
        lemma_run_end_skip(s, i + 1, j, p);
    }
}

proof fn lemma_blank_lines_skip(s: Seq<char>, i: int, j: int)
    requires
        0 <= i <= j <= s.len(),
        forall|k: int| i <= k < j ==> #[trigger] s[k] == '\n',
    ensures
        blank_lines_end(s, i) == blank_lines_end(s, j),
    decreases j - i,
{
    if i < j {
        assert(s[i] == '\n');
        assert(line_break_len(s, i) == 1);
        lemma_blank_lines_skip(s, i + 1, j);
    }
}

/// Blank lines before a header do not change what is read from there.
proof fn lemma_records_from_skip(s: Seq<char>, i: int, j: int)
    requires
        0 <= i <= j <= s.len(),
        forall|k: int| i <= k < j ==> #[trigger] s[k] == '\n',
    ensures
        records_from(s, i) == records_from(s, j),
{
    assert forall|k: int| i <= k < j implies #[trigger] is_space(s[k]) by {
        assert(s[k] == '\n');
    }
    lemma_run_end_skip(s, i, j, |c: char| is_space(c));
    assert(marker_pos(s, i) == marker_pos(s, j));
    lemma_blank_lines_skip(s, i, j);
    assert(identifier_ok(s, i) == identifier_ok(s, j));
    assert(identifier_error(s, i) == identifier_error(s, j));
    assert(record_model(s, i) == record_model(s, j));
    assert(record_end(s, i) == record_end(s, j));
}

proof fn lemma_sequence_over_body(s: Seq<char>, h: int, n: int, i: int)
    requires
        0 <= h <= i <= n <= s.len(),
        forall|k: int|
            h <= k < n ==> is_base(#[trigger] s[k]) || (s[k] == '\n' && k + 1 < n && is_base(
                s[k + 1],
            )),
        sequence_end(s, n) == n,
    ensures
        sequence_end(s, i) == n,
    decreases n - i,
{
    if i < n {
        if !is_base(s[i]) {
            assert(line_break_len(s, i) == 1);
        }
        lemma_sequence_over_body(s, h, n, i + 1);
    }
}

/// A written record at `c` reads back as the record it was written from,
/// and reading goes on where its text ends.
proof fn lemma_entry(s: Seq<char>, c: int, e: Entry)
    requires
        valid_entry(e),
        0 <= c,
        c + entry_text(e).len() <= s.len(),
        s.subrange(c, c + entry_text(e).len()) == entry_text(e),
        ends_record(s, c + entry_text(e).len()),
    ensures
        identifier_ok(s, c),
        record_model(s, c) == entry_model(e),
        records_from(s, c) == prepend(
            seq![entry_model(e)],
            records_from(s, c + entry_text(e).len()),
        ),
{
    let t = entry_text(e);
    let id = e.identifier;
    let d = e.description;
    let b = e.body;
    let li = id.len() as int;
    let ld = d.len() as int;
    let lb = b.len() as int;
    let w = c + 1 + li;
    let d0 = w + 1;
    let hn = d0 + ld;
    let h = hn + 1;
    let next = c + t.len();
    assert(next == h + lb + e.blank_lines);
    assert forall|j: int| 0 <= j < t.len() implies s[c + j] == #[trigger] t[j] by {
        assert(s.subrange(c, c + t.len())[j] == s[c + j]);
    }
    assert(s[c] == t[0]);
    assert forall|j: int| 0 <= j < li implies s[c + 1 + j] == #[trigger] id[j] by {
        assert(s[c + (1 + j)] == t[1 + j]);
    }
    assert(s[w] == t[1 + li]);
    assert forall|j: int| 0 <= j < ld implies s[d0 + j] == #[trigger] d[j] by {
        assert(s[c + (2 + li + j)] == t[2 + li + j]);
    }
    assert(s[hn] == t[2 + li + ld]);
    assert forall|j: int| 0 <= j < lb implies s[h + j] == #[trigger] b[j] by {
        assert(s[c + (3 + li + ld + j)] == t[3 + li + ld + j]);
    }
    assert forall|j: int| h + lb <= j < next implies #[trigger] s[j] == '\n' by {
        assert(s[c + (j - c)] == t[j - c]);
    }
    // the identifier
    assert(marker_pos(s, c) == c);
    assert forall|k: int| c + 1 <= k < w implies !is_space(#[trigger] s[k]) by {
        assert(s[c + 1 + (k - c - 1)] == id[k - c - 1]);
    }
    lemma_run_end_at(s, c + 1, w, |c: char| !is_space(c));
    assert(s[c + 1] == id[0]);
    assert(identifier_ok(s, c));
    assert(s.subrange(c + 1, w) =~= id);
    if ld > 0 {
        assert(s[d0 + 0] == d[0]);
    }
    lemma_run_end_at(s, w, d0, |c: char| is_inline_space(c));
    assert(identifier_end(s, c) == d0);
    // the description
    lemma_run_end_at(s, d0, d0, |c: char| is_inline_space(c));
    assert forall|k: int| d0 <= k < hn implies !is_line_break(#[trigger] s[k]) by {
        assert(s[d0 + (k - d0)] == d[k - d0]);
    }
    lemma_run_end_at(s, d0, hn, |c: char| !is_line_break(c));
    if ld > 0 {
        assert(s[d0 + (ld - 1)] == d[ld - 1]);
    }
    assert(trimmed_end(s, d0, hn) == hn);
    assert(s.subrange(d0, hn) =~= d);
    assert(line_break_len(s, hn) == 1);
    assert(blank_lines_end(s, hn) == blank_lines_end(s, h));
    // the body
    if lb > 0 {
        assert(s[h + 0] == b[0]);
        assert(line_break_len(s, h) == 0);
        assert(body_start(s, c) == h);
        let n = h + lb;
        if e.blank_lines > 0 {
            assert(s[n] == '\n');
            assert(line_break_len(s, n) == 1);
            if n + 1 < s.len() {
                assert(!is_base(s[n + 1]));
            }
        }
        assert(sequence_end(s, n) == n);
        assert forall|k: int|
            h <= k < n implies is_base(#[trigger] s[k]) || (s[k] == '\n' && k + 1 < n && is_base(
                s[k + 1],
            )) by {
            assert(s[h + (k - h)] == b[k - h]);
            if k + 1 < n {
                assert(s[h + (k - h + 1)] == b[k - h + 1]);
            }
        }
        lemma_sequence_over_body(s, h, n, h);
        assert(s.subrange(h, n) =~= b);
        lemma_records_from_skip(s, n, next);
    } else {
        lemma_blank_lines_skip(s, h, next);
        assert(line_break_len(s, next) == 0);
        assert(body_start(s, c) == next);
        assert(sequence_end(s, next) == next);
        assert(s.subrange(next, next) =~= b);
    }
    assert(record_model(s, c) == entry_model(e));
}

proof fn lemma_entries(s: Seq<char>, c: int, es: Seq<Entry>)
    requires
        forall|k: int| 0 <= k < es.len() ==> valid_entry(#[trigger] es[k]),
        0 <= c,
        c + entries_text(es).len() <= s.len(),
        s.subrange(c, c + entries_text(es).len()) == entries_text(es),
        ends_record(s, c + entries_text(es).len()),
    ensures
        records_from(s, c) == prepend(entry_models(es), records_from(s, c + entries_text(es).len())),
    decreases es.len(),
{
    if es.len() == 0 {
        if let Ok(rs) = records_from(s, c) {
            assert(entry_models(es) + rs =~= rs);
        }
    } else {
        let e = es[0];
        let rest = es.drop_first();
        let t0 = entry_text(e);
        let tr = entries_text(rest);
        let c1 = c + t0.len();
        let end = c1 + tr.len();
        assert(entries_text(es) == t0 + tr);
        assert(s.subrange(c, c1) =~= t0) by {
            assert forall|j: int| 0 <= j < t0.len() implies s.subrange(c, c1)[j] == t0[j] by {
                assert(s.subrange(c, end)[j] == (t0 + tr)[j]);
            }
        }
        assert(s.subrange(c1, end) =~= tr) by {
            assert forall|j: int| 0 <= j < tr.len() implies s.subrange(c1, end)[j] == tr[j] by {
                assert(s.subrange(c, end)[t0.len() + j] == (t0 + tr)[t0.len() + j]);
            }
        }
        assert forall|k: int| 0 <= k < rest.len() implies valid_entry(#[trigger] rest[k]) by {
            assert(rest[k] == es[k + 1]);
        }
        if rest.len() > 0 {
            assert(tr[0] == entry_text(rest[0])[0]);
            assert(s.subrange(c1, end)[0] == s[c1]);
        }
        lemma_entry(s, c, e);
        lemma_entries(s, c1, rest);
        assert(entry_models(es) =~= seq![entry_model(e)] + entry_models(rest));
        if let Ok(rs) = records_from(s, end) {
            assert(seq![entry_model(e)] + (entry_models(rest) + rs) =~= (seq![entry_model(e)]
                + entry_models(rest)) + rs);
        }
    }
}

/// Records written one after another, each with any number of blank lines
/// after it, are read back in order and in number.
pub proof fn lemma_records_in_order(es: Seq<Entry>)
    requires
        forall|k: int| 0 <= k < es.len() ==> valid_entry(#[trigger] es[k]),
    ensures
        document(entries_text(es)) == Ok::<Seq<RecordModel>, ParseError>(entry_models(es)),
{
    let s = entries_text(es);
    assert(s.subrange(0, s.len() as int) =~= s);
    lemma_entries(s, 0, es);
    assert(marker_pos(s, s.len() as int) == s.len());
    assert(line_break_len(s, s.len() as int) == 0);
    assert(records_from(s, s.len() as int) == Ok::<Seq<RecordModel>, ParseError>(Seq::empty()));
    assert(entry_models(es) + Seq::<RecordModel>::empty() =~= entry_models(es));
}

proof fn lemma_one_entry(e: Entry)
    requires
        valid_entry(e),
    ensures
        document(entry_text(e)) == Ok::<Seq<RecordModel>, ParseError>(seq![entry_model(e)]),
{
    let es = seq![e];
    assert(es.drop_first() =~= Seq::<Entry>::empty());
    assert(entries_text(es.drop_first()) == Seq::<char>::empty());
    assert(entries_text(es) =~= entry_text(e));
    assert(entry_models(es) =~= seq![entry_model(e)]);
    lemma_records_in_order(es);
}

/// The header text `>id desc` and its line feed.
pub open spec fn header_text(id: Seq<char>, desc: Seq<char>) -> Seq<char> {
    seq!['>'] + id + seq![' '] + desc + seq!['\n']
}

/// A header followed by lines of bases reads as exactly one record, with
/// that identifier and description and the bases of all its lines.
pub proof fn lemma_single_record(id: Seq<char>, desc: Seq<char>, body: Seq<char>)
    requires
        valid_identifier(id),
        valid_description(desc),
        valid_body(body),
    ensures
        document(header_text(id, desc) + body) == Ok::<Seq<RecordModel>, ParseError>(
            seq![RecordModel { identifier: id, description: desc, sequence: bases_of(body) }],
        ),
{
    let e = Entry { identifier: id, description: desc, body, blank_lines: 0 };
    assert(entry_text(e) =~= header_text(id, desc) + body);
    lemma_one_entry(e);
}

/// Blank lines after a record's sequence add nothing to the sequence and
/// start no record.
pub proof fn lemma_trailing_blank_lines(id: Seq<char>, desc: Seq<char>, body: Seq<char>, n: nat)
    requires
        valid_identifier(id),
        valid_description(desc),
        valid_body(body),
    ensures
        document(header_text(id, desc) + body + newlines(n)) == document(
            header_text(id, desc) + body,
        ),
        document(header_text(id, desc) + body + newlines(n)) == Ok::<Seq<RecordModel>, ParseError>(
            seq![RecordModel { identifier: id, description: desc, sequence: bases_of(body) }],
        ),
{
    let e = Entry { identifier: id, description: desc, body, blank_lines: n };
    assert(entry_text(e) =~= header_text(id, desc) + body + newlines(n));
    lemma_one_entry(e);
    lemma_single_record(id, desc, body);
}

/// How the bases are split into lines does not change the sequence: two
/// bodies with the same bases, under the same header, read the same.
pub proof fn lemma_folding_ignores_line_layout(
    id: Seq<char>,
    desc: Seq<char>,
    body1: Seq<char>,
    n1: nat,
    body2: Seq<char>,
    n2: nat,
)
    requires
        valid_identifier(id),
        valid_description(desc),
        valid_body(body1),
        valid_body(body2),
        bases_of(body1) == bases_of(body2),
    ensures
        document(header_text(id, desc) + body1 + newlines(n1)) == document(
            header_text(id, desc) + body2 + newlines(n2),
        ),
{
    lemma_trailing_blank_lines(id, desc, body1, n1);
    lemma_trailing_blank_lines(id, desc, body2, n2);
}

/// A character that is neither a base nor a line break ends the bases of a
/// line, and a sequence, at the latest where it stands.
pub proof fn lemma_foreign_character_ends_sequence(s: Seq<char>, i: int, p: int)
    requires
        0 <= i <= p < s.len(),
        !is_base(s[p]),
        !is_line_break(s[p]),
    ensures
        bases_end(s, i) <= p,
        sequence_end(s, i) <= p,
    decreases p - i,
{
    if i < p {
        if is_base(s[i]) {
            lemma_foreign_character_ends_sequence(s, i + 1, p);
        } else if line_break_len(s, i) == 1 {
            lemma_foreign_character_ends_sequence(s, i + 1, p);
        } else if line_break_len(s, i) == 2 {
            assert(s[i + 1] == '\n');
            lemma_foreign_character_ends_sequence(s, i + 2, p);
        }
    } else {
        assert(line_break_len(s, p) == 0);
    }
}

proof fn lemma_blank_lines_within_spaces(s: Seq<char>, i: int)
    requires
        0 <= i <= s.len(),
    ensures
        blank_lines_end(s, i) <= spaces_end(s, i),
    decreases s.len() - i,
{
    let k = line_break_len(s, i);
    if k > 0 {
        assert(is_space(s[i]));
        assert(spaces_end(s, i) == spaces_end(s, i + 1));
        if k == 2 {
            assert(is_space(s[i + 1]));
            assert(spaces_end(s, i + 1) == spaces_end(s, i + 2));
        }
        lemma_blank_lines_within_spaces(s, i + k);
    } else {
        lemma_run_end_bounds(s, i, |c: char| is_space(c));
    }
}

/// A document whose first character other than whitespace is not `>` is
/// refused there, with no records.
pub proof fn lemma_missing_marker(s: Seq<char>)
    requires
        spaces_end(s, 0) < s.len(),
        s[spaces_end(s, 0)] != '>',
    ensures
        document(s) == Err::<Seq<RecordModel>, ParseError>(
            ParseError { position: spaces_end(s, 0) as usize, expected: Expected::Marker },
        ),
{
    lemma_blank_lines_within_spaces(s, 0);
}

/// Text after well-formed records that starts with neither whitespace, a
/// base nor `>` makes the whole document fail where it starts: no records
/// are returned.
pub proof fn lemma_trailing_garbage(es: Seq<Entry>, t: Seq<char>)
    requires
        forall|k: int| 0 <= k < es.len() ==> valid_entry(#[trigger] es[k]),
        t.len() > 0,
        !is_space(t[0]),
        !is_base(t[0]),
        t[0] != '>',
    ensures
        document(entries_text(es) + t) == Err::<Seq<RecordModel>, ParseError>(
            ParseError { position: entries_text(es).len() as usize, expected: Expected::Marker },
        ),
{
    let s = entries_text(es) + t;
    let n = entries_text(es).len() as int;
    assert(s.subrange(0, n) =~= entries_text(es));
    assert(s[n] == t[0]);
    lemma_entries(s, 0, es);
    assert(marker_pos(s, n) == n);
    assert(line_break_len(s, n) == 0);
    assert(blank_lines_end(s, n) == n);
}

} // verus!
