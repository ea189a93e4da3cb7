//! Turning tab-separated text lines into query records and reference entries.
use vstd::prelude::*;
use vstd::std_specs::iter::IteratorSpec;
use vstd::utf8::encode_utf8;

use crate::records::{QueryRecord, ReferenceEntry};
use crate::sequence::push_char;

verus! {

broadcast use vstd::string::group_string_axioms;

/// Number of UTF-8 bytes that the sequence of a reference line must have.
pub const REFERENCE_LENGTH: usize = 20;

/// The fields of a line separated by tab characters; a line without a tab is
/// one field, and a tab at either end gives an empty field there.
pub open spec fn tab_fields(s: Seq<char>) -> Seq<Seq<char>>
    decreases s.len(),
{
    if s.len() == 0 {
        seq![Seq::empty()]
    } else {
        let rest = tab_fields(s.drop_last());
        if s.last() == '\t' {
            rest.push(Seq::empty())
        } else {
            rest.update(rest.len() - 1, rest.last().push(s.last()))
        }
    }
}

proof fn lemma_tab_fields_nonempty(s: Seq<char>)
    ensures
        tab_fields(s).len() >= 1,
    decreases s.len(),
{
    if s.len() > 0 {
        lemma_tab_fields_nonempty(s.drop_last());
    }
}

/// What a vector of strings holds, string by string.
pub open spec fn strings_view(v: Seq<String>) -> Seq<Seq<char>> {
    v.map_values(|f: String| f@)
}

/// Whether `c` is an ASCII decimal digit.
pub open spec fn is_digit(c: char) -> bool {
    '0' <= c && c <= '9'
}

/// The number that a run of decimal digits writes.
pub open spec fn decimal_value(d: Seq<char>) -> nat
    decreases d.len(),
{
    if d.len() == 0 {
        0
    } else {
        decimal_value(d.drop_last()) * 10 + (d.last() as nat - '0' as nat) as nat
    }
}

/// The `u32` that a text writes in decimal: an optional `+`, then one digit
/// or more, with a value that fits; `None` for any other text.
pub open spec fn parsed_u32(s: Seq<char>) -> Option<u32> {
    let d = if s.len() > 0 && s[0] == '+' {
        s.drop_first()
    } else {
        s
    };
    if d.len() > 0 && (forall|i: int| 0 <= i < d.len() ==> is_digit(#[trigger] d[i]))
        && decimal_value(d) <= u32::MAX {
        Some(decimal_value(d) as u32)
    } else {
        None
    }
}

/// The weight that a reference line's count field gives: its value, or zero
/// where it is not a `u32` written in decimal.
pub open spec fn weight_of(s: Seq<char>) -> u32 {
    match parsed_u32(s) {
        Some(v) => v,
        None => 0,
    }
}

/// Relies on `str::parse::<u32>`: an optional `+` followed by decimal digits
/// whose value fits gives that value, and anything else an error.
#[verifier::external_body]
fn parse_u32(s: &str) -> (r: Option<u32>)
    ensures
        r == parsed_u32(s@),
{
    s.parse::<u32>().ok()
}

/// Splits `line` at each tab character.
pub fn split_fields(line: &str) -> (r: Vec<String>)
    ensures
        strings_view(r@) == tab_fields(line@),
{
    let mut fields: Vec<String> = Vec::new();
    let mut current = String::new();
    let mut it = line.chars();
    let ghost mut seen: Seq<char> = Seq::empty();
    loop
        invariant_except_break
            strings_view(fields@).push(current@) == tab_fields(seen),
        invariant
            it.obeys_prophetic_iter_laws(),
            seen + it.remaining() == line@,
            it.decrease() is Some,
        ensures
            strings_view(fields@) == tab_fields(line@),
        decreases it.decrease()->0,
    {
        match it.next() {
            Some(c) => {
                proof {
                    lemma_tab_fields_nonempty(seen);
                }
                let ghost prev_fields = strings_view(fields@);
                if c == '\t' {
                    let done = current;
                    current = String::new();
                    fields.push(done);
                    assert(strings_view(fields@) =~= prev_fields.push(done@));
                } else {
                    push_char(&mut current, c);
                    assert(strings_view(fields@) =~= prev_fields);
                }
                proof {
                    let next = seen.push(c);
                    assert(next.drop_last() =~= seen);
                    assert(strings_view(fields@).push(current@) =~= tab_fields(next));
                    assert(next + it.remaining() =~= seen + seq![c] + it.remaining());
                    seen = next;
                }
            },
            None => {
                assert(seen =~= line@);
                let ghost prev_fields = strings_view(fields@);
                fields.push(current);
                assert(strings_view(fields@) =~= prev_fields.push(current@));
                break;
            },
        }
    }
    fields
}

/// The entry that a reference line gives: where the line has more than two
/// fields and its first field is `REFERENCE_LENGTH` bytes long in UTF-8, that field
/// as the sequence and the weight of its third field.
pub open spec fn reference_of(line: Seq<char>) -> Option<(Seq<char>, u32)> {
    let f = tab_fields(line);
    if f.len() > 2 && encode_utf8(f[0]).len() == REFERENCE_LENGTH {
        Some((f[0], weight_of(f[2])))
    } else {
        None
    }
}

/// The query that a data line gives: the whole line, and its field at
/// `column` where it has one.
pub open spec fn query_of(line: Seq<char>, column: nat) -> Option<(Seq<char>, Seq<char>)> {
    let f = tab_fields(line);
    if f.len() > column {
        Some((line, f[column as int]))
    } else {
        None
    }
}

/// The entries of the reference lines that give one, in order.
pub open spec fn references_of(lines: Seq<Seq<char>>) -> Seq<(Seq<char>, u32)>
    decreases lines.len(),
{
    if lines.len() == 0 {
        Seq::empty()
    } else {
        let before = references_of(lines.drop_last());
        match reference_of(lines.last()) {
            Some(e) => before.push(e),
            None => before,
        }
    }
}

/// The queries of the data lines that give one, in order.
pub open spec fn queries_of(lines: Seq<Seq<char>>, column: nat) -> Seq<(Seq<char>, Seq<char>)>
    decreases lines.len(),
{
    if lines.len() == 0 {
        Seq::empty()
    } else {
        let before = queries_of(lines.drop_last(), column);
        match query_of(lines.last(), column) {
            Some(q) => before.push(q),
            None => before,
        }
    }
}

/// Whether field `i` is the first one equal to `name`.
pub open spec fn first_match(fields: Seq<Seq<char>>, name: Seq<char>, i: nat) -> bool {
    &&& i < fields.len()
    &&& fields[i as int] == name
    &&& forall|j: int| 0 <= j < i ==> fields[j] != name
}

/// The weight written in a count field: its decimal value, or zero where it
/// is not a `u32` written in decimal.
pub fn parse_weight(field: &str) -> (r: u32)
    ensures
        r == weight_of(field@),
{
    match parse_u32(field) {
        Some(v) => v,
        None => 0,
    }
}

/// The reference entry of one line of the reference file, if it has one.
pub fn parse_reference_line(line: &str) -> (r: Option<ReferenceEntry>)
    ensures
        match r {
            Some(e) => reference_of(line@) == Some((e.sequence@, e.weight)),
            None => reference_of(line@) is None,
        },
{
    let fields = split_fields(line);
    proof {
        lemma_tab_fields_nonempty(line@);
        assert(fields@[0]@ == tab_fields(line@)[0]);
    }
    if fields.len() > 2 && fields[0].as_str().as_bytes().len() == REFERENCE_LENGTH {
        proof {
            assert(fields@[2]@ == tab_fields(line@)[2]);
        }
        let weight = parse_weight(fields[2].as_str());
        Some(ReferenceEntry { sequence: fields[0].clone(), weight })
    } else {
        None
    }
}

/// The index of the first field of `header` that equals `name`, if any.
pub fn find_column(header: &str, name: &str) -> (r: Option<usize>)
    ensures
        match r {
            Some(i) => first_match(tab_fields(header@), name@, i as nat),
            None => forall|j: int|
                0 <= j < tab_fields(header@).len() ==> tab_fields(header@)[j] != name@,
        },
{
    let fields = split_fields(header);
    let wanted = name.to_owned();
    let mut i: usize = 0;
    while i < fields.len()
        invariant
            strings_view(fields@) == tab_fields(header@),
            wanted@ == name@,
            i <= fields@.len(),
            forall|j: int| 0 <= j < i ==> tab_fields(header@)[j] != name@,
        decreases fields@.len() - i,
    {
        assert(fields@[i as int]@ == tab_fields(header@)[i as int]);
        if fields[i] == wanted {
            return Some(i);
        }
        i = i + 1;
    }
    None
}

/// The query record of one data line: the line itself, and its field at
/// `column` as the sequence, where the line has that many fields.
pub fn parse_query_line(line: &str, column: usize) -> (r: Option<QueryRecord>)
    ensures
        match r {
            Some(q) => query_of(line@, column as nat) == Some((q.source_line@, q.sequence@)),
            None => query_of(line@, column as nat) is None,
        },
{
    let fields = split_fields(line);
    if fields.len() > column {
        assert(fields@[column as int]@ == tab_fields(line@)[column as int]);
        Some(QueryRecord { source_line: line.to_owned(), sequence: fields[column].clone() })
    } else {
        None
    }
}

/// The reference entries of the lines of a reference file, in order, from
/// the lines that give one.
pub fn parse_reference_lines(lines: &[String]) -> (r: Vec<ReferenceEntry>)
    ensures
        r@.map_values(|e: ReferenceEntry| (e.sequence@, e.weight)) == references_of(
            strings_view(lines@),
        ),
{
    let mut entries: Vec<ReferenceEntry> = Vec::new();
    let mut i: usize = 0;
    while i < lines.len()
        invariant
            i <= lines@.len(),
            entries@.map_values(|e: ReferenceEntry| (e.sequence@, e.weight)) == references_of(
                strings_view(lines@.take(i as int)),
            ),
        decreases lines@.len() - i,
    {
        let ghost before = entries@;
        assert(strings_view(lines@.take(i + 1)).drop_last() =~= strings_view(lines@.take(i as int)));
        match parse_reference_line(lines[i].as_str()) {
            Some(e) => {
                entries.push(e);
                assert(entries@.map_values(|e: ReferenceEntry| (e.sequence@, e.weight))
                    =~= before.map_values(|e: ReferenceEntry| (e.sequence@, e.weight)).push(
                    (e.sequence@, e.weight),
                ));
            },
            None => {},
        }
        i = i + 1;
    }
    assert(lines@.take(i as int) =~= lines@);
    entries
}

/// The query records of the lines of a data file whose first line is a
/// header: no records where there are no lines at all; `None` where no
/// header field equals `column_name`; otherwise the records of the following
/// lines that have a field in that column, in order.
pub fn parse_query_lines(lines: &[String], column_name: &str) -> (r: Option<Vec<QueryRecord>>)
    ensures
        lines@.len() == 0 ==> r is Some && r->0@.len() == 0,
        lines@.len() > 0 ==> match r {
            None => forall|j: int|
                0 <= j < tab_fields(lines@[0]@).len() ==> tab_fields(lines@[0]@)[j] != column_name@,
            Some(records) => exists|c: nat|
                first_match(tab_fields(lines@[0]@), column_name@, c) && records@.map_values(
                    |q: QueryRecord| (q.source_line@, q.sequence@),
                ) == queries_of(strings_view(lines@.skip(1)), c),
        },
{
    if lines.len() == 0 {
        return Some(Vec::new());
    }
    let column = match find_column(lines[0].as_str(), column_name) {
        Some(c) => c,
        None => {
            return None;
        },
    };
    let mut records: Vec<QueryRecord> = Vec::new();
    let mut i: usize = 1;
    while i < lines.len()
        invariant
            1 <= i <= lines@.len(),
            records@.map_values(|q: QueryRecord| (q.source_line@, q.sequence@)) == queries_of(
                strings_view(lines@.subrange(1, i as int)),
                column as nat,
            ),
        decreases lines@.len() - i,
    {
        let ghost before = records@;
        assert(strings_view(lines@.subrange(1, i + 1)).drop_last() =~= strings_view(
            lines@.subrange(1, i as int),
        ));
        match parse_query_line(lines[i].as_str(), column) {
            Some(q) => {
                records.push(q);
                assert(records@.map_values(|q: QueryRecord| (q.source_line@, q.sequence@))
                    =~= before.map_values(|q: QueryRecord| (q.source_line@, q.sequence@)).push(
                    (q.source_line@, q.sequence@),
                ));
            },
            None => {},
        }
        i = i + 1;
    }
    assert(lines@.subrange(1, i as int) =~= lines@.skip(1));
    Some(records)
}

} // verus!
