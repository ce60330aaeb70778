//! The translation table: rows of a two-column delimited text, no header row.
use vstd::prelude::*;
use crate::translate::Translation;

verus! {

/// A row that did not give a translation, by its position among the records.
#[derive(Debug, PartialEq, Eq)]
pub enum RowIssue {
    /// The reader could not read the record.
    Unreadable { line: usize, message: String },
    /// The record does not have exactly two columns.
    WrongColumns { line: usize, columns: usize },
}

/// A record as the reader gives it: its fields, or why it could not be read.
pub open spec fn record_view(r: Result<Vec<String>, String>) -> Result<Seq<Seq<char>>, Seq<char>> {
    match r {
        Ok(fields) => Ok(fields@.map_values(|f: String| f@)),
        Err(e) => Err(e@),
    }
}

pub open spec fn records_view(rows: Seq<Result<Vec<String>, String>>) -> Seq<
    Result<Seq<Seq<char>>, Seq<char>>,
> {
    rows.map_values(|r: Result<Vec<String>, String>| record_view(r))
}

/// The records that the delimited-text reader finds in `data`, with headers off.
pub uninterp spec fn csv_records_of(data: Seq<u8>) -> Seq<Result<Seq<Seq<char>>, Seq<char>>>;

/// (original, translated) pairs of the records that have exactly two columns, in order.
pub open spec fn table_of(rows: Seq<Result<Seq<Seq<char>>, Seq<char>>>) -> Seq<
    (Seq<char>, Seq<char>),
>
    decreases rows.len(),
{
    if rows.len() == 0 {
        seq![]
    } else {
        let prev = table_of(rows.drop_last());
        match rows.last() {
            Ok(fields) => if fields.len() == 2 {
                prev.push((fields[0], fields[1]))
            } else {
                prev
            },
            Err(_) => prev,
        }
    }
}

/// An issue as (line, column count where the record was read, reader's message).
pub open spec fn issue_view(i: RowIssue) -> (usize, Option<usize>, Seq<char>) {
    match i {
        RowIssue::Unreadable { line, message } => (line, None, message@),
        RowIssue::WrongColumns { line, columns } => (line, Some(columns), seq![]),
    }
}

/// One issue for each record that gives no translation, in order.
pub open spec fn issues_of(rows: Seq<Result<Seq<Seq<char>>, Seq<char>>>) -> Seq<
    (usize, Option<usize>, Seq<char>),
>
    decreases rows.len(),
{
    if rows.len() == 0 {
        seq![]
    } else {
        let prev = issues_of(rows.drop_last());
        let line = (rows.len() - 1) as usize;
        match rows.last() {
            Ok(fields) => if fields.len() == 2 {
                prev
            } else {
                prev.push((line, Some(fields.len() as usize), seq![]))
            },
            Err(e) => prev.push((line, None, e)),
        }
    }
}

pub open spec fn translation_view(t: Translation) -> (Seq<char>, Seq<char>) {
    (t.original@, t.translated@)
}

/// Relies on csv's `ReaderBuilder` (headers off) and `StringRecord::iter`: the
/// records of `data`, each as its fields or the reader's error message.
#[verifier::external_body]
fn csv_records(data: &[u8]) -> (r: Vec<Result<Vec<String>, String>>)
    ensures
        records_view(r@) == csv_records_of(data@),
{
    let mut reader = csv::ReaderBuilder::new().has_headers(false).from_reader(data);
    reader.records().map(|rec| match rec {
        Ok(fields) => Ok(fields.iter().map(String::from).collect()),
        Err(e) => Err(e.to_string()),
    }).collect()
}

/// Keeps the records with exactly two columns as translations, in order, and
/// reports every other record.
pub fn translations_from_records(rows: &Vec<Result<Vec<String>, String>>) -> (r: (
    Vec<Translation>,
    Vec<RowIssue>,
))
    ensures
        r.0@.map_values(|t: Translation| translation_view(t)) == table_of(records_view(rows@)),
        r.1@.map_values(|i: RowIssue| issue_view(i)) == issues_of(records_view(rows@)),
{
    let mut table: Vec<Translation> = Vec::new();
    let mut issues: Vec<RowIssue> = Vec::new();
    let mut i: usize = 0;
    while i < rows.len()
        invariant
            i <= rows@.len(),
            table@.map_values(|t: Translation| translation_view(t)) == table_of(
                records_view(rows@.subrange(0, i as int)),
            ),
            issues@.map_values(|x: RowIssue| issue_view(x)) == issues_of(
                records_view(rows@.subrange(0, i as int)),
            ),
        decreases rows@.len() - i,
    {
        let ghost before = records_view(rows@.subrange(0, i as int));
        let ghost after = records_view(rows@.subrange(0, i + 1));
        let ghost old_table = table@;
        let ghost old_issues = issues@;
        proof {
            assert(after.drop_last() =~= before);
            assert(after.last() == record_view(rows@[i as int]));
        }
        match &rows[i] {
            Ok(fields) => {
                if fields.len() == 2 {
                    let t = Translation { original: fields[0].clone(), translated: fields[1].clone() };
                    table.push(t);
                    proof {
                        assert(table@.map_values(|t: Translation| translation_view(t)) =~= old_table.map_values(
                            |t: Translation| translation_view(t),
                        ).push(translation_view(t)));
                    }
                } else {
                    issues.push(RowIssue::WrongColumns { line: i, columns: fields.len() });
                    proof {
                        assert(issues@.map_values(|x: RowIssue| issue_view(x)) =~= old_issues.map_values(
                            |x: RowIssue| issue_view(x),
                        ).push((i, Some(fields@.len() as usize), seq![])));
                    }
                }
            },
            Err(e) => {
                let issue = RowIssue::Unreadable { line: i, message: e.clone() };
                issues.push(issue);
                proof {
                    assert(issues@.map_values(|x: RowIssue| issue_view(x)) =~= old_issues.map_values(
                        |x: RowIssue| issue_view(x),
                    ).push((i, None, e@)));
                }
            },
        }
        i = i + 1;
    }
    proof {
        assert(rows@.subrange(0, rows@.len() as int) =~= rows@);
    }
    (table, issues)
}

/// Reads the translation table from the bytes of a two-column delimited text with
/// no header row. Malformed records are reported, not fatal.
pub fn load_translations(data: &[u8]) -> (r: (Vec<Translation>, Vec<RowIssue>))
    ensures
        r.0@.map_values(|t: Translation| translation_view(t)) == table_of(csv_records_of(data@)),
        r.1@.map_values(|i: RowIssue| issue_view(i)) == issues_of(csv_records_of(data@)),
{
    let rows = csv_records(data);
    translations_from_records(&rows)
}

} // verus!
