//! Agenda records from comma-separated text.
use vstd::prelude::*;
use crate::comments::{
    lemma_comment_line_vanishes, marks_comment, strip_comments, without_comments, NEWLINE,
};
use crate::record::{entries, is_trimmed, AgendaItem, Entry};
use crate::text::trimmed;

verus! {

/// Why reading records from a structured source stopped early.
#[derive(Debug, PartialEq, Eq)]
pub enum IngestError {
    /// The row with this index, counted from zero over the data rows of the
    /// source, could not be decoded or holds fewer than three fields.
    MalformedRow { row: usize },
}

/// `csv::Reader`, a reader of comma-separated rows over some input. Nothing
/// is known of what is inside one but what [`rows_ahead`] and
/// [`reader_trims`] name.
#[verifier::external_type_specification]
#[verifier::external_body]
#[verifier::reject_recursive_types(R)]
pub struct ExCsvReader<R>(csv::Reader<R>);

/// `csv::Error`, the error of a row that the reader could not decode. It is
/// carried, never looked into.
#[verifier::external_type_specification]
#[verifier::external_body]
pub struct ExCsvError(csv::Error);

/// The rows that a reader over `content` yields, in order: for each data
/// row its fields, or `None` where the row cannot be decoded as text.
pub uninterp spec fn csv_rows(content: Seq<u8>) -> Seq<Option<Seq<Seq<char>>>>;

/// The rows that `reader` has yet to yield, the next one first.
pub uninterp spec fn rows_ahead(reader: csv::Reader<&[u8]>) -> Seq<Option<Seq<Seq<char>>>>;

/// Whether `reader` was set up to trim the fields of the rows it yields.
pub uninterp spec fn reader_trims(reader: csv::Reader<&[u8]>) -> bool;

/// The texts of a row's fields.
pub open spec fn field_texts(fields: Seq<String>) -> Seq<Seq<char>> {
    fields.map_values(|f: String| f@)
}

/// `csv::ReaderBuilder::from_reader` over a byte slice, set up for rows
/// without a header, separated by commas, of any number of fields, trimmed,
/// with `#` as the first byte of a line making it a comment. The reader has
/// all rows of `content` ahead of it and trims their fields.
#[verifier::external_body]
fn open_reader(content: &[u8]) -> (reader: csv::Reader<&[u8]>)
    ensures
        rows_ahead(reader) == csv_rows(content@),
        reader_trims(reader),
{
    csv::ReaderBuilder::new()
        .has_headers(false)
        .delimiter(b',')
        .flexible(true)
        .trim(csv::Trim::All)
        .comment(Some(b'#'))
        .from_reader(content)
}

/// `csv::Reader::read_record`: hands out the next row and moves past it, or
/// returns `None` at the end of the input. A row that is not valid UTF-8
/// comes as the reader's error. Where the reader trims, it does so with
/// `str::trim`, so that no field of a row that was read starts or ends with
/// whitespace.
#[verifier::external_body]
fn next_row(reader: &mut csv::Reader<&[u8]>) -> (out: Option<Result<Vec<String>, csv::Error>>)
    ensures
        rows_ahead(*old(reader)).len() == 0 ==> out is None && rows_ahead(*final(reader))
            == rows_ahead(*old(reader)),
        rows_ahead(*old(reader)).len() > 0 ==> out is Some && rows_ahead(*final(reader))
            == rows_ahead(*old(reader)).skip(1),
        out matches Some(Ok(fields)) ==> rows_ahead(*old(reader))[0] == Some(field_texts(fields@)),
        out matches Some(Ok(fields)) ==> reader_trims(*old(reader)) ==> forall|i: int|
            0 <= i < fields@.len() ==> trimmed(#[trigger] fields@[i]@) == fields@[i]@,
        out matches Some(Err(_)) ==> rows_ahead(*old(reader))[0] is None,
        reader_trims(*final(reader)) == reader_trims(*old(reader)),
{
    let mut record = csv::StringRecord::new();
    match reader.read_record(&mut record) {
        Ok(true) => Some(Ok(record.iter().map(String::from).collect())),
        Ok(false) => None,
        Err(e) => Some(Err(e)),
    }
}

/// The texts of read rows: a decoded row by its fields, an undecodable one
/// as `None`.
pub open spec fn row_texts(rows: Seq<Option<Vec<String>>>) -> Seq<Option<Seq<Seq<char>>>> {
    rows.map_values(
        |row: Option<Vec<String>>|
            match row {
                Some(fields) => Some(field_texts(fields@)),
                None => None,
            },
    )
}

/// Whether no field of any decoded row starts or ends with whitespace.
pub open spec fn fields_trimmed(rows: Seq<Option<Seq<Seq<char>>>>) -> bool {
    forall|i: int, j: int|
        0 <= i < rows.len() && rows[i] is Some && 0 <= j < rows[i].unwrap().len() ==> trimmed(
            #[trigger] rows[i].unwrap()[j],
        ) == rows[i].unwrap()[j]
}

/// The record that a row gives: its first three fields as time, subject and
/// presenter. A row that was not decoded, or has fewer than three fields,
/// gives none.
pub open spec fn row_entry(row: Option<Seq<Seq<char>>>) -> Option<Entry> {
    match row {
        Some(fields) => if fields.len() >= 3 {
            Some(Entry { time: fields[0], subject: fields[1], presenter: fields[2] })
        } else {
            None
        },
        None => None,
    }
}

/// Whether ingestion of `rows` stops at index `k`: every row before `k`
/// gives a record, and `k` is either the end or the first row that gives
/// none.
pub open spec fn stops_at(rows: Seq<Option<Seq<Seq<char>>>>, k: int) -> bool {
    &&& 0 <= k <= rows.len()
    &&& forall|j: int| 0 <= j < k ==> (#[trigger] row_entry(rows[j])) is Some
    &&& k < rows.len() ==> row_entry(rows[k]) is None
}

/// The records of the first `k` rows, in row order.
pub open spec fn row_entries(rows: Seq<Option<Seq<Seq<char>>>>, k: int) -> Seq<Entry> {
    Seq::new(k as nat, |i: int| row_entry(rows[i]).unwrap())
}

/// Builds the record of one row from its fields: `Some` exactly when there
/// are at least three, of which the first three are taken.
pub fn item_from_fields(fields: &Vec<String>) -> (out: Option<AgendaItem>)
    ensures
        out is Some <==> fields@.len() >= 3,
        out matches Some(item) ==> Some(item@) == row_entry(Some(field_texts(fields@))),
{
    if fields.len() < 3 {
        None
    } else {
        Some(
            AgendaItem {
                time: fields[0].clone(),
                subject: fields[1].clone(),
                presenter: fields[2].clone(),
            },
        )
    }
}

/// Reads every row of comma-separated `content`. Whitespace around a field
/// is dropped, and rows may differ in their number of fields.
pub fn read_rows(content: &[u8]) -> (rows: Vec<Option<Vec<String>>>)
    ensures
        row_texts(rows@) == csv_rows(content@),
        fields_trimmed(row_texts(rows@)),
{
    let mut reader = open_reader(content);
    let mut rows: Vec<Option<Vec<String>>> = Vec::new();
    let mut more = true;
    proof {
        assert(row_texts(rows@) + rows_ahead(reader) =~= csv_rows(content@));
    }
    while more
        invariant
            row_texts(rows@) + rows_ahead(reader) == csv_rows(content@),
            !more ==> rows_ahead(reader).len() == 0,
            reader_trims(reader),
            fields_trimmed(row_texts(rows@)),
        decreases rows_ahead(reader).len() + (if more { 1int } else { 0int }),
    {
        let ghost before = rows@;
        let ghost ahead = rows_ahead(reader);
        match next_row(&mut reader) {
            None => {
                more = false;
            },
            Some(Ok(fields)) => {
                rows.push(Some(fields));
                proof {
                    assert(row_texts(rows@) =~= row_texts(before).push(ahead[0]));
                }
            },
            Some(Err(_)) => {
                rows.push(None);
                proof {
                    assert(row_texts(rows@) =~= row_texts(before).push(ahead[0]));
                }
            },
        }
        proof {
            if more {
                assert(row_texts(before).push(ahead[0]) + ahead.skip(1) =~= row_texts(before)
                    + ahead);
            }
        }
    }
    proof {
        assert(row_texts(rows@) + rows_ahead(reader) =~= row_texts(rows@));
    }
    rows
}

/// Appends to `agenda` the records of `rows` in row order, up to the first
/// row that gives none. Ingestion stops there: rows after it are not looked
/// at, and what was appended before it stays.
pub fn append_rows(agenda: &mut Vec<AgendaItem>, rows: &Vec<Option<Vec<String>>>) -> (res: Result<
    (),
    IngestError,
>)
    ensures
        res is Ok <==> forall|j: int|
            0 <= j < rows@.len() ==> (#[trigger] row_entry(row_texts(rows@)[j])) is Some,
        match res {
            Ok(()) => stops_at(row_texts(rows@), rows@.len() as int) && entries(final(agenda)@)
                == entries(old(agenda)@) + row_entries(row_texts(rows@), rows@.len() as int),
            Err(IngestError::MalformedRow { row }) => row < rows@.len() && stops_at(
                row_texts(rows@),
                row as int,
            ) && entries(final(agenda)@) == entries(old(agenda)@) + row_entries(
                row_texts(rows@),
                row as int,
            ),
        },
{
    let ghost texts = row_texts(rows@);
    let mut i: usize = 0;
    proof {
        assert(entries(agenda@) =~= entries(old(agenda)@) + row_entries(texts, 0));
    }
    while i < rows.len()
        invariant
            i <= rows@.len(),
            texts == row_texts(rows@),
            forall|j: int| 0 <= j < i ==> (#[trigger] row_entry(texts[j])) is Some,
            entries(agenda@) == entries(old(agenda)@) + row_entries(texts, i as int),
        decreases rows@.len() - i,
    {
        let item = match &rows[i] {
            Some(fields) => item_from_fields(fields),
            None => None,
        };
        match item {
            Some(item) => {
                let ghost before = agenda@;
                agenda.push(item);
                proof {
                    assert(entries(agenda@) =~= entries(before).push(item@));
                    assert(row_entries(texts, i + 1) =~= row_entries(texts, i as int).push(
                        item@,
                    ));
                    assert(entries(old(agenda)@) + row_entries(texts, i as int).push(item@)
                        =~= (entries(old(agenda)@) + row_entries(texts, i as int)).push(item@));
                }
            },
            None => {
                proof {
                    assert(row_entry(texts[i as int]) is None);
                }
                return Err(IngestError::MalformedRow { row: i });
            },
        }
        i += 1;
    }
    Ok(())
}

/// The rows of structured input: what the reader yields of `content`
/// without its comment lines.
pub open spec fn data_rows(content: Seq<u8>) -> Seq<Option<Seq<Seq<char>>>> {
    csv_rows(without_comments(content))
}

/// Parses comma-separated `content` and appends its records to `agenda`:
/// one per data row, in the order of the rows, until the first row that is
/// malformed. A line whose first character that is not blank is `#` is
/// skipped. No appended field starts or ends with whitespace.
pub fn get_agenda_from_csv(agenda: &mut Vec<AgendaItem>, content: &[u8]) -> (res: Result<
    (),
    IngestError,
>)
    ensures
        res is Ok <==> forall|j: int|
            0 <= j < data_rows(content@).len() ==> (#[trigger] row_entry(data_rows(content@)[j]))
                is Some,
        match res {
            Ok(()) => stops_at(data_rows(content@), data_rows(content@).len() as int) && entries(
                final(agenda)@,
            ) == entries(old(agenda)@) + row_entries(
                data_rows(content@),
                data_rows(content@).len() as int,
            ),
            Err(IngestError::MalformedRow { row }) => row < data_rows(content@).len() && stops_at(
                data_rows(content@),
                row as int,
            ) && entries(final(agenda)@) == entries(old(agenda)@) + row_entries(
                data_rows(content@),
                row as int,
            ),
        },
        fields_trimmed(data_rows(content@)),
        forall|i: int|
            old(agenda)@.len() <= i < final(agenda)@.len() ==> is_trimmed(
                #[trigger] final(agenda)@[i]@,
            ),
{
    let data = strip_comments(content);
    let rows = read_rows(data.as_slice());
    proof {
        assert(row_texts(rows@).len() == rows@.len());
    }
    let res = append_rows(agenda, &rows);
    proof {
        let texts = data_rows(content@);
        let k: int = match res {
            Ok(()) => texts.len() as int,
            Err(IngestError::MalformedRow { row }) => row as int,
        };
        lemma_trimmed_rows_give_trimmed_entries(texts, k);
        let added = row_entries(texts, k);
        let base = entries(old(agenda)@);
        assert(entries(agenda@).len() == agenda@.len());
        assert(base.len() == old(agenda)@.len());
        assert forall|i: int| old(agenda)@.len() <= i < agenda@.len() implies is_trimmed(
            #[trigger] agenda@[i]@,
        ) by {
            assert(entries(agenda@)[i] == agenda@[i]@);
            assert((base + added)[i] == added[i - base.len()]);
        }
    }
    res
}

/// A comment line contributes no row and leaves the rows of the lines
/// around it as they are: the rows of a text with a comment line between
/// whole lines are the rows of the text without that line.
pub proof fn lemma_comment_line_gives_no_row(before: Seq<u8>, line: Seq<u8>, after: Seq<u8>)
    requires
        before.len() == 0 || before.last() == NEWLINE,
        marks_comment(line, 0),
        forall|j: int| 0 <= j < line.len() - 1 ==> line[j] != NEWLINE,
        after.len() == 0 || line.last() == NEWLINE,
    ensures
        data_rows(before + line + after) == data_rows(before + after),
{
    lemma_comment_line_vanishes(before, line, after);
}

/// Ingestion stops at one place only.
pub proof fn lemma_stop_is_unique(rows: Seq<Option<Seq<Seq<char>>>>, a: int, b: int)
    requires
        stops_at(rows, a),
        stops_at(rows, b),
    ensures
        a == b,
{
    if a < b {
        assert(row_entry(rows[a]) is Some);
    }
    if b < a {
        assert(row_entry(rows[b]) is Some);
    }
}

/// Rows of at least three fields each are all kept: ingestion reaches the
/// end and gives as many records as there are rows, record `i` holding the
/// first three fields of row `i` as time, subject and presenter.
pub proof fn lemma_full_rows_all_kept(rows: Seq<Option<Seq<Seq<char>>>>)
    requires
        forall|i: int| 0 <= i < rows.len() ==> (#[trigger] rows[i]) is Some && rows[i].unwrap().len() >= 3,
    ensures
        stops_at(rows, rows.len() as int),
        row_entries(rows, rows.len() as int).len() == rows.len(),
        forall|i: int|
            0 <= i < rows.len() ==> (#[trigger] row_entries(rows, rows.len() as int)[i]) == (Entry {
                time: rows[i].unwrap()[0],
                subject: rows[i].unwrap()[1],
                presenter: rows[i].unwrap()[2],
            }),
{
    assert forall|j: int| 0 <= j < rows.len() implies (#[trigger] row_entry(rows[j])) is Some by {
        assert(rows[j] is Some);
    }
}

/// Records made of trimmed rows are trimmed.
pub proof fn lemma_trimmed_rows_give_trimmed_entries(rows: Seq<Option<Seq<Seq<char>>>>, k: int)
    requires
        fields_trimmed(rows),
        stops_at(rows, k),
    ensures
        forall|i: int| 0 <= i < k ==> is_trimmed(#[trigger] row_entries(rows, k)[i]),
{
    assert forall|i: int| 0 <= i < k implies is_trimmed(#[trigger] row_entries(rows, k)[i]) by {
        assert(row_entry(rows[i]) is Some);
        let f = rows[i].unwrap();
        assert(trimmed(rows[i].unwrap()[0]) == f[0]);
        assert(trimmed(rows[i].unwrap()[1]) == f[1]);
        assert(trimmed(rows[i].unwrap()[2]) == f[2]);
    }
}

} // verus!
