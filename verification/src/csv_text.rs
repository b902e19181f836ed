//! The CSV reading and writing that the `csv` crate does, behind trusted
//! wrappers, and the records that the ingestion functions build from it.
use vstd::prelude::*;
use vstd::string::*;

use crate::fields::pairs_view;
use crate::text::{owned, ascii_lower, ascii_lower_chars, chars_of, opt_chars, string_of, trim, trim_chars};

verus! {

/// The error type of the `csv` crate, carried through opaquely.
#[verifier::external_type_specification]
#[verifier::external_body]
pub struct ExCsvError(csv::Error);

/// What `csv::Reader` reads from a text: its header record and each
/// following record, each one read or failed.
pub struct CsvTable {
    pub headers: Result<Vec<String>, csv::Error>,
    pub rows: Vec<Result<Vec<String>, csv::Error>>,
}

/// The fields of one record.
pub open spec fn record_view(r: Vec<String>) -> Seq<Seq<char>> {
    r@.map_values(|f: String| f@)
}

/// One record read, or `None` where the reader failed.
pub open spec fn read_view(r: Result<Vec<String>, csv::Error>) -> Option<Seq<Seq<char>>> {
    match r {
        Ok(v) => Some(record_view(v)),
        Err(_) => None,
    }
}

/// A table as the header and the rows it read.
pub open spec fn table_view(t: CsvTable) -> (Option<Seq<Seq<char>>>, Seq<Option<Seq<Seq<char>>>>) {
    (read_view(t.headers), t.rows@.map_values(|r: Result<Vec<String>, csv::Error>| read_view(r)))
}

/// What a `csv::Reader` with default settings but the given flexibility
/// reads from `input`: the header record (`None` where reading it failed),
/// then each data record in order (`None` for each record it failed on).
pub uninterp spec fn csv_read(input: Seq<char>, flexible: bool) -> (
    Option<Seq<Seq<char>>>,
    Seq<Option<Seq<Seq<char>>>>,
);

/// Reads `input` with `csv::ReaderBuilder::new().flexible(flexible)`:
/// `Reader::headers`, then every item of `Reader::records`, each field as an
/// owned string. The contract only names the outcome, `csv_read`; the CSV
/// grammar itself (quoting, record lengths) is the crate's and is not
/// restated here.
#[verifier::external_body]
pub(crate) fn read_csv(input: &str, flexible: bool) -> (t: CsvTable)
    ensures
        table_view(t) == csv_read(input@, flexible),
{
    let mut reader = csv::ReaderBuilder::new().flexible(flexible).from_reader(input.as_bytes());
    let headers = match reader.headers() {
        Ok(h) => Ok(h.iter().map(String::from).collect()),
        Err(e) => Err(e),
    };
    let mut rows = Vec::new();
    for record in reader.records() {
        rows.push(match record {
            Ok(r) => Ok(r.iter().map(String::from).collect()),
            Err(e) => Err(e),
        });
    }
    CsvTable { headers, rows }
}

/// The text that a `csv::Writer` with default settings writes for one
/// record, or `None` where writing fails.
pub uninterp spec fn csv_line(fields: Seq<Seq<char>>) -> Option<Seq<char>>;

/// A character the CSV writer quotes a field for: the delimiter, the quote,
/// a carriage return or a line feed.
pub open spec fn csv_special(c: char) -> bool {
    c == ',' || c == '"' || c == '\r' || c == '\n'
}

/// A record the CSV writer writes as it is: no field holds a character it
/// quotes for, and some field is not empty.
pub open spec fn plain_record(fs: Seq<Seq<char>>) -> bool {
    &&& forall|i: int, j: int| 0 <= i < fs.len() && 0 <= j < fs[i].len() ==> !csv_special(#[trigger] fs[i][j])
    &&& exists|i: int| 0 <= i < fs.len() && (#[trigger] fs[i]).len() > 0
}

/// Fields joined by commas.
pub open spec fn joined(fs: Seq<Seq<char>>) -> Seq<char>
    decreases fs.len(),
{
    if fs.len() == 0 {
        Seq::empty()
    } else if fs.len() == 1 {
        fs[0]
    } else {
        joined(fs.drop_last()) + ","@ + fs.last()
    }
}

/// Writes one record with `csv::Writer::from_writer` into memory
/// (`write_record`, then `into_inner`) and reads the bytes back as UTF-8.
/// The text is named `csv_line`. Stated of it, as the crate's writer
/// (csv-core's default builder) shows: writing a first record into a `Vec`
/// does not fail, and a record with no field that needs quoting (none holds
/// a comma, a quote, a carriage return or a line feed, and some field is not
/// empty) is written as its fields joined by commas and a line feed. How
/// other fields are quoted is not restated here.
#[verifier::external_body]
pub(crate) fn write_csv_record(fields: &Vec<String>) -> (r: Option<String>)
    ensures
        opt_chars(r) == csv_line(record_view(*fields)),
        r is Some,
        plain_record(record_view(*fields)) ==> opt_chars(r) == Some(joined(record_view(*fields)) + "\n"@),
{
    let mut writer = csv::Writer::from_writer(Vec::new());
    if writer.write_record(fields).is_err() {
        return None;
    }
    match writer.into_inner() {
        Ok(bytes) => String::from_utf8(bytes).ok(),
        Err(_) => None,
    }
}

/// The message of a CSV error (`Display` for `csv::Error`). Nothing is
/// stated of the text.
#[verifier::external_body]
pub(crate) fn csv_error_text(e: &csv::Error) -> String {
    e.to_string()
}

/// One record keyed by the header names, trimmed and lower-cased; a record
/// shorter than the header reads empty values for the missing fields, and
/// every value is trimmed.
pub open spec fn keyed_row(headers: Seq<Seq<char>>, values: Seq<Seq<char>>) -> Seq<(Seq<char>, Seq<char>)> {
    Seq::new(
        headers.len(),
        |j: int|
            (
                ascii_lower(trim(headers[j])),
                if j < values.len() {
                    trim(values[j])
                } else {
                    Seq::empty()
                },
            ),
    )
}

/// Whether every record of a read succeeded (and their line numbers fit in
/// a `usize`).
pub open spec fn all_read(t: (Option<Seq<Seq<char>>>, Seq<Option<Seq<Seq<char>>>>)) -> bool {
    t.0 is Some && t.1.len() + 2 <= usize::MAX && forall|i: int| 0 <= i < t.1.len() ==> #[trigger] t.1[i] is Some
}

/// The data records of a successful read, keyed by header, each with its
/// line number (the record's position plus two).
pub open spec fn keyed_records(t: (Option<Seq<Seq<char>>>, Seq<Option<Seq<Seq<char>>>>)) -> Seq<
    (int, Seq<(Seq<char>, Seq<char>)>),
> {
    Seq::new(t.1.len(), |i: int| (i + 2, keyed_row(t.0->0, t.1[i]->0)))
}

/// The view of keyed records.
pub open spec fn keyed_view(rs: Seq<(usize, Vec<(String, String)>)>) -> Seq<
    (int, Seq<(Seq<char>, Seq<char>)>),
> {
    rs.map_values(|r: (usize, Vec<(String, String)>)| (r.0 as int, pairs_view(r.1@)))
}

/// The trimmed, lower-cased header names.
fn header_names(h: &Vec<String>) -> (r: Vec<Vec<char>>)
    ensures
        r@.len() == h@.len(),
        forall|j: int| 0 <= j < h@.len() ==> #[trigger] r@[j]@ == ascii_lower(trim(h@[j]@)),
{
    let mut r: Vec<Vec<char>> = Vec::new();
    let mut j: usize = 0;
    while j < h.len()
        invariant
            j <= h@.len(),
            r@.len() == j,
            forall|k: int| 0 <= k < j ==> #[trigger] r@[k]@ == ascii_lower(trim(h@[k]@)),
        decreases h.len() - j,
    {
        let c = chars_of(h[j].as_str());
        r.push(ascii_lower_chars(&trim_chars(&c)));
        j += 1;
    }
    r
}

/// One record keyed by the given header names.
fn key_row(names: &Vec<Vec<char>>, values: &Vec<String>, ghost_headers: Ghost<Seq<Seq<char>>>) -> (r: Vec<(String, String)>)
    requires
        names@.len() == ghost_headers@.len(),
        forall|j: int| 0 <= j < names@.len() ==> #[trigger] names@[j]@ == ascii_lower(trim(ghost_headers@[j])),
    ensures
        pairs_view(r@) == keyed_row(ghost_headers@, record_view(*values)),
{
    let mut r: Vec<(String, String)> = Vec::new();
    let mut j: usize = 0;
    while j < names.len()
        invariant
            j <= names@.len() == ghost_headers@.len(),
            forall|k: int| 0 <= k < names@.len() ==> #[trigger] names@[k]@ == ascii_lower(trim(ghost_headers@[k])),
            pairs_view(r@) =~= keyed_row(ghost_headers@, record_view(*values)).take(j as int),
        decreases names.len() - j,
    {
        let value = if j < values.len() {
            let c = chars_of(values[j].as_str());
            string_of(&trim_chars(&c))
        } else {
            String::new()
        };
        let ghost before = pairs_view(r@);
        r.push((string_of(&names[j]), value));
        assert(pairs_view(r@) =~= before.push((names@[j as int]@, value@)));
        j += 1;
    }
    r
}

/// The keyed records of a table, or the first failure of the read.
pub fn keyed_table(t: &CsvTable) -> (r: Result<Vec<(usize, Vec<(String, String)>)>, String>)
    ensures
        r is Ok <==> all_read(table_view(*t)),
        r matches Ok(rs) ==> keyed_view(rs@) == keyed_records(table_view(*t)),
{
    let h = match &t.headers {
        Ok(h) => h,
        Err(e) => {
            return Err(csv_error_text(e));
        },
    };
    if t.rows.len() > usize::MAX - 2 {
        return Err(owned("too many CSV records"));
    }
    let names = header_names(h);
    let ghost headers = record_view(*h);
    let ghost tv = table_view(*t);
    let mut out: Vec<(usize, Vec<(String, String)>)> = Vec::new();
    let mut i: usize = 0;
    while i < t.rows.len()
        invariant
            i <= t.rows@.len(),
            tv == table_view(*t),
            tv.0 == Some(headers),
            names@.len() == headers.len(),
            forall|j: int| 0 <= j < names@.len() ==> #[trigger] names@[j]@ == ascii_lower(trim(headers[j])),
            forall|k: int| 0 <= k < i ==> #[trigger] tv.1[k] is Some,
            keyed_view(out@) =~= keyed_records(tv).take(i as int),
            t.rows@.len() + 2 <= usize::MAX,
        decreases t.rows.len() - i,
    {
        match &t.rows[i] {
            Err(e) => {
                assert(tv.1[i as int] is None);
                return Err(csv_error_text(e));
            },
            Ok(values) => {
                let row = key_row(&names, values, Ghost(headers));
                let ghost before = keyed_view(out@);
                out.push((i + 2, row));
                assert(keyed_view(out@) =~= before.push(((i + 2) as int, pairs_view(row@))));
            },
        }
        i += 1;
    }
    Ok(out)
}

} // verus!
