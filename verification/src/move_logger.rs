//! The log of card moves: its entries and their CSV form.
use vstd::prelude::*;
use vstd::string::*;

use crate::csv_text::{csv_line, joined, plain_record, record_view, write_csv_record};
use crate::engine::{fails_with, EngineError};
use crate::text::{clone_opt, owned};
use crate::zones::validation;

verus! {

/// Where moves are logged when no path is given.
pub const DEFAULT_MOVES_LOG_PATH: &'static str = "data/moves_log.csv";

/// Whether every character is an ASCII digit.
pub open spec fn all_digits(s: Seq<char>) -> bool {
    forall|i: int| 0 <= i < s.len() ==> '0' <= #[trigger] s[i] <= '9'
}

/// The shape of a UTC time in RFC 3339 form with the year taking `y`
/// characters and the fraction of a second `f`: the year (four digits, or a
/// plus sign and at least five digits past the year 9999), `-MM-DD`, `T`,
/// `HH:MM:SS`, no fraction or a point and 3, 6 or 9 digits, then `+00:00`.
pub open spec fn utc_time_parts(s: Seq<char>, y: int, f: int) -> bool {
    &&& s.len() == y + 15 + f + 6
    &&& (y == 4 && all_digits(s.take(4))) || (y >= 6 && s[0] == '+' && all_digits(s.subrange(1, y)))
    &&& s[y] == '-' && all_digits(s.subrange(y + 1, y + 3))
    &&& s[y + 3] == '-' && all_digits(s.subrange(y + 4, y + 6))
    &&& s[y + 6] == 'T' && all_digits(s.subrange(y + 7, y + 9))
    &&& s[y + 9] == ':' && all_digits(s.subrange(y + 10, y + 12))
    &&& s[y + 12] == ':' && all_digits(s.subrange(y + 13, y + 15))
    &&& f == 0 || ((f == 4 || f == 7 || f == 10) && s[y + 15] == '.' && all_digits(s.subrange(y + 16, y + 15 + f)))
    &&& s.subrange(y + 15 + f, s.len() as int) == "+00:00"@
}

/// Whether a text is a UTC time in the RFC 3339 form that chrono writes.
pub open spec fn utc_time_text(s: Seq<char>) -> bool {
    exists|y: int, f: int| utc_time_parts(s, y, f)
}

/// The current time in RFC 3339 form (`chrono::Utc::now().to_rfc3339()`).
/// chrono writes a UTC time as the year, two digits each for month, day,
/// hour, minute and second, a fraction only where the nanoseconds are not
/// zero, and the offset `+00:00`; which time it is, is the clock's and is not
/// stated.
#[verifier::external_body]
pub(crate) fn current_timestamp() -> (r: String)
    ensures
        utc_time_text(r@),
{
    chrono::Utc::now().to_rfc3339()
}

/// One logged move of a card.
#[derive(Debug, Clone)]
pub struct MoveLogEntry {
    pub timestamp: String,
    pub action: String,
    pub card_id: String,
    pub card_name: String,
    pub from_zone: String,
    pub to_zone: String,
    pub notes: Option<String>,
}

/// Where the log of moves is kept.
#[derive(Debug, Clone)]
pub struct MoveLogger {
    pub path: String,
}

/// The fields of an entry as a CSV record: a missing note is an empty field.
pub open spec fn entry_fields(e: MoveLogEntry) -> Seq<Seq<char>> {
    seq![
        e.timestamp@,
        e.action@,
        e.card_id@,
        e.card_name@,
        e.from_zone@,
        e.to_zone@,
        match e.notes {
            Some(n) => n@,
            None => Seq::empty(),
        },
    ]
}

/// The names of the log's columns.
pub open spec fn header_fields() -> Seq<Seq<char>> {
    seq!["timestamp"@, "action"@, "card_id"@, "card_name"@, "from_pile"@, "to_pile"@, "notes"@]
}

/// The CSV text of the log: the header record, then one record per entry,
/// each as the CSV writer writes it; `None` where writing fails.
pub open spec fn log_csv(es: Seq<MoveLogEntry>) -> Option<Seq<char>>
    decreases es.len(),
{
    if es.len() == 0 {
        csv_line(header_fields())
    } else {
        match (log_csv(es.drop_last()), csv_line(entry_fields(es.last()))) {
            (Some(a), Some(b)) => Some(a + b),
            _ => None,
        }
    }
}

/// A copy of an entry.
pub fn duplicate_entry(e: &MoveLogEntry) -> (r: MoveLogEntry)
    ensures
        r == *e,
{
    MoveLogEntry {
        timestamp: e.timestamp.clone(),
        action: e.action.clone(),
        card_id: e.card_id.clone(),
        card_name: e.card_name.clone(),
        from_zone: e.from_zone.clone(),
        to_zone: e.to_zone.clone(),
        notes: clone_opt(&e.notes),
    }
}

/// The record of an entry.
fn entry_record(e: &MoveLogEntry) -> (r: Vec<String>)
    ensures
        record_view(r) == entry_fields(*e),
{
    let mut r: Vec<String> = Vec::new();
    r.push(e.timestamp.clone());
    r.push(e.action.clone());
    r.push(e.card_id.clone());
    r.push(e.card_name.clone());
    r.push(e.from_zone.clone());
    r.push(e.to_zone.clone());
    r.push(match &e.notes {
        Some(n) => n.clone(),
        None => String::new(),
    });
    assert(record_view(r) =~= entry_fields(*e));
    r
}

/// The record of the log's column names.
fn header_record() -> (r: Vec<String>)
    ensures
        record_view(r) == header_fields(),
{
    let mut header: Vec<String> = Vec::new();
    header.push(owned("timestamp"));
    header.push(owned("action"));
    header.push(owned("card_id"));
    header.push(owned("card_name"));
    header.push(owned("from_pile"));
    header.push(owned("to_pile"));
    header.push(owned("notes"));
    assert(record_view(header) =~= header_fields());
    header
}

/// The header line of the log.
pub open spec fn header_line() -> Seq<char> {
    "timestamp,action,card_id,card_name,from_pile,to_pile,notes\n"@
}

/// The log's column names need no quoting, so the CSV writer writes them
/// as the header line.
pub proof fn lemma_header_plain()
    ensures
        plain_record(header_fields()),
        joined(header_fields()) + "\n"@ == header_line(),
{
    reveal_strlit("timestamp");
    reveal_strlit("action");
    reveal_strlit("card_id");
    reveal_strlit("card_name");
    reveal_strlit("from_pile");
    reveal_strlit("to_pile");
    reveal_strlit("notes");
    reveal_strlit(",");
    reveal_strlit("\n");
    reveal_strlit("timestamp,action,card_id,card_name,from_pile,to_pile,notes\n");
    let h = header_fields();
    assert(h[0].len() > 0);
    reveal_with_fuel(joined, 8);
    assert(joined(h) + "\n"@ =~= header_line());
}

/// The text appended to a log file for one entry: the header record first
/// where the file is new or empty, then the entry's record; `None` where
/// writing fails.
pub open spec fn append_csv(e: MoveLogEntry, write_header: bool) -> Option<Seq<char>> {
    match (csv_line(header_fields()), csv_line(entry_fields(e))) {
        (_, None) => None,
        (None, Some(l)) => if write_header {
            None
        } else {
            Some(l)
        },
        (Some(h), Some(l)) => if write_header {
            Some(h + l)
        } else {
            Some(l)
        },
    }
}

impl MoveLogger {
    /// The CSV text to append to the log file for an entry, with the header
    /// record first when `write_header` holds (the file is new or empty).
    pub fn append_text(entry: &MoveLogEntry, write_header: bool) -> (r: Result<String, EngineError>)
        ensures
            match append_csv(*entry, write_header) {
                Some(t) => r matches Ok(s) && s@ == t,
                None => fails_with(r, "Could not write the move log as CSV"@),
            },
            r is Ok,
            write_header ==> (r matches Ok(s) && header_line().len() <= s@.len() && s@.take(header_line().len() as int) == header_line()),
    {
        proof { lemma_header_plain(); }
        let mut out = String::new();
        if write_header {
            match write_csv_record(&header_record()) {
                Some(h) => out.append(h.as_str()),
                None => {
                    return Err(validation(owned("Could not write the move log as CSV")));
                },
            }
        }
        match write_csv_record(&entry_record(entry)) {
            Some(line) => {
                out.append(line.as_str());
                Ok(out)
            },
            None => Err(validation(owned("Could not write the move log as CSV"))),
        }
    }

    /// A log kept at the given path, or at `data/moves_log.csv`.
    pub fn new(path: Option<String>) -> (l: Self)
        ensures
            match path {
                Some(p) => l.path == p,
                None => l.path@ == DEFAULT_MOVES_LOG_PATH@,
            },
    {
        match path {
            Some(p) => MoveLogger { path: p },
            None => MoveLogger { path: owned(DEFAULT_MOVES_LOG_PATH) },
        }
    }

    /// The log as CSV text: a header, then one record per entry, in order.
    pub fn entries_to_csv(entries: &[MoveLogEntry]) -> (r: Result<String, EngineError>)
        ensures
            match log_csv(entries@) {
                Some(t) => r matches Ok(s) && s@ == t,
                None => fails_with(r, "Could not write the move log as CSV"@),
            },
            r matches Ok(s) && header_line().len() <= s@.len() && s@.take(header_line().len() as int) == header_line(),
    {
        let header = header_record();
        proof { lemma_header_plain(); }
        let mut out = match write_csv_record(&header) {
            Some(h) => h,
            None => {
                proof { lemma_log_csv_none(entries@, 0); }
                return Err(validation(owned("Could not write the move log as CSV")));
            },
        };
        let mut i: usize = 0;
        assert(entries@.take(0) =~= Seq::<MoveLogEntry>::empty());
        while i < entries.len()
            invariant
                i <= entries@.len(),
                log_csv(entries@.take(i as int)) == Some(out@),
                header_line().len() <= out@.len(),
                out@.take(header_line().len() as int) == header_line(),
            decreases entries.len() - i,
        {
            assert(entries@.take(i + 1).drop_last() =~= entries@.take(i as int));
            let rec = entry_record(&entries[i]);
            match write_csv_record(&rec) {
                Some(line) => {
                    out.append(line.as_str());
                },
                None => {
                    proof { lemma_log_csv_none(entries@, i + 1); }
                    return Err(validation(owned("Could not write the move log as CSV")));
                },
            }
            i += 1;
        }
        assert(entries@.take(entries.len() as int) =~= entries@);
        Ok(out)
    }
}

pub proof fn lemma_log_csv_none(es: Seq<MoveLogEntry>, n: int)
    requires
        0 <= n <= es.len(),
        log_csv(es.take(n)) is None,
    ensures
        log_csv(es) is None,
    decreases es.len(),
{
    if n < es.len() {
        assert(es.drop_last().take(n) =~= es.take(n));
        lemma_log_csv_none(es.drop_last(), n);
    } else {
        assert(es.take(n) =~= es);
    }
}

} // verus!
