//! Piles of cards placed on the board, read from CSV text: where each pile
//! sits in its zone and which piles it is associated with.
use vstd::prelude::*;
use vstd::string::*;

use crate::cards::header_keys;
use crate::csv_text::{csv_read, read_csv, read_view, record_view, table_view, CsvTable};
use crate::engine::{validation_message, EngineError};
use crate::text::{
    ascii_lower_chars, chars_of, concat3, decimal, kept_pieces, owned, parse_bounded,
    parse_unsigned, push_decimal, split, split_trimmed, string_of, trim_chars,
};
use crate::zone_layout::{column, filled, get_filled, header_index};
use crate::zones::validation;

verus! {

/// A pile of cards at a position of a zone.
#[derive(Clone, Debug, PartialEq, Eq)]
pub struct Pile {
    pub id: String,
    pub name: String,
    pub zone_id: String,
    pub x: u8,
    pub y: u8,
    pub associated_piles: Vec<String>,
}

/// A pile as plain values.
pub struct PileRow {
    pub id: Seq<char>,
    pub name: Seq<char>,
    pub zone_id: Seq<char>,
    pub x: u8,
    pub y: u8,
    pub associated_piles: Seq<Seq<char>>,
}

/// A pile's plain values.
pub open spec fn pile_view(p: Pile) -> PileRow {
    PileRow {
        id: p.id@,
        name: p.name@,
        zone_id: p.zone_id@,
        x: p.x,
        y: p.y,
        associated_piles: p.associated_piles@.map_values(|s: String| s@),
    }
}

/// A message about a line of the piles file: `{prefix} at piles CSV line
/// {line}{suffix}`.
pub open spec fn pile_line(prefix: Seq<char>, line: int, suffix: Seq<char>) -> Seq<char> {
    prefix + " at piles CSV line "@ + decimal(line as nat) + suffix
}

fn pile_line_message(prefix: &str, line: usize, suffix: &str) -> (r: String)
    ensures
        r@ == pile_line(prefix@, line as int, suffix@),
{
    let mut m = owned(prefix);
    m.append(" at piles CSV line ");
    push_decimal(&mut m, line);
    m.append(suffix);
    m
}

/// The message for a required column that is missing.
pub open spec fn missing_pile_column(name: Seq<char>) -> Seq<char> {
    "Missing required '"@ + name + "' column in piles CSV"@
}

/// The columns of a header: `id`, `name`, `zone_id`, `x` and `y` are
/// required, in that order.
pub open spec fn pile_columns_of(keys: Seq<Seq<char>>) -> Result<(), Seq<char>> {
    if header_index(keys, "id"@) is None {
        Err(missing_pile_column("id"@))
    } else if header_index(keys, "name"@) is None {
        Err(missing_pile_column("name"@))
    } else if header_index(keys, "zone_id"@) is None {
        Err(missing_pile_column("zone_id"@))
    } else if header_index(keys, "x"@) is None {
        Err(missing_pile_column("x"@))
    } else if header_index(keys, "y"@) is None {
        Err(missing_pile_column("y"@))
    } else {
        Ok(())
    }
}

/// A required field of a pile record, trimmed.
pub open spec fn pile_required(rec: Seq<Seq<char>>, idx: Option<int>, name: Seq<char>, line: int) -> Result<Seq<char>, Seq<char>> {
    match filled(rec, idx) {
        Some(v) => Ok(v),
        None => Err(pile_line("Missing required '"@ + name + "'"@, line, Seq::empty())),
    }
}

/// A coordinate of a pile record: blank reads `0`; otherwise a number from
/// 0 to 255.
pub open spec fn pile_coord(rec: Seq<Seq<char>>, idx: Option<int>, name: Seq<char>, line: int) -> Result<u8, Seq<char>> {
    let raw = match filled(rec, idx) {
        Some(v) => v,
        None => "0"@,
    };
    match parse_unsigned(raw, 255) {
        Some(n) => Ok(n as u8),
        None => Err(pile_line("Invalid u8 for '"@ + name + "'"@, line, ": '"@ + raw + "'"@)),
    }
}

/// The pile a record describes, on the given line: `id`, `name` and
/// `zone_id` are required, `x` and `y` are coordinates, and the associated
/// piles are the trimmed, non-blank pieces of a comma-separated list.
pub open spec fn pile_row(keys: Seq<Seq<char>>, rec: Seq<Seq<char>>, line: int) -> Result<PileRow, Seq<char>> {
    match pile_required(rec, header_index(keys, "id"@), "id"@, line) {
        Err(m) => Err(m),
        Ok(id) => match pile_required(rec, header_index(keys, "name"@), "name"@, line) {
            Err(m) => Err(m),
            Ok(name) => match pile_required(rec, header_index(keys, "zone_id"@), "zone_id"@, line) {
                Err(m) => Err(m),
                Ok(zone_id) => match pile_coord(rec, header_index(keys, "x"@), "x"@, line) {
                    Err(m) => Err(m),
                    Ok(x) => match pile_coord(rec, header_index(keys, "y"@), "y"@, line) {
                        Err(m) => Err(m),
                        Ok(y) => Ok(PileRow {
                            id,
                            name,
                            zone_id,
                            x,
                            y,
                            associated_piles: match filled(rec, header_index(keys, "associated_piles"@)) {
                                Some(v) => kept_pieces(split(v, ',')),
                                None => Seq::empty(),
                            },
                        }),
                    },
                },
            },
        },
    }
}

/// The piles of the records read, each on its line (its position plus
/// two), in order; a record the reader failed on is a CSV error (`None`).
pub open spec fn pile_rows(keys: Seq<Seq<char>>, recs: Seq<Option<Seq<Seq<char>>>>) -> Result<Seq<PileRow>, Option<Seq<char>>>
    decreases recs.len(),
{
    if recs.len() == 0 {
        Ok(Seq::empty())
    } else {
        match pile_rows(keys, recs.drop_last()) {
            Err(e) => Err(e),
            Ok(ps) => match recs.last() {
                None => Err(None),
                Some(rec) => match pile_row(keys, rec, recs.len() + 1int) {
                    Err(m) => Err(Some(m)),
                    Ok(p) => Ok(ps.push(p)),
                },
            },
        }
    }
}

pub proof fn lemma_pile_rows_prefix(keys: Seq<Seq<char>>, recs: Seq<Option<Seq<Seq<char>>>>, n: int)
    requires
        0 <= n <= recs.len(),
        pile_rows(keys, recs.take(n)) is Err,
    ensures
        pile_rows(keys, recs) == pile_rows(keys, recs.take(n)),
    decreases recs.len(),
{
    if n < recs.len() {
        assert(recs.drop_last().take(n) =~= recs.take(n));
        lemma_pile_rows_prefix(keys, recs.drop_last(), n);
    } else {
        assert(recs.take(n) =~= recs);
    }
}

/// The piles of a CSV read: the header must name the required columns and
/// every record must be read and describe a pile. An error is `None` for a
/// CSV error and the validation message otherwise.
pub open spec fn piles_from(t: (Option<Seq<Seq<char>>>, Seq<Option<Seq<Seq<char>>>>)) -> Result<Seq<PileRow>, Option<Seq<char>>> {
    match t.0 {
        None => Err(None),
        Some(h) => match pile_columns_of(header_keys(h)) {
            Err(m) => Err(Some(m)),
            Ok(_) => pile_rows(header_keys(h), t.1),
        },
    }
}

struct PileColumns {
    id: usize,
    name: usize,
    zone_id: usize,
    x: usize,
    y: usize,
    associated_piles: Option<usize>,
}

spec fn pile_columns_at(keys: Seq<Seq<char>>, c: PileColumns) -> bool {
    &&& header_index(keys, "id"@) == Some(c.id as int)
    &&& header_index(keys, "name"@) == Some(c.name as int)
    &&& header_index(keys, "zone_id"@) == Some(c.zone_id as int)
    &&& header_index(keys, "x"@) == Some(c.x as int)
    &&& header_index(keys, "y"@) == Some(c.y as int)
    &&& header_index(keys, "associated_piles"@) == match c.associated_piles {
        Some(i) => Some(i as int),
        None => None,
    }
}

fn find_pile_columns(keys: &Vec<Vec<char>>) -> (r: Result<PileColumns, EngineError>)
    ensures
        match pile_columns_of(keys@.map_values(|k: Vec<char>| k@)) {
            Err(m) => r matches Err(e) && validation_message(e) == Some(m),
            Ok(_) => r matches Ok(c) && pile_columns_at(keys@.map_values(|k: Vec<char>| k@), c),
        },
{
    let id = match column(keys, "id") {
        Some(i) => i,
        None => {
            return Err(validation(concat3("Missing required '", "id", "' column in piles CSV")));
        },
    };
    let name = match column(keys, "name") {
        Some(i) => i,
        None => {
            return Err(validation(concat3("Missing required '", "name", "' column in piles CSV")));
        },
    };
    let zone_id = match column(keys, "zone_id") {
        Some(i) => i,
        None => {
            return Err(validation(concat3("Missing required '", "zone_id", "' column in piles CSV")));
        },
    };
    let x = match column(keys, "x") {
        Some(i) => i,
        None => {
            return Err(validation(concat3("Missing required '", "x", "' column in piles CSV")));
        },
    };
    let y = match column(keys, "y") {
        Some(i) => i,
        None => {
            return Err(validation(concat3("Missing required '", "y", "' column in piles CSV")));
        },
    };
    Ok(PileColumns { id, name, zone_id, x, y, associated_piles: column(keys, "associated_piles") })
}

fn required_pile_field(rec: &Vec<String>, idx: usize, name: &str, line: usize) -> (r: Result<String, EngineError>)
    ensures
        match pile_required(record_view(*rec), Some(idx as int), name@, line as int) {
            Ok(v) => r matches Ok(s) && s@ == v,
            Err(m) => r matches Err(e) && validation_message(e) == Some(m),
        },
{
    match get_filled(rec, Some(idx)) {
        Some(v) => Ok(v),
        None => {
            proof { reveal_strlit(""); }
            Err(validation(pile_line_message(concat3("Missing required '", name, "'").as_str(), line, "")))
        },
    }
}

fn coord_field(rec: &Vec<String>, idx: usize, name: &str, line: usize) -> (r: Result<u8, EngineError>)
    ensures
        match pile_coord(record_view(*rec), Some(idx as int), name@, line as int) {
            Ok(n) => r == Ok::<u8, EngineError>(n),
            Err(m) => r matches Err(e) && validation_message(e) == Some(m),
        },
{
    let raw = match get_filled(rec, Some(idx)) {
        Some(v) => v,
        None => owned("0"),
    };
    let c = chars_of(raw.as_str());
    match parse_bounded(&c, 255) {
        Some(n) => Ok(n as u8),
        None => Err(validation(pile_line_message(concat3("Invalid u8 for '", name, "'").as_str(), line, concat3(": '", raw.as_str(), "'").as_str()))),
    }
}

fn pile_from_record(keys: Ghost<Seq<Seq<char>>>, c: &PileColumns, rec: &Vec<String>, line: usize) -> (r: Result<Pile, EngineError>)
    requires
        pile_columns_at(keys@, *c),
    ensures
        match pile_row(keys@, record_view(*rec), line as int) {
            Ok(p) => r matches Ok(x) && pile_view(x) == p,
            Err(m) => r matches Err(e) && validation_message(e) == Some(m),
        },
{
    let id = required_pile_field(rec, c.id, "id", line)?;
    let name = required_pile_field(rec, c.name, "name", line)?;
    let zone_id = required_pile_field(rec, c.zone_id, "zone_id", line)?;
    let x = coord_field(rec, c.x, "x", line)?;
    let y = coord_field(rec, c.y, "y", line)?;
    let mut associated_piles: Vec<String> = Vec::new();
    if let Some(v) = get_filled(rec, c.associated_piles) {
        let pieces = split_trimmed(&chars_of(v.as_str()), ',');
        let ghost kp = kept_pieces(split(v@, ','));
        let mut k: usize = 0;
        while k < pieces.len()
            invariant
                k <= pieces@.len() == kp.len(),
                forall|q: int| 0 <= q < pieces@.len() ==> #[trigger] pieces@[q]@ == kp[q],
                associated_piles@.map_values(|s: String| s@) =~= kp.take(k as int),
            decreases pieces.len() - k,
        {
            associated_piles.push(string_of(&pieces[k]));
            assert(kp.take(k + 1) =~= kp.take(k as int).push(kp[k as int]));
            k += 1;
        }
        assert(kp.take(pieces.len() as int) =~= kp);
    } else {
        assert(associated_piles@.map_values(|s: String| s@) =~= Seq::<Seq<char>>::empty());
    }
    Ok(Pile { id, name, zone_id, x, y, associated_piles })
}

/// The views of the records read.
pub open spec fn pile_reads(rows: Seq<Result<Vec<String>, csv::Error>>) -> Seq<Option<Seq<Seq<char>>>> {
    rows.map_values(|r: Result<Vec<String>, csv::Error>| read_view(r))
}

fn piles_of_records(kv: Ghost<Seq<Seq<char>>>, cols: &PileColumns, rows: &Vec<Result<Vec<String>, csv::Error>>) -> (r: Result<Vec<Pile>, Result<usize, EngineError>>)
    requires
        rows@.len() + 2 <= usize::MAX,
        pile_columns_at(kv@, *cols),
    ensures
        match pile_rows(kv@, pile_reads(rows@)) {
            Ok(ps) => r matches Ok(v) && v@.map_values(|p: Pile| pile_view(p)) == ps,
            Err(None) => r matches Err(Ok(i)) && i < rows@.len() && rows@[i as int] is Err,
            Err(Some(m)) => r matches Err(Err(e)) && validation_message(e) == Some(m),
        },
{
    let ghost recs = pile_reads(rows@);
    let mut piles: Vec<Pile> = Vec::new();
    let mut i: usize = 0;
    assert(recs.take(0) =~= Seq::<Option<Seq<Seq<char>>>>::empty());
    assert(piles@.map_values(|p: Pile| pile_view(p)) =~= Seq::<PileRow>::empty());
    while i < rows.len()
        invariant
            i <= rows@.len(),
            rows@.len() + 2 <= usize::MAX,
            recs == pile_reads(rows@),
            pile_columns_at(kv@, *cols),
            pile_rows(kv@, recs.take(i as int)) == Ok::<Seq<PileRow>, Option<Seq<char>>>(piles@.map_values(|p: Pile| pile_view(p))),
        decreases rows.len() - i,
    {
        assert(recs.take(i + 1).drop_last() =~= recs.take(i as int));
        assert(recs.take(i + 1).last() == recs[i as int]);
        match &rows[i] {
            Err(_) => {
                assert(recs[i as int] is None);
                proof { lemma_pile_rows_prefix(kv@, recs, i + 1); }
                assert(recs.take(recs.len() as int) =~= recs);
                return Err(Ok(i));
            },
            Ok(rec) => {
                assert(recs[i as int] == Some(record_view(*rec)));
                match pile_from_record(kv, cols, rec, i + 2) {
                    Ok(p) => {
                        let ghost before = piles@;
                        piles.push(p);
                        assert(piles@.map_values(|p: Pile| pile_view(p)) =~= before.map_values(|p: Pile| pile_view(p)).push(pile_view(p)));
                    },
                    Err(e) => {
                        proof { lemma_pile_rows_prefix(kv@, recs, i + 1); }
                        assert(recs.take(recs.len() as int) =~= recs);
                        return Err(Err(e));
                    },
                }
            },
        }
        i += 1;
    }
    assert(recs.take(rows.len() as int) =~= recs);
    Ok(piles)
}

/// The piles of a CSV read, as `piles_from` states; see `parse_piles_csv`.
pub fn piles_from_table(t: CsvTable) -> (r: Result<Vec<Pile>, EngineError>)
    requires
        t.rows@.len() + 2 <= usize::MAX,
    ensures
        match piles_from(table_view(t)) {
            Ok(ps) => r matches Ok(v) && v@.map_values(|p: Pile| pile_view(p)) == ps,
            Err(e) => r matches Err(x) && validation_message(x) == e,
        },
{
    let CsvTable { headers, rows } = t;
    let h = match headers {
        Ok(h) => h,
        Err(e) => {
            return Err(EngineError::Csv(e));
        },
    };
    let ghost hv = record_view(h);
    let mut keys: Vec<Vec<char>> = Vec::new();
    let mut j: usize = 0;
    while j < h.len()
        invariant
            j <= h@.len(),
            hv == record_view(h),
            keys@.len() == j,
            forall|q: int| 0 <= q < j ==> #[trigger] keys@[q]@ == header_keys(hv)[q],
        decreases h.len() - j,
    {
        let c = chars_of(h[j].as_str());
        keys.push(ascii_lower_chars(&trim_chars(&c)));
        j += 1;
    }
    let ghost kv = keys@.map_values(|k: Vec<char>| k@);
    assert(kv =~= header_keys(hv));
    let cols = find_pile_columns(&keys)?;
    let mut rows = rows;
    match piles_of_records(Ghost(kv), &cols, &rows) {
        Ok(ps) => Ok(ps),
        Err(Err(e)) => Err(e),
        Err(Ok(i)) => {
            let failed = rows.remove(i);
            match failed {
                Err(e) => Err(EngineError::Csv(e)),
                Ok(_) => vstd::pervasive::unreached(),
            }
        },
    }
}

/// Parses the piles CSV: columns `id`, `name`, `zone_id`, `x`, `y` and
/// optionally `associated_piles`. A read with more records than line
/// numbers fit in a `usize` is refused.
pub fn parse_piles_csv(raw: &str) -> (r: Result<Vec<Pile>, EngineError>)
    ensures
        csv_read(raw@, false).1.len() + 2 > usize::MAX ==> (r matches Err(e) && validation_message(e) == Some("too many CSV records"@)),
        csv_read(raw@, false).1.len() + 2 <= usize::MAX ==> match piles_from(csv_read(raw@, false)) {
            Ok(ps) => r matches Ok(v) && v@.map_values(|p: Pile| pile_view(p)) == ps,
            Err(e) => r matches Err(x) && validation_message(x) == e,
        },
{
    let t = read_csv(raw, false);
    if t.rows.len() > usize::MAX - 2 {
        return Err(validation(owned("too many CSV records")));
    }
    piles_from_table(t)
}

} // verus!
