//! Card types and cards of a game as CSV data: identifiers, costs and
//! appearances, with the CSV reader this data uses.
use vstd::prelude::*;
use vstd::string::*;

use crate::fields::{field, field_value, lookup, lookup_value, pairs_view};
use crate::text::{opt_chars, str_is, parse_bounded, parse_unsigned, split, split_chars, concat3, contains_string, ascii_lower, ascii_lower_chars, chars_of, clone_opt, string_of, trim, trim_chars};

verus! {

/// A kind of card of a game, with the appearance its cards inherit.
#[derive(Debug, Clone, PartialEq, Eq)]
pub struct CardType {
    pub id: String,
    pub game_id: String,
    pub name: String,
    pub description: Option<String>,
    pub background_image: Option<String>,
    pub background_color: Option<String>,
    /// Font Awesome Pro identifier, for example `fa-solid fa-dragon`.
    pub icon: Option<String>,
    pub back_logo: Option<String>,
}

/// An amount of one resource.
#[derive(Debug, Clone, PartialEq, Eq)]
pub struct CardCostComponent {
    pub resource: String,
    pub amount: u32,
}

/// What a card costs.
#[derive(Debug, Clone, PartialEq, Eq)]
pub struct CardCost {
    pub components: Vec<CardCostComponent>,
}

/// A card of a game, of one of its card types.
#[derive(Debug, Clone, PartialEq, Eq)]
pub struct Card {
    pub id: String,
    pub game_id: String,
    pub name: String,
    pub card_type_id: String,
    pub description: Option<String>,
    pub cost: Option<CardCost>,
    pub visual: CardVisual,
    pub back_logo: Option<String>,
}

/// How a card is drawn.
#[derive(Debug, Clone, PartialEq, Eq)]
pub enum CardVisual {
    /// Generated layout containing name, type, cost, description, and optional artwork.
    Generated {
        image: Option<String>,
        background_image: Option<String>,
        background_color: Option<String>,
        icon: Option<String>,
    },
    /// Complete pre-rendered card. The renderer displays only this image.
    FullImage { image: String },
}

/// The appearance of a generated card once its type's defaults are applied.
#[derive(Debug, Clone, PartialEq, Eq)]
pub struct CardAppearance {
    pub image: Option<String>,
    pub background_image: Option<String>,
    pub background_color: Option<String>,
    pub icon: Option<String>,
    pub back_logo: Option<String>,
}

/// A problem in CSV card data, with the row it was found on.
#[derive(Debug, Clone, PartialEq, Eq)]
pub struct CsvIngestionError {
    pub row: usize,
    pub message: String,
}


impl CardCostComponent {
    /// A copy of the component.
    pub fn duplicate(&self) -> (r: Self)
        ensures
            r == *self,
    {
        CardCostComponent { resource: self.resource.clone(), amount: self.amount }
    }
}

impl CardCost {
    /// A copy of the cost.
    pub fn duplicate(&self) -> (r: Self)
        ensures
            r.components@ == self.components@,
    {
        let mut components: Vec<CardCostComponent> = Vec::new();
        let mut i: usize = 0;
        while i < self.components.len()
            invariant
                i <= self.components@.len(),
                components@ == self.components@.take(i as int),
            decreases self.components.len() - i,
        {
            components.push(self.components[i].duplicate());
            assert(components@ =~= self.components@.take(i + 1));
            i += 1;
        }
        assert(self.components@.take(self.components@.len() as int) =~= self.components@);
        CardCost { components }
    }
}

/// The components of an optional cost.
pub open spec fn cost_view(c: Option<CardCost>) -> Option<Seq<CardCostComponent>> {
    match c {
        Some(c) => Some(c.components@),
        None => None,
    }
}

/// A copy of an optional cost.
pub fn duplicate_cost(c: &Option<CardCost>) -> (r: Option<CardCost>)
    ensures
        cost_view(r) == cost_view(*c),
{
    match c {
        Some(c) => Some(c.duplicate()),
        None => None,
    }
}

impl CardVisual {
    /// A copy of the visual.
    pub fn duplicate(&self) -> (r: Self)
        ensures
            r == *self,
    {
        match self {
            CardVisual::Generated { image, background_image, background_color, icon } => CardVisual::Generated {
                image: clone_opt(image),
                background_image: clone_opt(background_image),
                background_color: clone_opt(background_color),
                icon: clone_opt(icon),
            },
            CardVisual::FullImage { image } => CardVisual::FullImage { image: image.clone() },
        }
    }
}

/// ASCII white space (`u8::is_ascii_whitespace`): space, tab, line feed,
/// form feed and carriage return.
pub open spec fn is_ascii_ws(c: char) -> bool {
    c == ' ' || c == '\t' || c == '\n' || c == '\x0C' || c == '\r'
}

/// Underscores and ASCII white space become hyphens, a run of them one
/// hyphen, and no hyphen follows a hyphen that is already written.
pub open spec fn hyphenate(s: Seq<char>) -> Seq<char>
    decreases s.len(),
{
    if s.len() == 0 {
        Seq::empty()
    } else {
        let out = hyphenate(s.drop_last());
        let c = s.last();
        if c == '_' || is_ascii_ws(c) {
            if out.len() > 0 && out.last() == '-' {
                out
            } else {
                out.push('-')
            }
        } else {
            out.push(c)
        }
    }
}

/// An identifier as written in CSV data, normalized: trimmed, lower-cased,
/// with underscores and white space turned into single hyphens.
pub open spec fn normalized_id(s: Seq<char>) -> Seq<char> {
    hyphenate(ascii_lower(trim(s)))
}

/// A character an identifier may hold.
pub open spec fn is_id_char(c: char) -> bool {
    ('a' <= c <= 'z') || ('0' <= c <= '9') || c == '-'
}

/// A valid identifier: lower-case ASCII letters, digits and single hyphens,
/// neither starting nor ending with a hyphen.
pub open spec fn valid_id(s: Seq<char>) -> bool {
    &&& s.len() > 0
    &&& s[0] != '-'
    &&& s.last() != '-'
    &&& forall|i: int| 0 <= i < s.len() ==> is_id_char(#[trigger] s[i])
    &&& !exists|i: int| 0 <= i < s.len() - 1 && #[trigger] s[i] == '-' && s[i + 1] == '-'
}

fn normalize_chars(v: &[char]) -> (r: Vec<char>)
    ensures
        r@ == normalized_id(v@),
{
    let t = trim_chars(v);
    let l = ascii_lower_chars(&t);
    let mut out: Vec<char> = Vec::new();
    let mut i: usize = 0;
    assert(l@.take(0) =~= Seq::<char>::empty());
    while i < l.len()
        invariant
            i <= l@.len(),
            out@ == hyphenate(l@.take(i as int)),
        decreases l.len() - i,
    {
        assert(l@.take(i + 1).drop_last() =~= l@.take(i as int));
        let c = l[i];
        if c == '_' || c == ' ' || c == '\t' || c == '\n' || c == '\x0C' || c == '\r' {
            if !(out.len() > 0 && out[out.len() - 1] == '-') {
                out.push('-');
            }
        } else {
            out.push(c);
        }
        i += 1;
    }
    assert(l@.take(l.len() as int) =~= l@);
    out
}

fn normalize_id(value: &str) -> (r: String)
    ensures
        r@ == normalized_id(value@),
{
    let v = chars_of(value);
    string_of(&normalize_chars(&v))
}

fn is_valid_id(value: &str) -> (r: bool)
    ensures
        r == valid_id(value@),
{
    let v = chars_of(value);
    let n = v.len();
    if n == 0 || v[0] == '-' || v[n - 1] == '-' {
        return false;
    }
    let mut i: usize = 0;
    while i < n
        invariant
            n == v@.len(),
            v@ == value@,
            i <= n,
            forall|k: int| 0 <= k < i ==> is_id_char(#[trigger] v@[k]),
            forall|k: int| 0 <= k < i && k < n - 1 ==> !(#[trigger] v@[k] == '-' && v@[k + 1] == '-'),
        decreases n - i,
    {
        let c = v[i];
        if !(('a' <= c && c <= 'z') || ('0' <= c && c <= '9') || c == '-') {
            assert(!is_id_char(v@[i as int]));
            return false;
        }
        if c == '-' && i + 1 < n && v[i + 1] == '-' {
            assert(v@[i as int] == '-' && v@[i + 1] == '-');
            return false;
        }
        i += 1;
    }
    true
}

/// The scanner's state: the rows done, the row being read, the field being
/// read, and whether the scanner is inside quotes.
pub struct ScanState {
    pub rows: Seq<Seq<Seq<char>>>,
    pub row: Seq<Seq<char>>,
    pub field: Seq<char>,
    pub quoted: bool,
}

/// `str::trim_end_matches('\r')`.
pub open spec fn strip_cr(s: Seq<char>) -> Seq<char>
    decreases s.len(),
{
    if s.len() > 0 && s.last() == '\r' {
        strip_cr(s.drop_last())
    } else {
        s
    }
}

/// Some field of the row is not empty.
pub open spec fn has_value(row: Seq<Seq<char>>) -> bool {
    exists|k: int| 0 <= k < row.len() && (#[trigger] row[k]).len() > 0
}

/// The rows once a row ends: kept where some field is not empty.
pub open spec fn end_row(rows: Seq<Seq<Seq<char>>>, row: Seq<Seq<char>>) -> Seq<Seq<Seq<char>>> {
    if has_value(row) {
        rows.push(row)
    } else {
        rows
    }
}

/// How many characters the scanner consumes at `i`: two for a doubled
/// quote inside quotes, one otherwise.
pub open spec fn scan_width(c: Seq<char>, i: int, st: ScanState) -> int {
    if st.quoted && c[i] == '"' && i + 1 < c.len() && c[i + 1] == '"' {
        2
    } else {
        1
    }
}

/// The scanner's state after the character(s) at `i`. Inside quotes a
/// doubled quote is one quote and a single quote ends the quoting; outside,
/// a quote opens quoting only at the start of a field, a comma ends the
/// field, a line feed ends the field (without trailing carriage returns)
/// and the row, and any other character joins the field.
pub open spec fn scan_step(c: Seq<char>, i: int, st: ScanState) -> ScanState {
    let ch = c[i];
    if st.quoted {
        if ch == '"' && i + 1 < c.len() && c[i + 1] == '"' {
            ScanState { field: st.field.push('"'), ..st }
        } else if ch == '"' {
            ScanState { quoted: false, ..st }
        } else {
            ScanState { field: st.field.push(ch), ..st }
        }
    } else if ch == '"' && st.field.len() == 0 {
        ScanState { quoted: true, ..st }
    } else if ch == ',' {
        ScanState { row: st.row.push(st.field), field: Seq::empty(), ..st }
    } else if ch == '\n' {
        ScanState {
            rows: end_row(st.rows, st.row.push(strip_cr(st.field))),
            row: Seq::empty(),
            field: Seq::empty(),
            quoted: false,
        }
    } else {
        ScanState { field: st.field.push(ch), ..st }
    }
}

/// The scanner's state once every character from `i` on is read.
pub open spec fn scan_from(c: Seq<char>, i: int, st: ScanState) -> ScanState
    decreases c.len() - i,
{
    if i < 0 || i >= c.len() {
        st
    } else {
        scan_from(c, i + scan_width(c, i, st), scan_step(c, i, st))
    }
}

/// The rows of a CSV text, or, where a quoted field is not closed, the
/// number of the row it is on. Rows whose fields are all empty are left
/// out; fields are not trimmed.
pub open spec fn csv_rows(input: Seq<char>) -> Result<Seq<Seq<Seq<char>>>, nat> {
    let st = scan_from(input, 0, ScanState { rows: Seq::empty(), row: Seq::empty(), field: Seq::empty(), quoted: false });
    if st.quoted {
        Err((st.rows.len() + 1) as nat)
    } else {
        Ok(end_row(st.rows, st.row.push(strip_cr(st.field))))
    }
}

/// The rows of a table of strings.
pub open spec fn rows_view(v: Seq<Vec<String>>) -> Seq<Seq<Seq<char>>> {
    v.map_values(|r: Vec<String>| r@.map_values(|f: String| f@))
}

/// The row and the message of an error.
pub open spec fn err_view(e: CsvIngestionError) -> (int, Seq<char>) {
    (e.row as int, e.message@)
}

impl CsvIngestionError {
    fn new(row: usize, message: String) -> (e: Self)
        ensures
            e.row == row,
            e.message == message,
    {
        CsvIngestionError { row, message }
    }

    /// The error as text: `row {row}: {message}`.
    pub fn describe(&self) -> (s: String)
        ensures
            s@ == "row "@ + crate::text::decimal(self.row as nat) + ": "@ + self.message@,
    {
        let mut s = crate::text::owned("row ");
        crate::text::push_decimal(&mut s, self.row);
        s.append(": ");
        s.append(self.message.as_str());
        s
    }
}

fn strip_cr_chars(v: &Vec<char>) -> (r: Vec<char>)
    ensures
        r@ == strip_cr(v@),
{
    let mut n = v.len();
    assert(v@.take(n as int) =~= v@);
    while n > 0 && v[n - 1] == '\r'
        invariant
            n <= v@.len(),
            strip_cr(v@) == strip_cr(v@.take(n as int)),
        decreases n,
    {
        assert(v@.take(n - 1) =~= v@.take(n as int).drop_last());
        n -= 1;
    }
    assert(strip_cr(v@.take(n as int)) == v@.take(n as int));
    crate::text::slice_chars(v.as_slice(), 0, n)
}

fn row_has_value(row: &Vec<String>) -> (r: bool)
    ensures
        r == has_value(row@.map_values(|f: String| f@)),
{
    let ghost rv = row@.map_values(|f: String| f@);
    let mut k: usize = 0;
    while k < row.len()
        invariant
            k <= row@.len(),
            rv == row@.map_values(|f: String| f@),
            forall|j: int| 0 <= j < k ==> (#[trigger] rv[j]).len() == 0,
        decreases row.len() - k,
    {
        if !row[k].as_str().is_empty() {
            assert(rv[k as int].len() > 0);
            return true;
        }
        k += 1;
    }
    false
}

/// The scanner's state held in strings and vectors.
pub open spec fn scan_view(rows: Seq<Vec<String>>, row: Seq<String>, field: Seq<char>, quoted: bool) -> ScanState {
    ScanState { rows: rows_view(rows), row: row.map_values(|f: String| f@), field, quoted }
}

/// Reads CSV text into rows of fields. Fields may be quoted, with `""` for a
/// quote inside quotes; rows end at line feeds, a carriage return before
/// one is dropped, and rows with no non-empty field are skipped. A quoted
/// field left open is an error on the row it starts.
pub fn parse_csv(input: &str) -> (r: Result<Vec<Vec<String>>, CsvIngestionError>)
    ensures
        match csv_rows(input@) {
            Ok(rows) => r matches Ok(v) && rows_view(v@) == rows,
            Err(n) => r matches Err(e) && err_view(e) == (n as int, "unterminated quoted field"@),
        },
{
    let c = chars_of(input);
    let mut rows: Vec<Vec<String>> = Vec::new();
    let mut row: Vec<String> = Vec::new();
    let mut field: Vec<char> = Vec::new();
    let mut quoted = false;
    let mut i: usize = 0;
    let ghost init = ScanState { rows: Seq::empty(), row: Seq::empty(), field: Seq::empty(), quoted: false };
    assert(scan_view(rows@, row@, field@, quoted) =~= init) by {
        assert(rows_view(rows@) =~= Seq::<Seq<Seq<char>>>::empty());
        assert(row@.map_values(|f: String| f@) =~= Seq::<Seq<char>>::empty());
    }
    while i < c.len()
        invariant
            c@ == input@,
            i <= c@.len(),
            scan_from(c@, 0, init) == scan_from(c@, i as int, scan_view(rows@, row@, field@, quoted)),
            rows@.len() <= i,
            quoted ==> rows@.len() < i,
        decreases c.len() - i,
    {
        let ghost st = scan_view(rows@, row@, field@, quoted);
        let ghost next = scan_step(c@, i as int, st);
        let ghost w = scan_width(c@, i as int, st);
        assert(scan_from(c@, i as int, st) == scan_from(c@, i + w, next));
        let ch = c[i];
        if quoted {
            if ch == '"' && i + 1 < c.len() && c[i + 1] == '"' {
                field.push('"');
                i += 2;
            } else if ch == '"' {
                quoted = false;
                i += 1;
            } else {
                field.push(ch);
                i += 1;
            }
            assert(scan_view(rows@, row@, field@, quoted) == next);
        } else if ch == '"' && field.len() == 0 {
            quoted = true;
            i += 1;
            assert(scan_view(rows@, row@, field@, quoted) == next);
        } else if ch == ',' {
            let ghost old_row = row@;
            row.push(string_of(&field));
            field = Vec::new();
            i += 1;
            assert(row@.map_values(|f: String| f@) =~= old_row.map_values(|f: String| f@).push(st.field));
            assert(scan_view(rows@, row@, field@, quoted) =~= next);
        } else if ch == '\n' {
            let ghost old_row = row@;
            let ghost old_rows = rows@;
            let f = strip_cr_chars(&field);
            row.push(string_of(&f));
            assert(row@.map_values(|f: String| f@) =~= old_row.map_values(|f: String| f@).push(strip_cr(st.field)));
            let done = row;
            row = Vec::new();
            if row_has_value(&done) {
                rows.push(done);
                assert(rows_view(rows@) =~= rows_view(old_rows).push(done@.map_values(|f: String| f@)));
            }
            field = Vec::new();
            i += 1;
            assert(row@.map_values(|f: String| f@) =~= Seq::<Seq<char>>::empty());
            assert(scan_view(rows@, row@, field@, quoted) =~= next);
        } else {
            field.push(ch);
            i += 1;
            assert(scan_view(rows@, row@, field@, quoted) == next);
        }
    }
    let ghost st = scan_view(rows@, row@, field@, quoted);
    assert(scan_from(c@, i as int, st) == st);
    if quoted {
        return Err(CsvIngestionError::new(rows.len() + 1, crate::text::owned("unterminated quoted field")));
    }
    let ghost old_row = row@;
    let ghost old_rows = rows@;
    let f = strip_cr_chars(&field);
    row.push(string_of(&f));
    assert(row@.map_values(|f: String| f@) =~= old_row.map_values(|f: String| f@).push(strip_cr(st.field)));
    if row_has_value(&row) {
        rows.push(row);
        assert(rows_view(rows@) =~= rows_view(old_rows).push(st.row.push(strip_cr(st.field))));
    }
    Ok(rows)
}

/// The header names of a table: trimmed and lower-cased.
pub open spec fn header_keys(h: Seq<Seq<char>>) -> Seq<Seq<char>> {
    h.map_values(|x: Seq<char>| ascii_lower(trim(x)))
}

/// A data row keyed by the header names; a field missing from the row is
/// empty. Where a name repeats, lookups find its last column.
pub open spec fn card_record(headers: Seq<Seq<char>>, values: Seq<Seq<char>>) -> Seq<(Seq<char>, Seq<char>)> {
    Seq::new(headers.len(), |j: int| (headers[j], if j < values.len() { values[j] } else { Seq::empty() }))
}

/// The first of the required names that is not a header.
pub open spec fn missing_column(headers: Seq<Seq<char>>, required: Seq<Seq<char>>) -> Option<Seq<char>>
    decreases required.len(),
{
    if required.len() == 0 {
        None
    } else if !headers.contains(required[0]) {
        Some(required[0])
    } else {
        missing_column(headers, required.drop_first())
    }
}

/// The records of a CSV text: each data row, numbered from 2 for the row
/// after the header, keyed by the header names. No rows give no records; a
/// missing required column is an error on row 1.
pub open spec fn csv_records(input: Seq<char>, required: Seq<Seq<char>>) -> Result<Seq<(int, Seq<(Seq<char>, Seq<char>)>)>, (int, Seq<char>)> {
    match csv_rows(input) {
        Err(n) => Err((n as int, "unterminated quoted field"@)),
        Ok(rows) => if rows.len() == 0 {
            Ok(Seq::empty())
        } else {
            let h = header_keys(rows[0]);
            match missing_column(h, required) {
                Some(name) => Err((1, "missing required column '"@ + name + "'"@)),
                None => Ok(Seq::new((rows.len() - 1) as nat, |k: int| (k + 2, card_record(h, rows[k + 1])))),
            }
        },
    }
}

/// The records as numbers and named values.
pub open spec fn records_view(v: Seq<(usize, Vec<(String, String)>)>) -> Seq<(int, Seq<(Seq<char>, Seq<char>)>)> {
    v.map_values(|p: (usize, Vec<(String, String)>)| (p.0 as int, pairs_view(p.1@)))
}

/// The strings of a list of string slices.
pub open spec fn strs_view(v: Seq<&str>) -> Seq<Seq<char>> {
    v.map_values(|s: &str| s@)
}

fn records(input: &str, required: &[&str]) -> (r: Result<Vec<(usize, Vec<(String, String)>)>, CsvIngestionError>)
    ensures
        match csv_records(input@, strs_view(required@)) {
            Ok(recs) => r matches Ok(v) && records_view(v@) == recs,
            Err(e) => r matches Err(x) && err_view(x) == e,
        },
{
    let rows = parse_csv(input)?;
    let ghost rv = rows_view(rows@);
    if rows.len() == 0 {
        let v: Vec<(usize, Vec<(String, String)>)> = Vec::new();
        assert(records_view(v@) =~= Seq::<(int, Seq<(Seq<char>, Seq<char>)>)>::empty());
        return Ok(v);
    }
    assert(rv[0] == rows@[0]@.map_values(|f: String| f@));
    let ghost h = header_keys(rv[0]);
    let mut headers: Vec<String> = Vec::new();
    let mut j: usize = 0;
    while j < rows[0].len()
        invariant
            rows@.len() > 0,
            rv == rows_view(rows@),
            h == header_keys(rv[0]),
            j <= rows@[0]@.len(),
            headers@.len() == j,
            forall|q: int| 0 <= q < j ==> #[trigger] headers@[q]@ == h[q],
        decreases rows[0].len() - j,
    {
        let t = trim_chars(&chars_of(rows[0][j].as_str()));
        let l = ascii_lower_chars(&t);
        headers.push(string_of(&l));
        j += 1;
    }
    let ghost hv = headers@.map_values(|f: String| f@);
    assert(hv =~= h);
    let ghost req = strs_view(required@);
    assert(req.subrange(0, req.len() as int) =~= req);
    let mut k: usize = 0;
    while k < required.len()
        invariant
            k <= required@.len(),
            req == strs_view(required@),
            csv_rows(input@) == Ok::<Seq<Seq<Seq<char>>>, nat>(rv),
            rv.len() > 0,
            h == header_keys(rv[0]),
            hv == h,
            hv == headers@.map_values(|f: String| f@),
            missing_column(h, req) == missing_column(h, req.subrange(k as int, req.len() as int)),
        decreases required.len() - k,
    {
        assert(req.subrange(k as int, req.len() as int).drop_first() =~= req.subrange(k + 1, req.len() as int));
        assert(req.subrange(k as int, req.len() as int)[0] == req[k as int]);
        if !contains_string(&headers, required[k]) {
            assert(!h.contains(req[k as int])) by {
                if h.contains(req[k as int]) {
                    let q = h.index_of(req[k as int]);
                    assert(headers@[q]@ == required@[k as int]@);
                }
            }
            return Err(CsvIngestionError::new(1, concat3("missing required column '", required[k], "'")));
        }
        assert(h.contains(req[k as int])) by {
            let q = choose|q: int| 0 <= q < headers@.len() && #[trigger] headers@[q]@ == required@[k as int]@;
            assert(h[q] == req[k as int]);
        }
        k += 1;
    }
    assert(missing_column(h, req.subrange(k as int, req.len() as int)) is None);
    let mut out: Vec<(usize, Vec<(String, String)>)> = Vec::new();
    let mut k: usize = 1;
    while k < rows.len()
        invariant
            1 <= k <= rows@.len(),
            rv == rows_view(rows@),
            hv == h,
            hv == headers@.map_values(|f: String| f@),
            out@.len() == k - 1,
            forall|q: int| 0 <= q < k - 1 ==> #[trigger] records_view(out@)[q] == (q + 2, card_record(h, rv[q + 1])),
        decreases rows.len() - k,
    {
        let mut rec: Vec<(String, String)> = Vec::new();
        let mut j: usize = 0;
        while j < headers.len()
            invariant
                k < rows@.len(),
                j <= headers@.len(),
                rv == rows_view(rows@),
                hv == headers@.map_values(|f: String| f@),
                rec@.len() == j,
                forall|q: int| 0 <= q < j ==> #[trigger] pairs_view(rec@)[q] == card_record(hv, rv[k as int])[q],
            decreases headers.len() - j,
        {
            let value = if j < rows[k].len() {
                rows[k][j].clone()
            } else {
                String::new()
            };
            let ghost before_rec = rec@;
            rec.push((headers[j].clone(), value));
            assert forall|q: int| 0 <= q <= j implies #[trigger] pairs_view(rec@)[q] == card_record(hv, rv[k as int])[q] by {
                if q < j {
                    assert(pairs_view(rec@)[q] == pairs_view(before_rec)[q]);
                }
            }
            j += 1;
        }
        assert(pairs_view(rec@) =~= card_record(h, rv[k as int]));
        let ghost before = out@;
        out.push((k + 1, rec));
        assert forall|q: int| 0 <= q < k implies #[trigger] records_view(out@)[q] == (q + 2, card_record(h, rv[q + 1])) by {
            if q < k - 1 {
                assert(records_view(out@)[q] == records_view(before)[q]);
            }
        }
        k += 1;
    }
    assert(records_view(out@) =~= Seq::new((rv.len() - 1) as nat, |q: int| (q + 2, card_record(h, rv[q + 1]))));
    Ok(out)
}

/// The message for a required value that is missing or blank.
pub open spec fn required_msg(name: Seq<char>) -> Seq<char> {
    "'"@ + name + "' is required"@
}

/// The message for a value that does not normalize to a valid identifier.
pub open spec fn invalid_id_msg(name: Seq<char>) -> Seq<char> {
    "'"@ + name + "' is not a valid identifier"@
}

/// The trimmed value of a required field of a record.
pub open spec fn required_field(rec: Seq<(Seq<char>, Seq<char>)>, name: Seq<char>, row: int) -> Result<Seq<char>, (int, Seq<char>)> {
    match field(rec, name) {
        Some(v) => Ok(v),
        None => Err((row, required_msg(name))),
    }
}

/// The normalized identifier of a required field of a record.
pub open spec fn id_field(rec: Seq<(Seq<char>, Seq<char>)>, name: Seq<char>, row: int) -> Result<Seq<char>, (int, Seq<char>)> {
    match field(rec, name) {
        None => Err((row, required_msg(name))),
        Some(v) => if valid_id(normalized_id(v)) {
            Ok(normalized_id(v))
        } else {
            Err((row, invalid_id_msg(name)))
        },
    }
}

/// The outcome of a call as a value and an error view.
pub open spec fn outcome<T>(r: Result<T, CsvIngestionError>) -> Result<T, (int, Seq<char>)> {
    match r {
        Ok(v) => Ok(v),
        Err(e) => Err(err_view(e)),
    }
}

fn required_value(values: &Vec<(String, String)>, name: &str, row: usize) -> (r: Result<String, CsvIngestionError>)
    ensures
        match required_field(pairs_view(values@), name@, row as int) {
            Ok(v) => r matches Ok(s) && s@ == v,
            Err(e) => r matches Err(x) && err_view(x) == e,
        },
{
    match field_value(values, name) {
        Some(v) => Ok(v),
        None => Err(CsvIngestionError::new(row, concat3("'", name, "' is required"))),
    }
}

fn checked_id(values: &Vec<(String, String)>, name: &str, row: usize) -> (r: Result<String, CsvIngestionError>)
    ensures
        match id_field(pairs_view(values@), name@, row as int) {
            Ok(v) => r matches Ok(s) && s@ == v,
            Err(e) => r matches Err(x) && err_view(x) == e,
        },
{
    let value = required_value(values, name, row)?;
    let id = normalize_id(value.as_str());
    if is_valid_id(id.as_str()) {
        Ok(id)
    } else {
        Err(CsvIngestionError::new(row, concat3("'", name, "' is not a valid identifier")))
    }
}

/// One component of a cost, `amount` (of the `generic` resource) or
/// `resource:amount`, with a valid resource identifier and an amount that
/// is a positive `u32`.
pub open spec fn cost_component(token: Seq<char>) -> Option<(Seq<char>, nat)> {
    let pieces = split(token, ':');
    if pieces.len() == 1 || pieces.len() == 2 {
        let resource = normalized_id(if pieces.len() == 1 { "generic"@ } else { pieces[0] });
        match parse_unsigned(pieces.last(), u32::MAX as nat) {
            Some(a) => if a > 0 && valid_id(resource) {
                Some((resource, a))
            } else {
                None
            },
            None => None,
        }
    } else {
        None
    }
}

/// The components of the `|`-separated parts of a cost, each trimmed, or
/// the first trimmed part that is not a component.
pub open spec fn cost_components(parts: Seq<Seq<char>>) -> Result<Seq<(Seq<char>, nat)>, Seq<char>>
    decreases parts.len(),
{
    if parts.len() == 0 {
        Ok(Seq::empty())
    } else {
        match cost_components(parts.drop_last()) {
            Err(t) => Err(t),
            Ok(cs) => match cost_component(trim(parts.last())) {
                Some(c) => Ok(cs.push(c)),
                None => Err(trim(parts.last())),
            },
        }
    }
}

/// A cost as written in CSV data: none when blank, else its components.
pub open spec fn card_cost(value: Seq<char>) -> Result<Option<Seq<(Seq<char>, nat)>>, Seq<char>> {
    if trim(value).len() == 0 {
        Ok(None)
    } else {
        match cost_components(split(value, '|')) {
            Ok(cs) => Ok(Some(cs)),
            Err(t) => Err(t),
        }
    }
}

pub proof fn lemma_cost_prefix(ps: Seq<Seq<char>>, n: int)
    requires
        0 <= n <= ps.len(),
        cost_components(ps.take(n)) is Err,
    ensures
        cost_components(ps) == cost_components(ps.take(n)),
    decreases ps.len(),
{
    if n < ps.len() {
        assert(ps.drop_last().take(n) =~= ps.take(n));
        lemma_cost_prefix(ps.drop_last(), n);
    } else {
        assert(ps.take(n) =~= ps);
    }
}

/// Components as resources and amounts.
pub open spec fn components_view(cs: Seq<CardCostComponent>) -> Seq<(Seq<char>, nat)> {
    cs.map_values(|c: CardCostComponent| (c.resource@, c.amount as nat))
}

/// The message for a cost component that cannot be read.
pub open spec fn invalid_cost_msg(token: Seq<char>) -> Seq<char> {
    "invalid cost component '"@ + token + "'"@
}

/// Reads a cost such as `2|fire:2`: blank is no cost; each `|`-separated
/// part is an amount of the `generic` resource or `resource:amount`, with a
/// positive amount.
pub fn parse_card_cost(value: &str, row: usize) -> (r: Result<Option<CardCost>, CsvIngestionError>)
    ensures
        match card_cost(value@) {
            Ok(None) => r matches Ok(None),
            Ok(Some(cs)) => r matches Ok(Some(c)) && components_view(c.components@) == cs,
            Err(t) => r matches Err(e) && err_view(e) == (row as int, invalid_cost_msg(t)),
        },
{
    let v = chars_of(value);
    let t = trim_chars(&v);
    if t.len() == 0 {
        return Ok(None);
    }
    let parts = split_chars(&v, '|');
    let ghost ps = split(v@, '|');
    let mut components: Vec<CardCostComponent> = Vec::new();
    let mut i: usize = 0;
    assert(ps.take(0) =~= Seq::<Seq<char>>::empty());
    assert(components_view(components@) =~= Seq::<(Seq<char>, nat)>::empty());
    while i < parts.len()
        invariant
            i <= parts@.len() == ps.len(),
            ps == split(v@, '|'),
            v@ == value@,
            trim(v@).len() > 0,
            forall|k: int| 0 <= k < parts@.len() ==> #[trigger] parts@[k]@ == ps[k],
            cost_components(ps.take(i as int)) == Ok::<Seq<(Seq<char>, nat)>, Seq<char>>(components_view(components@)),
        decreases parts.len() - i,
    {
        assert(ps.take(i + 1).drop_last() =~= ps.take(i as int));
        let token = trim_chars(&parts[i]);
        let pieces = split_chars(&token, ':');
        let ghost pv = split(token@, ':');
        if pieces.len() != 1 && pieces.len() != 2 {
            assert(cost_components(ps.take(i + 1)) == Err::<Seq<(Seq<char>, nat)>, Seq<char>>(token@));
            proof { lemma_cost_prefix(ps, i + 1); }
            return Err(CsvIngestionError::new(row, concat3("invalid cost component '", string_of(&token).as_str(), "'")));
        }
        let resource = if pieces.len() == 1 {
            normalize_chars(&chars_of("generic"))
        } else {
            normalize_chars(&pieces[0])
        };
        let amount = parse_bounded(&pieces[pieces.len() - 1], 0xffff_ffffu64);
        assert(pieces@[pieces@.len() - 1]@ == pv.last());
        let ok = match amount {
            Some(a) => a > 0 && is_valid_id(string_of(&resource).as_str()),
            None => false,
        };
        if !ok {
            assert(cost_component(token@) is None);
            assert(cost_components(ps.take(i + 1)) == Err::<Seq<(Seq<char>, nat)>, Seq<char>>(token@));
            proof { lemma_cost_prefix(ps, i + 1); }
            return Err(CsvIngestionError::new(row, concat3("invalid cost component '", string_of(&token).as_str(), "'")));
        }
        let a = match amount {
            Some(a) => a,
            None => 0,
        };
        let ghost before = components@;
        components.push(CardCostComponent { resource: string_of(&resource), amount: a as u32 });
        assert(components_view(components@) =~= components_view(before).push((resource@, a as nat)));
        i += 1;
    }
    assert(ps.take(parts.len() as int) =~= ps);
    Ok(Some(CardCost { components }))
}

/// A card type as plain values.
pub struct TypeRow {
    pub game_id: Seq<char>,
    pub id: Seq<char>,
    pub name: Seq<char>,
    pub description: Option<Seq<char>>,
    pub background_image: Option<Seq<char>>,
    pub background_color: Option<Seq<char>>,
    pub icon: Option<Seq<char>>,
    pub back_logo: Option<Seq<char>>,
}

/// A card type's plain values.
pub open spec fn type_view(t: CardType) -> TypeRow {
    TypeRow {
        game_id: t.game_id@,
        id: t.id@,
        name: t.name@,
        description: opt_chars(t.description),
        background_image: opt_chars(t.background_image),
        background_color: opt_chars(t.background_color),
        icon: opt_chars(t.icon),
        back_logo: opt_chars(t.back_logo),
    }
}

/// The columns a card type file must have.
pub open spec fn type_columns() -> Seq<Seq<char>> {
    seq!["game_id"@, "id"@, "name"@]
}

/// The message for a card type whose key is taken.
pub open spec fn duplicate_type_msg(g: Seq<char>, i: Seq<char>) -> Seq<char> {
    "duplicate card type '"@ + g + "/"@ + i + "'"@
}

/// The card type of one record, given the types read before it: its game
/// and id are valid identifiers whose pair is new, and it has a name; the
/// other fields are optional.
pub open spec fn type_row(ts: Seq<TypeRow>, row: int, rec: Seq<(Seq<char>, Seq<char>)>) -> Result<TypeRow, (int, Seq<char>)> {
    match id_field(rec, "game_id"@, row) {
        Err(e) => Err(e),
        Ok(g) => match id_field(rec, "id"@, row) {
            Err(e) => Err(e),
            Ok(i) => if exists|k: int| 0 <= k < ts.len() && (#[trigger] ts[k]).game_id == g && ts[k].id == i {
                Err((row, duplicate_type_msg(g, i)))
            } else {
                match required_field(rec, "name"@, row) {
                    Err(e) => Err(e),
                    Ok(n) => Ok(TypeRow {
                        game_id: g,
                        id: i,
                        name: n,
                        description: field(rec, "description"@),
                        background_image: field(rec, "background_image"@),
                        background_color: field(rec, "background_color"@),
                        icon: field(rec, "icon"@),
                        back_logo: field(rec, "back_logo"@),
                    }),
                }
            },
        },
    }
}

/// The card types of the records, in order, or the first error.
pub open spec fn card_types_from(recs: Seq<(int, Seq<(Seq<char>, Seq<char>)>)>) -> Result<Seq<TypeRow>, (int, Seq<char>)>
    decreases recs.len(),
{
    if recs.len() == 0 {
        Ok(Seq::empty())
    } else {
        match card_types_from(recs.drop_last()) {
            Err(e) => Err(e),
            Ok(ts) => match type_row(ts, recs.last().0, recs.last().1) {
                Err(e) => Err(e),
                Ok(t) => Ok(ts.push(t)),
            },
        }
    }
}

pub proof fn lemma_types_prefix(recs: Seq<(int, Seq<(Seq<char>, Seq<char>)>)>, n: int)
    requires
        0 <= n <= recs.len(),
        card_types_from(recs.take(n)) is Err,
    ensures
        card_types_from(recs) == card_types_from(recs.take(n)),
    decreases recs.len(),
{
    if n < recs.len() {
        assert(recs.drop_last().take(n) =~= recs.take(n));
        lemma_types_prefix(recs.drop_last(), n);
    } else {
        assert(recs.take(n) =~= recs);
    }
}

/// The text `{a}{b}/{c}{d}`.
fn key_message(a: &str, b: &str, c: &str, d: &str) -> (r: String)
    ensures
        r@ == a@ + b@ + "/"@ + c@ + d@,
{
    let mut m = concat3(a, b, "/");
    m.append(c);
    m.append(d);
    m
}

fn type_from_record(done: &Vec<CardType>, row: usize, values: &Vec<(String, String)>) -> (r: Result<CardType, CsvIngestionError>)
    ensures
        match type_row(done@.map_values(|t: CardType| type_view(t)), row as int, pairs_view(values@)) {
            Ok(t) => r matches Ok(x) && type_view(x) == t,
            Err(e) => r matches Err(x) && err_view(x) == e,
        },
{
    let ghost ts = done@.map_values(|t: CardType| type_view(t));
    let game_id = checked_id(values, "game_id", row)?;
    let id = checked_id(values, "id", row)?;
    let mut k: usize = 0;
    while k < done.len()
        invariant
            k <= done@.len(),
            ts == done@.map_values(|t: CardType| type_view(t)),
            id_field(pairs_view(values@), "game_id"@, row as int) == Ok::<Seq<char>, (int, Seq<char>)>(game_id@),
            id_field(pairs_view(values@), "id"@, row as int) == Ok::<Seq<char>, (int, Seq<char>)>(id@),
            forall|q: int| 0 <= q < k ==> !((#[trigger] ts[q]).game_id == game_id@ && ts[q].id == id@),
        decreases done.len() - k,
    {
        if str_is(done[k].game_id.as_str(), game_id.as_str()) && str_is(done[k].id.as_str(), id.as_str()) {
            assert(ts[k as int].game_id == game_id@ && ts[k as int].id == id@);
            return Err(CsvIngestionError::new(row, key_message("duplicate card type '", game_id.as_str(), id.as_str(), "'")));
        }
        k += 1;
    }
    let name = required_value(values, "name", row)?;
    Ok(CardType {
        game_id,
        id,
        name,
        description: field_value(values, "description"),
        background_image: field_value(values, "background_image"),
        background_color: field_value(values, "background_color"),
        icon: field_value(values, "icon"),
        back_logo: field_value(values, "back_logo"),
    })
}

/// Reads card types from CSV text with the columns `game_id`, `id` and
/// `name` (and optionally `description`, `background_image`,
/// `background_color`, `icon`, `back_logo`). Identifiers are normalized and
/// must be valid, and no two types of a game share an id.
pub fn ingest_card_types_csv(input: &str) -> (r: Result<Vec<CardType>, CsvIngestionError>)
    ensures
        match csv_records(input@, type_columns()) {
            Err(e) => r matches Err(x) && err_view(x) == e,
            Ok(recs) => match card_types_from(recs) {
                Ok(ts) => r matches Ok(v) && v@.map_values(|t: CardType| type_view(t)) == ts,
                Err(e) => r matches Err(x) && err_view(x) == e,
            },
        },
        r matches Ok(v) ==> csv_records(input@, type_columns()) is Ok && v@.len() == csv_records(input@, type_columns())->Ok_0.len()
            && forall|i: int| 0 <= i < v@.len() ==> {
                let rec = csv_records(input@, type_columns())->Ok_0[i].1;
                &&& opt_chars((#[trigger] v@[i]).background_color) == field(rec, "background_color"@)
                &&& opt_chars(v@[i].background_image) == field(rec, "background_image"@)
                &&& opt_chars(v@[i].icon) == field(rec, "icon"@)
                &&& opt_chars(v@[i].back_logo) == field(rec, "back_logo"@)
                &&& opt_chars(v@[i].description) == field(rec, "description"@)
            },
{
    let r = ingest_card_types(input);
    proof {
        if r is Ok {
            let v = r->Ok_0;
            let recs = csv_records(input@, type_columns())->Ok_0;
            crate::record_laws::law_card_types_take_record_columns(recs);
            let ts = card_types_from(recs)->Ok_0;
            assert forall|i: int| 0 <= i < v@.len() implies {
                let rec = csv_records(input@, type_columns())->Ok_0[i].1;
                &&& opt_chars((#[trigger] v@[i]).background_color) == field(rec, "background_color"@)
                &&& opt_chars(v@[i].background_image) == field(rec, "background_image"@)
                &&& opt_chars(v@[i].icon) == field(rec, "icon"@)
                &&& opt_chars(v@[i].back_logo) == field(rec, "back_logo"@)
                &&& opt_chars(v@[i].description) == field(rec, "description"@)
            } by {
                assert(v@.map_values(|t: CardType| type_view(t))[i] == type_view(v@[i]));
                assert(ts[i] == type_view(v@[i]));
            }
        }
    }
    r
}

fn ingest_card_types(input: &str) -> (r: Result<Vec<CardType>, CsvIngestionError>)
    ensures
        match csv_records(input@, type_columns()) {
            Err(e) => r matches Err(x) && err_view(x) == e,
            Ok(recs) => match card_types_from(recs) {
                Ok(ts) => r matches Ok(v) && v@.map_values(|t: CardType| type_view(t)) == ts,
                Err(e) => r matches Err(x) && err_view(x) == e,
            },
        },
{
    let columns: Vec<&str> = vec!["game_id", "id", "name"];
    assert(strs_view(columns@) =~= type_columns());
    let recs = records(input, columns.as_slice())?;
    let ghost rs = records_view(recs@);
    let mut out: Vec<CardType> = Vec::new();
    let mut k: usize = 0;
    assert(rs.take(0) =~= Seq::<(int, Seq<(Seq<char>, Seq<char>)>)>::empty());
    assert(out@.map_values(|t: CardType| type_view(t)) =~= Seq::<TypeRow>::empty());
    while k < recs.len()
        invariant
            k <= recs@.len(),
            rs == records_view(recs@),
            csv_records(input@, type_columns()) == Ok::<Seq<(int, Seq<(Seq<char>, Seq<char>)>)>, (int, Seq<char>)>(rs),
            card_types_from(rs.take(k as int)) == Ok::<Seq<TypeRow>, (int, Seq<char>)>(out@.map_values(|t: CardType| type_view(t))),
        decreases recs.len() - k,
    {
        assert(rs.take(k + 1).drop_last() =~= rs.take(k as int));
        assert(rs.take(k + 1).last() == (recs@[k as int].0 as int, pairs_view(recs@[k as int].1@)));
        match type_from_record(&out, recs[k].0, &recs[k].1) {
            Ok(t) => {
                let ghost before = out@;
                out.push(t);
                assert(out@.map_values(|t: CardType| type_view(t)) =~= before.map_values(|t: CardType| type_view(t)).push(type_view(t)));
            },
            Err(e) => {
                proof { lemma_types_prefix(rs, k + 1); }
                assert(rs.take(recs.len() as int) =~= rs);
                return Err(e);
            },
        }
        k += 1;
    }
    assert(rs.take(recs.len() as int) =~= rs);
    Ok(out)
}

/// How a card is drawn, as plain values.
pub enum VisualRow {
    Generated {
        image: Option<Seq<char>>,
        background_image: Option<Seq<char>>,
        background_color: Option<Seq<char>>,
        icon: Option<Seq<char>>,
    },
    FullImage { image: Seq<char> },
}

/// A visual's plain values.
pub open spec fn visual_view(v: CardVisual) -> VisualRow {
    match v {
        CardVisual::Generated { image, background_image, background_color, icon } => VisualRow::Generated {
            image: opt_chars(image),
            background_image: opt_chars(background_image),
            background_color: opt_chars(background_color),
            icon: opt_chars(icon),
        },
        CardVisual::FullImage { image } => VisualRow::FullImage { image: image@ },
    }
}

/// A card as plain values.
pub struct CardRow {
    pub game_id: Seq<char>,
    pub id: Seq<char>,
    pub card_type_id: Seq<char>,
    pub name: Seq<char>,
    pub description: Option<Seq<char>>,
    pub cost: Option<Seq<(Seq<char>, nat)>>,
    pub visual: VisualRow,
    pub back_logo: Option<Seq<char>>,
}

/// A card's plain values.
pub open spec fn card_view(c: Card) -> CardRow {
    CardRow {
        game_id: c.game_id@,
        id: c.id@,
        card_type_id: c.card_type_id@,
        name: c.name@,
        description: opt_chars(c.description),
        cost: match c.cost {
            Some(k) => Some(components_view(k.components@)),
            None => None,
        },
        visual: visual_view(c.visual),
        back_logo: opt_chars(c.back_logo),
    }
}

/// The columns a card file must have.
pub open spec fn card_columns() -> Seq<Seq<char>> {
    seq!["game_id"@, "id"@, "name"@, "card_type_id"@]
}

/// The game and id of each card type.
pub open spec fn type_keys(ts: Seq<CardType>) -> Seq<(Seq<char>, Seq<char>)> {
    ts.map_values(|t: CardType| (t.game_id@, t.id@))
}

/// The visual of a record: a full image where one is given, else a
/// generated layout of the optional appearance fields.
pub open spec fn record_visual(rec: Seq<(Seq<char>, Seq<char>)>) -> VisualRow {
    match field(rec, "full_image"@) {
        Some(image) => VisualRow::FullImage { image },
        None => VisualRow::Generated {
            image: field(rec, "image"@),
            background_image: field(rec, "background_image"@),
            background_color: field(rec, "background_color"@),
            icon: field(rec, "icon"@),
        },
    }
}

/// The message for a card whose key is taken.
pub open spec fn duplicate_card_msg(g: Seq<char>, i: Seq<char>) -> Seq<char> {
    "duplicate card '"@ + g + "/"@ + i + "'"@
}

/// The message for a card of a type that is not known.
pub open spec fn unknown_type_msg(g: Seq<char>, t: Seq<char>) -> Seq<char> {
    "unknown card type '"@ + g + "/"@ + t + "'"@
}

/// The card of one record, given the cards read before it and the known
/// types: game, id and type are valid identifiers, the game and id pair is
/// new, the type is known in that game, the name is given and the cost, if
/// any, can be read.
pub open spec fn card_row(cs: Seq<CardRow>, types: Seq<(Seq<char>, Seq<char>)>, row: int, rec: Seq<(Seq<char>, Seq<char>)>) -> Result<CardRow, (int, Seq<char>)> {
    match id_field(rec, "game_id"@, row) {
        Err(e) => Err(e),
        Ok(g) => match id_field(rec, "id"@, row) {
            Err(e) => Err(e),
            Ok(i) => match id_field(rec, "card_type_id"@, row) {
                Err(e) => Err(e),
                Ok(ct) => if exists|k: int| 0 <= k < cs.len() && (#[trigger] cs[k]).game_id == g && cs[k].id == i {
                    Err((row, duplicate_card_msg(g, i)))
                } else if !types.contains((g, ct)) {
                    Err((row, unknown_type_msg(g, ct)))
                } else {
                    match required_field(rec, "name"@, row) {
                        Err(e) => Err(e),
                        Ok(n) => match card_cost(match lookup(rec, "cost"@) { Some(v) => v, None => Seq::empty() }) {
                            Err(t) => Err((row, invalid_cost_msg(t))),
                            Ok(cost) => Ok(CardRow {
                                game_id: g,
                                id: i,
                                card_type_id: ct,
                                name: n,
                                description: field(rec, "description"@),
                                cost,
                                visual: record_visual(rec),
                                back_logo: field(rec, "back_logo"@),
                            }),
                        },
                    }
                },
            },
        },
    }
}

/// The cards of the records, in order, or the first error.
pub open spec fn cards_from(recs: Seq<(int, Seq<(Seq<char>, Seq<char>)>)>, types: Seq<(Seq<char>, Seq<char>)>) -> Result<Seq<CardRow>, (int, Seq<char>)>
    decreases recs.len(),
{
    if recs.len() == 0 {
        Ok(Seq::empty())
    } else {
        match cards_from(recs.drop_last(), types) {
            Err(e) => Err(e),
            Ok(cs) => match card_row(cs, types, recs.last().0, recs.last().1) {
                Err(e) => Err(e),
                Ok(c) => Ok(cs.push(c)),
            },
        }
    }
}

pub proof fn lemma_cards_prefix(recs: Seq<(int, Seq<(Seq<char>, Seq<char>)>)>, types: Seq<(Seq<char>, Seq<char>)>, n: int)
    requires
        0 <= n <= recs.len(),
        cards_from(recs.take(n), types) is Err,
    ensures
        cards_from(recs, types) == cards_from(recs.take(n), types),
    decreases recs.len(),
{
    if n < recs.len() {
        assert(recs.drop_last().take(n) =~= recs.take(n));
        lemma_cards_prefix(recs.drop_last(), types, n);
    } else {
        assert(recs.take(n) =~= recs);
    }
}

fn card_from_record(done: &Vec<Card>, card_types: &[CardType], row: usize, values: &Vec<(String, String)>) -> (r: Result<Card, CsvIngestionError>)
    ensures
        match card_row(done@.map_values(|c: Card| card_view(c)), type_keys(card_types@), row as int, pairs_view(values@)) {
            Ok(c) => r matches Ok(x) && card_view(x) == c,
            Err(e) => r matches Err(x) && err_view(x) == e,
        },
{
    let ghost cs = done@.map_values(|c: Card| card_view(c));
    let ghost tk = type_keys(card_types@);
    let ghost rec = pairs_view(values@);
    let game_id = checked_id(values, "game_id", row)?;
    let id = checked_id(values, "id", row)?;
    let card_type_id = checked_id(values, "card_type_id", row)?;
    let mut k: usize = 0;
    while k < done.len()
        invariant
            k <= done@.len(),
            cs == done@.map_values(|c: Card| card_view(c)),
            id_field(pairs_view(values@), "game_id"@, row as int) == Ok::<Seq<char>, (int, Seq<char>)>(game_id@),
            id_field(pairs_view(values@), "id"@, row as int) == Ok::<Seq<char>, (int, Seq<char>)>(id@),
            id_field(pairs_view(values@), "card_type_id"@, row as int) == Ok::<Seq<char>, (int, Seq<char>)>(card_type_id@),
            forall|q: int| 0 <= q < k ==> !((#[trigger] cs[q]).game_id == game_id@ && cs[q].id == id@),
        decreases done.len() - k,
    {
        if str_is(done[k].game_id.as_str(), game_id.as_str()) && str_is(done[k].id.as_str(), id.as_str()) {
            assert(cs[k as int].game_id == game_id@ && cs[k as int].id == id@);
            return Err(CsvIngestionError::new(row, key_message("duplicate card '", game_id.as_str(), id.as_str(), "'")));
        }
        k += 1;
    }
    let mut known = false;
    let mut k: usize = 0;
    while k < card_types.len()
        invariant
            k <= card_types@.len(),
            tk == type_keys(card_types@),
            known <==> tk.take(k as int).contains((game_id@, card_type_id@)),
        decreases card_types.len() - k,
    {
        let ghost x = (game_id@, card_type_id@);
        assert(tk.take(k + 1) =~= tk.take(k as int).push(tk[k as int]));
        let ghost was = tk.take(k as int).contains(x);
        if str_is(card_types[k].game_id.as_str(), game_id.as_str()) && str_is(card_types[k].id.as_str(), card_type_id.as_str()) {
            known = true;
            assert(tk.take(k + 1)[k as int] == x);
        } else {
            assert(tk[k as int] != x);
            proof {
                if tk.take(k + 1).contains(x) {
                    let q = tk.take(k + 1).index_of(x);
                    assert(q < k);
                    assert(tk.take(k as int)[q] == x);
                }
            }
        }
        proof {
            if was {
                let q = tk.take(k as int).index_of(x);
                assert(tk.take(k + 1)[q] == x);
            }
        }
        k += 1;
    }
    assert(tk.take(card_types.len() as int) =~= tk);
    if !known {
        return Err(CsvIngestionError::new(row, key_message("unknown card type '", game_id.as_str(), card_type_id.as_str(), "'")));
    }
    let name = required_value(values, "name", row)?;
    let description = field_value(values, "description");
    let cost_text = match lookup_value(values, "cost") {
        Some(v) => v,
        None => String::new(),
    };
    let cost = parse_card_cost(cost_text.as_str(), row)?;
    let visual = match field_value(values, "full_image") {
        Some(image) => CardVisual::FullImage { image },
        None => CardVisual::Generated {
            image: field_value(values, "image"),
            background_image: field_value(values, "background_image"),
            background_color: field_value(values, "background_color"),
            icon: field_value(values, "icon"),
        },
    };
    Ok(Card {
        game_id,
        id,
        name,
        card_type_id,
        description,
        cost,
        visual,
        back_logo: field_value(values, "back_logo"),
    })
}

/// Reads cards from CSV text with the columns `game_id`, `id`, `name` and
/// `card_type_id` (and optionally `description`, `cost`, `image`,
/// `background_image`, `background_color`, `icon`, `full_image`,
/// `back_logo`). Identifiers are normalized and must be valid, no two cards
/// of a game share an id, and each card's type is one of `card_types`.
pub fn ingest_cards_csv(input: &str, card_types: &[CardType]) -> (r: Result<Vec<Card>, CsvIngestionError>)
    ensures
        match csv_records(input@, card_columns()) {
            Err(e) => r matches Err(x) && err_view(x) == e,
            Ok(recs) => match cards_from(recs, type_keys(card_types@)) {
                Ok(cs) => r matches Ok(v) && v@.map_values(|c: Card| card_view(c)) == cs,
                Err(e) => r matches Err(x) && err_view(x) == e,
            },
        },
        r matches Ok(v) ==> csv_records(input@, card_columns()) is Ok && v@.len() == csv_records(input@, card_columns())->Ok_0.len()
            && forall|i: int| 0 <= i < v@.len() ==> {
                let rec = csv_records(input@, card_columns())->Ok_0[i].1;
                &&& opt_chars((#[trigger] v@[i]).back_logo) == field(rec, "back_logo"@)
                &&& opt_chars(v@[i].description) == field(rec, "description"@)
                &&& match v@[i].visual {
                    CardVisual::FullImage { image } => field(rec, "full_image"@) == Some(image@),
                    CardVisual::Generated { image, background_image, background_color, icon } => {
                        &&& field(rec, "full_image"@) is None
                        &&& opt_chars(image) == field(rec, "image"@)
                        &&& opt_chars(background_image) == field(rec, "background_image"@)
                        &&& opt_chars(background_color) == field(rec, "background_color"@)
                        &&& opt_chars(icon) == field(rec, "icon"@)
                    },
                }
            },
{
    let r = ingest_cards(input, card_types);
    proof {
        if r is Ok {
            let v = r->Ok_0;
            let recs = csv_records(input@, card_columns())->Ok_0;
            crate::record_laws::law_cards_take_record_columns(recs, type_keys(card_types@));
            let cs = cards_from(recs, type_keys(card_types@))->Ok_0;
            assert forall|i: int| 0 <= i < v@.len() implies {
                let rec = csv_records(input@, card_columns())->Ok_0[i].1;
                &&& opt_chars((#[trigger] v@[i]).back_logo) == field(rec, "back_logo"@)
                &&& opt_chars(v@[i].description) == field(rec, "description"@)
                &&& match v@[i].visual {
                    CardVisual::FullImage { image } => field(rec, "full_image"@) == Some(image@),
                    CardVisual::Generated { image, background_image, background_color, icon } => {
                        &&& field(rec, "full_image"@) is None
                        &&& opt_chars(image) == field(rec, "image"@)
                        &&& opt_chars(background_image) == field(rec, "background_image"@)
                        &&& opt_chars(background_color) == field(rec, "background_color"@)
                        &&& opt_chars(icon) == field(rec, "icon"@)
                    },
                }
            } by {
                assert(v@.map_values(|c: Card| card_view(c))[i] == card_view(v@[i]));
                assert(cs[i] == card_view(v@[i]));
            }
        }
    }
    r
}

fn ingest_cards(input: &str, card_types: &[CardType]) -> (r: Result<Vec<Card>, CsvIngestionError>)
    ensures
        match csv_records(input@, card_columns()) {
            Err(e) => r matches Err(x) && err_view(x) == e,
            Ok(recs) => match cards_from(recs, type_keys(card_types@)) {
                Ok(cs) => r matches Ok(v) && v@.map_values(|c: Card| card_view(c)) == cs,
                Err(e) => r matches Err(x) && err_view(x) == e,
            },
        },
{
    let columns: Vec<&str> = vec!["game_id", "id", "name", "card_type_id"];
    assert(strs_view(columns@) =~= card_columns());
    let recs = records(input, columns.as_slice())?;
    let ghost rs = records_view(recs@);
    let ghost tk = type_keys(card_types@);
    let mut out: Vec<Card> = Vec::new();
    let mut k: usize = 0;
    assert(rs.take(0) =~= Seq::<(int, Seq<(Seq<char>, Seq<char>)>)>::empty());
    assert(out@.map_values(|c: Card| card_view(c)) =~= Seq::<CardRow>::empty());
    while k < recs.len()
        invariant
            k <= recs@.len(),
            rs == records_view(recs@),
            tk == type_keys(card_types@),
            csv_records(input@, card_columns()) == Ok::<Seq<(int, Seq<(Seq<char>, Seq<char>)>)>, (int, Seq<char>)>(rs),
            cards_from(rs.take(k as int), tk) == Ok::<Seq<CardRow>, (int, Seq<char>)>(out@.map_values(|c: Card| card_view(c))),
        decreases recs.len() - k,
    {
        assert(rs.take(k + 1).drop_last() =~= rs.take(k as int));
        assert(rs.take(k + 1).last() == (recs@[k as int].0 as int, pairs_view(recs@[k as int].1@)));
        match card_from_record(&out, card_types, recs[k].0, &recs[k].1) {
            Ok(c) => {
                let ghost before = out@;
                out.push(c);
                assert(out@.map_values(|c: Card| card_view(c)) =~= before.map_values(|c: Card| card_view(c)).push(card_view(c)));
            },
            Err(e) => {
                proof { lemma_cards_prefix(rs, tk, k + 1); }
                assert(rs.take(recs.len() as int) =~= rs);
                return Err(e);
            },
        }
        k += 1;
    }
    assert(rs.take(recs.len() as int) =~= rs);
    Ok(out)
}

/// The first of two optional values that is present (`Option::or_else`).
pub open spec fn or_opt(a: Option<Seq<char>>, b: Option<Seq<char>>) -> Option<Seq<char>> {
    if a is Some {
        a
    } else {
        b
    }
}

fn or_clone(a: &Option<String>, b: &Option<String>) -> (r: Option<String>)
    ensures
        opt_chars(r) == or_opt(opt_chars(*a), opt_chars(*b)),
{
    match a {
        Some(v) => Some(v.clone()),
        None => clone_opt(b),
    }
}

/// A card and a card type of another game, or a card of another type.
pub open spec fn type_mismatch(card: Card, card_type: CardType) -> bool {
    card.game_id@ != card_type.game_id@ || card.card_type_id@ != card_type.id@
}

/// The message for a card type that is not the card's.
pub open spec fn mismatch_msg(card: Card, card_type: CardType) -> Seq<char> {
    "card type '"@ + card_type.game_id@ + "/"@ + card_type.id@ + "' does not belong to card '"@ + card.game_id@ + "/"@ + card.id@ + "'"@
}

/// A card's visual with its type's defaults applied: a full image is kept
/// as it is; a generated layout takes the type's background image, colour
/// and icon where it has none of its own.
pub open spec fn resolved_visual(card: Card, card_type: CardType) -> VisualRow {
    match visual_view(card.visual) {
        VisualRow::FullImage { image } => VisualRow::FullImage { image },
        VisualRow::Generated { image, background_image, background_color, icon } => VisualRow::Generated {
            image,
            background_image: or_opt(background_image, opt_chars(card_type.background_image)),
            background_color: or_opt(background_color, opt_chars(card_type.background_color)),
            icon: or_opt(icon, opt_chars(card_type.icon)),
        },
    }
}

fn mismatch_message(card: &Card, card_type: &CardType) -> (m: String)
    ensures
        m@ == mismatch_msg(*card, *card_type),
{
    let mut m = key_message("card type '", card_type.game_id.as_str(), card_type.id.as_str(), "' does not belong to card '");
    m.append(card.game_id.as_str());
    m.append("/");
    m.append(card.id.as_str());
    m.append("'");
    m
}

/// The visual of a card once its type's defaults are applied; the type
/// must be the card's.
pub fn resolve_card_visual(card: &Card, card_type: &CardType) -> (r: Result<CardVisual, String>)
    ensures
        type_mismatch(*card, *card_type) ==> (r matches Err(m) && m@ == mismatch_msg(*card, *card_type)),
        !type_mismatch(*card, *card_type) ==> (r matches Ok(v) && visual_view(v) == resolved_visual(*card, *card_type)),
        !type_mismatch(*card, *card_type) ==> match card.visual {
            CardVisual::FullImage { image } => r matches Ok(CardVisual::FullImage { image: ri }) && ri@ == image@,
            CardVisual::Generated { image, background_image, background_color, icon } => r matches Ok(
                CardVisual::Generated { image: ri, background_image: rb, background_color: rc, icon: rn },
            ) && opt_chars(ri) == opt_chars(image) && opt_chars(rb) == match background_image {
                Some(b) => Some(b@),
                None => opt_chars(card_type.background_image),
            } && opt_chars(rc) == match background_color {
                Some(c) => Some(c@),
                None => opt_chars(card_type.background_color),
            } && opt_chars(rn) == match icon {
                Some(n) => Some(n@),
                None => opt_chars(card_type.icon),
            },
        },
{
    proof { crate::record_laws::law_card_visual_keeps_own_values(*card, *card_type); }
    if !str_is(card.game_id.as_str(), card_type.game_id.as_str()) || !str_is(card.card_type_id.as_str(), card_type.id.as_str()) {
        return Err(mismatch_message(card, card_type));
    }
    Ok(match &card.visual {
        CardVisual::FullImage { image } => CardVisual::FullImage { image: image.clone() },
        CardVisual::Generated { image, background_image, background_color, icon } => CardVisual::Generated {
            image: clone_opt(image),
            background_image: or_clone(background_image, &card_type.background_image),
            background_color: or_clone(background_color, &card_type.background_color),
            icon: or_clone(icon, &card_type.icon),
        },
    })
}

/// The appearance of a generated card once its type's defaults are applied,
/// the back logo included; a card drawn as a full image has none. The type
/// must be the card's.
pub fn resolve_card_appearance(card: &Card, card_type: &CardType) -> (r: Result<Option<CardAppearance>, String>)
    ensures
        type_mismatch(*card, *card_type) ==> (r matches Err(m) && m@ == mismatch_msg(*card, *card_type)),
        !type_mismatch(*card, *card_type) ==> match resolved_visual(*card, *card_type) {
            VisualRow::FullImage { .. } => r matches Ok(None),
            VisualRow::Generated { image, background_image, background_color, icon } => r matches Ok(Some(a))
                && opt_chars(a.image) == image
                && opt_chars(a.background_image) == background_image
                && opt_chars(a.background_color) == background_color
                && opt_chars(a.icon) == icon
                && opt_chars(a.back_logo) == or_opt(opt_chars(card.back_logo), opt_chars(card_type.back_logo)),
        },
{
    match resolve_card_visual(card, card_type)? {
        CardVisual::FullImage { .. } => Ok(None),
        CardVisual::Generated { image, background_image, background_color, icon } => Ok(Some(CardAppearance {
            image,
            background_image,
            background_color,
            icon,
            back_logo: or_clone(&card.back_logo, &card_type.back_logo),
        })),
    }
}

} // verus!
