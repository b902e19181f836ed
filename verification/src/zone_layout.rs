//! The layout of the zones on the game board, read from CSV text: where each
//! zone sits on the grid, whether it is shared or per player, its parent
//! zone and its token pools.
use vstd::prelude::*;
use vstd::string::*;

use crate::cards::header_keys;
use crate::csv_text::{csv_read, read_csv, record_view, table_view, CsvTable};
use crate::engine::{validation_message, EngineError};
use crate::text::{
    concat3,
    ascii_lower, ascii_lower_chars, chars_eq, chars_of, decimal, find_char, first_index, kept_pieces,
    non_blank, non_blank_string, opt_chars, owned, parse_bounded, parse_unsigned, push_decimal,
    slice_chars, split, str_is, string_of, trim, trim_chars,
};
use crate::token_pools::{inline_pool_list, pools_view, PoolShape, TokenPool};
use crate::zones::validation;

verus! {

/// Whether a zone is shared by the game or owned separately by each player.
#[derive(Clone, Copy, Debug, Default, PartialEq, Eq, Structural)]
pub enum ZoneScope {
    Game,
    #[default]
    Player,
}

impl ZoneScope {
    /// The scope as it is written in CSV data.
    pub fn as_str(self) -> (r: &'static str)
        ensures
            r@ == scope_name(self),
    {
        match self {
            ZoneScope::Game => "game",
            ZoneScope::Player => "player",
        }
    }
}

/// The name of a scope.
pub open spec fn scope_name(s: ZoneScope) -> Seq<char> {
    match s {
        ZoneScope::Game => "game"@,
        ZoneScope::Player => "player"@,
    }
}

/// The text of a scope reads back as that scope, on any line.
pub proof fn law_scope_round_trip(s: ZoneScope, line: int)
    ensures
        scope_of(scope_name(s), line) == Ok::<ZoneScope, Seq<char>>(s),
{
    reveal_strlit("game");
    reveal_strlit("player");
    let v = scope_name(s);
    assert(crate::text::trim_start(v) == v);
    assert(crate::text::trim_end(v) == v);
    assert(ascii_lower(trim(v)) =~= v);
}

/// Layout of a named zone region on the 32×32 game board.
#[derive(Clone, Debug, PartialEq, Eq)]
pub struct ZoneLayout {
    pub id: String,
    pub name: String,
    pub color: String,
    /// Whether the zone is shared by the game or owned separately by each player.
    pub scope: ZoneScope,
    /// Optional containing zone. Coordinates are relative to this zone.
    pub parent_zone: Option<String>,
    /// Grid column origin (0-based)
    pub x: u8,
    /// Grid row origin (0-based)
    pub y: u8,
    /// Number of grid columns spanned
    pub width: u8,
    /// Number of grid rows spanned
    pub height: u8,
    /// Token pools owned by this zone, parsed from the optional CSV column.
    pub token_pools: Vec<TokenPool>,
}

/// A zone layout as plain values.
pub struct ZoneRow {
    pub id: Seq<char>,
    pub name: Seq<char>,
    pub color: Seq<char>,
    pub scope: ZoneScope,
    pub parent_zone: Option<Seq<char>>,
    pub x: u8,
    pub y: u8,
    pub width: u8,
    pub height: u8,
    pub token_pools: Seq<PoolShape>,
}

/// A zone layout's plain values.
pub open spec fn zone_view(z: ZoneLayout) -> ZoneRow {
    ZoneRow {
        id: z.id@,
        name: z.name@,
        color: z.color@,
        scope: z.scope,
        parent_zone: opt_chars(z.parent_zone),
        x: z.x,
        y: z.y,
        width: z.width,
        height: z.height,
        token_pools: pools_view(z.token_pools@),
    }
}

/// A message about a line of the zones file: `{prefix} at zones CSV line
/// {line}{suffix}`.
pub open spec fn at_line(prefix: Seq<char>, line: int, suffix: Seq<char>) -> Seq<char> {
    prefix + " at zones CSV line "@ + decimal(line as nat) + suffix
}

fn at_line_message(prefix: &str, line: usize, suffix: &str) -> (r: String)
    ensures
        r@ == at_line(prefix@, line as int, suffix@),
{
    let mut m = owned(prefix);
    m.append(" at zones CSV line ");
    push_decimal(&mut m, line);
    m.append(suffix);
    m
}

/// The scope a CSV value names: `game`, or `player` (also when blank),
/// compared trimmed and lower-cased.
pub open spec fn scope_of(raw: Seq<char>, line: int) -> Result<ZoneScope, Seq<char>> {
    let v = ascii_lower(trim(raw));
    if v == "game"@ {
        Ok(ZoneScope::Game)
    } else if v == "player"@ || v.len() == 0 {
        Ok(ZoneScope::Player)
    } else {
        Err(at_line("Invalid zone scope '"@ + v + "'"@, line, "; expected 'game' or 'player'"@))
    }
}

fn parse_scope(raw: &str, line: usize) -> (r: Result<ZoneScope, EngineError>)
    ensures
        match scope_of(raw@, line as int) {
            Ok(s) => r == Ok::<ZoneScope, EngineError>(s),
            Err(m) => r matches Err(e) && validation_message(e) == Some(m),
        },
{
    let c = chars_of(raw);
    let v = ascii_lower_chars(&trim_chars(&c));
    let game = chars_of("game");
    let player = chars_of("player");
    if chars_eq(&v, &game) {
        Ok(ZoneScope::Game)
    } else if chars_eq(&v, &player) || v.len() == 0 {
        Ok(ZoneScope::Player)
    } else {
        let mut m = owned("Invalid zone scope '");
        m.append(string_of(&v).as_str());
        m.append("'");
        Err(validation(at_line_message(m.as_str(), line, "; expected 'game' or 'player'")))
    }
}

/// A number from 0 to 255 as `str::parse::<u8>` reads it after trimming.
pub open spec fn small_number(s: Seq<char>) -> Option<u8> {
    match parse_unsigned(trim(s), 255) {
        Some(n) => Some(n as u8),
        None => None,
    }
}

fn parse_small(v: &[char]) -> (r: Option<u8>)
    ensures
        r == small_number(v@),
{
    let t = trim_chars(v);
    match parse_bounded(&t, 255) {
        Some(n) => Some(n as u8),
        None => None,
    }
}

/// The grid notation `x,y.WxH`: the origin before the first `.`, split at
/// its first `,`, and the size after it, split at its first `x`; each part
/// a number from 0 to 255, trimmed.
pub open spec fn grid_of(raw: Seq<char>) -> Option<(u8, u8, u8, u8)> {
    let dot = first_index(raw, '.');
    if dot < 0 {
        None
    } else {
        let origin = raw.take(dot);
        let size = raw.skip(dot + 1);
        let comma = first_index(origin, ',');
        let cross = first_index(size, 'x');
        if comma < 0 || cross < 0 {
            None
        } else {
            match (
                small_number(origin.take(comma)),
                small_number(origin.skip(comma + 1)),
                small_number(size.take(cross)),
                small_number(size.skip(cross + 1)),
            ) {
                (Some(x), Some(y), Some(w), Some(h)) => Some((x, y, w, h)),
                _ => None,
            }
        }
    }
}

/// The message for grid notation that cannot be read.
pub open spec fn grid_msg(raw: Seq<char>, line: int) -> Seq<char> {
    at_line("Invalid grid notation '"@ + raw + "'"@, line, "; expected x,y.WxH"@)
}

fn parse_grid(raw: &str, line: usize) -> (r: Result<(u8, u8, u8, u8), EngineError>)
    ensures
        match grid_of(raw@) {
            Some(g) => r == Ok::<(u8, u8, u8, u8), EngineError>(g),
            None => r matches Err(e) && validation_message(e) == Some(grid_msg(raw@, line as int)),
        },
{
    let c = chars_of(raw);
    let mut m = owned("Invalid grid notation '");
    m.append(raw);
    m.append("'");
    let dot = match find_char(&c, '.') {
        Some(d) => d,
        None => {
            return Err(validation(at_line_message(m.as_str(), line, "; expected x,y.WxH")));
        },
    };
    let origin = slice_chars(&c, 0, dot);
    let size = slice_chars(&c, dot + 1, c.len());
    assert(origin@ =~= c@.take(dot as int));
    assert(size@ =~= c@.skip(dot + 1));
    let comma = find_char(&origin, ',');
    let cross = find_char(&size, 'x');
    match (comma, cross) {
        (Some(k), Some(q)) => {
            let xs = slice_chars(&origin, 0, k);
            let ys = slice_chars(&origin, k + 1, origin.len());
            let ws = slice_chars(&size, 0, q);
            let hs = slice_chars(&size, q + 1, size.len());
            assert(xs@ =~= origin@.take(k as int));
            assert(ys@ =~= origin@.skip(k + 1));
            assert(ws@ =~= size@.take(q as int));
            assert(hs@ =~= size@.skip(q + 1));
            match (parse_small(&xs), parse_small(&ys), parse_small(&ws), parse_small(&hs)) {
                (Some(x), Some(y), Some(w), Some(h)) => Ok((x, y, w, h)),
                _ => Err(validation(at_line_message(m.as_str(), line, "; expected x,y.WxH"))),
            }
        },
        _ => Err(validation(at_line_message(m.as_str(), line, "; expected x,y.WxH"))),
    }
}

/// The column of the last header whose trimmed, lower-cased name is
/// `name`.
pub open spec fn header_index(keys: Seq<Seq<char>>, name: Seq<char>) -> Option<int>
    decreases keys.len(),
{
    if keys.len() == 0 {
        None
    } else if keys.last() == name {
        Some(keys.len() - 1)
    } else {
        header_index(keys.drop_last(), name)
    }
}

pub(crate) fn column(keys: &Vec<Vec<char>>, name: &str) -> (r: Option<usize>)
    ensures
        match r {
            Some(i) => header_index(keys@.map_values(|k: Vec<char>| k@), name@) == Some(i as int),
            None => header_index(keys@.map_values(|k: Vec<char>| k@), name@) is None,
        },
{
    let ghost kv = keys@.map_values(|k: Vec<char>| k@);
    let n = chars_of(name);
    let mut i = keys.len();
    assert(kv.take(i as int) =~= kv);
    while i > 0
        invariant
            i <= keys@.len(),
            kv == keys@.map_values(|k: Vec<char>| k@),
            n@ == name@,
            header_index(kv, name@) == header_index(kv.take(i as int), name@),
        decreases i,
    {
        assert(kv.take(i as int).drop_last() =~= kv.take(i - 1));
        if chars_eq(&keys[i - 1], &n) {
            return Some(i - 1);
        }
        i -= 1;
    }
    None
}

/// The field of a record at a column, where the column exists and the
/// record reaches it.
pub open spec fn cell(rec: Seq<Seq<char>>, idx: Option<int>) -> Option<Seq<char>> {
    match idx {
        Some(i) => if 0 <= i < rec.len() {
            Some(rec[i])
        } else {
            None
        },
        None => None,
    }
}

/// The trimmed, non-blank field at a column.
pub open spec fn filled(rec: Seq<Seq<char>>, idx: Option<int>) -> Option<Seq<char>> {
    match cell(rec, idx) {
        Some(v) => non_blank(v),
        None => None,
    }
}

pub(crate) fn get_cell(rec: &Vec<String>, idx: Option<usize>) -> (r: Option<String>)
    ensures
        opt_chars(r) == cell(record_view(*rec), match idx {
            Some(i) => Some(i as int),
            None => None,
        }),
{
    match idx {
        Some(i) => if i < rec.len() {
            Some(rec[i].clone())
        } else {
            None
        },
        None => None,
    }
}

pub(crate) fn get_filled(rec: &Vec<String>, idx: Option<usize>) -> (r: Option<String>)
    ensures
        opt_chars(r) == filled(record_view(*rec), match idx {
            Some(i) => Some(i as int),
            None => None,
        }),
{
    match get_cell(rec, idx) {
        Some(v) => non_blank_string(v.as_str()),
        None => None,
    }
}

/// Where each column of the zones file is.
struct ZoneColumns {
    pub id: usize,
    pub name: usize,
    pub color: usize,
    pub grid: usize,
    pub token_pools: Option<usize>,
    pub scope: Option<usize>,
    pub parent_zone: Option<usize>,
    pub width: Option<usize>,
    pub height: Option<usize>,
}

/// A column as an optional position.
pub open spec fn at(i: Option<usize>) -> Option<int> {
    match i {
        Some(j) => Some(j as int),
        None => None,
    }
}

/// The message for a required column that is missing.
pub open spec fn missing_column_msg(name: Seq<char>) -> Seq<char> {
    "Missing required '"@ + name + "' column in zones CSV"@
}

/// The columns a header names, or the message for the first required
/// column it lacks.
pub open spec fn columns_of(keys: Seq<Seq<char>>) -> Result<(), Seq<char>> {
    if header_index(keys, "id"@) is None {
        Err(missing_column_msg("id"@))
    } else if header_index(keys, "name"@) is None {
        Err(missing_column_msg("name"@))
    } else if header_index(keys, "color"@) is None {
        Err(missing_column_msg("color"@))
    } else if header_index(keys, "grid"@) is None {
        Err(missing_column_msg("grid"@))
    } else {
        Ok(())
    }
}

/// The positions of the columns, where `columns_of` finds them all.
spec fn columns_at(keys: Seq<Seq<char>>, c: ZoneColumns) -> bool {
    &&& c.id as int == header_index(keys, "id"@)->0
    &&& c.name as int == header_index(keys, "name"@)->0
    &&& c.color as int == header_index(keys, "color"@)->0
    &&& c.grid as int == header_index(keys, "grid"@)->0
    &&& at(c.token_pools) == header_index(keys, "token_pools"@)
    &&& at(c.scope) == header_index(keys, "scope"@)
    &&& at(c.parent_zone) == header_index(keys, "parent_zone"@)
    &&& at(c.width) == header_index(keys, "width"@)
    &&& at(c.height) == header_index(keys, "height"@)
}

/// The message for a required field that is missing or blank.
pub open spec fn missing_field_msg(name: Seq<char>, line: int) -> Seq<char> {
    at_line("Missing required '"@ + name + "'"@, line, Seq::empty())
}

/// A required field of a record, trimmed.
pub open spec fn required_cell(rec: Seq<Seq<char>>, idx: Option<int>, name: Seq<char>, line: int) -> Result<Seq<char>, Seq<char>> {
    match filled(rec, idx) {
        Some(v) => Ok(v),
        None => Err(missing_field_msg(name, line)),
    }
}

/// An optional size field of a record: blank is none, otherwise a number
/// from 0 to 255.
pub open spec fn optional_size(rec: Seq<Seq<char>>, idx: Option<int>, name: Seq<char>, line: int) -> Result<Option<u8>, Seq<char>> {
    match filled(rec, idx) {
        None => Ok(None),
        Some(v) => match parse_unsigned(v, 255) {
            Some(n) => Ok(Some(n as u8)),
            None => Err(at_line("Invalid "@ + name + " '"@ + v + "'"@, line, "; expected 0-255"@)),
        },
    }
}

/// The pools of a `;`-separated inline list.
pub open spec fn pool_list(raw: Seq<char>) -> Result<Seq<PoolShape>, Seq<char>> {
    inline_pool_list(kept_pieces(split(raw, ';')))
}

/// The size taken from its own column where given, else from the grid.
pub open spec fn size_or(given: Option<u8>, grid: u8) -> u8 {
    match given {
        Some(n) => n,
        None => grid,
    }
}

/// The zone a record describes, on the given line: `id`, `name`, `color`
/// and `grid` are required; the scope defaults to `player`; an explicit
/// width or height replaces the grid's, and neither may be zero; a blank
/// parent is none; token pools use the inline syntax.
pub open spec fn zone_row(keys: Seq<Seq<char>>, rec: Seq<Seq<char>>, line: int) -> Result<ZoneRow, Seq<char>> {
    match required_cell(rec, header_index(keys, "id"@), "id"@, line) {
        Err(m) => Err(m),
        Ok(id) => match required_cell(rec, header_index(keys, "name"@), "name"@, line) {
            Err(m) => Err(m),
            Ok(name) => match required_cell(rec, header_index(keys, "color"@), "color"@, line) {
                Err(m) => Err(m),
                Ok(color) => match required_cell(rec, header_index(keys, "grid"@), "grid"@, line) {
                    Err(m) => Err(m),
                    Ok(grid) => match scope_of(
                        match cell(rec, header_index(keys, "scope"@)) {
                            Some(v) => v,
                            None => "player"@,
                        },
                        line,
                    ) {
                        Err(m) => Err(m),
                        Ok(scope) => match grid_of(grid) {
                            None => Err(grid_msg(grid, line)),
                            Some((x, y, gw, gh)) => match optional_size(rec, header_index(keys, "width"@), "width"@, line) {
                                Err(m) => Err(m),
                                Ok(w) => match optional_size(rec, header_index(keys, "height"@), "height"@, line) {
                                    Err(m) => Err(m),
                                    Ok(h) => if size_or(w, gw) == 0 || size_or(h, gh) == 0 {
                                        Err(at_line("Zone width and height must be greater than zero"@, line, Seq::empty()))
                                    } else {
                                        let pools = match filled(rec, header_index(keys, "token_pools"@)) {
                                            Some(v) => match pool_list(v) {
                                                Err(m) => Err(at_line("Invalid token_pools value"@, line, ": "@ + m)),
                                                Ok(ps) => Ok(ps),
                                            },
                                            None => Ok(Seq::empty()),
                                        };
                                        match pools {
                                            Err(m) => Err(m),
                                            Ok(ps) => Ok(ZoneRow {
                                                id,
                                                name,
                                                color,
                                                scope,
                                                parent_zone: filled(rec, header_index(keys, "parent_zone"@)),
                                                x,
                                                y,
                                                width: size_or(w, gw),
                                                height: size_or(h, gh),
                                                token_pools: ps,
                                            }),
                                        }
                                    },
                                },
                            },
                        },
                    },
                },
            },
        },
    }
}

fn required_field(rec: &Vec<String>, idx: usize, name: &str, line: usize, ghost_idx: Ghost<Option<int>>) -> (r: Result<String, EngineError>)
    requires
        ghost_idx@ == Some(idx as int),
    ensures
        match required_cell(record_view(*rec), ghost_idx@, name@, line as int) {
            Ok(v) => r matches Ok(s) && s@ == v,
            Err(m) => r matches Err(e) && validation_message(e) == Some(m),
        },
{
    match get_filled(rec, Some(idx)) {
        Some(v) => Ok(v),
        None => {
            let mut m = owned("Missing required '");
            m.append(name);
            m.append("'");
            proof { reveal_strlit(""); }
            Err(validation(at_line_message(m.as_str(), line, "")))
        },
    }
}

fn size_field(rec: &Vec<String>, idx: Option<usize>, name: &str, line: usize) -> (r: Result<Option<u8>, EngineError>)
    ensures
        match optional_size(record_view(*rec), at(idx), name@, line as int) {
            Ok(n) => r == Ok::<Option<u8>, EngineError>(n),
            Err(m) => r matches Err(e) && validation_message(e) == Some(m),
        },
{
    match get_filled(rec, idx) {
        None => Ok(None),
        Some(v) => {
            let c = chars_of(v.as_str());
            match parse_bounded(&c, 255) {
                Some(n) => Ok(Some(n as u8)),
                None => {
                    let mut m = owned("Invalid ");
                    m.append(name);
                    m.append(" '");
                    m.append(v.as_str());
                    m.append("'");
                    Err(validation(at_line_message(m.as_str(), line, "; expected 0-255")))
                },
            }
        },
    }
}

fn zone_from_record(keys: Ghost<Seq<Seq<char>>>, c: &ZoneColumns, rec: &Vec<String>, line: usize) -> (r: Result<ZoneLayout, EngineError>)
    requires
        columns_of(keys@) is Ok,
        columns_at(keys@, *c),
    ensures
        match zone_row(keys@, record_view(*rec), line as int) {
            Ok(z) => r matches Ok(x) && zone_view(x) == z,
            Err(m) => r matches Err(e) && validation_message(e) == Some(m),
        },
{
    let id = required_field(rec, c.id, "id", line, Ghost(header_index(keys@, "id"@)))?;
    let name = required_field(rec, c.name, "name", line, Ghost(header_index(keys@, "name"@)))?;
    let color = required_field(rec, c.color, "color", line, Ghost(header_index(keys@, "color"@)))?;
    let grid = required_field(rec, c.grid, "grid", line, Ghost(header_index(keys@, "grid"@)))?;
    let raw_scope = match get_cell(rec, c.scope) {
        Some(v) => v,
        None => owned("player"),
    };
    let scope = parse_scope(raw_scope.as_str(), line)?;
    let (x, y, gw, gh) = parse_grid(grid.as_str(), line)?;
    let w = size_field(rec, c.width, "width", line)?;
    let h = size_field(rec, c.height, "height", line)?;
    let width = match w {
        Some(n) => n,
        None => gw,
    };
    let height = match h {
        Some(n) => n,
        None => gh,
    };
    if width == 0 || height == 0 {
        proof { reveal_strlit(""); }
        return Err(validation(at_line_message("Zone width and height must be greater than zero", line, "")));
    }
    let parent_zone = get_filled(rec, c.parent_zone);
    let token_pools = match get_filled(rec, c.token_pools) {
        Some(v) => match TokenPool::parse_list(v.as_str()) {
            Ok(ps) => ps,
            Err(m) => {
                let mut suffix = owned(": ");
                suffix.append(m.as_str());
                return Err(validation(at_line_message("Invalid token_pools value", line, suffix.as_str())));
            },
        },
        None => {
            let ps: Vec<TokenPool> = Vec::new();
            assert(pools_view(ps@) =~= Seq::<PoolShape>::empty());
            ps
        },
    };
    Ok(ZoneLayout { id, name, color, scope, parent_zone, x, y, width, height, token_pools })
}

/// The zones of the records read, each on its line (its position plus
/// two), in order; a record the reader failed on is a CSV error (`None`),
/// and the first error stops the reading.
pub open spec fn zone_rows(keys: Seq<Seq<char>>, recs: Seq<Option<Seq<Seq<char>>>>) -> Result<Seq<ZoneRow>, Option<Seq<char>>>
    decreases recs.len(),
{
    if recs.len() == 0 {
        Ok(Seq::empty())
    } else {
        match zone_rows(keys, recs.drop_last()) {
            Err(e) => Err(e),
            Ok(zs) => match recs.last() {
                None => Err(None),
                Some(rec) => match zone_row(keys, rec, recs.len() + 1int) {
                    Err(m) => Err(Some(m)),
                    Ok(z) => Ok(zs.push(z)),
                },
            },
        }
    }
}

pub proof fn lemma_zone_rows_prefix(keys: Seq<Seq<char>>, recs: Seq<Option<Seq<Seq<char>>>>, n: int)
    requires
        0 <= n <= recs.len(),
        zone_rows(keys, recs.take(n)) is Err,
    ensures
        zone_rows(keys, recs) == zone_rows(keys, recs.take(n)),
    decreases recs.len(),
{
    if n < recs.len() {
        assert(recs.drop_last().take(n) =~= recs.take(n));
        lemma_zone_rows_prefix(keys, recs.drop_last(), n);
    } else {
        assert(recs.take(n) =~= recs);
    }
}

/// The ids of zones.
pub open spec fn zone_ids(zs: Seq<ZoneRow>) -> Seq<Seq<char>> {
    zs.map_values(|z: ZoneRow| z.id)
}

/// The message for a zone whose parent is itself or not a zone.
pub open spec fn parent_msg(id: Seq<char>, parent: Seq<char>) -> Seq<char> {
    "Zone '"@ + id + "' has invalid parent_zone '"@ + parent + "'"@
}

/// The first zone, in order, whose parent is itself or not among `ids`.
pub open spec fn parent_problem(zs: Seq<ZoneRow>, ids: Seq<Seq<char>>) -> Option<Seq<char>>
    decreases zs.len(),
{
    if zs.len() == 0 {
        None
    } else {
        match zs[0].parent_zone {
            Some(p) => if p == zs[0].id || !ids.contains(p) {
                Some(parent_msg(zs[0].id, p))
            } else {
                parent_problem(zs.drop_first(), ids)
            },
            None => parent_problem(zs.drop_first(), ids),
        }
    }
}

/// The zones of a CSV read: the header must name the required columns,
/// every record must be read and describe a zone, and each parent must be
/// another zone of the file. An error is `None` for a CSV error and the
/// validation message otherwise.
pub open spec fn zones_from(t: (Option<Seq<Seq<char>>>, Seq<Option<Seq<Seq<char>>>>)) -> Result<Seq<ZoneRow>, Option<Seq<char>>> {
    match t.0 {
        None => Err(None),
        Some(h) => {
            let keys = header_keys(h);
            match columns_of(keys) {
                Err(m) => Err(Some(m)),
                Ok(_) => match zone_rows(keys, t.1) {
                    Err(e) => Err(e),
                    Ok(zs) => match parent_problem(zs, zone_ids(zs)) {
                        Some(m) => Err(Some(m)),
                        None => Ok(zs),
                    },
                },
            }
        },
    }
}

fn find_columns(keys: &Vec<Vec<char>>) -> (r: Result<ZoneColumns, EngineError>)
    ensures
        match columns_of(keys@.map_values(|k: Vec<char>| k@)) {
            Err(m) => r matches Err(e) && validation_message(e) == Some(m),
            Ok(_) => r matches Ok(c) && columns_at(keys@.map_values(|k: Vec<char>| k@), c),
        },
{
    let id = match column(keys, "id") {
        Some(i) => i,
        None => {
            return Err(validation(concat3("Missing required '", "id", "' column in zones CSV")));
        },
    };
    let name = match column(keys, "name") {
        Some(i) => i,
        None => {
            return Err(validation(concat3("Missing required '", "name", "' column in zones CSV")));
        },
    };
    let color = match column(keys, "color") {
        Some(i) => i,
        None => {
            return Err(validation(concat3("Missing required '", "color", "' column in zones CSV")));
        },
    };
    let grid = match column(keys, "grid") {
        Some(i) => i,
        None => {
            return Err(validation(concat3("Missing required '", "grid", "' column in zones CSV")));
        },
    };
    Ok(ZoneColumns {
        id,
        name,
        color,
        grid,
        token_pools: column(keys, "token_pools"),
        scope: column(keys, "scope"),
        parent_zone: column(keys, "parent_zone"),
        width: column(keys, "width"),
        height: column(keys, "height"),
    })
}

fn check_parents(zones: &Vec<ZoneLayout>) -> (r: Result<(), EngineError>)
    ensures
        match parent_problem(zones@.map_values(|z: ZoneLayout| zone_view(z)), zone_ids(zones@.map_values(|z: ZoneLayout| zone_view(z)))) {
            Some(m) => r matches Err(e) && validation_message(e) == Some(m),
            None => r is Ok,
        },
{
    let ghost zs = zones@.map_values(|z: ZoneLayout| zone_view(z));
    let ghost ids = zone_ids(zs);
    let mut i: usize = 0;
    assert(zs.skip(0) =~= zs);
    while i < zones.len()
        invariant
            i <= zones@.len(),
            zs == zones@.map_values(|z: ZoneLayout| zone_view(z)),
            ids == zone_ids(zs),
            parent_problem(zs, ids) == parent_problem(zs.skip(i as int), ids),
        decreases zones.len() - i,
    {
        assert(zs.skip(i as int).drop_first() =~= zs.skip(i + 1));
        assert(zs.skip(i as int)[0] == zone_view(zones@[i as int]));
        if let Some(parent) = &zones[i].parent_zone {
            let mut known = false;
            let mut k: usize = 0;
            while k < zones.len()
                invariant
                    k <= zones@.len(),
                    zs == zones@.map_values(|z: ZoneLayout| zone_view(z)),
                    ids == zone_ids(zs),
                    known <==> exists|q: int| 0 <= q < k && #[trigger] ids[q] == parent@,
                decreases zones.len() - k,
            {
                if str_is(zones[k].id.as_str(), parent.as_str()) {
                    assert(ids[k as int] == parent@);
                    known = true;
                }
                k += 1;
            }
            assert(known <==> ids.contains(parent@)) by {
                if ids.contains(parent@) {
                    let q = ids.index_of(parent@);
                    assert(ids[q] == parent@);
                }
            }
            if str_is(parent.as_str(), zones[i].id.as_str()) || !known {
                let mut m = owned("Zone '");
                m.append(zones[i].id.as_str());
                m.append("' has invalid parent_zone '");
                m.append(parent.as_str());
                m.append("'");
                return Err(validation(m));
            }
        }
        i += 1;
    }
    Ok(())
}

/// The views of the records read.
pub open spec fn reads_view(rows: Seq<Result<Vec<String>, csv::Error>>) -> Seq<Option<Seq<Seq<char>>>> {
    rows.map_values(|r: Result<Vec<String>, csv::Error>| crate::csv_text::read_view(r))
}

fn zones_of_records(kv: Ghost<Seq<Seq<char>>>, cols: &ZoneColumns, rows: &Vec<Result<Vec<String>, csv::Error>>) -> (r: Result<Vec<ZoneLayout>, Result<usize, EngineError>>)
    requires
        rows@.len() + 2 <= usize::MAX,
        columns_of(kv@) is Ok,
        columns_at(kv@, *cols),
    ensures
        match zone_rows(kv@, reads_view(rows@)) {
            Ok(zs) => r matches Ok(v) && v@.map_values(|z: ZoneLayout| zone_view(z)) == zs,
            Err(None) => r matches Err(Ok(i)) && i < rows@.len() && rows@[i as int] is Err,
            Err(Some(m)) => r matches Err(Err(e)) && validation_message(e) == Some(m),
        },
{
    let ghost recs = reads_view(rows@);
    let mut zones: Vec<ZoneLayout> = Vec::new();
    let mut i: usize = 0;
    assert(recs.take(0) =~= Seq::<Option<Seq<Seq<char>>>>::empty());
    assert(zones@.map_values(|z: ZoneLayout| zone_view(z)) =~= Seq::<ZoneRow>::empty());
    while i < rows.len()
        invariant
            i <= rows@.len(),
            rows@.len() + 2 <= usize::MAX,
            recs == reads_view(rows@),
            columns_of(kv@) is Ok,
            columns_at(kv@, *cols),
            zone_rows(kv@, recs.take(i as int)) == Ok::<Seq<ZoneRow>, Option<Seq<char>>>(zones@.map_values(|z: ZoneLayout| zone_view(z))),
        decreases rows.len() - i,
    {
        assert(recs.take(i + 1).drop_last() =~= recs.take(i as int));
        assert(recs.take(i + 1).last() == recs[i as int]);
        match &rows[i] {
            Err(_) => {
                assert(recs[i as int] is None);
                proof { lemma_zone_rows_prefix(kv@, recs, i + 1); }
                assert(recs.take(recs.len() as int) =~= recs);
                return Err(Ok(i));
            },
            Ok(rec) => {
                assert(recs[i as int] == Some(record_view(*rec)));
                match zone_from_record(kv, cols, rec, i + 2) {
                    Ok(z) => {
                        let ghost before = zones@;
                        zones.push(z);
                        assert(zones@.map_values(|z: ZoneLayout| zone_view(z)) =~= before.map_values(|z: ZoneLayout| zone_view(z)).push(zone_view(z)));
                    },
                    Err(e) => {
                        proof { lemma_zone_rows_prefix(kv@, recs, i + 1); }
                        assert(recs.take(recs.len() as int) =~= recs);
                        return Err(Err(e));
                    },
                }
            },
        }
        i += 1;
    }
    assert(recs.take(rows.len() as int) =~= recs);
    Ok(zones)
}

/// The zones of a CSV read, as `zones_from` states; see `parse_zones_csv`.
pub fn zones_from_table(t: CsvTable) -> (r: Result<Vec<ZoneLayout>, EngineError>)
    requires
        t.rows@.len() + 2 <= usize::MAX,
    ensures
        match zones_from(table_view(t)) {
            Ok(zs) => r matches Ok(v) && v@.map_values(|z: ZoneLayout| zone_view(z)) == zs,
            Err(e) => r matches Err(x) && validation_message(x) == e,
        },
{
    let ghost tv = table_view(t);
    let CsvTable { headers, rows } = t;
    let h = match headers {
        Ok(h) => h,
        Err(e) => {
            return Err(EngineError::Csv(e));
        },
    };
    let ghost hv = record_view(h);
    let mut keys: Vec<Vec<char>> = Vec::new();
    let mut j: usize = 0;
    while j < h.len()
        invariant
            j <= h@.len(),
            hv == record_view(h),
            keys@.len() == j,
            forall|q: int| 0 <= q < j ==> #[trigger] keys@[q]@ == header_keys(hv)[q],
        decreases h.len() - j,
    {
        let c = chars_of(h[j].as_str());
        keys.push(ascii_lower_chars(&trim_chars(&c)));
        j += 1;
    }
    let ghost kv = keys@.map_values(|k: Vec<char>| k@);
    assert(kv =~= header_keys(hv));
    let cols = find_columns(&keys)?;
    let mut rows = rows;
    let zones = match zones_of_records(Ghost(kv), &cols, &rows) {
        Ok(zs) => zs,
        Err(Err(e)) => {
            return Err(e);
        },
        Err(Ok(i)) => {
            let failed = rows.remove(i);
            return match failed {
                Err(e) => Err(EngineError::Csv(e)),
                Ok(_) => vstd::pervasive::unreached(),
            };
        },
    };
    check_parents(&zones)?;
    Ok(zones)
}

/// Parses the zones CSV. The `grid` column uses the notation `x,y.WxH`,
/// e.g. `0,0.8x4` means origin (0,0), width 8, height 4. A read with more
/// records than line numbers fit in a `usize` is refused.
pub fn parse_zones_csv(raw: &str) -> (r: Result<Vec<ZoneLayout>, EngineError>)
    ensures
        csv_read(raw@, false).1.len() + 2 > usize::MAX ==> (r matches Err(e) && validation_message(e) == Some("too many CSV records"@)),
        csv_read(raw@, false).1.len() + 2 <= usize::MAX ==> match zones_from(csv_read(raw@, false)) {
            Ok(zs) => r matches Ok(v) && v@.map_values(|z: ZoneLayout| zone_view(z)) == zs,
            Err(e) => r matches Err(x) && validation_message(x) == e,
        },
{
    let t = read_csv(raw, false);
    if t.rows.len() > usize::MAX - 2 {
        return Err(validation(owned("too many CSV records")));
    }
    zones_from_table(t)
}

} // verus!
