//! Cards of a running game read from CSV text: the required `id`, `name`
//! and `card_type` (or `type`) columns, and the optional play data, flags
//! and inline token pools.
use vstd::prelude::*;
use vstd::string::*;

use crate::card::Card;
use crate::cards::{header_keys, visual_view, CardVisual, VisualRow};
use crate::csv_text::{csv_read, read_csv, read_view, record_view, table_view, CsvTable};
use crate::engine::{validation_message, EngineError};
use crate::fields::{is_truthy, parse_bool};
use crate::text::{
    ascii_lower, ascii_lower_chars, chars_of, concat3, decimal, opt_chars, owned, push_decimal,
    string_of, trim, trim_chars,
};
use crate::token_pools::{pools_view, PoolShape, TokenPool};
use crate::zone_layout::{column, filled, get_filled, header_index, pool_list};
use crate::zones::validation;

verus! {

/// What a card CSV row gives a card.
pub struct CardData {
    pub id: Seq<char>,
    pub name: Seq<char>,
    pub card_type_id: Seq<char>,
    pub image: Option<Seq<char>>,
    pub background_image: Option<Seq<char>>,
    pub background_color: Option<Seq<char>>,
    pub back_image: Option<Seq<char>>,
    pub mana: Option<Seq<char>>,
    pub colors: Option<Seq<char>>,
    pub oracle_text: Option<Seq<char>>,
    pub power: Option<Seq<char>>,
    pub toughness: Option<Seq<char>>,
    pub is_commander: bool,
    pub is_partner: bool,
    pub token_pools: Seq<PoolShape>,
    pub starting_pile: Option<Seq<char>>,
}

/// The card holds the data of a row, and defaults for what the file does
/// not give: no game, description, cost, icon or back logo.
pub open spec fn loaded_as(c: Card, d: CardData) -> bool {
    &&& c.id@ == d.id
    &&& c.game_id@.len() == 0
    &&& c.name@ == d.name
    &&& c.card_type_id@ == d.card_type_id
    &&& c.description is None
    &&& c.cost is None
    &&& visual_view(c.visual) == (VisualRow::Generated {
        image: d.image,
        background_image: d.background_image,
        background_color: d.background_color,
        icon: None,
    })
    &&& c.back_logo is None
    &&& opt_chars(c.back_image) == d.back_image
    &&& opt_chars(c.mana) == d.mana
    &&& opt_chars(c.colors) == d.colors
    &&& opt_chars(c.oracle_text) == d.oracle_text
    &&& opt_chars(c.power) == d.power
    &&& opt_chars(c.toughness) == d.toughness
    &&& c.is_commander == d.is_commander
    &&& c.is_partner == d.is_partner
    &&& pools_view(c.token_pools@) == d.token_pools
    &&& opt_chars(c.starting_pile) == d.starting_pile
}

/// The cards hold the data of the rows, in order.
pub open spec fn all_loaded_as(cs: Seq<Card>, ds: Seq<CardData>) -> bool {
    cs.len() == ds.len() && forall|i: int| 0 <= i < cs.len() ==> loaded_as(#[trigger] cs[i], ds[i])
}

/// Spaces become hyphens (`str::replace(' ', "-")`).
pub open spec fn hyphen_spaces(s: Seq<char>) -> Seq<char> {
    s.map_values(|c: char| if c == ' ' { '-' } else { c })
}

/// The message for a required header that is missing.
pub open spec fn missing_header_msg(name: Seq<char>) -> Seq<char> {
    "Missing required '"@ + name + "' CSV header"@
}

/// The columns of a card file: `id`, `name`, and `card_type` or else `type`.
pub open spec fn card_header(keys: Seq<Seq<char>>) -> Result<(int, int, int), Seq<char>> {
    match header_index(keys, "id"@) {
        None => Err(missing_header_msg("id"@)),
        Some(i) => match header_index(keys, "name"@) {
            None => Err(missing_header_msg("name"@)),
            Some(n) => match header_index(keys, "card_type"@) {
                Some(t) => Ok((i, n, t)),
                None => match header_index(keys, "type"@) {
                    Some(t) => Ok((i, n, t)),
                    None => Err(missing_header_msg("card_type"@)),
                },
            },
        },
    }
}

/// A message about a line of the card file: `{prefix} at CSV line
/// {line}{suffix}`.
pub open spec fn csv_line_msg(prefix: Seq<char>, line: int, suffix: Seq<char>) -> Seq<char> {
    prefix + " at CSV line "@ + decimal(line as nat) + suffix
}

fn csv_line_message(prefix: &str, line: usize, suffix: &str) -> (r: String)
    ensures
        r@ == csv_line_msg(prefix@, line as int, suffix@),
{
    let mut m = owned(prefix);
    m.append(" at CSV line ");
    push_decimal(&mut m, line);
    m.append(suffix);
    m
}

/// A required value of a card row, trimmed.
pub open spec fn card_value(rec: Seq<Seq<char>>, idx: int, name: Seq<char>, line: int) -> Result<Seq<char>, Seq<char>> {
    match filled(rec, Some(idx)) {
        Some(v) => Ok(v),
        None => Err(csv_line_msg("Missing required value for '"@ + name + "'"@, line, Seq::empty())),
    }
}

/// A flag of a card row: truthy when given, false otherwise.
pub open spec fn flag(rec: Seq<Seq<char>>, idx: Option<int>) -> bool {
    match filled(rec, idx) {
        Some(v) => is_truthy(v),
        None => false,
    }
}

/// The data of a card row on the given line, given the columns of the
/// required values.
pub open spec fn card_data(keys: Seq<Seq<char>>, cols: (int, int, int), rec: Seq<Seq<char>>, line: int) -> Result<CardData, Seq<char>> {
    match card_value(rec, cols.0, "id"@, line) {
        Err(m) => Err(m),
        Ok(id) => match card_value(rec, cols.1, "name"@, line) {
            Err(m) => Err(m),
            Ok(name) => match card_value(rec, cols.2, "card_type"@, line) {
                Err(m) => Err(m),
                Ok(card_type) => {
                    let pools = match filled(rec, header_index(keys, "token_pools"@)) {
                        Some(v) => match pool_list(v) {
                            Err(m) => Err(csv_line_msg("Invalid token_pools value"@, line, ": "@ + m)),
                            Ok(ps) => Ok(ps),
                        },
                        None => Ok(Seq::empty()),
                    };
                    match pools {
                        Err(m) => Err(m),
                        Ok(ps) => Ok(CardData {
                            id,
                            name,
                            card_type_id: hyphen_spaces(ascii_lower(trim(card_type))),
                            image: filled(rec, header_index(keys, "image"@)),
                            background_image: filled(rec, header_index(keys, "background_image"@)),
                            background_color: filled(rec, header_index(keys, "background_color"@)),
                            back_image: filled(rec, header_index(keys, "back_image"@)),
                            mana: filled(rec, header_index(keys, "mana"@)),
                            colors: filled(rec, header_index(keys, "colors"@)),
                            oracle_text: filled(rec, header_index(keys, "oracle_text"@)),
                            power: filled(rec, header_index(keys, "power"@)),
                            toughness: filled(rec, header_index(keys, "toughness"@)),
                            is_commander: flag(rec, header_index(keys, "is_commander"@)),
                            is_partner: flag(rec, header_index(keys, "is_partner"@)),
                            token_pools: ps,
                            starting_pile: filled(rec, header_index(keys, "starting_pile"@)),
                        }),
                    }
                },
            },
        },
    }
}

/// The card data of the records read, each on its line (its position plus
/// two), in order; a record the reader failed on is a CSV error (`None`).
pub open spec fn card_rows(keys: Seq<Seq<char>>, cols: (int, int, int), recs: Seq<Option<Seq<Seq<char>>>>) -> Result<Seq<CardData>, Option<Seq<char>>>
    decreases recs.len(),
{
    if recs.len() == 0 {
        Ok(Seq::empty())
    } else {
        match card_rows(keys, cols, recs.drop_last()) {
            Err(e) => Err(e),
            Ok(ds) => match recs.last() {
                None => Err(None),
                Some(rec) => match card_data(keys, cols, rec, recs.len() + 1int) {
                    Err(m) => Err(Some(m)),
                    Ok(d) => Ok(ds.push(d)),
                },
            },
        }
    }
}

pub proof fn lemma_card_rows_prefix(keys: Seq<Seq<char>>, cols: (int, int, int), recs: Seq<Option<Seq<Seq<char>>>>, n: int)
    requires
        0 <= n <= recs.len(),
        card_rows(keys, cols, recs.take(n)) is Err,
    ensures
        card_rows(keys, cols, recs) == card_rows(keys, cols, recs.take(n)),
    decreases recs.len(),
{
    if n < recs.len() {
        assert(recs.drop_last().take(n) =~= recs.take(n));
        lemma_card_rows_prefix(keys, cols, recs.drop_last(), n);
    } else {
        assert(recs.take(n) =~= recs);
    }
}

/// The card data of a CSV read. An error is `None` for a CSV error and the
/// validation message otherwise.
pub open spec fn cards_of_read(t: (Option<Seq<Seq<char>>>, Seq<Option<Seq<Seq<char>>>>)) -> Result<Seq<CardData>, Option<Seq<char>>> {
    match t.0 {
        None => Err(None),
        Some(h) => match card_header(header_keys(h)) {
            Err(m) => Err(Some(m)),
            Ok(cols) => card_rows(header_keys(h), cols, t.1),
        },
    }
}

struct CardColumns {
    id: usize,
    name: usize,
    card_type: usize,
    image: Option<usize>,
    background_image: Option<usize>,
    background_color: Option<usize>,
    back_image: Option<usize>,
    mana: Option<usize>,
    colors: Option<usize>,
    oracle_text: Option<usize>,
    power: Option<usize>,
    toughness: Option<usize>,
    is_commander: Option<usize>,
    is_partner: Option<usize>,
    token_pools: Option<usize>,
    starting_pile: Option<usize>,
}

spec fn pos(i: Option<usize>) -> Option<int> {
    match i {
        Some(j) => Some(j as int),
        None => None,
    }
}

spec fn card_columns_at(keys: Seq<Seq<char>>, c: CardColumns) -> bool {
    &&& card_header(keys) == Ok::<(int, int, int), Seq<char>>((c.id as int, c.name as int, c.card_type as int))
    &&& pos(c.image) == header_index(keys, "image"@)
    &&& pos(c.background_image) == header_index(keys, "background_image"@)
    &&& pos(c.background_color) == header_index(keys, "background_color"@)
    &&& pos(c.back_image) == header_index(keys, "back_image"@)
    &&& pos(c.mana) == header_index(keys, "mana"@)
    &&& pos(c.colors) == header_index(keys, "colors"@)
    &&& pos(c.oracle_text) == header_index(keys, "oracle_text"@)
    &&& pos(c.power) == header_index(keys, "power"@)
    &&& pos(c.toughness) == header_index(keys, "toughness"@)
    &&& pos(c.is_commander) == header_index(keys, "is_commander"@)
    &&& pos(c.is_partner) == header_index(keys, "is_partner"@)
    &&& pos(c.token_pools) == header_index(keys, "token_pools"@)
    &&& pos(c.starting_pile) == header_index(keys, "starting_pile"@)
}

fn find_card_columns(keys: &Vec<Vec<char>>) -> (r: Result<CardColumns, EngineError>)
    ensures
        match card_header(keys@.map_values(|k: Vec<char>| k@)) {
            Err(m) => r matches Err(e) && validation_message(e) == Some(m),
            Ok(_) => r matches Ok(c) && card_columns_at(keys@.map_values(|k: Vec<char>| k@), c),
        },
{
    let id = match column(keys, "id") {
        Some(i) => i,
        None => {
            return Err(validation(concat3("Missing required '", "id", "' CSV header")));
        },
    };
    let name = match column(keys, "name") {
        Some(i) => i,
        None => {
            return Err(validation(concat3("Missing required '", "name", "' CSV header")));
        },
    };
    let card_type = match column(keys, "card_type") {
        Some(i) => i,
        None => match column(keys, "type") {
            Some(i) => i,
            None => {
                return Err(validation(concat3("Missing required '", "card_type", "' CSV header")));
            },
        },
    };
    Ok(CardColumns {
        id,
        name,
        card_type,
        image: column(keys, "image"),
        background_image: column(keys, "background_image"),
        background_color: column(keys, "background_color"),
        back_image: column(keys, "back_image"),
        mana: column(keys, "mana"),
        colors: column(keys, "colors"),
        oracle_text: column(keys, "oracle_text"),
        power: column(keys, "power"),
        toughness: column(keys, "toughness"),
        is_commander: column(keys, "is_commander"),
        is_partner: column(keys, "is_partner"),
        token_pools: column(keys, "token_pools"),
        starting_pile: column(keys, "starting_pile"),
    })
}

fn required_card_value(rec: &Vec<String>, idx: usize, name: &str, line: usize) -> (r: Result<String, EngineError>)
    ensures
        match card_value(record_view(*rec), idx as int, name@, line as int) {
            Ok(v) => r matches Ok(s) && s@ == v,
            Err(m) => r matches Err(e) && validation_message(e) == Some(m),
        },
{
    match get_filled(rec, Some(idx)) {
        Some(v) => Ok(v),
        None => {
            proof { reveal_strlit(""); }
            Err(validation(csv_line_message(concat3("Missing required value for '", name, "'").as_str(), line, "")))
        },
    }
}

fn flag_value(rec: &Vec<String>, idx: Option<usize>) -> (r: bool)
    ensures
        r == flag(record_view(*rec), pos(idx)),
{
    match get_filled(rec, idx) {
        Some(v) => parse_bool(v.as_str()),
        None => false,
    }
}

fn card_type_id_of(raw: &str) -> (r: String)
    ensures
        r@ == hyphen_spaces(ascii_lower(trim(raw@))),
{
    let l = ascii_lower_chars(&trim_chars(&chars_of(raw)));
    let mut out: Vec<char> = Vec::new();
    let mut i: usize = 0;
    while i < l.len()
        invariant
            i <= l@.len(),
            out@ =~= hyphen_spaces(l@).take(i as int),
        decreases l.len() - i,
    {
        if l[i] == ' ' {
            out.push('-');
        } else {
            out.push(l[i]);
        }
        i += 1;
    }
    string_of(&out)
}

fn card_from_record(keys: Ghost<Seq<Seq<char>>>, c: &CardColumns, rec: &Vec<String>, line: usize) -> (r: Result<Card, EngineError>)
    requires
        card_columns_at(keys@, *c),
    ensures
        match card_data(keys@, (c.id as int, c.name as int, c.card_type as int), record_view(*rec), line as int) {
            Ok(d) => r matches Ok(x) && loaded_as(x, d),
            Err(m) => r matches Err(e) && validation_message(e) == Some(m),
        },
{
    let id = required_card_value(rec, c.id, "id", line)?;
    let name = required_card_value(rec, c.name, "name", line)?;
    let card_type = required_card_value(rec, c.card_type, "card_type", line)?;
    let token_pools = match get_filled(rec, c.token_pools) {
        Some(v) => match TokenPool::parse_list(v.as_str()) {
            Ok(ps) => ps,
            Err(m) => {
                let mut suffix = owned(": ");
                suffix.append(m.as_str());
                return Err(validation(csv_line_message("Invalid token_pools value", line, suffix.as_str())));
            },
        },
        None => {
            let ps: Vec<TokenPool> = Vec::new();
            assert(pools_view(ps@) =~= Seq::<PoolShape>::empty());
            ps
        },
    };
    let game_id = String::new();
    proof { reveal_strlit(""); }
    Ok(Card {
        id,
        game_id,
        name,
        card_type_id: card_type_id_of(card_type.as_str()),
        description: None,
        cost: None,
        visual: CardVisual::Generated {
            image: get_filled(rec, c.image),
            background_image: get_filled(rec, c.background_image),
            background_color: get_filled(rec, c.background_color),
            icon: None,
        },
        back_logo: None,
        back_image: get_filled(rec, c.back_image),
        mana: get_filled(rec, c.mana),
        colors: get_filled(rec, c.colors),
        oracle_text: get_filled(rec, c.oracle_text),
        power: get_filled(rec, c.power),
        toughness: get_filled(rec, c.toughness),
        is_commander: flag_value(rec, c.is_commander),
        is_partner: flag_value(rec, c.is_partner),
        token_pools,
        starting_pile: get_filled(rec, c.starting_pile),
    })
}

/// The views of the records read.
pub open spec fn card_reads(rows: Seq<Result<Vec<String>, csv::Error>>) -> Seq<Option<Seq<Seq<char>>>> {
    rows.map_values(|r: Result<Vec<String>, csv::Error>| read_view(r))
}

fn cards_of_records(kv: Ghost<Seq<Seq<char>>>, cols: &CardColumns, rows: &Vec<Result<Vec<String>, csv::Error>>) -> (r: Result<Vec<Card>, Result<usize, EngineError>>)
    requires
        rows@.len() + 2 <= usize::MAX,
        card_columns_at(kv@, *cols),
    ensures
        match card_rows(kv@, (cols.id as int, cols.name as int, cols.card_type as int), card_reads(rows@)) {
            Ok(ds) => r matches Ok(v) && all_loaded_as(v@, ds),
            Err(None) => r matches Err(Ok(i)) && i < rows@.len() && rows@[i as int] is Err,
            Err(Some(m)) => r matches Err(Err(e)) && validation_message(e) == Some(m),
        },
{
    let ghost recs = card_reads(rows@);
    let ghost cs = (cols.id as int, cols.name as int, cols.card_type as int);
    let ghost mut ds: Seq<CardData> = Seq::empty();
    let mut cards: Vec<Card> = Vec::new();
    let mut i: usize = 0;
    assert(recs.take(0) =~= Seq::<Option<Seq<Seq<char>>>>::empty());
    while i < rows.len()
        invariant
            i <= rows@.len(),
            rows@.len() + 2 <= usize::MAX,
            recs == card_reads(rows@),
            cs == (cols.id as int, cols.name as int, cols.card_type as int),
            card_columns_at(kv@, *cols),
            card_rows(kv@, cs, recs.take(i as int)) == Ok::<Seq<CardData>, Option<Seq<char>>>(ds),
            all_loaded_as(cards@, ds),
        decreases rows.len() - i,
    {
        assert(recs.take(i + 1).drop_last() =~= recs.take(i as int));
        assert(recs.take(i + 1).last() == recs[i as int]);
        match &rows[i] {
            Err(_) => {
                assert(recs[i as int] is None);
                proof { lemma_card_rows_prefix(kv@, cs, recs, i + 1); }
                assert(recs.take(recs.len() as int) =~= recs);
                return Err(Ok(i));
            },
            Ok(rec) => {
                assert(recs[i as int] == Some(record_view(*rec)));
                match card_from_record(kv, cols, rec, i + 2) {
                    Ok(c) => {
                        proof {
                            ds = ds.push(card_data(kv@, cs, record_view(*rec), i + 2)->Ok_0);
                        }
                        cards.push(c);
                    },
                    Err(e) => {
                        proof { lemma_card_rows_prefix(kv@, cs, recs, i + 1); }
                        assert(recs.take(recs.len() as int) =~= recs);
                        return Err(Err(e));
                    },
                }
            },
        }
        i += 1;
    }
    assert(recs.take(rows.len() as int) =~= recs);
    Ok(cards)
}

/// The cards of a CSV read, as `cards_of_read` states; see
/// `load_cards_from_csv`.
pub fn cards_from_table(t: CsvTable) -> (r: Result<Vec<Card>, EngineError>)
    requires
        t.rows@.len() + 2 <= usize::MAX,
    ensures
        match cards_of_read(table_view(t)) {
            Ok(ds) => r matches Ok(v) && all_loaded_as(v@, ds),
            Err(e) => r matches Err(x) && validation_message(x) == e,
        },
{
    let CsvTable { headers, rows } = t;
    let h = match headers {
        Ok(h) => h,
        Err(e) => {
            return Err(EngineError::Csv(e));
        },
    };
    let ghost hv = record_view(h);
    let mut keys: Vec<Vec<char>> = Vec::new();
    let mut j: usize = 0;
    while j < h.len()
        invariant
            j <= h@.len(),
            hv == record_view(h),
            keys@.len() == j,
            forall|q: int| 0 <= q < j ==> #[trigger] keys@[q]@ == header_keys(hv)[q],
        decreases h.len() - j,
    {
        let c = chars_of(h[j].as_str());
        keys.push(ascii_lower_chars(&trim_chars(&c)));
        j += 1;
    }
    let ghost kv = keys@.map_values(|k: Vec<char>| k@);
    assert(kv =~= header_keys(hv));
    let cols = find_card_columns(&keys)?;
    let mut rows = rows;
    match cards_of_records(Ghost(kv), &cols, &rows) {
        Ok(cs) => Ok(cs),
        Err(Err(e)) => Err(e),
        Err(Ok(i)) => {
            let failed = rows.remove(i);
            match failed {
                Err(e) => Err(EngineError::Csv(e)),
                Ok(_) => vstd::pervasive::unreached(),
            }
        },
    }
}

/// Reads cards from CSV text with a reader that accepts records of any
/// length: `id`, `name` and `card_type` (or `type`) are required; the
/// appearance, play data, `is_commander` and `is_partner` flags,
/// `token_pools` and `starting_pile` are optional. A read with more
/// records than line numbers fit in a `usize` is refused.
pub fn load_cards_from_csv(raw: &str) -> (r: Result<Vec<Card>, EngineError>)
    ensures
        csv_read(raw@, true).1.len() + 2 > usize::MAX ==> (r matches Err(e) && validation_message(e) == Some("too many CSV records"@)),
        csv_read(raw@, true).1.len() + 2 <= usize::MAX ==> match cards_of_read(csv_read(raw@, true)) {
            Ok(ds) => r matches Ok(v) && all_loaded_as(v@, ds),
            Err(e) => r matches Err(x) && validation_message(x) == e,
        },
        r matches Ok(v) ==> csv_read(raw@, true).0 is Some && v@.len() == csv_read(raw@, true).1.len() && forall|i: int|
            0 <= i < v@.len() ==> csv_read(raw@, true).1[i] is Some && {
                let keys = header_keys(csv_read(raw@, true).0->0);
                let rec = csv_read(raw@, true).1[i]->0;
                &&& opt_chars((#[trigger] v@[i]).power) == filled(rec, header_index(keys, "power"@))
                &&& opt_chars(v@[i].toughness) == filled(rec, header_index(keys, "toughness"@))
            },
{
    let t = read_csv(raw, true);
    if t.rows.len() > usize::MAX - 2 {
        return Err(validation(owned("too many CSV records")));
    }
    let r = cards_from_table(t);
    proof {
        let rd = csv_read(raw@, true);
        if r is Ok && cards_of_read(rd) is Ok {
            let v = r->Ok_0;
            let h = rd.0->0;
            let keys = header_keys(h);
            let cols = card_header(keys)->Ok_0;
            crate::record_laws::law_card_rows_take_their_columns(keys, cols, rd.1);
            let ds = card_rows(keys, cols, rd.1)->Ok_0;
            assert forall|i: int| 0 <= i < v@.len() implies rd.1[i] is Some && {
                let rec = rd.1[i]->0;
                &&& opt_chars((#[trigger] v@[i]).power) == filled(rec, header_index(keys, "power"@))
                &&& opt_chars(v@[i].toughness) == filled(rec, header_index(keys, "toughness"@))
            } by {
                crate::record_laws::law_loaded_card_fields(v@[i], ds[i]);
            }
        }
    }
    r
}

} // verus!
