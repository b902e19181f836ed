//! Properties of reading records, resolving card visuals and searching
//! piles, each stated over the fields of the input: which column or key
//! each value comes from, which value wins over which, and which cards a
//! search finds.
use vstd::prelude::*;

use crate::card_csv::{card_header, card_rows, loaded_as, CardData};
use crate::cards::{
    card_types_from, cards_from, or_opt, record_visual, resolved_visual, type_mismatch, visual_view, CardType,
    CardVisual, VisualRow,
};
use crate::fields::{field, lookup, is_truthy};
use crate::text::{ascii_lower, contains_sub, opt_chars, trim};
use crate::token_pools::{
    inline_pair, number_field, owner_named, pool_from_fields, pool_row, shape_from_fields, token_type_rows, with_type_defaults,
    TokenTypeShape,
};
use crate::text::{first_index, non_blank};
use crate::zone_layout::{filled, header_index};
use crate::zones::{card_with, has_card, search_result};

verus! {

/// Of two optional values the first present one is taken: a value that is
/// there is never replaced by the fallback.
pub proof fn law_or_opt_prefers_first(a: Option<Seq<char>>, b: Option<Seq<char>>)
    ensures
        a is Some ==> or_opt(a, b) == a,
        a is None ==> or_opt(a, b) == b,
{
}

/// A card's visual once its type's defaults are applied: a full image stays
/// as it is; a generated layout keeps its own image, and its own background
/// image, background colour and icon where it has them, taking the type's
/// only where it has none.
pub proof fn law_card_visual_keeps_own_values(card: crate::cards::Card, card_type: CardType)
    ensures
        match card.visual {
            CardVisual::FullImage { image } => resolved_visual(card, card_type) == (VisualRow::FullImage { image: image@ }),
            CardVisual::Generated { image, background_image, background_color, icon } => match resolved_visual(card, card_type) {
                VisualRow::Generated { image: ri, background_image: rb, background_color: rc, icon: rn } => {
                    &&& ri == opt_chars(image)
                    &&& match background_image {
                        Some(b) => rb == Some(b@),
                        None => rb == opt_chars(card_type.background_image),
                    }
                    &&& match background_color {
                        Some(c) => rc == Some(c@),
                        None => rc == opt_chars(card_type.background_color),
                    }
                    &&& match icon {
                        Some(n) => rn == Some(n@),
                        None => rn == opt_chars(card_type.icon),
                    }
                },
                VisualRow::FullImage { .. } => false,
            },
        },
{
}

/// A record's visual: a non-blank `full_image` makes a full-image card;
/// otherwise the layout is generated from the `image`, `background_image`,
/// `background_color` and `icon` columns, each non-blank value as it is.
pub proof fn law_record_visual_columns(rec: Seq<(Seq<char>, Seq<char>)>)
    ensures
        record_visual(rec) == match field(rec, "full_image"@) {
            Some(i) => VisualRow::FullImage { image: i },
            None => VisualRow::Generated {
                image: field(rec, "image"@),
                background_image: field(rec, "background_image"@),
                background_color: field(rec, "background_color"@),
                icon: field(rec, "icon"@),
            },
        },
{
}

/// Each card type read from records takes its optional values from its own
/// record: the non-blank `description`, `background_image`,
/// `background_color`, `icon` and `back_logo` of that record, `None` only
/// where the column is absent or blank; the name is the record's.
pub proof fn law_card_types_take_record_columns(recs: Seq<(int, Seq<(Seq<char>, Seq<char>)>)>)
    requires
        card_types_from(recs) is Ok,
    ensures
        ({
            let ts = card_types_from(recs)->Ok_0;
            &&& ts.len() == recs.len()
            &&& forall|i: int| 0 <= i < ts.len() ==> {
                let rec = #[trigger] recs[i].1;
                &&& Some(ts[i].name) == field(rec, "name"@)
                &&& ts[i].description == field(rec, "description"@)
                &&& ts[i].background_image == field(rec, "background_image"@)
                &&& ts[i].background_color == field(rec, "background_color"@)
                &&& ts[i].icon == field(rec, "icon"@)
                &&& ts[i].back_logo == field(rec, "back_logo"@)
            }
        }),
    decreases recs.len(),
{
    if recs.len() > 0 {
        let d = recs.drop_last();
        law_card_types_take_record_columns(d);
        let ts = card_types_from(recs)->Ok_0;
        let ds = card_types_from(d)->Ok_0;
        assert forall|i: int| 0 <= i < ts.len() implies {
            let rec = #[trigger] recs[i].1;
            &&& Some(ts[i].name) == field(rec, "name"@)
            &&& ts[i].description == field(rec, "description"@)
            &&& ts[i].background_image == field(rec, "background_image"@)
            &&& ts[i].background_color == field(rec, "background_color"@)
            &&& ts[i].icon == field(rec, "icon"@)
            &&& ts[i].back_logo == field(rec, "back_logo"@)
        } by {
            if i < ds.len() {
                assert(ts[i] == ds[i]);
                assert(d[i] == recs[i]);
            }
        }
    }
}

/// Each card read from records takes its visual and its optional values
/// from its own record: the visual of `law_record_visual_columns`, the
/// non-blank `description` and `back_logo`, and the record's name.
pub proof fn law_cards_take_record_columns(recs: Seq<(int, Seq<(Seq<char>, Seq<char>)>)>, types: Seq<(Seq<char>, Seq<char>)>)
    requires
        cards_from(recs, types) is Ok,
    ensures
        ({
            let cs = cards_from(recs, types)->Ok_0;
            &&& cs.len() == recs.len()
            &&& forall|i: int| 0 <= i < cs.len() ==> {
                let rec = #[trigger] recs[i].1;
                &&& Some(cs[i].name) == field(rec, "name"@)
                &&& cs[i].description == field(rec, "description"@)
                &&& cs[i].back_logo == field(rec, "back_logo"@)
                &&& cs[i].visual == match field(rec, "full_image"@) {
                    Some(f) => VisualRow::FullImage { image: f },
                    None => VisualRow::Generated {
                        image: field(rec, "image"@),
                        background_image: field(rec, "background_image"@),
                        background_color: field(rec, "background_color"@),
                        icon: field(rec, "icon"@),
                    },
                }
            }
        }),
    decreases recs.len(),
{
    if recs.len() > 0 {
        let d = recs.drop_last();
        law_cards_take_record_columns(d, types);
        let cs = cards_from(recs, types)->Ok_0;
        let ds = cards_from(d, types)->Ok_0;
        assert forall|i: int| 0 <= i < cs.len() implies {
            let rec = #[trigger] recs[i].1;
            &&& Some(cs[i].name) == field(rec, "name"@)
            &&& cs[i].description == field(rec, "description"@)
            &&& cs[i].back_logo == field(rec, "back_logo"@)
            &&& cs[i].visual == match field(rec, "full_image"@) {
                    Some(f) => VisualRow::FullImage { image: f },
                    None => VisualRow::Generated {
                        image: field(rec, "image"@),
                        background_image: field(rec, "background_image"@),
                        background_color: field(rec, "background_color"@),
                        icon: field(rec, "icon"@),
                    },
                }
        } by {
            if i < ds.len() {
                assert(cs[i] == ds[i]);
                assert(d[i] == recs[i]);
            } else {
                law_record_visual_columns(recs[i].1);
            }
        }
    }
}

/// Each row of a cards file takes each optional value from the column headed
/// with that value's name: `power` from the `power` column, `toughness` from
/// the `toughness` column, and so on, each the trimmed non-blank cell; a
/// flag is set by a truthy cell of its column.
pub proof fn law_card_rows_take_their_columns(keys: Seq<Seq<char>>, cols: (int, int, int), recs: Seq<Option<Seq<Seq<char>>>>)
    requires
        card_rows(keys, cols, recs) is Ok,
    ensures
        ({
            let ds = card_rows(keys, cols, recs)->Ok_0;
            &&& ds.len() == recs.len()
            &&& forall|i: int| 0 <= i < ds.len() ==> (#[trigger] recs[i]) is Some && {
                let rec = recs[i]->0;
                let d = ds[i];
                &&& d.image == filled(rec, header_index(keys, "image"@))
                &&& d.background_image == filled(rec, header_index(keys, "background_image"@))
                &&& d.background_color == filled(rec, header_index(keys, "background_color"@))
                &&& d.back_image == filled(rec, header_index(keys, "back_image"@))
                &&& d.mana == filled(rec, header_index(keys, "mana"@))
                &&& d.colors == filled(rec, header_index(keys, "colors"@))
                &&& d.oracle_text == filled(rec, header_index(keys, "oracle_text"@))
                &&& d.power == filled(rec, header_index(keys, "power"@))
                &&& d.toughness == filled(rec, header_index(keys, "toughness"@))
                &&& d.starting_pile == filled(rec, header_index(keys, "starting_pile"@))
                &&& d.is_commander == match filled(rec, header_index(keys, "is_commander"@)) {
                    Some(v) => is_truthy(v),
                    None => false,
                }
                &&& d.is_partner == match filled(rec, header_index(keys, "is_partner"@)) {
                    Some(v) => is_truthy(v),
                    None => false,
                }
                &&& Some(d.id) == filled(rec, Some(cols.0))
                &&& Some(d.name) == filled(rec, Some(cols.1))
                &&& filled(rec, Some(cols.2)) is Some
                &&& d.card_type_id == ascii_lower(trim(filled(rec, Some(cols.2))->0)).map_values(
                    |c: char| if c == ' ' { '-' } else { c },
                )
            }
        }),
    decreases recs.len(),
{
    if recs.len() > 0 {
        let r = recs.drop_last();
        law_card_rows_take_their_columns(keys, cols, r);
        let ds = card_rows(keys, cols, recs)->Ok_0;
        let es = card_rows(keys, cols, r)->Ok_0;
        assert forall|i: int| 0 <= i < ds.len() implies (#[trigger] recs[i]) is Some && {
            let rec = recs[i]->0;
            let d = ds[i];
            &&& d.image == filled(rec, header_index(keys, "image"@))
            &&& d.background_image == filled(rec, header_index(keys, "background_image"@))
            &&& d.background_color == filled(rec, header_index(keys, "background_color"@))
            &&& d.back_image == filled(rec, header_index(keys, "back_image"@))
            &&& d.mana == filled(rec, header_index(keys, "mana"@))
            &&& d.colors == filled(rec, header_index(keys, "colors"@))
            &&& d.oracle_text == filled(rec, header_index(keys, "oracle_text"@))
            &&& d.power == filled(rec, header_index(keys, "power"@))
            &&& d.toughness == filled(rec, header_index(keys, "toughness"@))
            &&& d.starting_pile == filled(rec, header_index(keys, "starting_pile"@))
            &&& d.is_commander == match filled(rec, header_index(keys, "is_commander"@)) {
                Some(v) => is_truthy(v),
                None => false,
            }
            &&& d.is_partner == match filled(rec, header_index(keys, "is_partner"@)) {
                Some(v) => is_truthy(v),
                None => false,
            }
            &&& Some(d.id) == filled(rec, Some(cols.0))
            &&& Some(d.name) == filled(rec, Some(cols.1))
            &&& filled(rec, Some(cols.2)) is Some
            &&& d.card_type_id == ascii_lower(trim(filled(rec, Some(cols.2))->0)).map_values(
                |c: char| if c == ' ' { '-' } else { c },
            )
        } by {
            if i < es.len() {
                assert(ds[i] == es[i]);
                assert(r[i] == recs[i]);
            }
        }
    }
}

/// A loaded card holds the values of its row, each in the field of the same
/// name: its power is the row's power and its toughness the row's
/// toughness, its visual a generated layout of the row's image, background
/// image and colour.
pub proof fn law_loaded_card_fields(c: crate::card::Card, d: CardData)
    requires
        loaded_as(c, d),
    ensures
        c.id@ == d.id,
        c.name@ == d.name,
        opt_chars(c.power) == d.power,
        opt_chars(c.toughness) == d.toughness,
        opt_chars(c.mana) == d.mana,
        opt_chars(c.colors) == d.colors,
        opt_chars(c.oracle_text) == d.oracle_text,
        opt_chars(c.back_image) == d.back_image,
        opt_chars(c.starting_pile) == d.starting_pile,
        c.is_commander == d.is_commander,
        c.is_partner == d.is_partner,
        match c.visual {
            CardVisual::Generated { image, background_image, background_color, icon } => opt_chars(image) == d.image
                && opt_chars(background_image) == d.background_image && opt_chars(background_color) == d.background_color
                && icon is None,
            CardVisual::FullImage { .. } => false,
        },
{
}

/// A pool read from named fields takes each value from its own key: the
/// id, the label (or else the id), the icon from `token` or else `icon` (or
/// else the label), the parent from a non-blank `parent_id` or else
/// `parent`, the type, colour and background from their keys, and `active`
/// from a truthy `active` value.
pub proof fn law_pool_fields_take_their_keys(f: Seq<(Seq<char>, Seq<char>)>)
    ensures
        shape_from_fields(f) is Ok ==> {
            let s = shape_from_fields(f)->Ok_0;
            &&& Some(s.id) == field(f, "id"@)
            &&& s.label == match field(f, "label"@) {
                Some(l) => l,
                None => s.id,
            }
            &&& s.token == match field(f, "token"@) {
                Some(t) => t,
                None => match field(f, "icon"@) {
                    Some(t) => t,
                    None => s.label,
                },
            }
            &&& s.parent_id == match field(f, "parent_id"@) {
                Some(p) => Some(p),
                None => field(f, "parent"@),
            }
            &&& s.token_type_id == field(f, "token_type_id"@)
            &&& s.icon_color == field(f, "icon_color"@)
            &&& s.background == field(f, "background"@)
            &&& s.min == number_field(f, "min"@)->Ok_0
            &&& s.max == number_field(f, "max"@)->Ok_0
            &&& s.count == s.starting
            &&& s.starting == match number_field(f, "starting"@) {
                Ok(Some(n)) => n,
                _ => match number_field(f, "count"@) {
                    Ok(Some(n)) => n,
                    _ => 0,
                },
            }
            &&& s.plus == match number_field(f, "plus"@) {
                Ok(Some(n)) => n,
                _ => 1,
            }
            &&& s.minus == match number_field(f, "minus"@) {
                Ok(Some(n)) => n,
                _ => 1,
            }
            &&& s.active == match lookup(f, "active"@) {
                Some(v) => is_truthy(v),
                None => false,
            }
        },
        pool_from_fields(f) is Ok ==> shape_from_fields(f) == pool_from_fields(f),
{
}

/// Every card of the searched ids that the game has and whose id, name or
/// card type, lower-cased, contains the query is found (every such card
/// where the query is empty).
pub proof fn law_search_finds_matching_cards(cs: Seq<crate::card::Card>, ids: Seq<Seq<char>>, query: Seq<char>, i: int)
    requires
        0 <= i < ids.len(),
        has_card(cs, ids[i]),
        query.len() == 0 || contains_sub(ascii_lower(card_with(cs, ids[i]).id@), query) || contains_sub(
            ascii_lower(card_with(cs, ids[i]).name@),
            query,
        ) || contains_sub(ascii_lower(card_with(cs, ids[i]).card_type_id@), query),
    ensures
        search_result(cs, ids, query).contains(card_with(cs, ids[i])),
    decreases ids.len(),
{
    let r = search_result(cs, ids.drop_last(), query);
    if i < ids.len() - 1 {
        assert(ids.drop_last()[i] == ids[i]);
        law_search_finds_matching_cards(cs, ids.drop_last(), query, i);
        let k = choose|k: int| 0 <= k < r.len() && r[k] == card_with(cs, ids[i]);
        if search_result(cs, ids, query) != r {
            assert(search_result(cs, ids, query)[k] == r[k]);
        }
    } else {
        let res = search_result(cs, ids, query);
        assert(res[res.len() - 1] == card_with(cs, ids[i]));
    }
}

/// A search finds nothing else: each card found is a card of the game with
/// one of the searched ids whose id, name or card type, lower-cased,
/// contains the query (or the query is empty).
pub proof fn law_search_finds_only_matching_cards(cs: Seq<crate::card::Card>, ids: Seq<Seq<char>>, query: Seq<char>)
    ensures
        forall|j: int| 0 <= j < search_result(cs, ids, query).len() ==> exists|i: int| #![trigger ids[i]]
            0 <= i < ids.len() && has_card(cs, ids[i]) && #[trigger] search_result(cs, ids, query)[j] == card_with(cs, ids[i])
                && (query.len() == 0 || contains_sub(ascii_lower(card_with(cs, ids[i]).id@), query) || contains_sub(
                ascii_lower(card_with(cs, ids[i]).name@),
                query,
            ) || contains_sub(ascii_lower(card_with(cs, ids[i]).card_type_id@), query)),
    decreases ids.len(),
{
    if ids.len() > 0 {
        let d = ids.drop_last();
        law_search_finds_only_matching_cards(cs, d, query);
        let r = search_result(cs, d, query);
        let res = search_result(cs, ids, query);
        assert forall|j: int| 0 <= j < res.len() implies exists|i: int| #![trigger ids[i]]
            0 <= i < ids.len() && has_card(cs, ids[i]) && #[trigger] res[j] == card_with(cs, ids[i])
                && (query.len() == 0 || contains_sub(ascii_lower(card_with(cs, ids[i]).id@), query) || contains_sub(
                ascii_lower(card_with(cs, ids[i]).name@),
                query,
            ) || contains_sub(ascii_lower(card_with(cs, ids[i]).card_type_id@), query)) by {
            if j < r.len() {
                assert(res[j] == r[j]);
                let i = choose|i: int| #![trigger d[i]]
                    0 <= i < d.len() && has_card(cs, d[i]) && r[j] == card_with(cs, d[i]) && (query.len() == 0
                        || contains_sub(ascii_lower(card_with(cs, d[i]).id@), query) || contains_sub(
                        ascii_lower(card_with(cs, d[i]).name@),
                        query,
                    ) || contains_sub(ascii_lower(card_with(cs, d[i]).card_type_id@), query));
                assert(ids[i] == d[i]);
            } else {
                assert(ids[ids.len() - 1] == ids.last());
            }
        }
    }
}


/// The columns of a cards file: the id from the column headed `id`, the
/// name from `name`, the type from `card_type` or, where there is none,
/// `type`.
pub proof fn law_card_header_columns(keys: Seq<Seq<char>>)
    ensures
        card_header(keys) is Ok <==> header_index(keys, "id"@) is Some && header_index(keys, "name"@) is Some && (
        header_index(keys, "card_type"@) is Some || header_index(keys, "type"@) is Some),
        card_header(keys) is Ok ==> {
            let (i, n, t) = card_header(keys)->Ok_0;
            &&& header_index(keys, "id"@) == Some(i)
            &&& header_index(keys, "name"@) == Some(n)
            &&& match header_index(keys, "card_type"@) {
                Some(c) => t == c,
                None => header_index(keys, "type"@) == Some(t),
            }
        },
{
}

/// Searching the ids of two piles in turn finds what searching each finds,
/// in the same order.
pub proof fn law_search_of_joined_ids(cs: Seq<crate::card::Card>, a: Seq<Seq<char>>, b: Seq<Seq<char>>, query: Seq<char>)
    ensures
        search_result(cs, a + b, query) == search_result(cs, a, query) + search_result(cs, b, query),
    decreases b.len(),
{
    if b.len() == 0 {
        assert(a + b =~= a);
        assert(search_result(cs, a, query) + search_result(cs, b, query) =~= search_result(cs, a, query));
    } else {
        assert((a + b).drop_last() =~= a + b.drop_last());
        assert((a + b).last() == b.last());
        law_search_of_joined_ids(cs, a, b.drop_last(), query);
        let x = search_result(cs, a, query);
        let y = search_result(cs, b.drop_last(), query);
        assert((x + y).push(card_with(cs, b.last())) =~= x + y.push(card_with(cs, b.last())));
    }
}

/// Searching one id finds its card exactly when the game has it and its id,
/// name or card type, lower-cased, contains the query (or the query is
/// empty).
pub proof fn law_search_of_one_id(cs: Seq<crate::card::Card>, id: Seq<char>, query: Seq<char>)
    ensures
        search_result(cs, seq![id], query) == if has_card(cs, id) && (query.len() == 0 || contains_sub(
            ascii_lower(card_with(cs, id).id@),
            query,
        ) || contains_sub(ascii_lower(card_with(cs, id).name@), query) || contains_sub(
            ascii_lower(card_with(cs, id).card_type_id@),
            query,
        )) {
            seq![card_with(cs, id)]
        } else {
            Seq::empty()
        },
{
    let s = seq![id];
    assert(s.drop_last() =~= Seq::<Seq<char>>::empty());
    assert(search_result(cs, s.drop_last(), query) =~= Seq::<crate::card::Card>::empty());
    assert(s.last() == id);
    assert(Seq::<crate::card::Card>::empty().push(card_with(cs, id)) =~= seq![card_with(cs, id)]);
}


/// The position of the first `=` of a text that has none before it.
proof fn lemma_first_equals(k: Seq<char>, v: Seq<char>)
    requires
        !k.contains('='),
    ensures
        first_index(k + seq!['='] + v, '=') == k.len(),
    decreases k.len(),
{
    let s = k + seq!['='] + v;
    if k.len() == 0 {
        assert(s[0] == '=');
    } else {
        assert(k[0] != '=');
        assert(!k.drop_first().contains('=')) by {
            if k.drop_first().contains('=') {
                let j = choose|j: int| 0 <= j < k.drop_first().len() && k.drop_first()[j] == '=';
                assert(k[j + 1] == '=');
            }
        }
        lemma_first_equals(k.drop_first(), v);
        assert(s.drop_first() =~= k.drop_first() + seq!['='] + v);
        assert(s[0] == k[0]);
    }
}

/// One `key=value` part of an inline pool splits at its first `=`: the key
/// is what comes before it, trimmed and lower-cased; the value is all that
/// follows, trimmed, `=` signs included.
pub proof fn law_inline_part_splits_at_first_equals(k: Seq<char>, v: Seq<char>)
    requires
        !k.contains('='),
    ensures
        inline_pair(k + seq!['='] + v) == Ok::<(Seq<char>, Seq<char>), Seq<char>>((ascii_lower(trim(k)), trim(v))),
{
    let s = k + seq!['='] + v;
    lemma_first_equals(k, v);
    assert(s.take(k.len() as int) =~= k);
    assert(s.skip(k.len() as int + 1) =~= v);
}

/// Each token type read from records takes its values from its own record:
/// the non-blank `name` and `icon`, and the non-blank `description`,
/// `background` and `icon_color`, `None` only where absent or blank.
pub proof fn law_token_types_take_record_columns(recs: Seq<(int, Seq<(Seq<char>, Seq<char>)>)>)
    requires
        token_type_rows(recs) is Ok,
    ensures
        ({
            let ts = token_type_rows(recs)->Ok_0;
            &&& ts.len() == recs.len()
            &&& forall|i: int| 0 <= i < ts.len() ==> {
                let f = #[trigger] recs[i].1;
                &&& Some(ts[i].name) == field(f, "name"@)
                &&& Some(ts[i].icon) == field(f, "icon"@)
                &&& Some(ts[i].id) == field(f, "id"@)
                &&& Some(ts[i].game_id) == field(f, "game_id"@)
                &&& ts[i].description == field(f, "description"@)
                &&& ts[i].background == field(f, "background"@)
                &&& ts[i].icon_color == field(f, "icon_color"@)
            }
        }),
    decreases recs.len(),
{
    if recs.len() > 0 {
        let d = recs.drop_last();
        law_token_types_take_record_columns(d);
        let ts = token_type_rows(recs)->Ok_0;
        let ds = token_type_rows(d)->Ok_0;
        assert forall|i: int| 0 <= i < ts.len() implies {
            let f = #[trigger] recs[i].1;
            &&& Some(ts[i].name) == field(f, "name"@)
            &&& Some(ts[i].icon) == field(f, "icon"@)
            &&& Some(ts[i].id) == field(f, "id"@)
            &&& Some(ts[i].game_id) == field(f, "game_id"@)
            &&& ts[i].description == field(f, "description"@)
            &&& ts[i].background == field(f, "background"@)
            &&& ts[i].icon_color == field(f, "icon_color"@)
        } by {
            if i < ds.len() {
                assert(ts[i] == ds[i]);
                assert(d[i] == recs[i]);
            }
        }
    }
}

/// Completing a record with its token type's defaults touches only the
/// `icon`, `label`, `background` and `icon_color` keys.
pub proof fn lemma_defaults_keep_other_keys(f: Seq<(Seq<char>, Seq<char>)>, t: TokenTypeShape, key: Seq<char>)
    requires
        key != "icon"@,
        key != "label"@,
        key != "background"@,
        key != "icon_color"@,
    ensures
        lookup(with_type_defaults(f, t), key) == lookup(f, key),
        field(with_type_defaults(f, t), key) == field(f, key),
{
    crate::laws::lemma_lookup_push(f, "icon"@, t.icon, key);
    let f1 = crate::token_pools::or_fill(f, "icon"@, t.icon);
    crate::laws::lemma_lookup_push(f1, "label"@, t.name, key);
    let f2 = crate::token_pools::or_insert(f1, "label"@, t.name);
    if t.background is Some {
        crate::laws::lemma_lookup_push(f2, "background"@, t.background->0, key);
    }
    let f3 = match t.background {
        Some(b) => crate::token_pools::or_insert(f2, "background"@, b),
        None => f2,
    };
    if t.icon_color is Some {
        crate::laws::lemma_lookup_push(f3, "icon_color"@, t.icon_color->0, key);
    }
}

/// A key other than those a token type fills in.
proof fn lemma_other_key(key: Seq<char>)
    requires
        key == "owner"@ || key == "owner_id"@ || key == "id"@ || key == "parent_id"@ || key == "parent"@,
    ensures
        key != "icon"@,
        key != "label"@,
        key != "background"@,
        key != "icon_color"@,
{
    reveal_strlit("owner");
    reveal_strlit("owner_id");
    reveal_strlit("id");
    reveal_strlit("parent_id");
    reveal_strlit("parent");
    reveal_strlit("icon");
    reveal_strlit("label");
    reveal_strlit("background");
    reveal_strlit("icon_color");
    if key == "owner"@ {
        assert(key[0] != "icon"@[0] && key[0] != "label"@[0] && key[0] != "background"@[0] && key[0] != "icon_color"@[0]);
    } else if key == "owner_id"@ {
        assert(key[0] != "icon"@[0] && key[0] != "label"@[0] && key[0] != "background"@[0] && key[0] != "icon_color"@[0]);
    } else if key == "id"@ {
        assert(key.len() != "icon"@.len() && key[0] != "label"@[0] && key[0] != "background"@[0] && key.len() != "icon_color"@.len());
    } else if key == "parent_id"@ {
        assert(key[0] != "icon"@[0] && key[0] != "label"@[0] && key[0] != "background"@[0] && key[0] != "icon_color"@[0]);
    } else {
        assert(key[0] != "icon"@[0] && key[0] != "label"@[0] && key[0] != "background"@[0] && key[0] != "icon_color"@[0]);
    }
}

/// A pool assignment read from a token-pool record takes its owner from the
/// record's `owner` column, its owner id from `owner_id`, its pool id from
/// `id`, its token type from `token_type_id`, and its parent from a
/// non-blank `parent_id` or else `parent`.
pub proof fn law_pool_row_columns(line: int, f: Seq<(Seq<char>, Seq<char>)>, types: Seq<TokenTypeShape>)
    requires
        pool_row(line, f, types) is Ok,
    ensures
        ({
            let d = pool_row(line, f, types)->Ok_0.0;
            &&& field(f, "owner"@) is Some
            &&& owner_named(field(f, "owner"@)->0) == Some(d.owner)
            &&& d.owner_id == field(f, "owner_id"@)
            &&& d.pool.token_type_id == field(f, "token_type_id"@)
            &&& Some(d.pool.id) == field(f, "id"@)
            &&& d.pool.parent_id == match field(f, "parent_id"@) {
                Some(p) => Some(p),
                None => field(f, "parent"@),
            }
        }),
{
    let tt = crate::token_pools::required_field(f, "token_type_id"@, line);
    let g = crate::token_pools::required_field(f, "game_id"@, line);
    let t = crate::token_pools::find_type(types, crate::token_pools::type_key(g->Ok_0, tt->Ok_0))->0;
    let f2 = with_type_defaults(f, t);
    lemma_other_key("owner"@);
    lemma_other_key("owner_id"@);
    lemma_other_key("id"@);
    lemma_other_key("parent_id"@);
    lemma_other_key("parent"@);
    lemma_defaults_keep_other_keys(f, t, "owner"@);
    lemma_defaults_keep_other_keys(f, t, "owner_id"@);
    lemma_defaults_keep_other_keys(f, t, "id"@);
    lemma_defaults_keep_other_keys(f, t, "parent_id"@);
    lemma_defaults_keep_other_keys(f, t, "parent"@);
    law_pool_fields_take_their_keys(f2);
}


/// The column of a header name is the last column with that name: adding a
/// column with the name makes it the one found, adding another name changes
/// nothing.
pub proof fn law_header_index_finds_last(keys: Seq<Seq<char>>, k: Seq<char>, name: Seq<char>)
    ensures
        header_index(keys.push(k), name) == if k == name {
            Some(keys.len() as int)
        } else {
            header_index(keys, name)
        },
        header_index(keys, name) matches Some(i) ==> 0 <= i < keys.len() && keys[i] == name,
    decreases keys.len(),
{
    assert(keys.push(k).drop_last() =~= keys);
    if keys.len() > 0 {
        law_header_index_finds_last(keys.drop_last(), keys.last(), name);
        assert(keys.drop_last().push(keys.last()) =~= keys);
    }
}

/// The cell of a column a record reaches is its value there, trimmed and
/// `None` when blank; a column the record does not reach, or no column,
/// gives `None`.
pub proof fn law_filled_cell(rec: Seq<Seq<char>>, idx: Option<int>)
    ensures
        filled(rec, idx) == match idx {
            Some(i) => if 0 <= i < rec.len() {
                if trim(rec[i]).len() > 0 {
                    Some(trim(rec[i]))
                } else {
                    None
                }
            } else {
                None
            },
            None => None,
        },
{
}

/// The non-blank value of a record's key is the trimmed value last stored
/// under it, `None` when that is blank or there is none.
pub proof fn law_field_last_value(f: Seq<(Seq<char>, Seq<char>)>, k: Seq<char>, v: Seq<char>, key: Seq<char>)
    ensures
        field(f.push((k, v)), key) == if k == key {
            if trim(v).len() > 0 {
                Some(trim(v))
            } else {
                None
            }
        } else {
            field(f, key)
        },
        field(Seq::empty(), key) is None,
{
    crate::laws::lemma_lookup_push(f, k, v, key);
}

} // verus!
