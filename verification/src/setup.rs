//! Setting up a game: where each card starts, and which owners the pools of
//! the token-pool and zone-layout files go to.
use vstd::prelude::*;

use crate::card::{counters_shape, default_pool, pool_shapes, tapped_shape, Card};
use crate::cards::CardVisual;
use crate::engine::{fails_with, EngineError};
use crate::pile::Pile;
use crate::snapshot::{entry_put, put_entry};
use crate::text::{ascii_lower, concat3, lower_char_exec, non_blank, non_blank_string, owned, trim, trimmed};
use crate::text::{opt_chars, str_is};
use crate::zones::{validation, GameState};
use crate::token_pools::{pool_problem, TokenPool, TokenPoolDefinition, TokenPoolOwner};
use crate::zone_layout::ZoneLayout;
use crate::zones::{
    card_pools_pos, card_with, collect_cards, collect_pools, has_card, has_card_pools, ids_view, owner_pools_problem,
    unique_card_ids, unknown_card, upsert_pool, zone_index, zone_of_pile, zones_view, CardTokenPools, Zone,
    ZONE_COUNT,
};

verus! {

/// The zone a card starts in: the pile its `starting_pile` names; else the
/// commander pile for a commander; else the main stack, where cards are
/// drawn from.
pub open spec fn starting_zone(c: Card) -> Zone {
    match c.starting_pile {
        Some(p) if zone_of_pile(p@) is Some => zone_of_pile(p@)->0,
        _ => if c.is_commander {
            Zone::CommanderPile
        } else {
            Zone::MainStack
        },
    }
}

/// Every zone empty.
pub open spec fn no_cards_placed() -> Seq<Seq<Seq<char>>> {
    Seq::new(ZONE_COUNT as nat, |i: int| Seq::<Seq<char>>::empty())
}

/// The card ids each zone starts with, each card in its starting zone, in
/// the order of the cards.
pub open spec fn starting_zones(cs: Seq<Card>) -> Seq<Seq<Seq<char>>>
    decreases cs.len(),
{
    if cs.len() == 0 {
        no_cards_placed()
    } else {
        let z = starting_zones(cs.drop_last());
        let k = zone_index(starting_zone(cs.last()));
        z.update(k, z[k].push(cs.last().id@))
    }
}

/// Whether a definition is owned by a card.
pub open spec fn card_owned(d: TokenPoolDefinition) -> bool {
    d.owner == TokenPoolOwner::Card || d.owner == TokenPoolOwner::Creature
}

/// Whether a definition is owned by a zone.
pub open spec fn zone_owned(d: TokenPoolDefinition) -> bool {
    d.owner == TokenPoolOwner::Zone || d.owner == TokenPoolOwner::Battlefield
}

/// The zone a zone-owned definition goes to: the pile its owner id names, or
/// the battlefield where it names none.
pub open spec fn def_zone(d: TokenPoolDefinition) -> Option<Zone> {
    match d.owner_id {
        Some(o) => zone_of_pile(o@),
        None => Some(Zone::Battlefield),
    }
}

/// The problem with assigning one definition: a card-owned pool without an
/// owner id or with an unknown card, a zone-owned pool with an unknown pile,
/// or a pool that breaks the rules of `TokenPool::validate`.
pub open spec fn def_problem(cs: Seq<Card>, d: TokenPoolDefinition) -> Option<Seq<char>> {
    if card_owned(d) {
        match d.owner_id {
            None => Some("Pool '"@ + d.pool.id@ + "' requires owner_id"@),
            Some(o) => if !has_card(cs, o@) {
                Some(unknown_card(o@))
            } else {
                pool_problem(d.pool)
            },
        }
    } else if zone_owned(d) {
        match def_zone(d) {
            None => Some("Unknown pile '"@ + d.owner_id->0@ + "'"@),
            Some(_) => pool_problem(d.pool),
        }
    } else {
        None
    }
}

/// The first problem among the definitions, in order.
pub open spec fn defs_problem(cs: Seq<Card>, defs: Seq<TokenPoolDefinition>) -> Option<Seq<char>>
    decreases defs.len(),
{
    if defs.len() == 0 {
        None
    } else {
        match defs_problem(cs, defs.drop_last()) {
            Some(m) => Some(m),
            None => def_problem(cs, defs.last()),
        }
    }
}

/// The pools of the player-owned definitions, in order.
pub open spec fn player_def_pools(defs: Seq<TokenPoolDefinition>) -> Seq<TokenPool>
    decreases defs.len(),
{
    if defs.len() == 0 {
        Seq::empty()
    } else if defs.last().owner == TokenPoolOwner::Player {
        player_def_pools(defs.drop_last()).push(defs.last().pool)
    } else {
        player_def_pools(defs.drop_last())
    }
}

/// The zone whose pools a layout sets: the zone its id names, where the
/// layout has pools.
pub open spec fn layout_zone(l: ZoneLayout) -> Option<Zone> {
    if l.token_pools@.len() > 0 {
        zone_of_pile(l.id@)
    } else {
        None
    }
}

/// The first problem among the pools of the layouts that set a zone's pools.
pub open spec fn layouts_problem(ls: Seq<ZoneLayout>) -> Option<Seq<char>>
    decreases ls.len(),
{
    if ls.len() == 0 {
        None
    } else {
        match layouts_problem(ls.drop_last()) {
            Some(m) => Some(m),
            None => if layout_zone(ls.last()) is Some {
                owner_pools_problem(ls.last().token_pools@)
            } else {
                None
            },
        }
    }
}

/// Why a game cannot be set up: no cards, invalid player pools, a definition
/// that cannot be assigned, or invalid layout pools, in that order.
pub open spec fn setup_problem(cs: Seq<Card>, defs: Seq<TokenPoolDefinition>, ls: Seq<ZoneLayout>) -> Option<Seq<char>> {
    if cs.len() == 0 {
        Some("No cards found in embedded CSV"@)
    } else {
        match crate::player::player_pools_problem(player_def_pools(defs)) {
            Some(m) => Some(m),
            None => match defs_problem(cs, defs) {
                Some(m) => Some(m),
                None => layouts_problem(ls),
            },
        }
    }
}

/// Every zone without pools.
pub open spec fn no_zone_pools() -> Seq<Seq<TokenPool>> {
    Seq::new(ZONE_COUNT as nat, |i: int| Seq::<TokenPool>::empty())
}

/// The pools of each zone once the zone-owned definitions are added, each
/// replacing a pool of its id.
pub open spec fn zone_defs_applied(zp: Seq<Seq<TokenPool>>, defs: Seq<TokenPoolDefinition>) -> Seq<Seq<TokenPool>>
    decreases defs.len(),
{
    if defs.len() == 0 {
        zp
    } else {
        let z = zone_defs_applied(zp, defs.drop_last());
        let d = defs.last();
        if zone_owned(d) && def_zone(d) is Some {
            let k = zone_index(def_zone(d)->0);
            z.update(k, upsert_pool(z[k], d.pool))
        } else {
            z
        }
    }
}

/// The pools of each zone once each layout with pools sets its zone's pools.
pub open spec fn layouts_applied(zp: Seq<Seq<TokenPool>>, ls: Seq<ZoneLayout>) -> Seq<Seq<TokenPool>>
    decreases ls.len(),
{
    if ls.len() == 0 {
        zp
    } else {
        let z = layouts_applied(zp, ls.drop_last());
        match layout_zone(ls.last()) {
            Some(zone) => z.update(zone_index(zone), ls.last().token_pools@),
            None => z,
        }
    }
}

/// The pools of one card once the definitions owned by it are added, each
/// replacing a pool of its id.
pub open spec fn card_defs_applied(p: Seq<TokenPool>, defs: Seq<TokenPoolDefinition>, id: Seq<char>) -> Seq<TokenPool>
    decreases defs.len(),
{
    if defs.len() == 0 {
        p
    } else {
        let q = card_defs_applied(p, defs.drop_last(), id);
        let d = defs.last();
        if card_owned(d) && opt_chars(d.owner_id) == Some(id) {
            upsert_pool(q, d.pool)
        } else {
            q
        }
    }
}

/// The pools a card has, none where it has no entry.
pub open spec fn card_pools_of(cp: Seq<CardTokenPools>, id: Seq<char>) -> Seq<TokenPool> {
    if has_card_pools(cp, id) {
        cp[card_pools_pos(cp, id)].pools@
    } else {
        Seq::empty()
    }
}

/// The pools a card of the game starts with: its own, keyed by id.
pub open spec fn starting_card_pools(cs: Seq<Card>, id: Seq<char>) -> Seq<TokenPool> {
    if has_card(cs, id) {
        collect_pools(card_with(cs, id).token_pools@)
    } else {
        Seq::empty()
    }
}

/// The pools of each zone, by zone position.
pub open spec fn zone_pools_view(zp: Seq<Vec<TokenPool>>) -> Seq<Seq<TokenPool>> {
    zp.map_values(|v: Vec<TokenPool>| v@)
}

pub proof fn lemma_defs_problem_prefix(cs: Seq<Card>, defs: Seq<TokenPoolDefinition>, n: int)
    requires
        0 <= n <= defs.len(),
        defs_problem(cs, defs.take(n)) is Some,
    ensures
        defs_problem(cs, defs) == defs_problem(cs, defs.take(n)),
    decreases defs.len(),
{
    if n < defs.len() {
        assert(defs.drop_last().take(n) =~= defs.take(n));
        lemma_defs_problem_prefix(cs, defs.drop_last(), n);
    } else {
        assert(defs.take(n) =~= defs);
    }
}

pub proof fn lemma_layouts_problem_prefix(ls: Seq<ZoneLayout>, n: int)
    requires
        0 <= n <= ls.len(),
        layouts_problem(ls.take(n)) is Some,
    ensures
        layouts_problem(ls) == layouts_problem(ls.take(n)),
    decreases ls.len(),
{
    if n < ls.len() {
        assert(ls.drop_last().take(n) =~= ls.take(n));
        lemma_layouts_problem_prefix(ls.drop_last(), n);
    } else {
        assert(ls.take(n) =~= ls);
    }
}

/// Keying cards by id keeps exactly the ids of the list.
pub proof fn lemma_collect_cards_ids(cs: Seq<Card>)
    ensures
        forall|id: Seq<char>| has_card(collect_cards(cs), id) <==> has_card(cs, id),
    decreases cs.len(),
{
    if cs.len() > 0 {
        let d = cs.drop_last();
        lemma_collect_cards_ids(d);
        crate::zones::lemma_collect_cards_unique(d);
        crate::zones::lemma_upsert_card_unique(collect_cards(d), cs.last());
        assert forall|id: Seq<char>| has_card(cs, id) <==> (has_card(d, id) || id == cs.last().id@) by {
            if has_card(cs, id) {
                let k = choose|k: int| 0 <= k < cs.len() && (#[trigger] cs[k]).id@ == id;
                if k < d.len() {
                    assert(d[k] == cs[k]);
                }
            }
            if has_card(d, id) {
                let k = choose|k: int| 0 <= k < d.len() && (#[trigger] d[k]).id@ == id;
                assert(cs[k] == d[k]);
            }
            if id == cs.last().id@ {
                assert(cs[cs.len() - 1].id@ == id);
            }
        }
    }
}

/// The cards that come with pools are the cards of the list with pools.
pub proof fn lemma_cards_with_pools_members(cs: Seq<Card>)
    ensures
        forall|j: int| 0 <= j < crate::zones::cards_with_pools(cs).len() ==> cs.contains(
            #[trigger] crate::zones::cards_with_pools(cs)[j],
        ) && crate::zones::cards_with_pools(cs)[j].token_pools@.len() > 0,
        forall|i: int| 0 <= i < cs.len() && (#[trigger] cs[i]).token_pools@.len() > 0 ==> crate::zones::cards_with_pools(
            cs,
        ).contains(cs[i]),
    decreases cs.len(),
{
    if cs.len() > 0 {
        let d = cs.drop_last();
        lemma_cards_with_pools_members(d);
        let w = crate::zones::cards_with_pools(d);
        let r = crate::zones::cards_with_pools(cs);
        assert forall|j: int| 0 <= j < r.len() implies cs.contains(#[trigger] r[j]) && r[j].token_pools@.len() > 0 by {
            if j < w.len() {
                assert(r[j] == w[j]);
                let k = choose|k: int| 0 <= k < d.len() && d[k] == w[j];
                assert(cs[k] == d[k]);
            } else {
                assert(r[j] == cs.last());
                assert(cs[cs.len() - 1] == cs.last());
            }
        }
        assert forall|i: int| 0 <= i < cs.len() && (#[trigger] cs[i]).token_pools@.len() > 0 implies r.contains(cs[i]) by {
            if i < d.len() {
                assert(d[i] == cs[i]);
                let k = choose|k: int| 0 <= k < w.len() && w[k] == d[i];
                assert(r[k] == w[k]);
            } else {
                assert(r[r.len() - 1] == cs.last());
            }
        }
    }
}

/// The entries of card pools a new game makes give each card its own pools.
pub proof fn lemma_new_card_pools(cp: Seq<CardTokenPools>, cs: Seq<Card>)
    requires
        unique_card_ids(cs),
        forall|a: int, b: int| 0 <= a < b < cp.len() ==> (#[trigger] cp[a]).card_id@ != (#[trigger] cp[b]).card_id@,
        cp.len() == crate::zones::cards_with_pools(cs).len(),
        forall|i: int|
            0 <= i < cp.len() ==> {
                let c = crate::zones::cards_with_pools(cs)[i];
                &&& (#[trigger] cp[i]).card_id@ == c.id@
                &&& cp[i].pools@ == collect_pools(c.token_pools@)
            },
    ensures
        forall|id: Seq<char>| #[trigger] card_pools_of(cp, id) == starting_card_pools(cs, id),
{
    lemma_cards_with_pools_members(cs);
    let w = crate::zones::cards_with_pools(cs);
    assert forall|id: Seq<char>| #[trigger] card_pools_of(cp, id) == starting_card_pools(cs, id) by {
        if has_card_pools(cp, id) {
            let j = card_pools_pos(cp, id);
            assert(cs.contains(w[j]));
            let i = choose|i: int| 0 <= i < cs.len() && cs[i] == w[j];
            crate::zones::lemma_card_with(cs, i);
            assert(cs[i].id@ == id);
        } else if has_card(cs, id) {
            let i = choose|i: int| 0 <= i < cs.len() && (#[trigger] cs[i]).id@ == id;
            crate::zones::lemma_card_with(cs, i);
            if cs[i].token_pools@.len() > 0 {
                assert(w.contains(cs[i]));
                let j = choose|j: int| 0 <= j < w.len() && w[j] == cs[i];
                assert(cp[j].card_id@ == id);
            } else {
                assert(cs[i].token_pools@ =~= Seq::<TokenPool>::empty());
                assert(collect_pools(Seq::<TokenPool>::empty()) == Seq::<TokenPool>::empty());
            }
        }
    }
}

/// The zone a card starts in.
pub fn starting_zone_of(c: &Card) -> (z: Zone)
    ensures
        z == starting_zone(*c),
{
    if let Some(p) = &c.starting_pile {
        if let Some(z) = Zone::from_pile_id(p.as_str()) {
            return z;
        }
    }
    if c.is_commander {
        Zone::CommanderPile
    } else {
        Zone::MainStack
    }
}

/// The card ids each zone starts with.
pub fn starting_placement(cards: &Vec<Card>) -> (zs: Vec<Vec<String>>)
    ensures
        zs@.len() == ZONE_COUNT,
        zones_view(zs@) == starting_zones(cards@),
{
    let mut zs: Vec<Vec<String>> = Vec::new();
    let mut z: usize = 0;
    while z < ZONE_COUNT
        invariant
            z <= ZONE_COUNT,
            zs@.len() == z,
            forall|j: int| 0 <= j < z ==> (#[trigger] zs@[j])@.len() == 0,
        decreases ZONE_COUNT - z,
    {
        zs.push(Vec::new());
        z += 1;
    }
    assert(zones_view(zs@) =~= no_cards_placed()) by {
        assert forall|j: int| 0 <= j < ZONE_COUNT implies zones_view(zs@)[j] =~= no_cards_placed()[j] by {
            assert(zs@[j]@.len() == 0);
        }
    }
    assert(cards@.take(0) =~= Seq::<Card>::empty());
    let mut i: usize = 0;
    while i < cards.len()
        invariant
            i <= cards@.len(),
            zs@.len() == ZONE_COUNT,
            zones_view(zs@) == starting_zones(cards@.take(i as int)),
        decreases cards.len() - i,
    {
        let ghost before = zs@;
        let k = starting_zone_of(&cards[i]).index();
        let mut v = zs.remove(k);
        v.push(cards[i].id.clone());
        zs.insert(k, v);
        assert(cards@.take(i + 1).drop_last() =~= cards@.take(i as int));
        assert(cards@.take(i + 1).last() == cards@[i as int]);
        assert(zones_view(zs@) =~= zones_view(before).update(k as int, zones_view(before)[k as int].push(cards@[i as int].id@))) by {
            assert(ids_view(zs@[k as int]@) =~= ids_view(before[k as int]@).push(cards@[i as int].id@));
        }
        i += 1;
    }
    assert(cards@.take(cards.len() as int) =~= cards@);
    zs
}

/// The pools of the player-owned definitions, in order.
pub fn player_pools_of(defs: &Vec<TokenPoolDefinition>) -> (ps: Vec<TokenPool>)
    ensures
        ps@ == player_def_pools(defs@),
{
    let mut ps: Vec<TokenPool> = Vec::new();
    let mut i: usize = 0;
    assert(defs@.take(0) =~= Seq::<TokenPoolDefinition>::empty());
    while i < defs.len()
        invariant
            i <= defs@.len(),
            ps@ == player_def_pools(defs@.take(i as int)),
        decreases defs.len() - i,
    {
        assert(defs@.take(i + 1).drop_last() =~= defs@.take(i as int));
        assert(defs@.take(i + 1).last() == defs@[i as int]);
        if matches!(defs[i].owner, TokenPoolOwner::Player) {
            ps.push(defs[i].pool.duplicate());
        }
        i += 1;
    }
    assert(defs@.take(defs.len() as int) =~= defs@);
    ps
}

/// The zone a zone-owned definition goes to.
pub fn def_zone_of(d: &TokenPoolDefinition) -> (z: Option<Zone>)
    ensures
        z == def_zone(*d),
{
    match &d.owner_id {
        Some(o) => Zone::from_pile_id(o.as_str()),
        None => Some(Zone::Battlefield),
    }
}


/// A card type as a key: trimmed, ASCII lower-cased, spaces turned into
/// hyphens.
pub open spec fn card_type_key(s: Seq<char>) -> Seq<char> {
    ascii_lower(trim(s)).map_values(|c: char| if c == ' ' { '-' } else { c })
}

/// Whether `k` is the first pile with the given id.
pub open spec fn first_pile_at(ps: Seq<Pile>, id: Seq<char>, k: int) -> bool {
    0 <= k < ps.len() && ps[k].id@ == id && forall|j: int| 0 <= j < k ==> (#[trigger] ps[j]).id@ != id
}

/// Whether a layout with the given id is in the list.
pub open spec fn has_layout(ls: Seq<ZoneLayout>, id: Seq<char>) -> bool {
    exists|l: int| 0 <= l < ls.len() && (#[trigger] ls[l]).id@ == id
}

/// Why a card cannot be created: a blank id, name or type; an id the game
/// has; a pile the piles do not list or that names no zone; or a pile whose
/// zone has no layout.
pub open spec fn create_problem(
    g: GameState,
    piles: Seq<Pile>,
    ls: Seq<ZoneLayout>,
    id: Seq<char>,
    name: Seq<char>,
    card_type: Seq<char>,
    to_pile: Seq<char>,
) -> Option<Seq<char>> {
    if trim(id).len() == 0 || trim(name).len() == 0 || card_type_key(card_type).len() == 0 {
        Some("Card ID, name, and type are required"@)
    } else if has_card(g.cards@, trim(id)) {
        Some("Card '"@ + trim(id) + "' already exists"@)
    } else if !(exists|k: int| first_pile_at(piles, to_pile, k)) || zone_of_pile(to_pile) is None {
        Some("Unknown pile '"@ + to_pile + "'"@)
    } else if !(exists|k: int| first_pile_at(piles, to_pile, k) && has_layout(ls, piles[k].zone_id@)) {
        Some("Pile '"@ + to_pile + "' has no zone layout"@)
    } else {
        None
    }
}

/// The card that `create_card` makes.
pub open spec fn created_card(c: Card, id: Seq<char>, name: Seq<char>, card_type: Seq<char>, text: Seq<char>, offense: Seq<char>, defense: Seq<char>, to_pile: Seq<char>) -> bool {
    &&& c.id@ == trim(id)
    &&& c.game_id@.len() == 0
    &&& c.name@ == trim(name)
    &&& c.card_type_id@ == card_type_key(card_type)
    &&& c.description is None
    &&& c.cost is None
    &&& c.visual == (CardVisual::Generated { image: None, background_image: None, background_color: None, icon: None })
    &&& c.back_logo is None
    &&& c.back_image is None
    &&& c.mana is None
    &&& c.colors is None
    &&& opt_chars(c.oracle_text) == non_blank(text)
    &&& opt_chars(c.power) == non_blank(offense)
    &&& opt_chars(c.toughness) == non_blank(defense)
    &&& !c.is_commander
    &&& !c.is_partner
    &&& pool_shapes(c.token_pools@) == seq![counters_shape(), tapped_shape()]
    &&& opt_chars(c.starting_pile) == Some(to_pile)
}

fn card_type_key_exec(s: &str) -> (r: String)
    ensures
        r@ == card_type_key(s@),
{
    let t = trimmed(s);
    let v = crate::text::chars_of(t.as_str());
    let mut r = String::new();
    let mut i: usize = 0;
    while i < v.len()
        invariant
            i <= v@.len(),
            v@ == t@,
            t@ == trim(s@),
            r@ == card_type_key(s@).take(i as int),
        decreases v.len() - i,
    {
        let c = lower_char_exec(v[i]);
        let d = if c == ' ' { '-' } else { c };
        crate::text::push_char(&mut r, d);
        assert(card_type_key(s@).take(i + 1) =~= card_type_key(s@).take(i as int).push(d));
        i += 1;
    }
    assert(card_type_key(s@).take(v.len() as int) =~= card_type_key(s@));
    r
}

impl GameState {
    /// Creates a card in a pile of the game: the id, name and type are
    /// trimmed (the type lower-cased with hyphens for spaces) and required;
    /// the id must be new, and the pile listed, naming a zone that has a
    /// layout. The card gets the counters and tapped pools and goes on top of
    /// the pile; blank text, offense and defense are left out.
    #[verifier::loop_isolation(false)]
    pub fn create_card(
        &mut self,
        piles: &Vec<Pile>,
        layouts: &Vec<ZoneLayout>,
        id: &str,
        name: &str,
        card_type: &str,
        text: &str,
        offense: &str,
        defense: &str,
        to_pile: &str,
    ) -> (r: Result<(), EngineError>)
        requires
            old(self).wf(),
        ensures
            final(self).wf(),
            match create_problem(*old(self), piles@, layouts@, id@, name@, card_type@, to_pile@) {
                Some(m) => fails_with(r, m) && *final(self) == *old(self),
                None => r is Ok && {
                    let z = zone_index(zone_of_pile(to_pile@)->0);
                    &&& final(self).cards@.len() == old(self).cards@.len() + 1
                    &&& final(self).cards@.drop_last() == old(self).cards@
                    &&& created_card(final(self).cards@.last(), id@, name@, card_type@, text@, offense@, defense@, to_pile@)
                    &&& final(self).zone_ids() == old(self).zone_ids().update(z, old(self).zone_ids()[z].push(trim(id@)))
                    &&& has_card_pools(final(self).card_token_pools@, trim(id@))
                    &&& pool_shapes(card_pools_of(final(self).card_token_pools@, trim(id@))) == seq![counters_shape(), tapped_shape()]
                    &&& forall|other: Seq<char>| other != trim(id@) ==> #[trigger] card_pools_of(final(self).card_token_pools@, other)
                        == card_pools_of(old(self).card_token_pools@, other)
                        && (has_card_pools(final(self).card_token_pools@, other) <==> has_card_pools(old(self).card_token_pools@, other))
                    &&& final(self).players == old(self).players
                    &&& final(self).zone_token_pools == old(self).zone_token_pools
                },
            },
    {
        let cid = trimmed(id);
        let cname = trimmed(name);
        let ctype = card_type_key_exec(card_type);
        if cid.as_str().is_empty() || cname.as_str().is_empty() || ctype.as_str().is_empty() {
            return Err(validation(owned("Card ID, name, and type are required")));
        }
        if self.card_index(cid.as_str()).is_some() {
            return Err(validation(concat3("Card '", cid.as_str(), "' already exists")));
        }
        let mut k: usize = 0;
        let mut found = false;
        while !found && k < piles.len()
            invariant
                k <= piles@.len(),
                forall|j: int| 0 <= j < k ==> (#[trigger] piles@[j]).id@ != to_pile@,
                found ==> k < piles@.len() && piles@[k as int].id@ == to_pile@,
            decreases (piles@.len() - k) * 2 + (if found { 0int } else { 1int }),
        {
            if str_is(piles[k].id.as_str(), to_pile) {
                found = true;
            } else {
                k += 1;
            }
        }
        if !found {
            assert(!(exists|q: int| first_pile_at(piles@, to_pile@, q))) by {
                if exists|q: int| first_pile_at(piles@, to_pile@, q) {
                    let q = choose|q: int| first_pile_at(piles@, to_pile@, q);
                    assert(piles@[q].id@ == to_pile@);
                }
            }
            return Err(validation(concat3("Unknown pile '", to_pile, "'")));
        }
        let zone = match Zone::from_pile_id(to_pile) {
            Some(z) => z,
            None => {
                return Err(validation(concat3("Unknown pile '", to_pile, "'")));
            },
        };
        assert(first_pile_at(piles@, to_pile@, k as int));
        let mut l: usize = 0;
        let mut laid_out: bool = false;
        while !laid_out && l < layouts.len()
            invariant
                l <= layouts@.len(),
                k < piles@.len(),
                forall|j: int| 0 <= j < l ==> (#[trigger] layouts@[j]).id@ != piles@[k as int].zone_id@,
                laid_out ==> l < layouts@.len() && layouts@[l as int].id@ == piles@[k as int].zone_id@,
            decreases (layouts@.len() - l) * 2 + (if laid_out { 0int } else { 1int }),
        {
            if str_is(layouts[l].id.as_str(), piles[k].zone_id.as_str()) {
                laid_out = true;
            } else {
                l += 1;
            }
        }
        if !laid_out {
            proof {
                assert forall|q: int| first_pile_at(piles@, to_pile@, q) implies !has_layout(layouts@, piles@[q].zone_id@) by {
                    if q != k {
                        if q < k {
                            assert(piles@[q].id@ != to_pile@);
                        } else {
                            assert(piles@[k as int].id@ != to_pile@);
                        }
                    }
                    if has_layout(layouts@, piles@[q].zone_id@) {
                        let x = choose|x: int| 0 <= x < layouts@.len() && (#[trigger] layouts@[x]).id@ == piles@[q].zone_id@;
                        assert(layouts@[x].id@ != piles@[k as int].zone_id@);
                    }
                }
            }
            return Err(validation(concat3("Pile '", to_pile, "' has no zone layout")));
        }
        assert(has_layout(layouts@, piles@[k as int].zone_id@)) by {
            assert(layouts@[l as int].id@ == piles@[k as int].zone_id@);
        }
        let mut pools: Vec<TokenPool> = Vec::new();
        pools.push(default_pool("counters", "Counters", "fa-solid fa-plus", None, true));
        pools.push(default_pool("tapped", "Tapped", "fa-solid fa-rotate", Some(0), false));
        assert(pool_shapes(pools@) =~= seq![counters_shape(), tapped_shape()]);
        let mut entry_pools: Vec<TokenPool> = Vec::new();
        entry_pools.push(default_pool("counters", "Counters", "fa-solid fa-plus", None, true));
        entry_pools.push(default_pool("tapped", "Tapped", "fa-solid fa-rotate", Some(0), false));
        assert(pool_shapes(entry_pools@) =~= seq![counters_shape(), tapped_shape()]);
        proof {
            reveal_strlit("counters");
            reveal_strlit("tapped");
            assert(entry_pools@[0]@.id == "counters"@);
            assert(entry_pools@[1]@.id == "tapped"@);
            assert("counters"@[0] != "tapped"@[0]);
            assert(entry_pools@[0].id@ != entry_pools@[1].id@);
        }
        let card = Card {
            id: owned(cid.as_str()),
            game_id: String::new(),
            name: cname,
            card_type_id: ctype,
            description: None,
            cost: None,
            visual: CardVisual::Generated { image: None, background_image: None, background_color: None, icon: None },
            back_logo: None,
            back_image: None,
            mana: None,
            colors: None,
            oracle_text: non_blank_string(text),
            power: non_blank_string(offense),
            toughness: non_blank_string(defense),
            is_commander: false,
            is_partner: false,
            token_pools: pools,
            starting_pile: Some(owned(to_pile)),
        };
        let ghost before = *self;
        let e = self.card_pools_index(cid.as_str());
        let entry = CardTokenPools { card_id: owned(cid.as_str()), pools: entry_pools };
        let ghost ent = entry;
        put_entry(&mut self.card_token_pools, e, entry);
        assert(entry_put(before.card_token_pools@, self.card_token_pools@, ent));
        self.cards.push(card);
        let zi = zone.index();
        let mut zc = self.zones.remove(zi);
        zc.push(owned(cid.as_str()));
        self.zones.insert(zi, zc);
        proof {
            assert(self.zone_ids() =~= before.zone_ids().update(zi as int, before.zone_ids()[zi as int].push(cid@))) by {
                assert(ids_view(self.zones@[zi as int]@) =~= ids_view(before.zones@[zi as int]@).push(cid@));
            }
            assert forall|a: int, b: int| 0 <= a < b < self.cards@.len() implies (#[trigger] self.cards@[a]).id@ != (#[trigger] self.cards@[b]).id@ by {
                if b == before.cards@.len() {
                    assert(self.cards@[a] == before.cards@[a]);
                    assert(before.cards@[a].id@ != cid@);
                }
            }
            assert(self.cards@.drop_last() =~= before.cards@);
        }
        Ok(())
    }
}

} // verus!
