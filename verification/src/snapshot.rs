//! Restoring a saved game: the saved counts and switches of the pools, the
//! cards of each zone and the players' names, checked against the game's
//! own cards, zones, players and pools before anything changes.
use vstd::prelude::*;

use crate::card::duplicate_pools;
use crate::player::unique_pool_ids;
use crate::text::{concat3, owned, contains_string};
use crate::token_pools::{pool_problem, TokenPool};
use crate::engine::{fails_with, EngineError};
use crate::player::Player;
use crate::setup::card_pools_of;
use crate::zones::{
    card_pools_pos, has_card, has_card_pools, has_player, has_pool, ids_view, player_pos, pool_index, pool_pos, pool_with,
    validation, zone_index, zone_of_pile, CardTokenPools, GameState, Zone, ZONE_COUNT,
};

verus! {

/// The saved count and switch of one pool.
#[derive(Clone, Debug)]
pub struct SavedPool {
    pub id: String,
    pub count: u32,
    pub active: bool,
}

/// A saved card and the saved state of its pools.
#[derive(Clone, Debug)]
pub struct SavedCard {
    pub id: String,
    pub token_pools: Vec<SavedPool>,
}

/// A saved zone: the saved state of its pools, and its cards in order.
#[derive(Clone, Debug)]
pub struct SavedZone {
    pub id: String,
    pub token_pools: Vec<SavedPool>,
    pub cards: Vec<SavedCard>,
}

/// A saved player: its name and the saved state of its pools.
#[derive(Clone, Debug)]
pub struct SavedPlayer {
    pub id: String,
    pub name: String,
    pub token_pools: Vec<SavedPool>,
}

/// The ids of saved pools.
pub open spec fn saved_ids(vs: Seq<SavedPool>) -> Seq<Seq<char>> {
    vs.map_values(|v: SavedPool| v.id@)
}

/// A pool with the saved count and switch.
pub open spec fn with_saved(p: TokenPool, v: SavedPool) -> TokenPool {
    TokenPool { count: v.count, active: v.active, ..p }
}

/// The pools with the saved count and switch of each saved pool applied in
/// turn to the pool of its id.
pub open spec fn restored(ps: Seq<TokenPool>, vs: Seq<SavedPool>) -> Seq<TokenPool>
    decreases vs.len(),
{
    if vs.len() == 0 {
        ps
    } else {
        let q = restored(ps, vs.drop_last());
        let k = pool_pos(q, vs.last().id@);
        q.update(k, with_saved(q[k], vs.last()))
    }
}

/// The problem with one saved pool of an owner, once the earlier ones are
/// applied: an id saved twice, an unknown pool, or a count that breaks the
/// pool's bounds.
pub open spec fn view_problem(ps: Seq<TokenPool>, earlier: Seq<SavedPool>, v: SavedPool, owner: Seq<char>) -> Option<Seq<char>> {
    let q = restored(ps, earlier);
    if saved_ids(earlier).contains(v.id@) {
        Some("Saved "@ + owner + " contains duplicate token pool '"@ + v.id@ + "'"@)
    } else if !has_pool(q, v.id@) {
        Some("Saved "@ + owner + " contains unknown token pool '"@ + v.id@ + "'"@)
    } else {
        pool_problem(with_saved(pool_with(q, v.id@), v))
    }
}

/// The first problem among saved pools, in order.
pub open spec fn views_problem(ps: Seq<TokenPool>, vs: Seq<SavedPool>, owner: Seq<char>) -> Option<Seq<char>>
    decreases vs.len(),
{
    if vs.len() == 0 {
        None
    } else {
        match views_problem(ps, vs.drop_last(), owner) {
            Some(m) => Some(m),
            None => view_problem(ps, vs.drop_last(), vs.last(), owner),
        }
    }
}

/// Why the saved pools of an owner cannot be restored: another number of
/// pools than the owner has, or the first problem among them.
pub open spec fn pools_problem(ps: Seq<TokenPool>, vs: Seq<SavedPool>, owner: Seq<char>) -> Option<Seq<char>> {
    if vs.len() != ps.len() {
        Some("Saved "@ + owner + " token pools do not match the current configuration"@)
    } else {
        views_problem(ps, vs, owner)
    }
}

pub proof fn lemma_views_problem_prefix(ps: Seq<TokenPool>, vs: Seq<SavedPool>, owner: Seq<char>, n: int)
    requires
        0 <= n <= vs.len(),
        views_problem(ps, vs.take(n), owner) is Some,
    ensures
        views_problem(ps, vs, owner) == views_problem(ps, vs.take(n), owner),
    decreases vs.len(),
{
    if n < vs.len() {
        assert(vs.drop_last().take(n) =~= vs.take(n));
        lemma_views_problem_prefix(ps, vs.drop_last(), owner, n);
    } else {
        assert(vs.take(n) =~= vs);
    }
}

/// `a`, `b` and `c` joined, then `d` and `e`.
fn concat5(a: &str, b: &str, c: &str, d: &str, e: &str) -> (r: String)
    ensures
        r@ == a@ + b@ + c@ + d@ + e@,
{
    let x = concat3(a, b, c);
    let r = concat3(x.as_str(), d, e);
    r
}

/// The pools of an owner with the saved counts and switches restored, all
/// or nothing.
pub fn restore_pools(ps: &Vec<TokenPool>, vs: &Vec<SavedPool>, owner: &str) -> (r: Result<Vec<TokenPool>, String>)
    requires
        unique_pool_ids(ps@),
    ensures
        match pools_problem(ps@, vs@, owner@) {
            Some(m) => r matches Err(e) && e@ == m,
            None => r matches Ok(v) && v@ == restored(ps@, vs@) && unique_pool_ids(v@),
        },
{
    if vs.len() != ps.len() {
        return Err(concat3("Saved ", owner, " token pools do not match the current configuration"));
    }
    let mut q = duplicate_pools(ps);
    let mut seen: Vec<String> = Vec::new();
    let ghost w = vs@;
    assert(w.take(0) =~= Seq::<SavedPool>::empty());
    assert(ids_view(seen@) =~= saved_ids(w.take(0)));
    let mut j: usize = 0;
    while j < vs.len()
        invariant
            w == vs@,
            w.len() == ps@.len(),
            j <= w.len(),
            q@ == restored(ps@, w.take(j as int)),
            unique_pool_ids(q@),
            views_problem(ps@, w.take(j as int), owner@) is None,
            ids_view(seen@) == saved_ids(w.take(j as int)),
        decreases w.len() - j,
    {
        let ghost sub = w.take(j + 1);
        assert(sub.drop_last() =~= w.take(j as int));
        assert(sub.last() == w[j as int]);
        let v = &vs[j];
        if contains_string(&seen, v.id.as_str()) {
            proof {
                let k = choose|k: int| 0 <= k < seen@.len() && #[trigger] seen@[k]@ == v.id@;
                assert(saved_ids(w.take(j as int))[k] == v.id@);
                lemma_views_problem_prefix(ps@, w, owner@, j + 1);
            }
            return Err(concat5("Saved ", owner, " contains duplicate token pool '", v.id.as_str(), "'"));
        }
        assert(!saved_ids(w.take(j as int)).contains(v.id@)) by {
            if saved_ids(w.take(j as int)).contains(v.id@) {
                let k = choose|k: int| 0 <= k < saved_ids(w.take(j as int)).len() && saved_ids(w.take(j as int))[k] == v.id@;
                assert(seen@[k]@ == v.id@);
            }
        }
        let k = match pool_index(&q, v.id.as_str()) {
            Some(k) => k,
            None => {
                proof { lemma_views_problem_prefix(ps@, w, owner@, j + 1); }
                return Err(concat5("Saved ", owner, " contains unknown token pool '", v.id.as_str(), "'"));
            },
        };
        let mut p = q[k].duplicate();
        p.count = v.count;
        p.active = v.active;
        match p.validate() {
            Ok(()) => {},
            Err(m) => {
                proof { lemma_views_problem_prefix(ps@, w, owner@, j + 1); }
                return Err(m);
            },
        }
        let ghost before = q@;
        q.set(k, p);
        proof { crate::zones::lemma_update_keeps_unique(before, k as int, p); }
        let ghost old_seen = seen@;
        seen.push(owned(v.id.as_str()));
        assert(saved_ids(sub) =~= saved_ids(w.take(j as int)).push(v.id@));
        assert(ids_view(seen@) =~= ids_view(old_seen).push(v.id@));
        j += 1;
    }
    assert(w.take(w.len() as int) =~= w);
    Ok(q)
}


/// The ids of saved cards.
pub open spec fn saved_card_ids(cs: Seq<SavedCard>) -> Seq<Seq<char>> {
    cs.map_values(|c: SavedCard| c.id@)
}

/// The ids of saved zones.
pub open spec fn saved_zone_ids(zs: Seq<SavedZone>) -> Seq<Seq<char>> {
    zs.map_values(|z: SavedZone| z.id@)
}

/// The ids of saved players.
pub open spec fn saved_player_ids(ps: Seq<SavedPlayer>) -> Seq<Seq<char>> {
    ps.map_values(|p: SavedPlayer| p.id@)
}

/// The saved cards of all zones, zone after zone.
pub open spec fn flat_cards(zs: Seq<SavedZone>) -> Seq<SavedCard>
    decreases zs.len(),
{
    if zs.len() == 0 {
        Seq::empty()
    } else {
        flat_cards(zs.drop_last()) + zs.last().cards@
    }
}

/// The positions of the zones that saved zones name.
pub open spec fn saved_pile_indices(zs: Seq<SavedZone>) -> Seq<int> {
    zs.map_values(|z: SavedZone| pile_index(z.id@))
}

/// The position of the zone a pile id names.
pub open spec fn pile_index(id: Seq<char>) -> int {
    zone_index(zone_of_pile(id)->0)
}

/// The problem with one saved card: a card the game does not have or one
/// saved before, or its saved pools.
pub open spec fn card_problem(g: GameState, seen: Seq<Seq<char>>, c: SavedCard) -> Option<Seq<char>> {
    if !has_card(g.cards@, c.id@) || seen.contains(c.id@) {
        Some("Saved game state contains an unknown or duplicate card '"@ + c.id@ + "'"@)
    } else {
        pools_problem(card_pools_of(g.card_token_pools@, c.id@), c.token_pools@, "card '"@ + c.id@ + "'"@)
    }
}

/// The first problem among saved cards, after the cards `seen`.
pub open spec fn cards_problem(g: GameState, seen: Seq<Seq<char>>, cs: Seq<SavedCard>) -> Option<Seq<char>>
    decreases cs.len(),
{
    if cs.len() == 0 {
        None
    } else {
        match cards_problem(g, seen, cs.drop_last()) {
            Some(m) => Some(m),
            None => card_problem(g, seen + saved_card_ids(cs.drop_last()), cs.last()),
        }
    }
}

/// The problem with one saved zone after the `earlier` ones: a pile the game
/// does not have or one saved before, its saved pools, or its cards.
pub open spec fn zone_problem(g: GameState, earlier: Seq<SavedZone>, z: SavedZone) -> Option<Seq<char>> {
    if zone_of_pile(z.id@) is None || saved_zone_ids(earlier).contains(z.id@) {
        Some("Saved game state contains an unknown or duplicate pile '"@ + z.id@ + "'"@)
    } else {
        match pools_problem(g.zone_token_pools@[pile_index(z.id@)]@, z.token_pools@, "pile '"@ + z.id@ + "'"@) {
            Some(m) => Some(m),
            None => cards_problem(g, saved_card_ids(flat_cards(earlier)), z.cards@),
        }
    }
}

/// The first problem among saved zones, in order.
pub open spec fn zones_problem(g: GameState, zs: Seq<SavedZone>) -> Option<Seq<char>>
    decreases zs.len(),
{
    if zs.len() == 0 {
        None
    } else {
        match zones_problem(g, zs.drop_last()) {
            Some(m) => Some(m),
            None => zone_problem(g, zs.drop_last(), zs.last()),
        }
    }
}

/// The problem with one saved player after the `earlier` ones: one saved
/// before, a player the game does not have, or its saved pools.
pub open spec fn player_problem(g: GameState, earlier: Seq<SavedPlayer>, p: SavedPlayer) -> Option<Seq<char>> {
    if saved_player_ids(earlier).contains(p.id@) {
        Some("Saved game state contains duplicate player '"@ + p.id@ + "'"@)
    } else if !has_player(g.players@, p.id@) {
        Some("Saved game state contains unknown player '"@ + p.id@ + "'"@)
    } else {
        pools_problem(g.players@[player_pos(g.players@, p.id@)].token_pools@, p.token_pools@, "player '"@ + p.id@ + "'"@)
    }
}

/// The first problem among saved players, in order.
pub open spec fn players_problem(g: GameState, ps: Seq<SavedPlayer>) -> Option<Seq<char>>
    decreases ps.len(),
{
    if ps.len() == 0 {
        None
    } else {
        match players_problem(g, ps.drop_last()) {
            Some(m) => Some(m),
            None => player_problem(g, ps.drop_last(), ps.last()),
        }
    }
}

/// Why a saved game cannot be restored into `g`: a problem with a zone or
/// its cards; another set of piles or cards than the game has; a problem
/// with a player; or not every player saved.
pub open spec fn restore_problem(g: GameState, zs: Seq<SavedZone>, ps: Seq<SavedPlayer>) -> Option<Seq<char>> {
    match zones_problem(g, zs) {
        Some(m) => Some(m),
        None => if zs.len() != ZONE_COUNT || flat_cards(zs).len() != g.cards@.len() {
            Some("Saved game state does not match the current deck and pile configuration"@)
        } else {
            match players_problem(g, ps) {
                Some(m) => Some(m),
                None => if ps.len() != g.players@.len() {
                    Some("Saved game state does not contain every player"@)
                } else {
                    None
                },
            }
        },
    }
}

/// No two entries of card pools share a card id, and the pools of each
/// entry have distinct ids.
pub open spec fn entries_wf(cp: Seq<CardTokenPools>) -> bool {
    &&& forall|a: int, b: int| 0 <= a < b < cp.len() ==> (#[trigger] cp[a]).card_id@ != (#[trigger] cp[b]).card_id@
    &&& forall|a: int| 0 <= a < cp.len() ==> unique_pool_ids((#[trigger] cp[a]).pools@)
}

/// The entries of card pools `cp` hold, for the saved cards `done`, their
/// restored pools, and for every other card what `g` holds.
pub open spec fn cards_restored(g: GameState, cp: Seq<CardTokenPools>, done: Seq<SavedCard>) -> bool {
    &&& entries_wf(cp)
    &&& saved_card_ids(done).no_duplicates()
    &&& forall|j: int| 0 <= j < done.len() ==> has_card(g.cards@, (#[trigger] done[j]).id@)
    &&& forall|j: int| 0 <= j < done.len() ==> has_card_pools(cp, (#[trigger] done[j]).id@)
        && card_pools_of(cp, done[j].id@) == restored(card_pools_of(g.card_token_pools@, done[j].id@), done[j].token_pools@)
    &&& forall|id: Seq<char>| !saved_card_ids(done).contains(id) ==> #[trigger] card_pools_of(cp, id) == card_pools_of(g.card_token_pools@, id)
        && (has_card_pools(cp, id) <==> has_card_pools(g.card_token_pools@, id))
}

/// Replacing an entry changes the pools of its card alone.
pub proof fn lemma_entry_set(cp: Seq<CardTokenPools>, i: int, e: CardTokenPools)
    requires
        0 <= i < cp.len(),
        e.card_id@ == cp[i].card_id@,
        entries_wf(cp),
        unique_pool_ids(e.pools@),
    ensures
        entries_wf(cp.update(i, e)),
        has_card_pools(cp.update(i, e), e.card_id@),
        card_pools_of(cp.update(i, e), e.card_id@) == e.pools@,
        forall|id: Seq<char>| id != e.card_id@ ==> #[trigger] card_pools_of(cp.update(i, e), id) == card_pools_of(cp, id)
            && (has_card_pools(cp.update(i, e), id) <==> has_card_pools(cp, id)),
{
    let np = cp.update(i, e);
    crate::zones::lemma_card_pools_update(cp, i, e);
    assert(has_card_pools(cp, e.card_id@)) by {
        assert(cp[i].card_id@ == e.card_id@);
    }
    let k = card_pools_pos(cp, e.card_id@);
    if k != i {
        if k < i {
            assert(cp[k].card_id@ != cp[i].card_id@);
        } else {
            assert(cp[i].card_id@ != cp[k].card_id@);
        }
    }
    assert forall|a: int| 0 <= a < np.len() implies unique_pool_ids((#[trigger] np[a]).pools@) by {
        if a != i {
            assert(np[a] == cp[a]);
        }
    }
    assert forall|id: Seq<char>| id != e.card_id@ implies #[trigger] card_pools_of(np, id) == card_pools_of(cp, id)
        && (has_card_pools(np, id) <==> has_card_pools(cp, id)) by {
        if has_card_pools(cp, id) {
            let m = card_pools_pos(cp, id);
            assert(cp[m].card_id@ == id);
            assert(m != i);
        }
    }
}

/// Adding an entry for a card without one changes the pools of that card
/// alone.
pub proof fn lemma_entry_push(cp: Seq<CardTokenPools>, e: CardTokenPools)
    requires
        !has_card_pools(cp, e.card_id@),
        entries_wf(cp),
        unique_pool_ids(e.pools@),
    ensures
        entries_wf(cp.push(e)),
        has_card_pools(cp.push(e), e.card_id@),
        card_pools_of(cp.push(e), e.card_id@) == e.pools@,
        forall|id: Seq<char>| id != e.card_id@ ==> #[trigger] card_pools_of(cp.push(e), id) == card_pools_of(cp, id)
            && (has_card_pools(cp.push(e), id) <==> has_card_pools(cp, id)),
{
    let np = cp.push(e);
    crate::zones::lemma_card_pools_push(cp, e);
    assert forall|a: int| 0 <= a < np.len() implies unique_pool_ids((#[trigger] np[a]).pools@) by {
        if a < cp.len() {
            assert(np[a] == cp[a]);
        }
    }
    assert forall|id: Seq<char>| id != e.card_id@ implies #[trigger] card_pools_of(np, id) == card_pools_of(cp, id)
        && (has_card_pools(np, id) <==> has_card_pools(cp, id)) by {
        if has_card_pools(cp, id) {
            let m = card_pools_pos(cp, id);
            assert(np[m] == cp[m]);
        }
    }
}

/// The position of the entry of a card, if any.
fn entry_index(cp: &Vec<CardTokenPools>, id: &str) -> (r: Option<usize>)
    requires
        entries_wf(cp@),
    ensures
        match r {
            Some(i) => i < cp@.len() && has_card_pools(cp@, id@) && i == card_pools_pos(cp@, id@) && cp@[i as int].card_id@ == id@,
            None => !has_card_pools(cp@, id@),
        },
{
    let mut i: usize = 0;
    while i < cp.len()
        invariant
            i <= cp@.len(),
            entries_wf(cp@),
            forall|k: int| 0 <= k < i ==> (#[trigger] cp@[k]).card_id@ != id@,
        decreases cp.len() - i,
    {
        if crate::text::str_is(cp[i].card_id.as_str(), id) {
            assert(has_card_pools(cp@, id@));
            proof {
                let k = card_pools_pos(cp@, id@);
                if k != i {
                    if k < i {
                        assert(cp@[k].card_id@ != id@);
                    } else {
                        assert(cp@[i as int].card_id@ != cp@[k].card_id@);
                    }
                }
            }
            return Some(i);
        }
        i += 1;
    }
    None
}

/// `after` is `before` with the pools of the entry's card replaced by the
/// entry's, every other card's pools as they were.
pub open spec fn entry_put(before: Seq<CardTokenPools>, after: Seq<CardTokenPools>, entry: CardTokenPools) -> bool {
    &&& entries_wf(after)
    &&& has_card_pools(after, entry.card_id@)
    &&& card_pools_of(after, entry.card_id@) == entry.pools@
    &&& forall|id: Seq<char>| id != entry.card_id@ ==> #[trigger] card_pools_of(after, id) == card_pools_of(before, id)
        && (has_card_pools(after, id) <==> has_card_pools(before, id))
}

/// Stores an entry of card pools at its position, or adds it.
pub(crate) fn put_entry(cp: &mut Vec<CardTokenPools>, e: Option<usize>, entry: CardTokenPools)
    requires
        entries_wf(old(cp)@),
        unique_pool_ids(entry.pools@),
        match e {
            Some(i) => i < old(cp)@.len() && old(cp)@[i as int].card_id@ == entry.card_id@,
            None => !has_card_pools(old(cp)@, entry.card_id@),
        },
    ensures
        entry_put(old(cp)@, final(cp)@, entry),
{
    let ghost before = cp@;
    let ghost ent = entry;
    match e {
        Some(i) => {
            proof { lemma_entry_set(before, i as int, ent); }
            cp.set(i, entry);
            assert(cp@ == before.update(i as int, ent));
        },
        None => {
            proof { lemma_entry_push(before, ent); }
            cp.push(entry);
            assert(cp@ == before.push(ent));
        },
    }
    assert(entry_put(before, cp@, ent));
}

pub proof fn lemma_cards_problem_prefix(g: GameState, seen: Seq<Seq<char>>, cs: Seq<SavedCard>, n: int)
    requires
        0 <= n <= cs.len(),
        cards_problem(g, seen, cs.take(n)) is Some,
    ensures
        cards_problem(g, seen, cs) == cards_problem(g, seen, cs.take(n)),
    decreases cs.len(),
{
    if n < cs.len() {
        assert(cs.drop_last().take(n) =~= cs.take(n));
        lemma_cards_problem_prefix(g, seen, cs.drop_last(), n);
    } else {
        assert(cs.take(n) =~= cs);
    }
}

/// Restores the saved pools of the cards of one zone into `cp`, after the
/// cards `done`; gives the card ids in order.
fn restore_zone_cards(
    g: &GameState,
    cp: &mut Vec<CardTokenPools>,
    seen: &mut Vec<String>,
    cards: &Vec<SavedCard>,
    Ghost(done): Ghost<Seq<SavedCard>>,
) -> (r: Result<Vec<String>, EngineError>)
    requires
        g.wf(),
        cards_restored(*g, old(cp)@, done),
        ids_view(old(seen)@) == saved_card_ids(done),
    ensures
        match cards_problem(*g, saved_card_ids(done), cards@) {
            Some(m) => fails_with(r, m),
            None => r matches Ok(ids) && ids_view(ids@) == saved_card_ids(cards@)
                && cards_restored(*g, final(cp)@, done + cards@)
                && ids_view(final(seen)@) == saved_card_ids(done + cards@),
        },
{
    let mut ids: Vec<String> = Vec::new();
    let ghost cs = cards@;
    let ghost seen0 = saved_card_ids(done);
    assert(cs.take(0) =~= Seq::<SavedCard>::empty());
    assert(done + cs.take(0) =~= done);
    let mut j: usize = 0;
    while j < cards.len()
        invariant
            cs == cards@,
            j <= cs.len(),
            g.wf(),
            seen0 == saved_card_ids(done),
            cards_problem(*g, seen0, cs.take(j as int)) is None,
            cards_restored(*g, cp@, done + cs.take(j as int)),
            ids_view(seen@) == saved_card_ids(done + cs.take(j as int)),
            ids_view(ids@) == saved_card_ids(cs.take(j as int)),
        decreases cs.len() - j,
    {
        let ghost sub = cs.take(j + 1);
        assert(sub.drop_last() =~= cs.take(j as int));
        assert(sub.last() == cs[j as int]);
        assert(seen0 + saved_card_ids(cs.take(j as int)) =~= saved_card_ids(done + cs.take(j as int)));
        let c = &cards[j];
        let known = g.card_index(c.id.as_str()).is_some();
        if !known || contains_string(seen, c.id.as_str()) {
            proof {
                if known {
                    let k = choose|k: int| 0 <= k < seen@.len() && #[trigger] seen@[k]@ == c.id@;
                    assert(saved_card_ids(done + cs.take(j as int))[k] == c.id@);
                }
                lemma_cards_problem_prefix(*g, seen0, cs, j + 1);
            }
            return Err(validation(concat3("Saved game state contains an unknown or duplicate card '", c.id.as_str(), "'")));
        }
        let ghost prior = done + cs.take(j as int);
        assert(!saved_card_ids(prior).contains(c.id@)) by {
            if saved_card_ids(prior).contains(c.id@) {
                let k = choose|k: int| 0 <= k < saved_card_ids(prior).len() && saved_card_ids(prior)[k] == c.id@;
                assert(seen@[k]@ == c.id@);
            }
        }
        let owner = concat3("card '", c.id.as_str(), "'");
        let ghost before = cp@;
        assert(card_pools_of(before, c.id@) == card_pools_of(g.card_token_pools@, c.id@));
        let e = entry_index(cp, c.id.as_str());
        let empty: Vec<TokenPool> = Vec::new();
        let restored_pools = match e {
            Some(i) => {
                assert(cp@[i as int].pools@ == card_pools_of(before, c.id@));
                restore_pools(&cp[i].pools, &c.token_pools, owner.as_str())
            },
            None => {
                assert(empty@ =~= card_pools_of(before, c.id@));
                restore_pools(&empty, &c.token_pools, owner.as_str())
            },
        };
        let pools = match restored_pools {
            Ok(v) => v,
            Err(m) => {
                proof { lemma_cards_problem_prefix(*g, seen0, cs, j + 1); }
                return Err(validation(m));
            },
        };
        assert(pools@ == restored(card_pools_of(g.card_token_pools@, c.id@), c.token_pools@));
        let entry = CardTokenPools { card_id: owned(c.id.as_str()), pools };
        let ghost ent = entry;
        put_entry(cp, e, entry);
        assert(entry_put(before, cp@, ent));
        let ghost after = done + sub;
        assert(after =~= prior.push(cs[j as int]));
        assert(saved_card_ids(after) =~= saved_card_ids(prior).push(c.id@));
        assert forall|id: Seq<char>| !saved_card_ids(after).contains(id) implies #[trigger] card_pools_of(cp@, id) == card_pools_of(g.card_token_pools@, id)
            && (has_card_pools(cp@, id) <==> has_card_pools(g.card_token_pools@, id)) by {
            assert(!saved_card_ids(prior).contains(id)) by {
                if saved_card_ids(prior).contains(id) {
                    let k = choose|k: int| 0 <= k < saved_card_ids(prior).len() && saved_card_ids(prior)[k] == id;
                    assert(saved_card_ids(after)[k] == id);
                }
            }
            assert(id != c.id@) by {
                assert(saved_card_ids(after)[prior.len() as int] == c.id@);
            }
        }
        assert forall|k: int| 0 <= k < after.len() implies has_card_pools(cp@, (#[trigger] after[k]).id@)
            && card_pools_of(cp@, after[k].id@) == restored(card_pools_of(g.card_token_pools@, after[k].id@), after[k].token_pools@) by {
            if k < prior.len() {
                assert(after[k] == prior[k]);
                assert(saved_card_ids(prior)[k] == prior[k].id@);
                assert(prior[k].id@ != c.id@);
                assert(card_pools_of(cp@, prior[k].id@) == card_pools_of(before, prior[k].id@));
            } else {
                assert(after[k] == cs[j as int]);
            }
        }
        assert forall|k: int| 0 <= k < after.len() implies has_card(g.cards@, (#[trigger] after[k]).id@) by {
            if k < prior.len() {
                assert(after[k] == prior[k]);
            }
        }
        let ghost old_seen = seen@;
        seen.push(owned(c.id.as_str()));
        assert(ids_view(seen@) =~= ids_view(old_seen).push(c.id@));
        let ghost old_ids = ids@;
        ids.push(owned(c.id.as_str()));
        assert(ids_view(ids@) =~= ids_view(old_ids).push(c.id@));
        assert(saved_card_ids(sub) =~= saved_card_ids(cs.take(j as int)).push(c.id@));
        j += 1;
    }
    assert(cs.take(cs.len() as int) =~= cs);
    Ok(ids)
}


/// What restoring a saved game leaves: the same cards; each saved zone
/// holding its saved cards and its pools restored; each card's pools
/// restored; each saved player's name and pools restored. Every card of the
/// game is in exactly one saved zone, and every zone is saved.
pub open spec fn snapshot_restored(g: GameState, s: GameState, zs: Seq<SavedZone>, ps: Seq<SavedPlayer>) -> bool {
    &&& s.cards == g.cards
    &&& forall|a: int| 0 <= a < zs.len() ==> zone_of_pile((#[trigger] zs[a]).id@) is Some
        && s.zone_ids()[pile_index(zs[a].id@)] == saved_card_ids(zs[a].cards@)
        && s.zone_token_pools@[pile_index(zs[a].id@)]@ == restored(g.zone_token_pools@[pile_index(zs[a].id@)]@, zs[a].token_pools@)
    &&& forall|k: int| 0 <= k < ZONE_COUNT ==> #[trigger] saved_pile_indices(zs).contains(k)
    &&& forall|a: int, b: int| 0 <= a < b < zs.len() ==> pile_index((#[trigger] zs[a]).id@) != pile_index((#[trigger] zs[b]).id@)
    &&& cards_restored(g, s.card_token_pools@, flat_cards(zs))
    &&& forall|id: Seq<char>| has_card(g.cards@, id) <==> #[trigger] saved_card_ids(flat_cards(zs)).contains(id)
    &&& s.players@.len() == g.players@.len()
    &&& forall|k: int| 0 <= k < s.players@.len() ==> (#[trigger] s.players@[k]).id@ == g.players@[k].id@
    &&& forall|a: int| 0 <= a < ps.len() ==> has_player(g.players@, (#[trigger] ps[a]).id@) && {
        let k = player_pos(g.players@, ps[a].id@);
        &&& s.players@[k].name@ == ps[a].name@
        &&& s.players@[k].token_pools@ == restored(g.players@[k].token_pools@, ps[a].token_pools@)
    }
}

/// A list without repeats whose items all occur in another list without
/// repeats of the same length has every item of that list.
pub proof fn lemma_distinct_cover<T>(a: Seq<T>, b: Seq<T>)
    requires
        a.no_duplicates(),
        b.no_duplicates(),
        a.len() == b.len(),
        forall|i: int| 0 <= i < a.len() ==> b.contains(#[trigger] a[i]),
    ensures
        forall|x: T| b.contains(x) ==> a.contains(x),
{
    a.unique_seq_to_set();
    b.unique_seq_to_set();
    assert(a.to_set().subset_of(b.to_set())) by {
        assert forall|x: T| a.to_set().contains(x) implies b.to_set().contains(x) by {
            let i = a.index_of(x);
            assert(b.contains(a[i]));
        }
    }
    vstd::set_lib::lemma_subset_equality(a.to_set(), b.to_set());
    assert forall|x: T| b.contains(x) implies a.contains(x) by {
        assert(b.to_set().contains(x));
        assert(a.to_set().contains(x));
    }
}

/// Two pile ids that name a zone name the same zone only when they are the
/// same id.
pub proof fn lemma_pile_index_distinct(x: Seq<char>, y: Seq<char>)
    requires
        zone_of_pile(x) is Some,
        zone_of_pile(y) is Some,
        x != y,
    ensures
        pile_index(x) != pile_index(y),
{
    let zx = zone_of_pile(x)->0;
    let zy = zone_of_pile(y)->0;
    crate::laws::law_pile_ids_round_trip(zx, x);
    crate::laws::law_pile_ids_round_trip(zy, y);
}

/// Copies of the entries of card pools.
fn copy_entries(cp: &Vec<CardTokenPools>) -> (r: Vec<CardTokenPools>)
    ensures
        r@.len() == cp@.len(),
        forall|i: int| 0 <= i < cp@.len() ==> (#[trigger] r@[i]).card_id@ == cp@[i].card_id@ && r@[i].pools@ == cp@[i].pools@,
{
    let mut r: Vec<CardTokenPools> = Vec::new();
    let mut i: usize = 0;
    while i < cp.len()
        invariant
            i <= cp@.len(),
            r@.len() == i,
            forall|j: int| 0 <= j < i ==> (#[trigger] r@[j]).card_id@ == cp@[j].card_id@ && r@[j].pools@ == cp@[j].pools@,
        decreases cp.len() - i,
    {
        r.push(CardTokenPools { card_id: owned(cp[i].card_id.as_str()), pools: duplicate_pools(&cp[i].pools) });
        i += 1;
    }
    r
}

/// Entries alike in ids and pools hold the same pools for each card.
pub proof fn lemma_entries_alike(a: Seq<CardTokenPools>, b: Seq<CardTokenPools>)
    requires
        a.len() == b.len(),
        forall|i: int| 0 <= i < a.len() ==> (#[trigger] a[i]).card_id@ == b[i].card_id@ && a[i].pools@ == b[i].pools@,
        entries_wf(b),
    ensures
        entries_wf(a),
        forall|id: Seq<char>| #[trigger] card_pools_of(a, id) == card_pools_of(b, id) && (has_card_pools(a, id) <==> has_card_pools(b, id)),
{
    assert forall|x: int, y: int| 0 <= x < y < a.len() implies (#[trigger] a[x]).card_id@ != (#[trigger] a[y]).card_id@ by {
        assert(b[x].card_id@ != b[y].card_id@);
    }
    assert forall|x: int| 0 <= x < a.len() implies unique_pool_ids((#[trigger] a[x]).pools@) by {
        assert(unique_pool_ids(b[x].pools@));
    }
    assert forall|id: Seq<char>| #[trigger] card_pools_of(a, id) == card_pools_of(b, id) && (has_card_pools(a, id) <==> has_card_pools(b, id)) by {
        if has_card_pools(b, id) {
            let j = card_pools_pos(b, id);
            assert(a[j].card_id@ == id);
            let i = card_pools_pos(a, id);
            if i != j {
                if i < j {
                    assert(a[i].card_id@ != a[j].card_id@);
                } else {
                    assert(a[j].card_id@ != a[i].card_id@);
                }
            }
        }
        if has_card_pools(a, id) {
            let i = card_pools_pos(a, id);
            assert(b[i].card_id@ == id);
        }
    }
}

/// Copies of the pools of each zone.
fn copy_zone_pools(zp: &Vec<Vec<TokenPool>>) -> (r: Vec<Vec<TokenPool>>)
    ensures
        r@.len() == zp@.len(),
        forall|k: int| 0 <= k < zp@.len() ==> (#[trigger] r@[k])@ == zp@[k]@,
{
    let mut r: Vec<Vec<TokenPool>> = Vec::new();
    let mut i: usize = 0;
    while i < zp.len()
        invariant
            i <= zp@.len(),
            r@.len() == i,
            forall|k: int| 0 <= k < i ==> (#[trigger] r@[k])@ == zp@[k]@,
        decreases zp.len() - i,
    {
        r.push(duplicate_pools(&zp[i]));
        i += 1;
    }
    r
}

/// Copies of the players.
fn copy_players(ps: &Vec<Player>) -> (r: Vec<Player>)
    ensures
        r@.len() == ps@.len(),
        forall|k: int| 0 <= k < ps@.len() ==> (#[trigger] r@[k]).id@ == ps@[k].id@ && r@[k].name@ == ps@[k].name@
            && r@[k].token_pools@ == ps@[k].token_pools@,
{
    let mut r: Vec<Player> = Vec::new();
    let mut i: usize = 0;
    while i < ps.len()
        invariant
            i <= ps@.len(),
            r@.len() == i,
            forall|k: int| 0 <= k < i ==> (#[trigger] r@[k]).id@ == ps@[k].id@ && r@[k].name@ == ps@[k].name@
                && r@[k].token_pools@ == ps@[k].token_pools@,
        decreases ps.len() - i,
    {
        r.push(Player {
            id: owned(ps[i].id.as_str()),
            name: owned(ps[i].name.as_str()),
            token_pools: duplicate_pools(&ps[i].token_pools),
        });
        i += 1;
    }
    r
}


pub proof fn lemma_zones_problem_prefix(g: GameState, zs: Seq<SavedZone>, n: int)
    requires
        0 <= n <= zs.len(),
        zones_problem(g, zs.take(n)) is Some,
    ensures
        zones_problem(g, zs) == zones_problem(g, zs.take(n)),
    decreases zs.len(),
{
    if n < zs.len() {
        assert(zs.drop_last().take(n) =~= zs.take(n));
        lemma_zones_problem_prefix(g, zs.drop_last(), n);
    } else {
        assert(zs.take(n) =~= zs);
    }
}

pub proof fn lemma_players_problem_prefix(g: GameState, ps: Seq<SavedPlayer>, n: int)
    requires
        0 <= n <= ps.len(),
        players_problem(g, ps.take(n)) is Some,
    ensures
        players_problem(g, ps) == players_problem(g, ps.take(n)),
    decreases ps.len(),
{
    if n < ps.len() {
        assert(ps.drop_last().take(n) =~= ps.take(n));
        lemma_players_problem_prefix(g, ps.drop_last(), n);
    } else {
        assert(ps.take(n) =~= ps);
    }
}

impl GameState {
    /// Restores a saved game: the cards of each zone, the counts and
    /// switches of every pool, and the players' names. The game's own cards,
    /// zones, players and pools are the reference: a saved game that names
    /// an unknown or repeated zone, card or player, leaves one out, or holds
    /// a count outside a pool's bounds is refused and nothing changes, so a
    /// restore can neither add, remove nor duplicate a card.
    #[verifier::loop_isolation(false)]
    #[verifier::spinoff_prover]
    #[verifier::rlimit(40)]
    pub fn restore_snapshot(&mut self, zones: Vec<SavedZone>, players: Vec<SavedPlayer>) -> (r: Result<(), EngineError>)
        requires
            old(self).wf(),
        ensures
            final(self).wf(),
            match restore_problem(*old(self), zones@, players@) {
                Some(m) => fails_with(r, m) && *final(self) == *old(self),
                None => r is Ok && snapshot_restored(*old(self), *final(self), zones@, players@),
            },
    {
        let ghost g = *self;
        let ghost zs = zones@;
        let mut zone_lists: Vec<Vec<String>> = Vec::new();
        let mut z: usize = 0;
        while z < ZONE_COUNT
            invariant
                z <= ZONE_COUNT,
                zone_lists@.len() == z,
            decreases ZONE_COUNT - z,
        {
            zone_lists.push(Vec::new());
            z += 1;
        }
        let mut zone_pools = copy_zone_pools(&self.zone_token_pools);
        let mut cp = copy_entries(&self.card_token_pools);
        proof {
            lemma_entries_alike(cp@, g.card_token_pools@);
            assert(flat_cards(zs.take(0)) =~= Seq::<SavedCard>::empty());
            assert(zs.take(0) =~= Seq::<SavedZone>::empty());
        }
        let mut seen_piles: Vec<String> = Vec::new();
        let mut seen_cards: Vec<String> = Vec::new();
        assert(ids_view(seen_piles@) =~= saved_zone_ids(zs.take(0)));
        assert(ids_view(seen_cards@) =~= saved_card_ids(flat_cards(zs.take(0))));
        let mut i: usize = 0;
        while i < zones.len()
            invariant
                *self == g,
                zs == zones@,
                i <= zs.len(),
                zones_problem(g, zs.take(i as int)) is None,
                ids_view(seen_piles@) == saved_zone_ids(zs.take(i as int)),
                ids_view(seen_cards@) == saved_card_ids(flat_cards(zs.take(i as int))),
                cards_restored(g, cp@, flat_cards(zs.take(i as int))),
                zone_lists@.len() == ZONE_COUNT,
                zone_pools@.len() == ZONE_COUNT,
                forall|k: int| 0 <= k < ZONE_COUNT ==> unique_pool_ids(#[trigger] zone_pools@[k]@),
                forall|a: int| 0 <= a < i ==> zone_of_pile((#[trigger] zs[a]).id@) is Some
                    && ids_view(zone_lists@[pile_index(zs[a].id@)]@) == saved_card_ids(zs[a].cards@)
                    && zone_pools@[pile_index(zs[a].id@)]@ == restored(g.zone_token_pools@[pile_index(zs[a].id@)]@, zs[a].token_pools@),
                forall|a: int, b: int| 0 <= a < b < i ==> pile_index((#[trigger] zs[a]).id@) != pile_index((#[trigger] zs[b]).id@),
                forall|k: int| 0 <= k < ZONE_COUNT && !saved_pile_indices(zs.take(i as int)).contains(k) ==> (#[trigger] zone_pools@[k])@ == g.zone_token_pools@[k]@,
            decreases zs.len() - i,
        {
            let ghost sub = zs.take(i + 1);
            assert(sub.drop_last() =~= zs.take(i as int));
            assert(sub.last() == zs[i as int]);
            let sz = &zones[i];
            let zone = match Zone::from_pile_id(sz.id.as_str()) {
                Some(zn) => zn,
                None => {
                    proof { lemma_zones_problem_prefix(g, zs, i + 1); }
                    return Err(validation(concat3("Saved game state contains an unknown or duplicate pile '", sz.id.as_str(), "'")));
                },
            };
            if contains_string(&seen_piles, sz.id.as_str()) {
                proof {
                    let k = choose|k: int| 0 <= k < seen_piles@.len() && #[trigger] seen_piles@[k]@ == sz.id@;
                    assert(saved_zone_ids(zs.take(i as int))[k] == sz.id@);
                    lemma_zones_problem_prefix(g, zs, i + 1);
                }
                return Err(validation(concat3("Saved game state contains an unknown or duplicate pile '", sz.id.as_str(), "'")));
            }
            assert(!saved_zone_ids(zs.take(i as int)).contains(sz.id@)) by {
                if saved_zone_ids(zs.take(i as int)).contains(sz.id@) {
                    let k = choose|k: int| 0 <= k < saved_zone_ids(zs.take(i as int)).len() && saved_zone_ids(zs.take(i as int))[k] == sz.id@;
                    assert(seen_piles@[k]@ == sz.id@);
                }
            }
            let k = zone.index();
            assert(k == pile_index(sz.id@));
            let owner = concat3("pile '", sz.id.as_str(), "'");
            let pools = match restore_pools(&self.zone_token_pools[k], &sz.token_pools, owner.as_str()) {
                Ok(v) => v,
                Err(m) => {
                    proof { lemma_zones_problem_prefix(g, zs, i + 1); }
                    return Err(validation(m));
                },
            };
            let ghost done = flat_cards(zs.take(i as int));
            let ids = match restore_zone_cards(self, &mut cp, &mut seen_cards, &sz.cards, Ghost(done)) {
                Ok(v) => v,
                Err(e) => {
                    proof { lemma_zones_problem_prefix(g, zs, i + 1); }
                    return Err(e);
                },
            };
            assert(flat_cards(sub) == done + sz.cards@);
            proof {
                assert forall|a: int| 0 <= a < i implies pile_index((#[trigger] zs[a]).id@) != k by {
                    assert(saved_zone_ids(zs.take(i as int))[a] == zs[a].id@);
                    lemma_pile_index_distinct(zs[a].id@, sz.id@);
                }
            }
            let ghost zp0 = zone_pools@;
            let ghost zl0 = zone_lists@;
            zone_pools.set(k, pools);
            zone_lists.set(k, ids);
            assert(saved_pile_indices(sub) =~= saved_pile_indices(zs.take(i as int)).push(k as int));
            assert forall|q: int| 0 <= q < ZONE_COUNT && !saved_pile_indices(sub).contains(q) implies (#[trigger] zone_pools@[q])@ == g.zone_token_pools@[q]@ by {
                assert(q != k) by {
                    assert(saved_pile_indices(sub)[i as int] == k);
                }
                if saved_pile_indices(zs.take(i as int)).contains(q) {
                    let x = choose|x: int| 0 <= x < i && saved_pile_indices(zs.take(i as int))[x] == q;
                    assert(saved_pile_indices(sub)[x] == q);
                }
            }
            assert forall|a: int| 0 <= a < i + 1 implies zone_of_pile((#[trigger] zs[a]).id@) is Some
                && ids_view(zone_lists@[pile_index(zs[a].id@)]@) == saved_card_ids(zs[a].cards@)
                && zone_pools@[pile_index(zs[a].id@)]@ == restored(g.zone_token_pools@[pile_index(zs[a].id@)]@, zs[a].token_pools@) by {
                if a < i {
                    assert(zone_pools@[pile_index(zs[a].id@)] == zp0[pile_index(zs[a].id@)]);
                    assert(zone_lists@[pile_index(zs[a].id@)] == zl0[pile_index(zs[a].id@)]);
                }
            }
            let ghost sp0 = seen_piles@;
            seen_piles.push(owned(sz.id.as_str()));
            assert(ids_view(seen_piles@) =~= ids_view(sp0).push(sz.id@));
            assert(saved_zone_ids(sub) =~= saved_zone_ids(zs.take(i as int)).push(sz.id@));
            i += 1;
        }
        assert(zs.take(zs.len() as int) =~= zs);
        if zones.len() != ZONE_COUNT || seen_cards.len() != self.cards.len() {
            return Err(validation(owned("Saved game state does not match the current deck and pile configuration")));
        }
        let ghost ps = players@;
        let mut np = copy_players(&self.players);
        let mut seen_players: Vec<String> = Vec::new();
        assert(ps.take(0) =~= Seq::<SavedPlayer>::empty());
        assert(ids_view(seen_players@) =~= saved_player_ids(ps.take(0)));
        let mut j: usize = 0;
        while j < players.len()
            invariant
                *self == g,
                ps == players@,
                j <= ps.len(),
                zones_problem(g, zs) is None,
                zs.len() == ZONE_COUNT,
                flat_cards(zs).len() == g.cards@.len(),
                players_problem(g, ps.take(j as int)) is None,
                ids_view(seen_players@) == saved_player_ids(ps.take(j as int)),
                np@.len() == g.players@.len(),
                forall|k: int| 0 <= k < np@.len() ==> (#[trigger] np@[k]).id@ == g.players@[k].id@
                    && unique_pool_ids(np@[k].token_pools@),
                forall|a: int| 0 <= a < j ==> has_player(g.players@, (#[trigger] ps[a]).id@) && {
                    let k = player_pos(g.players@, ps[a].id@);
                    &&& np@[k].name@ == ps[a].name@
                    &&& np@[k].token_pools@ == restored(g.players@[k].token_pools@, ps[a].token_pools@)
                },
            decreases ps.len() - j,
        {
            let ghost sub = ps.take(j + 1);
            assert(sub.drop_last() =~= ps.take(j as int));
            assert(sub.last() == ps[j as int]);
            let sp = &players[j];
            if contains_string(&seen_players, sp.id.as_str()) {
                proof {
                    let k = choose|k: int| 0 <= k < seen_players@.len() && #[trigger] seen_players@[k]@ == sp.id@;
                    assert(saved_player_ids(ps.take(j as int))[k] == sp.id@);
                    lemma_players_problem_prefix(g, ps, j + 1);
                }
                return Err(validation(concat3("Saved game state contains duplicate player '", sp.id.as_str(), "'")));
            }
            assert(!saved_player_ids(ps.take(j as int)).contains(sp.id@)) by {
                if saved_player_ids(ps.take(j as int)).contains(sp.id@) {
                    let k = choose|k: int| 0 <= k < saved_player_ids(ps.take(j as int)).len() && saved_player_ids(ps.take(j as int))[k] == sp.id@;
                    assert(seen_players@[k]@ == sp.id@);
                }
            }
            let k = match self.player_index(sp.id.as_str()) {
                Some(k) => k,
                None => {
                    proof { lemma_players_problem_prefix(g, ps, j + 1); }
                    return Err(validation(concat3("Saved game state contains unknown player '", sp.id.as_str(), "'")));
                },
            };
            let owner = concat3("player '", sp.id.as_str(), "'");
            let pools = match restore_pools(&self.players[k].token_pools, &sp.token_pools, owner.as_str()) {
                Ok(v) => v,
                Err(m) => {
                    proof { lemma_players_problem_prefix(g, ps, j + 1); }
                    return Err(validation(m));
                },
            };
            let ghost np0 = np@;
            np.set(k, Player { id: owned(self.players[k].id.as_str()), name: owned(sp.name.as_str()), token_pools: pools });
            assert forall|a: int| 0 <= a < j + 1 implies has_player(g.players@, (#[trigger] ps[a]).id@) && {
                let q = player_pos(g.players@, ps[a].id@);
                &&& np@[q].name@ == ps[a].name@
                &&& np@[q].token_pools@ == restored(g.players@[q].token_pools@, ps[a].token_pools@)
            } by {
                if a < j {
                    let q = player_pos(g.players@, ps[a].id@);
                    assert(saved_player_ids(ps.take(j as int))[a] == ps[a].id@);
                    assert(g.players@[q].id@ == ps[a].id@);
                    assert(g.players@[k as int].id@ == sp.id@);
                    assert(q != k);
                    assert(np@[q] == np0[q]);
                }
            }
            let ghost sp0 = seen_players@;
            seen_players.push(owned(sp.id.as_str()));
            assert(ids_view(seen_players@) =~= ids_view(sp0).push(sp.id@));
            assert(saved_player_ids(sub) =~= saved_player_ids(ps.take(j as int)).push(sp.id@));
            j += 1;
        }
        assert(ps.take(ps.len() as int) =~= ps);
        if players.len() != self.players.len() {
            return Err(validation(owned("Saved game state does not contain every player")));
        }
        proof {
            let flat = flat_cards(zs);
            let card_ids = g.cards@.map_values(|c: crate::card::Card| c.id@);
            assert(card_ids.no_duplicates()) by {
                assert forall|a: int, b: int| 0 <= a < card_ids.len() && 0 <= b < card_ids.len() && a != b implies card_ids[a] != card_ids[b] by {
                    if a < b {
                        assert(g.cards@[a].id@ != g.cards@[b].id@);
                    } else {
                        assert(g.cards@[b].id@ != g.cards@[a].id@);
                    }
                }
            }
            assert forall|x: int| 0 <= x < saved_card_ids(flat).len() implies card_ids.contains(#[trigger] saved_card_ids(flat)[x]) by {
                assert(has_card(g.cards@, flat[x].id@));
                let c = choose|c: int| 0 <= c < g.cards@.len() && (#[trigger] g.cards@[c]).id@ == flat[x].id@;
                assert(card_ids[c] == flat[x].id@);
            }
            lemma_distinct_cover(saved_card_ids(flat), card_ids);
            assert forall|id: Seq<char>| has_card(g.cards@, id) <==> #[trigger] saved_card_ids(flat).contains(id) by {
                if has_card(g.cards@, id) {
                    let c = choose|c: int| 0 <= c < g.cards@.len() && (#[trigger] g.cards@[c]).id@ == id;
                    assert(card_ids[c] == id);
                }
                if saved_card_ids(flat).contains(id) {
                    let x = choose|x: int| 0 <= x < saved_card_ids(flat).len() && saved_card_ids(flat)[x] == id;
                    assert(has_card(g.cards@, flat[x].id@));
                }
            }
            let idx = saved_pile_indices(zs);
            let all = Seq::new(ZONE_COUNT as nat, |q: int| q);
            assert(idx.no_duplicates()) by {
                assert forall|a: int, b: int| 0 <= a < idx.len() && 0 <= b < idx.len() && a != b implies idx[a] != idx[b] by {
                    if a < b {
                        assert(pile_index(zs[a].id@) != pile_index(zs[b].id@));
                    } else {
                        assert(pile_index(zs[b].id@) != pile_index(zs[a].id@));
                    }
                }
            }
            assert(all.no_duplicates());
            assert forall|x: int| 0 <= x < idx.len() implies all.contains(#[trigger] idx[x]) by {
                let zn = zone_of_pile(zs[x].id@)->0;
                assert(0 <= zone_index(zn) < ZONE_COUNT);
                assert(all[idx[x]] == idx[x]);
            }
            lemma_distinct_cover(idx, all);
            assert forall|q: int| 0 <= q < ZONE_COUNT implies #[trigger] idx.contains(q) by {
                assert(all[q] == q);
            }
        }
        self.zones = zone_lists;
        self.zone_token_pools = zone_pools;
        self.card_token_pools = cp;
        self.players = np;
        proof {
            assert forall|a: int, b: int| 0 <= a < b < self.players@.len() implies (#[trigger] self.players@[a]).id@ != (#[trigger] self.players@[b]).id@ by {
                assert(g.players@[a].id@ != g.players@[b].id@);
            }
        }
        Ok(())
    }
}

} // verus!
