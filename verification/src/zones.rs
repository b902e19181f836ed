//! Zones of the table, the game state that places cards in them, and the
//! token pools of players, zones and cards.
use vstd::prelude::*;
use vstd::string::*;

use crate::card::Card;
use crate::engine::{fails_with, validation_message, EngineError};
use crate::player::{is_default_life, unique_pool_ids, Player, DEFAULT_PLAYER_ID};
use crate::text::{concat3, owned, str_is};
use crate::text::{ascii_lower, ascii_lower_chars, chars_of, contains_chars, contains_sub, trim, trim_chars, trimmed, contains_string};
use crate::token_pools::{added, removed, add_problem, pool_problem, remove_problem, TokenPool};

verus! {

/// A zone of the table that holds cards.
#[derive(Clone, Copy, Debug, PartialEq, Eq, Hash, Structural)]
pub enum Zone {
    MainStack,
    CommanderPile,
    Hand,
    Lands,
    Deck,
    Discard,
    Exile,
    Artifacts,
    Enchantments,
    Creatures,
    Battlefield,
}

/// The number of zones.
pub const ZONE_COUNT: usize = 11;

/// The position of a zone in the game state.
pub open spec fn zone_index(z: Zone) -> int {
    match z {
        Zone::MainStack => 0,
        Zone::CommanderPile => 1,
        Zone::Hand => 2,
        Zone::Lands => 3,
        Zone::Deck => 4,
        Zone::Discard => 5,
        Zone::Exile => 6,
        Zone::Artifacts => 7,
        Zone::Enchantments => 8,
        Zone::Creatures => 9,
        Zone::Battlefield => 10,
    }
}

/// The name a zone is displayed with.
pub open spec fn zone_name(z: Zone) -> Seq<char> {
    match z {
        Zone::MainStack => "MainStack"@,
        Zone::CommanderPile => "CommanderPile"@,
        Zone::Hand => "Hand"@,
        Zone::Lands => "Lands"@,
        Zone::Deck => "Deck"@,
        Zone::Discard => "Discard"@,
        Zone::Exile => "Exile"@,
        Zone::Artifacts => "Artifacts"@,
        Zone::Enchantments => "Enchantments"@,
        Zone::Creatures => "Creatures"@,
        Zone::Battlefield => "Battlefield"@,
    }
}

/// The zone with a given pile id.
pub open spec fn zone_of_pile(s: Seq<char>) -> Option<Zone> {
    if s == "main_stack"@ {
        Some(Zone::MainStack)
    } else if s == "commander_pile"@ {
        Some(Zone::CommanderPile)
    } else if s == "hand"@ {
        Some(Zone::Hand)
    } else if s == "lands"@ {
        Some(Zone::Lands)
    } else if s == "deck"@ {
        Some(Zone::Deck)
    } else if s == "discard"@ {
        Some(Zone::Discard)
    } else if s == "exile"@ {
        Some(Zone::Exile)
    } else if s == "artifacts"@ {
        Some(Zone::Artifacts)
    } else if s == "enchantments"@ {
        Some(Zone::Enchantments)
    } else if s == "creatures"@ {
        Some(Zone::Creatures)
    } else if s == "battlefield"@ {
        Some(Zone::Battlefield)
    } else {
        None
    }
}

impl Zone {
    /// The position of the zone in the game state.
    pub fn index(self) -> (i: usize)
        ensures
            i == zone_index(self),
            i < ZONE_COUNT,
    {
        match self {
            Zone::MainStack => 0,
            Zone::CommanderPile => 1,
            Zone::Hand => 2,
            Zone::Lands => 3,
            Zone::Deck => 4,
            Zone::Discard => 5,
            Zone::Exile => 6,
            Zone::Artifacts => 7,
            Zone::Enchantments => 8,
            Zone::Creatures => 9,
            Zone::Battlefield => 10,
        }
    }

    /// The zone a pile id names.
    pub fn from_pile_id(value: &str) -> (r: Option<Self>)
        ensures
            r == zone_of_pile(value@),
    {
        if str_is(value, "main_stack") {
            Some(Zone::MainStack)
        } else if str_is(value, "commander_pile") {
            Some(Zone::CommanderPile)
        } else if str_is(value, "hand") {
            Some(Zone::Hand)
        } else if str_is(value, "lands") {
            Some(Zone::Lands)
        } else if str_is(value, "deck") {
            Some(Zone::Deck)
        } else if str_is(value, "discard") {
            Some(Zone::Discard)
        } else if str_is(value, "exile") {
            Some(Zone::Exile)
        } else if str_is(value, "artifacts") {
            Some(Zone::Artifacts)
        } else if str_is(value, "enchantments") {
            Some(Zone::Enchantments)
        } else if str_is(value, "creatures") {
            Some(Zone::Creatures)
        } else if str_is(value, "battlefield") {
            Some(Zone::Battlefield)
        } else {
            None
        }
    }

    /// Whether the zone is part of the battlefield.
    pub fn is_battlefield(&self) -> (r: bool)
        ensures
            r == (*self == Zone::Lands || *self == Zone::Artifacts || *self == Zone::Enchantments
                || *self == Zone::Creatures || *self == Zone::Battlefield),
    {
        match self {
            Zone::Lands | Zone::Artifacts | Zone::Enchantments | Zone::Creatures
            | Zone::Battlefield => true,
            _ => false,
        }
    }

    /// The name the zone is displayed with.
    pub fn name(self) -> (r: &'static str)
        ensures
            r@ == zone_name(self),
    {
        match self {
            Zone::MainStack => "MainStack",
            Zone::CommanderPile => "CommanderPile",
            Zone::Hand => "Hand",
            Zone::Lands => "Lands",
            Zone::Deck => "Deck",
            Zone::Discard => "Discard",
            Zone::Exile => "Exile",
            Zone::Artifacts => "Artifacts",
            Zone::Enchantments => "Enchantments",
            Zone::Creatures => "Creatures",
            Zone::Battlefield => "Battlefield",
        }
    }
}

/// The token pools of one card.
#[derive(Clone, Debug)]
pub struct CardTokenPools {
    pub card_id: String,
    pub pools: Vec<TokenPool>,
}

/// The cards of a game, where each zone holds its cards (the top of a pile
/// is its last card), and the token pools of players, zones and cards.
#[derive(Clone, Debug)]
pub struct GameState {
    pub cards: Vec<Card>,
    pub zones: Vec<Vec<String>>,
    pub players: Vec<Player>,
    pub zone_token_pools: Vec<Vec<TokenPool>>,
    pub card_token_pools: Vec<CardTokenPools>,
}

/// No two cards share an id.
pub open spec fn unique_card_ids(cs: Seq<Card>) -> bool {
    forall|i: int, j: int| 0 <= i < j < cs.len() ==> (#[trigger] cs[i]).id@ != (#[trigger] cs[j]).id@
}

/// Whether a card with the given id is in the list.
pub open spec fn has_card(cs: Seq<Card>, id: Seq<char>) -> bool {
    exists|i: int| 0 <= i < cs.len() && (#[trigger] cs[i]).id@ == id
}

/// The card with the given id.
pub open spec fn card_with(cs: Seq<Card>, id: Seq<char>) -> Card {
    cs[choose|i: int| 0 <= i < cs.len() && (#[trigger] cs[i]).id@ == id]
}

/// A list of cards, each replaced by a later card with the same id: what a
/// map keyed by id holds once the cards are inserted in order.
pub open spec fn upsert_card(cs: Seq<Card>, c: Card) -> Seq<Card> {
    if has_card(cs, c.id@) {
        cs.update(choose|i: int| 0 <= i < cs.len() && (#[trigger] cs[i]).id@ == c.id@, c)
    } else {
        cs.push(c)
    }
}

/// The cards keyed by id, later ones replacing earlier ones.
pub open spec fn collect_cards(cs: Seq<Card>) -> Seq<Card>
    decreases cs.len(),
{
    if cs.len() == 0 {
        Seq::empty()
    } else {
        upsert_card(collect_cards(cs.drop_last()), cs.last())
    }
}

/// Whether a pool with the given id is in the list.
pub open spec fn has_pool(ps: Seq<TokenPool>, id: Seq<char>) -> bool {
    exists|i: int| 0 <= i < ps.len() && (#[trigger] ps[i]).id@ == id
}

/// The pool with the given id.
pub open spec fn pool_with(ps: Seq<TokenPool>, id: Seq<char>) -> TokenPool {
    ps[pool_pos(ps, id)]
}

/// The position of the pool with the given id.
pub open spec fn pool_pos(ps: Seq<TokenPool>, id: Seq<char>) -> int {
    choose|i: int| 0 <= i < ps.len() && (#[trigger] ps[i]).id@ == id
}

/// A pool list with `p` stored under its id, replacing a pool of that id.
pub open spec fn upsert_pool(ps: Seq<TokenPool>, p: TokenPool) -> Seq<TokenPool> {
    if has_pool(ps, p.id@) {
        ps.update(pool_pos(ps, p.id@), p)
    } else {
        ps.push(p)
    }
}

/// The pools keyed by id, later ones replacing earlier ones.
pub open spec fn collect_pools(ps: Seq<TokenPool>) -> Seq<TokenPool>
    decreases ps.len(),
{
    if ps.len() == 0 {
        Seq::empty()
    } else {
        upsert_pool(collect_pools(ps.drop_last()), ps.last())
    }
}

/// The cards that come with token pools.
pub open spec fn cards_with_pools(cs: Seq<Card>) -> Seq<Card>
    decreases cs.len(),
{
    if cs.len() == 0 {
        Seq::empty()
    } else if cs.last().token_pools@.len() > 0 {
        cards_with_pools(cs.drop_last()).push(cs.last())
    } else {
        cards_with_pools(cs.drop_last())
    }
}

/// The ids of a list of strings.
pub open spec fn ids_view(v: Seq<String>) -> Seq<Seq<char>> {
    v.map_values(|s: String| s@)
}

/// The card ids each zone holds, by zone position.
pub open spec fn zones_view(zs: Seq<Vec<String>>) -> Seq<Seq<Seq<char>>> {
    zs.map_values(|z: Vec<String>| ids_view(z@))
}

/// Whether a player with the given id is in the list.
pub open spec fn has_player(ps: Seq<Player>, id: Seq<char>) -> bool {
    exists|i: int| 0 <= i < ps.len() && (#[trigger] ps[i]).id@ == id
}

/// The position of the player with the given id.
pub open spec fn player_pos(ps: Seq<Player>, id: Seq<char>) -> int {
    choose|i: int| 0 <= i < ps.len() && (#[trigger] ps[i]).id@ == id
}

/// Whether a card has an entry of token pools.
pub open spec fn has_card_pools(cp: Seq<CardTokenPools>, id: Seq<char>) -> bool {
    exists|i: int| 0 <= i < cp.len() && (#[trigger] cp[i]).card_id@ == id
}

/// The position of a card's entry of token pools.
pub open spec fn card_pools_pos(cp: Seq<CardTokenPools>, id: Seq<char>) -> int {
    choose|i: int| 0 <= i < cp.len() && (#[trigger] cp[i]).card_id@ == id
}

impl GameState {
    /// The state is well formed: every zone is present, and ids are unique
    /// among cards, players, entries of card pools, and the pools of each
    /// owner.
    pub open spec fn wf(&self) -> bool {
        &&& self.zones@.len() == ZONE_COUNT
        &&& self.zone_token_pools@.len() == ZONE_COUNT
        &&& unique_card_ids(self.cards@)
        &&& forall|i: int, j: int|
            0 <= i < j < self.players@.len() ==> (#[trigger] self.players@[i]).id@ != (
            #[trigger] self.players@[j]).id@
        &&& forall|i: int, j: int|
            0 <= i < j < self.card_token_pools@.len() ==> (
            #[trigger] self.card_token_pools@[i]).card_id@ != (
            #[trigger] self.card_token_pools@[j]).card_id@
        &&& forall|i: int|
            0 <= i < self.players@.len() ==> unique_pool_ids((#[trigger] self.players@[i]).token_pools@)
        &&& forall|i: int|
            0 <= i < ZONE_COUNT ==> unique_pool_ids(#[trigger] self.zone_token_pools@[i]@)
        &&& forall|i: int|
            0 <= i < self.card_token_pools@.len() ==> unique_pool_ids(
                (#[trigger] self.card_token_pools@[i]).pools@,
            )
    }

    /// The card ids each zone holds.
    pub open spec fn zone_ids(&self) -> Seq<Seq<Seq<char>>> {
        zones_view(self.zones@)
    }
}


pub proof fn lemma_upsert_card_unique(cs: Seq<Card>, c: Card)
    requires
        unique_card_ids(cs),
    ensures
        unique_card_ids(upsert_card(cs, c)),
        forall|id: Seq<char>| has_card(upsert_card(cs, c), id) <==> (has_card(cs, id) || id == c.id@),
{
    let r = upsert_card(cs, c);
    if has_card(cs, c.id@) {
        let k = choose|i: int| 0 <= i < cs.len() && (#[trigger] cs[i]).id@ == c.id@;
        assert forall|i: int, j: int| 0 <= i < j < r.len() implies (#[trigger] r[i]).id@ != (#[trigger] r[j]).id@ by {
            if i == k {
                assert(cs[j].id@ != cs[k].id@);
            } else if j == k {
                assert(cs[i].id@ != cs[k].id@);
            }
        }
        assert forall|id: Seq<char>| has_card(r, id) <==> (has_card(cs, id) || id == c.id@) by {
            if has_card(cs, id) {
                let m = choose|i: int| 0 <= i < cs.len() && (#[trigger] cs[i]).id@ == id;
                if m == k {
                    assert(r[k].id@ == id);
                } else {
                    assert(r[m].id@ == id);
                }
            }
            if id == c.id@ {
                assert(r[k].id@ == id);
            }
            if has_card(r, id) {
                let m = choose|i: int| 0 <= i < r.len() && (#[trigger] r[i]).id@ == id;
                if m != k {
                    assert(cs[m].id@ == id);
                }
            }
        }
    } else {
        assert forall|i: int, j: int| 0 <= i < j < r.len() implies (#[trigger] r[i]).id@ != (#[trigger] r[j]).id@ by {
            if j == cs.len() {
                assert(r[i] == cs[i]);
            }
        }
        assert forall|id: Seq<char>| has_card(r, id) <==> (has_card(cs, id) || id == c.id@) by {
            if has_card(cs, id) {
                let m = choose|i: int| 0 <= i < cs.len() && (#[trigger] cs[i]).id@ == id;
                assert(r[m].id@ == id);
            }
            if id == c.id@ {
                assert(r[cs.len() as int].id@ == id);
            }
            if has_card(r, id) {
                let m = choose|i: int| 0 <= i < r.len() && (#[trigger] r[i]).id@ == id;
                if m < cs.len() {
                    assert(cs[m].id@ == id);
                }
            }
        }
    }
}

pub proof fn lemma_collect_cards_unique(cs: Seq<Card>)
    ensures
        unique_card_ids(collect_cards(cs)),
    decreases cs.len(),
{
    if cs.len() > 0 {
        lemma_collect_cards_unique(cs.drop_last());
        lemma_upsert_card_unique(collect_cards(cs.drop_last()), cs.last());
    }
}

pub proof fn lemma_upsert_pool_unique(ps: Seq<TokenPool>, p: TokenPool)
    requires
        unique_pool_ids(ps),
    ensures
        unique_pool_ids(upsert_pool(ps, p)),
        forall|id: Seq<char>| has_pool(upsert_pool(ps, p), id) <==> (has_pool(ps, id) || id == p.id@),
{
    let r = upsert_pool(ps, p);
    if has_pool(ps, p.id@) {
        let k = pool_pos(ps, p.id@);
        assert forall|i: int, j: int| 0 <= i < j < r.len() implies (#[trigger] r[i]).id@ != (#[trigger] r[j]).id@ by {
            if i == k {
                assert(ps[j].id@ != ps[k].id@);
            } else if j == k {
                assert(ps[i].id@ != ps[k].id@);
            }
        }
        assert forall|id: Seq<char>| has_pool(r, id) <==> (has_pool(ps, id) || id == p.id@) by {
            if has_pool(ps, id) {
                let m = choose|i: int| 0 <= i < ps.len() && (#[trigger] ps[i]).id@ == id;
                if m == k {
                    assert(r[k].id@ == id);
                } else {
                    assert(r[m].id@ == id);
                }
            }
            if id == p.id@ {
                assert(r[k].id@ == id);
            }
            if has_pool(r, id) {
                let m = choose|i: int| 0 <= i < r.len() && (#[trigger] r[i]).id@ == id;
                if m != k {
                    assert(ps[m].id@ == id);
                }
            }
        }
    } else {
        assert forall|i: int, j: int| 0 <= i < j < r.len() implies (#[trigger] r[i]).id@ != (#[trigger] r[j]).id@ by {
            if j == ps.len() {
                assert(r[i] == ps[i]);
            }
        }
        assert forall|id: Seq<char>| has_pool(r, id) <==> (has_pool(ps, id) || id == p.id@) by {
            if has_pool(ps, id) {
                let m = choose|i: int| 0 <= i < ps.len() && (#[trigger] ps[i]).id@ == id;
                assert(r[m].id@ == id);
            }
            if id == p.id@ {
                assert(r[ps.len() as int].id@ == id);
            }
            if has_pool(r, id) {
                let m = choose|i: int| 0 <= i < r.len() && (#[trigger] r[i]).id@ == id;
                if m < ps.len() {
                    assert(ps[m].id@ == id);
                }
            }
        }
    }
}

pub proof fn lemma_collect_pools_unique(ps: Seq<TokenPool>)
    ensures
        unique_pool_ids(collect_pools(ps)),
    decreases ps.len(),
{
    if ps.len() > 0 {
        lemma_collect_pools_unique(ps.drop_last());
        lemma_upsert_pool_unique(collect_pools(ps.drop_last()), ps.last());
    }
}

pub proof fn lemma_cards_with_pools_unique(cs: Seq<Card>)
    requires
        unique_card_ids(cs),
    ensures
        unique_card_ids(cards_with_pools(cs)),
        forall|i: int| 0 <= i < cards_with_pools(cs).len() ==> has_card(cs, (#[trigger] cards_with_pools(cs)[i]).id@),
    decreases cs.len(),
{
    if cs.len() > 0 {
        let d = cs.drop_last();
        assert(unique_card_ids(d)) by {
            assert forall|i: int, j: int| 0 <= i < j < d.len() implies (#[trigger] d[i]).id@ != (#[trigger] d[j]).id@ by {
                assert(d[i] == cs[i] && d[j] == cs[j]);
            }
        }
        lemma_cards_with_pools_unique(d);
        let w = cards_with_pools(d);
        let r = cards_with_pools(cs);
        assert forall|i: int| 0 <= i < w.len() implies (#[trigger] w[i]).id@ != cs.last().id@ by {
            let m = choose|k: int| 0 <= k < d.len() && (#[trigger] d[k]).id@ == w[i].id@;
            assert(cs[m] == d[m]);
        }
        assert forall|i: int| 0 <= i < r.len() implies has_card(cs, (#[trigger] r[i]).id@) by {
            if i < w.len() {
                assert(r[i] == w[i]);
                let m = choose|k: int| 0 <= k < d.len() && (#[trigger] d[k]).id@ == w[i].id@;
                assert(cs[m] == d[m]);
            } else {
                assert(cs[cs.len() - 1].id@ == r[i].id@);
            }
        }
        if cs.last().token_pools@.len() > 0 {
            assert forall|i: int, j: int| 0 <= i < j < r.len() implies (#[trigger] r[i]).id@ != (#[trigger] r[j]).id@ by {
                if j == w.len() {
                    assert(r[i] == w[i]);
                } else {
                    assert(r[i] == w[i] && r[j] == w[j]);
                }
            }
        }
    }
}

/// Stores a card under its id, replacing a card with that id.
fn upsert_card_exec(cs: &mut Vec<Card>, c: Card)
    requires
        unique_card_ids(old(cs)@),
    ensures
        final(cs)@ == upsert_card(old(cs)@, c),
{
    let mut i: usize = 0;
    while i < cs.len()
        invariant
            i <= cs@.len(),
            forall|k: int| 0 <= k < i ==> (#[trigger] cs@[k]).id@ != c.id@,
            unique_card_ids(cs@),
            cs@ == old(cs)@,
        decreases cs.len() - i,
    {
        if str_is(cs[i].id.as_str(), c.id.as_str()) {
            assert(has_card(cs@, c.id@));
            proof {
                let k = choose|k: int| 0 <= k < cs@.len() && (#[trigger] cs@[k]).id@ == c.id@;
                if k != i {
                    if k < i {
                        assert(cs@[k].id@ != c.id@);
                    } else {
                        assert(cs@[i as int].id@ != cs@[k].id@);
                    }
                }
            }
            cs.set(i, c);
            return;
        }
        i += 1;
    }
    cs.push(c);
}


/// Stores a pool under its id, replacing a pool with that id.
fn upsert_pool_exec(ps: &mut Vec<TokenPool>, p: TokenPool)
    requires
        unique_pool_ids(old(ps)@),
    ensures
        final(ps)@ == upsert_pool(old(ps)@, p),
        unique_pool_ids(final(ps)@),
{
    proof {
        lemma_upsert_pool_unique(ps@, p);
    }
    let mut i: usize = 0;
    while i < ps.len()
        invariant
            i <= ps@.len(),
            forall|k: int| 0 <= k < i ==> (#[trigger] ps@[k]).id@ != p.id@,
            unique_pool_ids(ps@),
            ps@ == old(ps)@,
        decreases ps.len() - i,
    {
        if str_is(ps[i].id.as_str(), p.id.as_str()) {
            assert(has_pool(ps@, p.id@));
            proof {
                let k = pool_pos(ps@, p.id@);
                if k != i {
                    if k < i {
                        assert(ps@[k].id@ != p.id@);
                    } else {
                        assert(ps@[i as int].id@ != ps@[k].id@);
                    }
                }
            }
            ps.set(i, p);
            return;
        }
        i += 1;
    }
    ps.push(p);
}

/// Copies of the pools, keyed by id, later ones replacing earlier ones.
fn collect_pools_exec(ps: &Vec<TokenPool>) -> (r: Vec<TokenPool>)
    ensures
        r@ == collect_pools(ps@),
        unique_pool_ids(r@),
{
    let mut r: Vec<TokenPool> = Vec::new();
    let mut i: usize = 0;
    assert(ps@.take(0) =~= Seq::<TokenPool>::empty());
    while i < ps.len()
        invariant
            i <= ps@.len(),
            r@ == collect_pools(ps@.take(i as int)),
            unique_pool_ids(r@),
        decreases ps.len() - i,
    {
        assert(ps@.take(i + 1).drop_last() =~= ps@.take(i as int));
        upsert_pool_exec(&mut r, ps[i].duplicate());
        i += 1;
    }
    assert(ps@.take(ps.len() as int) =~= ps@);
    r
}

impl GameState {
    /// A new game of the given cards (a card replaces an earlier one with the
    /// same id): every zone empty, the default player, no zone pools, and
    /// for each card that comes with token pools, those pools keyed by id.
    pub fn new(cards: Vec<Card>) -> (g: Self)
        ensures
            g.wf(),
            g.cards@ == collect_cards(cards@),
            forall|i: int| 0 <= i < ZONE_COUNT ==> (#[trigger] g.zones@[i])@.len() == 0,
            forall|i: int| 0 <= i < ZONE_COUNT ==> (#[trigger] g.zone_token_pools@[i])@.len() == 0,
            g.players@.len() == 1,
            g.players@[0].id@ == DEFAULT_PLAYER_ID@,
            g.players@[0].name@ == "Player 1"@,
            g.players@[0].token_pools@.len() == 1,
            is_default_life(g.players@[0].token_pools@[0]),
            g.card_token_pools@.len() == cards_with_pools(collect_cards(cards@)).len(),
            forall|i: int|
                0 <= i < g.card_token_pools@.len() ==> {
                    let c = cards_with_pools(collect_cards(cards@))[i];
                    &&& (#[trigger] g.card_token_pools@[i]).card_id@ == c.id@
                    &&& g.card_token_pools@[i].pools@ == collect_pools(c.token_pools@)
                },
    {
        let ghost input = cards@;
        let mut cards = cards;
        let mut collected: Vec<Card> = Vec::new();
        let mut k: usize = 0;
        let n: usize = cards.len();
        assert(input.take(0) =~= Seq::<Card>::empty());
        assert(input.skip(0) =~= input);
        while cards.len() > 0
            invariant
                n == input.len(),
                k <= input.len(),
                cards@ == input.skip(k as int),
                collected@ == collect_cards(input.take(k as int)),
            decreases cards.len(),
        {
            proof {
                lemma_collect_cards_unique(input.take(k as int));
            }
            let c = cards.remove(0);
            assert(input.take(k + 1).drop_last() =~= input.take(k as int));
            assert(input.take(k + 1).last() == c);
            upsert_card_exec(&mut collected, c);
            k += 1;
            assert(cards@ =~= input.skip(k as int));
        }
        assert(input.take(k as int) =~= input);
        proof {
            lemma_collect_cards_unique(input);
            lemma_cards_with_pools_unique(collected@);
        }
        let ghost cw = cards_with_pools(collected@);
        let mut card_token_pools: Vec<CardTokenPools> = Vec::new();
        let mut i: usize = 0;
        assert(collected@.take(0) =~= Seq::<Card>::empty());
        while i < collected.len()
            invariant
                i <= collected@.len(),
                card_token_pools@.len() == cards_with_pools(collected@.take(i as int)).len(),
                forall|j: int|
                    0 <= j < card_token_pools@.len() ==> {
                        let c = cards_with_pools(collected@.take(i as int))[j];
                        &&& (#[trigger] card_token_pools@[j]).card_id@ == c.id@
                        &&& card_token_pools@[j].pools@ == collect_pools(c.token_pools@)
                        &&& unique_pool_ids(card_token_pools@[j].pools@)
                    },
            decreases collected.len() - i,
        {
            assert(collected@.take(i + 1).drop_last() =~= collected@.take(i as int));
            assert(collected@.take(i + 1).last() == collected@[i as int]);
            let c = &collected[i];
            if c.token_pools.len() > 0 {
                let pools = collect_pools_exec(&c.token_pools);
                card_token_pools.push(CardTokenPools { card_id: c.id.clone(), pools });
            }
            i += 1;
        }
        assert(collected@.take(collected.len() as int) =~= collected@);
        assert forall|a: int, b: int|
            0 <= a < b < card_token_pools@.len() implies (#[trigger] card_token_pools@[a]).card_id@
            != (#[trigger] card_token_pools@[b]).card_id@ by {
            assert(cw[a].id@ != cw[b].id@);
        }
        let mut zones: Vec<Vec<String>> = Vec::new();
        let mut zone_token_pools: Vec<Vec<TokenPool>> = Vec::new();
        let mut z: usize = 0;
        while z < ZONE_COUNT
            invariant
                z <= ZONE_COUNT,
                zones@.len() == z,
                zone_token_pools@.len() == z,
                forall|j: int| 0 <= j < z ==> (#[trigger] zones@[j])@.len() == 0,
                forall|j: int| 0 <= j < z ==> (#[trigger] zone_token_pools@[j])@.len() == 0,
            decreases ZONE_COUNT - z,
        {
            zones.push(Vec::new());
            zone_token_pools.push(Vec::new());
            z += 1;
        }
        let mut players: Vec<Player> = Vec::new();
        players.push(Player::default());
        let g = GameState { cards: collected, zones, players, zone_token_pools, card_token_pools };
        assert forall|j: int| 0 <= j < ZONE_COUNT implies unique_pool_ids(#[trigger] g.zone_token_pools@[j]@) by {
            assert(g.zone_token_pools@[j]@.len() == 0);
        }
        assert forall|j: int| 0 <= j < g.players@.len() implies unique_pool_ids((#[trigger] g.players@[j]).token_pools@) by {
            assert(g.players@[j].token_pools@.len() == 1);
        }
        g
    }
}


/// The message for an unknown card id.
pub open spec fn unknown_card(id: Seq<char>) -> Seq<char> {
    "Unknown card id '"@ + id + "'"@
}

/// The message for an unknown player id.
pub open spec fn unknown_player(id: Seq<char>) -> Seq<char> {
    "Unknown player id '"@ + id + "'"@
}

/// The message for an unknown token pool id.
pub open spec fn unknown_pool(id: Seq<char>) -> Seq<char> {
    "Unknown token pool '"@ + id + "'"@
}

/// A validation error with the given message.
pub fn validation(m: String) -> (e: EngineError)
    ensures
        validation_message(e) == Some(m@),
{
    EngineError::Validation(m)
}

/// What adding (or removing) `amount` tokens does to one pool: the problem
/// it meets, if any.
pub open spec fn step_problem(p: TokenPool, amount: u32, add: bool) -> Option<Seq<char>> {
    if add {
        add_problem(p, amount)
    } else {
        remove_problem(p, amount)
    }
}

/// A pool with `amount` tokens added (or removed).
pub open spec fn stepped(p: TokenPool, amount: u32, add: bool) -> TokenPool {
    if add {
        added(p, amount)
    } else {
        removed(p, amount)
    }
}

/// The pools of one owner after `amount` tokens are added to (or removed
/// from) the pool `id` and then to each of its ancestors in turn, following
/// `parent_id`; or the first problem: a pool visited twice (a cycle), an
/// unknown pool, or a pool whose count cannot change so. `fuel` bounds the
/// walk; the number of pools is always enough.
pub open spec fn walk_chain(
    pools: Seq<TokenPool>,
    id: Seq<char>,
    amount: u32,
    add: bool,
    visited: Seq<Seq<char>>,
    fuel: nat,
) -> Result<Seq<TokenPool>, Seq<char>>
    decreases fuel,
{
    if visited.contains(id) {
        Err("Token pool parent cycle at '"@ + id + "'"@)
    } else if !has_pool(pools, id) {
        Err(unknown_pool(id))
    } else {
        let k = pool_pos(pools, id);
        let p = pools[k];
        match step_problem(p, amount, add) {
            Some(e) => Err(e),
            None => {
                let np = pools.update(k, stepped(p, amount, add));
                match p.parent_id {
                    None => Ok(np),
                    Some(par) => if fuel == 0 {
                        Err("Token pool parent cycle at '"@ + par@ + "'"@)
                    } else {
                        walk_chain(np, par@, amount, add, visited.push(id), (fuel - 1) as nat)
                    },
                }
            },
        }
    }
}

/// The ids of a list of pools.
pub open spec fn pool_ids(ps: Seq<TokenPool>) -> Seq<Seq<char>> {
    ps.map_values(|p: TokenPool| p.id@)
}

/// A sequence without repeats, drawn from a finite list, is no longer than
/// the list.
pub proof fn lemma_distinct_within(visited: Seq<Seq<char>>, ids: Seq<Seq<char>>)
    requires
        visited.no_duplicates(),
        forall|i: int| 0 <= i < visited.len() ==> ids.contains(#[trigger] visited[i]),
    ensures
        visited.len() <= ids.len(),
{
    broadcast use vstd::seq_lib::seq_to_set_is_finite;
    visited.unique_seq_to_set();
    ids.lemma_cardinality_of_set();
    assert(visited.to_set().subset_of(ids.to_set())) by {
        assert forall|x: Seq<char>| visited.to_set().contains(x) implies ids.to_set().contains(x) by {
            let i = visited.index_of(x);
            assert(visited.contains(x));
            assert(ids.contains(visited[i]));
        }
    }
    vstd::set_lib::lemma_len_subset(visited.to_set(), ids.to_set());
}

/// Copies of a list of pools.
fn clone_pools(ps: &Vec<TokenPool>) -> (r: Vec<TokenPool>)
    ensures
        r@ == ps@,
{
    let mut r: Vec<TokenPool> = Vec::new();
    let mut i: usize = 0;
    while i < ps.len()
        invariant
            i <= ps@.len(),
            r@ == ps@.take(i as int),
        decreases ps.len() - i,
    {
        r.push(ps[i].duplicate());
        assert(r@ =~= ps@.take(i + 1));
        i += 1;
    }
    assert(ps@.take(ps.len() as int) =~= ps@);
    r
}

/// The position of the pool with the given id, if any.
pub fn pool_index(ps: &Vec<TokenPool>, id: &str) -> (r: Option<usize>)
    requires
        unique_pool_ids(ps@),
    ensures
        match r {
            Some(k) => k < ps@.len() && ps@[k as int].id@ == id@ && has_pool(ps@, id@) && k == pool_pos(ps@, id@),
            None => !has_pool(ps@, id@),
        },
{
    let mut i: usize = 0;
    while i < ps.len()
        invariant
            i <= ps@.len(),
            unique_pool_ids(ps@),
            forall|k: int| 0 <= k < i ==> (#[trigger] ps@[k]).id@ != id@,
        decreases ps.len() - i,
    {
        if str_is(ps[i].id.as_str(), id) {
            assert(has_pool(ps@, id@));
            proof {
                let k = pool_pos(ps@, id@);
                if k != i {
                    if k < i {
                        assert(ps@[k].id@ != id@);
                    } else {
                        assert(ps@[i as int].id@ != ps@[k].id@);
                    }
                }
            }
            return Some(i);
        }
        i += 1;
    }
    None
}

impl GameState {
    /// The position of the card with the given id, if any.
    pub(crate) fn card_index(&self, card_id: &str) -> (r: Option<usize>)
        ensures
            match r {
                Some(i) => i < self.cards@.len() && self.cards@[i as int].id@ == card_id@,
                None => !has_card(self.cards@, card_id@),
            },
    {
        let mut i: usize = 0;
        while i < self.cards.len()
            invariant
                i <= self.cards@.len(),
                forall|k: int| 0 <= k < i ==> (#[trigger] self.cards@[k]).id@ != card_id@,
            decreases self.cards.len() - i,
        {
            if str_is(self.cards[i].id.as_str(), card_id) {
                return Some(i);
            }
            i += 1;
        }
        None
    }

    /// The position of the player with the given id, if any.
    pub(crate) fn player_index(&self, player_id: &str) -> (r: Option<usize>)
        requires
            self.wf(),
        ensures
            match r {
                Some(i) => i < self.players@.len() && self.players@[i as int].id@ == player_id@
                    && has_player(self.players@, player_id@) && i == player_pos(self.players@, player_id@),
                None => !has_player(self.players@, player_id@),
            },
    {
        let mut i: usize = 0;
        while i < self.players.len()
            invariant
                i <= self.players@.len(),
                self.wf(),
                forall|k: int| 0 <= k < i ==> (#[trigger] self.players@[k]).id@ != player_id@,
            decreases self.players.len() - i,
        {
            if str_is(self.players[i].id.as_str(), player_id) {
                assert(has_player(self.players@, player_id@));
                proof {
                    let k = player_pos(self.players@, player_id@);
                    if k != i {
                        if k < i {
                            assert(self.players@[k].id@ != player_id@);
                        } else {
                            assert(self.players@[i as int].id@ != self.players@[k].id@);
                        }
                    }
                }
                return Some(i);
            }
            i += 1;
        }
        None
    }

    /// Fails unless a card with the given id is in the game.
    fn ensure_card_exists(&self, card_id: &str) -> (r: Result<(), EngineError>)
        ensures
            r is Ok <==> has_card(self.cards@, card_id@),
            r matches Err(e) ==> validation_message(e) == Some(unknown_card(card_id@)),
    {
        match self.card_index(card_id) {
            Some(_) => Ok(()),
            None => Err(validation(concat3("Unknown card id '", card_id, "'"))),
        }
    }

    /// The card with the given id.
    pub fn card_by_id(&self, card_id: &str) -> (r: Result<&Card, EngineError>)
        ensures
            r is Ok <==> has_card(self.cards@, card_id@),
            r matches Ok(c) ==> c.id@ == card_id@ && self.cards@.contains(*c),
            unique_card_ids(self.cards@) ==> (r matches Ok(c) ==> *c == card_with(self.cards@, card_id@)),
            r matches Err(e) ==> validation_message(e) == Some(unknown_card(card_id@)),
    {
        match self.card_index(card_id) {
            Some(i) => {
                proof {
                    if unique_card_ids(self.cards@) {
                        lemma_card_with(self.cards@, i as int);
                    }
                }
                Ok(&self.cards[i])
            },
            None => Err(validation(concat3("Unknown card id '", card_id, "'"))),
        }
    }

    /// The player with the given id.
    pub fn player(&self, player_id: &str) -> (r: Result<&Player, EngineError>)
        requires
            self.wf(),
        ensures
            r is Ok <==> has_player(self.players@, player_id@),
            r matches Ok(p) ==> *p == self.players@[player_pos(self.players@, player_id@)],
            r matches Err(e) ==> validation_message(e) == Some(unknown_player(player_id@)),
    {
        match self.player_index(player_id) {
            Some(i) => Ok(&self.players[i]),
            None => Err(validation(concat3("Unknown player id '", player_id, "'"))),
        }
    }

    /// Renames a player; the name is trimmed and must not be blank.
    pub fn set_player_name(&mut self, player_id: &str, name: &str) -> (r: Result<(), EngineError>)
        requires
            old(self).wf(),
        ensures
            final(self).wf(),
            player_renamed(*old(self), *final(self), player_id@, name@, r),
    {
        let name = trimmed(name);
        if name.as_str().is_empty() {
            return Err(validation(owned("Player name must not be empty")));
        }
        let i = match self.player_index(player_id) {
            Some(i) => i,
            None => {
                return Err(validation(concat3("Unknown player id '", player_id, "'")));
            },
        };
        let mut p = self.players.remove(i);
        p.name = name;
        self.players.insert(i, p);
        assert(self.players@.len() == old(self).players@.len());
        assert forall|a: int, b: int|
            0 <= a < b < self.players@.len() implies (#[trigger] self.players@[a]).id@ != (
            #[trigger] self.players@[b]).id@ by {
            assert(old(self).players@[a].id@ != old(self).players@[b].id@);
        }
        Ok(())
    }

    /// The token pools of a player.
    pub fn get_player_token_pools(&self, player_id: &str) -> (r: Result<&Vec<TokenPool>, EngineError>)
        requires
            self.wf(),
        ensures
            r is Ok <==> has_player(self.players@, player_id@),
            r matches Ok(ps) ==> *ps == self.players@[player_pos(self.players@, player_id@)].token_pools,
            r matches Err(e) ==> validation_message(e) == Some(unknown_player(player_id@)),
    {
        match self.player_index(player_id) {
            Some(i) => Ok(&self.players[i].token_pools),
            None => Err(validation(concat3("Unknown player id '", player_id, "'"))),
        }
    }
}


/// The walk of `walk_chain` once some pools are visited, with the fuel that
/// the number of pools leaves.
pub open spec fn walk_from(pools: Seq<TokenPool>, id: Seq<char>, amount: u32, add: bool, visited: Seq<Seq<char>>) -> Result<Seq<TokenPool>, Seq<char>> {
    walk_chain(pools, id, amount, add, visited, (pools.len() - visited.len()) as nat)
}

/// The pools of one owner after `amount` tokens are added to (or removed
/// from) the pool `pool_id` and then to each of its ancestors, following
/// `parent_id`: all of them change, or none does and the first problem is
/// returned.
fn walk_pools(pools: &Vec<TokenPool>, pool_id: &str, amount: u32, add: bool) -> (r: Result<Vec<TokenPool>, String>)
    requires
        unique_pool_ids(pools@),
    ensures
        match walk_from(pools@, pool_id@, amount, add, Seq::empty()) {
            Ok(w) => r matches Ok(v) && v@ == w,
            Err(m) => r matches Err(e) && e@ == m,
        },
        r matches Ok(v) ==> unique_pool_ids(v@),
{
    let ghost orig = pools@;
    let ghost n = orig.len();
    let mut updated = clone_pools(pools);
    let mut visited: Vec<String> = Vec::new();
    let mut id = owned(pool_id);
    assert(ids_view(visited@) =~= Seq::<Seq<char>>::empty());
    loop
        invariant
            orig == pools@,
            n == orig.len(),
            unique_pool_ids(orig),
            updated@.len() == n,
            pool_ids(updated@) =~= pool_ids(orig),
            unique_pool_ids(updated@),
            forall|k: int| 0 <= k < n ==> crate::token_pools::same_but_count(#[trigger] updated@[k], orig[k]),
            ids_view(visited@).no_duplicates(),
            forall|k: int| 0 <= k < visited@.len() ==> pool_ids(orig).contains(#[trigger] ids_view(visited@)[k]),
            visited@.len() <= n,
            walk_from(orig, pool_id@, amount, add, Seq::empty()) == walk_from(updated@, id@, amount, add, ids_view(visited@)),
        decreases n - visited@.len(),
    {
        let ghost vis = ids_view(visited@);
        if contains_string(&visited, id.as_str()) {
            assert(vis.contains(id@)) by {
                let k = choose|k: int| 0 <= k < visited@.len() && #[trigger] visited@[k]@ == id@;
                assert(vis[k] == id@);
            }
            return Err(concat3("Token pool parent cycle at '", id.as_str(), "'"));
        }
        assert(!vis.contains(id@)) by {
            if vis.contains(id@) {
                let k = vis.index_of(id@);
                assert(visited@[k]@ == id@);
            }
        }
        let k = match pool_index(&updated, id.as_str()) {
            Some(k) => k,
            None => {
                return Err(concat3("Unknown token pool '", id.as_str(), "'"));
            },
        };
        let ghost before = updated@;
        let mut p = updated.remove(k);
        let step = if add {
            p.add_tokens(amount)
        } else {
            p.remove_tokens(amount)
        };
        if let Err(m) = step {
            return Err(m);
        }
        let parent = crate::text::clone_opt(&p.parent_id);
        updated.insert(k, p);
        assert(updated@ =~= before.update(k as int, stepped(before[k as int], amount, add)));
        assert(pool_ids(updated@) =~= pool_ids(before));
        assert forall|a: int, b: int| 0 <= a < b < updated@.len() implies (#[trigger] updated@[a]).id@ != (#[trigger] updated@[b]).id@ by {
            assert(pool_ids(updated@)[a] == pool_ids(before)[a]);
            assert(pool_ids(updated@)[b] == pool_ids(before)[b]);
            assert(before[a].id@ != before[b].id@);
        }
        assert forall|j: int| 0 <= j < n implies crate::token_pools::same_but_count(#[trigger] updated@[j], orig[j]) by {
            assert(crate::token_pools::same_but_count(before[j], orig[j]));
        }
        match parent {
            None => {
                return Ok(updated);
            },
            Some(par) => {
                proof {
                    let vis2 = vis.push(id@);
                    assert(vis2.no_duplicates());
                    assert(pool_ids(orig).contains(id@)) by {
                        assert(pool_ids(updated@)[k as int] == id@);
                    }
                    assert forall|j: int| 0 <= j < vis2.len() implies pool_ids(orig).contains(#[trigger] vis2[j]) by {
                        if j < vis.len() {
                            assert(vis2[j] == vis[j]);
                        }
                    }
                    lemma_distinct_within(vis2, pool_ids(orig));
                }
                visited.push(id);
                assert(ids_view(visited@) =~= vis.push(before[k as int].id@));
                id = par;
            },
        }
    }
}

impl GameState {
    /// Adds (or removes) `amount` tokens to a player's pool and to each of
    /// its ancestors, all or nothing.
    fn adjust_player_pool(&mut self, player_id: &str, pool_id: &str, amount: u32, add: bool) -> (r: Result<(), EngineError>)
        requires
            old(self).wf(),
        ensures
            final(self).wf(),
            player_pool_walked(*old(self), *final(self), player_id@, pool_id@, amount, add, r),
    {
        let pi = match self.player_index(player_id) {
            Some(i) => i,
            None => {
                return Err(validation(concat3("Unknown player id '", player_id, "'")));
            },
        };
        let updated = match walk_pools(&self.players[pi].token_pools, pool_id, amount, add) {
            Ok(v) => v,
            Err(m) => {
                return Err(validation(m));
            },
        };
        let mut pl = self.players.remove(pi);
        pl.token_pools = updated;
        self.players.insert(pi, pl);
        assert forall|a: int, b: int| 0 <= a < b < self.players@.len() implies (#[trigger] self.players@[a]).id@ != (#[trigger] self.players@[b]).id@ by {
            assert(old(self).players@[a].id@ != old(self).players@[b].id@);
        }
        assert(self.players@ =~= old(self).players@.update(pi as int, Player { token_pools: self.players@[pi as int].token_pools, ..old(self).players@[pi as int] }));
        Ok(())
    }

    /// Adds tokens to a player's pool and to each of its ancestors.
    pub fn add_tokens_to_player_pool(&mut self, player_id: &str, pool_id: &str, amount: u32) -> (r: Result<(), EngineError>)
        requires
            old(self).wf(),
        ensures
            final(self).wf(),
            player_pool_walked(*old(self), *final(self), player_id@, pool_id@, amount, true, r),
    {
        self.adjust_player_pool(player_id, pool_id, amount, true)
    }

    /// Removes tokens from a player's pool and from each of its ancestors.
    pub fn remove_tokens_from_player_pool(&mut self, player_id: &str, pool_id: &str, amount: u32) -> (r: Result<(), EngineError>)
        requires
            old(self).wf(),
        ensures
            final(self).wf(),
            player_pool_walked(*old(self), *final(self), player_id@, pool_id@, amount, false, r),
    {
        self.adjust_player_pool(player_id, pool_id, amount, false)
    }
}


/// The position of the first `x` in `s`, or -1.
pub open spec fn pos_of<T>(s: Seq<T>, x: T) -> int
    decreases s.len(),
{
    if s.len() == 0 {
        -1
    } else if s[0] == x {
        0
    } else {
        let r = pos_of(s.drop_first(), x);
        if r < 0 {
            -1
        } else {
            r + 1
        }
    }
}

pub proof fn lemma_pos_of<T>(s: Seq<T>, x: T)
    ensures
        -1 <= pos_of(s, x) < s.len(),
        pos_of(s, x) >= 0 ==> s[pos_of(s, x)] == x,
        pos_of(s, x) < 0 <==> !s.contains(x),
        forall|j: int| 0 <= j < s.len() && (pos_of(s, x) < 0 || j < pos_of(s, x)) ==> s[j] != x,
    decreases s.len(),
{
    if s.len() > 0 && s[0] != x {
        lemma_pos_of(s.drop_first(), x);
        assert forall|j: int| 0 <= j < s.len() && (pos_of(s, x) < 0 || j < pos_of(s, x)) implies s[j] != x by {
            if j > 0 {
                assert(s[j] == s.drop_first()[j - 1]);
            }
        }
        if s.contains(x) {
            let j = choose|j: int| 0 <= j < s.len() && s[j] == x;
            assert(s.drop_first()[j - 1] == x);
        }
        if s.drop_first().contains(x) {
            let j = choose|j: int| 0 <= j < s.drop_first().len() && s.drop_first()[j] == x;
            assert(s[j + 1] == x);
        }
    } else if s.len() > 0 {
        assert(s.contains(x));
    }
}

/// The position of the first occurrence of `id` in a list of ids.
pub fn find_id(v: &Vec<String>, id: &str) -> (r: Option<usize>)
    ensures
        match r {
            Some(k) => k as int == pos_of(ids_view(v@), id@) && k < v@.len(),
            None => pos_of(ids_view(v@), id@) == -1,
        },
{
    proof {
        lemma_pos_of(ids_view(v@), id@);
    }
    let mut i: usize = 0;
    while i < v.len()
        invariant
            i <= v@.len(),
            forall|k: int| 0 <= k < i ==> (#[trigger] ids_view(v@)[k]) != id@,
            -1 <= pos_of(ids_view(v@), id@) < v@.len(),
            pos_of(ids_view(v@), id@) >= 0 ==> ids_view(v@)[pos_of(ids_view(v@), id@)] == id@,
            forall|j: int| 0 <= j < v@.len() && (pos_of(ids_view(v@), id@) < 0 || j < pos_of(ids_view(v@), id@)) ==> ids_view(v@)[j] != id@,
        decreases v.len() - i,
    {
        if str_is(v[i].as_str(), id) {
            assert(ids_view(v@)[i as int] == id@);
            return Some(i);
        }
        i += 1;
    }
    None
}

/// The first id of the list that names no card.
pub open spec fn first_unknown(cs: Seq<Card>, ids: Seq<Seq<char>>) -> Option<Seq<char>>
    decreases ids.len(),
{
    if ids.len() == 0 {
        None
    } else {
        match first_unknown(cs, ids.drop_last()) {
            Some(x) => Some(x),
            None => if has_card(cs, ids.last()) {
                None
            } else {
                Some(ids.last())
            },
        }
    }
}

/// The message for a card missing from a zone it is looked for in.
pub open spec fn not_in_source(id: Seq<char>, z: Zone) -> Seq<char> {
    "Card '"@ + id + "' is not in source zone "@ + zone_name(z)
}

/// The cards a search of the ids finds: those that exist and whose id, name
/// or card type contains the query, ignoring ASCII case; a blank query
/// finds every card.
pub open spec fn search_result(cs: Seq<Card>, ids: Seq<Seq<char>>, query: Seq<char>) -> Seq<Card>
    decreases ids.len(),
{
    if ids.len() == 0 {
        Seq::empty()
    } else {
        let r = search_result(cs, ids.drop_last(), query);
        let id = ids.last();
        if has_card(cs, id) && card_matches(card_with(cs, id), query) {
            r.push(card_with(cs, id))
        } else {
            r
        }
    }
}

/// Whether a card matches a trimmed, lower-cased query.
pub open spec fn card_matches(c: Card, query: Seq<char>) -> bool {
    query.len() == 0 || contains_sub(ascii_lower(c.id@), query) || contains_sub(ascii_lower(c.name@), query)
        || contains_sub(ascii_lower(c.card_type_id@), query)
}

pub proof fn lemma_card_with(cs: Seq<Card>, i: int)
    requires
        unique_card_ids(cs),
        0 <= i < cs.len(),
    ensures
        has_card(cs, cs[i].id@),
        card_with(cs, cs[i].id@) == cs[i],
{
    assert(has_card(cs, cs[i].id@));
    let k = choose|k: int| 0 <= k < cs.len() && (#[trigger] cs[k]).id@ == cs[i].id@;
    if k != i {
        if k < i {
            assert(cs[k].id@ != cs[i].id@);
        } else {
            assert(cs[i].id@ != cs[k].id@);
        }
    }
}

/// The views of a list of card references.
pub open spec fn card_refs_view(v: Seq<&Card>) -> Seq<Card> {
    v.map_values(|c: &Card| *c)
}

impl GameState {
    /// Replaces the cards of a zone; every id must name a card of the game.
    pub fn set_zone_cards(&mut self, zone: Zone, card_ids: Vec<String>) -> (r: Result<(), EngineError>)
        requires
            old(self).wf(),
        ensures
            final(self).wf(),
            r is Ok <==> first_unknown(old(self).cards@, ids_view(card_ids@)) is None,
            r is Err ==> fails_with(r, unknown_card(first_unknown(old(self).cards@, ids_view(card_ids@))->0)) && *final(self) == *old(self),
            r is Ok ==> final(self).zones@ == old(self).zones@.update(zone_index(zone), card_ids)
                && final(self).cards == old(self).cards && final(self).players == old(self).players
                && final(self).zone_token_pools == old(self).zone_token_pools
                && final(self).card_token_pools == old(self).card_token_pools,
    {
        let ghost ids = ids_view(card_ids@);
        let mut i: usize = 0;
        assert(ids.take(0) =~= Seq::<Seq<char>>::empty());
        while i < card_ids.len()
            invariant
                ids == ids_view(card_ids@),
                *self == *old(self),
                old(self).wf(),
                i <= card_ids@.len(),
                first_unknown(self.cards@, ids.take(i as int)) is None,
            decreases card_ids.len() - i,
        {
            assert(ids.take(i + 1).drop_last() =~= ids.take(i as int));
            assert(ids.take(i + 1).last() == card_ids@[i as int]@);
            if let Err(e) = self.ensure_card_exists(card_ids[i].as_str()) {
                proof {
                    lemma_first_unknown_prefix(self.cards@, ids, i + 1);
                }
                return Err(e);
            }
            i += 1;
        }
        assert(ids.take(card_ids.len() as int) =~= ids);
        self.zones.set(zone.index(), card_ids);
        Ok(())
    }

    /// The ids of the cards in a zone, bottom first.
    pub fn zone_cards(&self, zone: Zone) -> (r: &[String])
        requires
            self.wf(),
        ensures
            r@ == self.zones@[zone_index(zone)]@,
    {
        self.zones[zone.index()].as_slice()
    }

    /// Takes the top card of the main stack.
    pub fn draw_top_from_main_stack(&mut self) -> (r: Option<String>)
        requires
            old(self).wf(),
        ensures
            final(self).wf(),
            draws_top(*old(self), *final(self), zone_index(Zone::MainStack), r),
    {
        self.pop_zone(Zone::MainStack)
    }

    /// Takes the top card of the deck.
    pub fn draw_top_from_deck(&mut self) -> (r: Option<String>)
        requires
            old(self).wf(),
        ensures
            final(self).wf(),
            draws_top(*old(self), *final(self), zone_index(Zone::Deck), r),
    {
        self.pop_zone(Zone::Deck)
    }

    fn pop_zone(&mut self, zone: Zone) -> (r: Option<String>)
        requires
            old(self).wf(),
        ensures
            final(self).wf(),
            draws_top(*old(self), *final(self), zone_index(zone), r),
    {
        let z = zone.index();
        if self.zones[z].len() == 0 {
            return None;
        }
        let mut cards = self.zones.remove(z);
        let top = cards.pop();
        self.zones.insert(z, cards);
        assert(self.zones@ =~= old(self).zones@.update(z as int, self.zones@[z as int]));
        top
    }

    /// The ids of the top `count` cards of the main stack, top first.
    pub fn peek_main_stack(&self, count: usize) -> (r: Vec<String>)
        requires
            self.wf(),
        ensures
            r@ == self.zones@[zone_index(Zone::MainStack)]@.reverse().take(
                if count < self.zones@[zone_index(Zone::MainStack)]@.len() { count as int } else { self.zones@[zone_index(Zone::MainStack)]@.len() as int },
            ),
    {
        let stack = &self.zones[0];
        let n: usize = if count < stack.len() { count } else { stack.len() };
        let mut r: Vec<String> = Vec::new();
        let mut i: usize = 0;
        while i < n
            invariant
                n <= stack@.len(),
                i <= n,
                r@ == stack@.reverse().take(i as int),
            decreases n - i,
        {
            r.push(stack[stack.len() - 1 - i].clone());
            assert(r@ =~= stack@.reverse().take(i + 1));
            i += 1;
        }
        r
    }

    /// Moves a card of a zone to the bottom of that zone (its first
    /// position), keeping the order of the others.
    pub fn move_card_to_bottom(&mut self, zone: Zone, card_id: &str) -> (r: Result<(), EngineError>)
        requires
            old(self).wf(),
        ensures
            final(self).wf(),
            ({
                let z = old(self).zone_ids()[zone_index(zone)];
                let k = pos_of(z, card_id@);
                &&& r is Ok <==> k >= 0
                &&& r is Err ==> fails_with(r, "Card '"@ + card_id@ + "' is not in zone "@ + zone_name(zone)) && *final(self) == *old(self)
                &&& r is Ok ==> final(self).zone_ids() == old(self).zone_ids().update(zone_index(zone), z.remove(k).insert(0, card_id@))
                    && final(self).cards == old(self).cards && final(self).players == old(self).players
                    && final(self).zone_token_pools == old(self).zone_token_pools
                    && final(self).card_token_pools == old(self).card_token_pools
            }),
    {
        let z = zone.index();
        let k = match find_id(&self.zones[z], card_id) {
            Some(k) => k,
            None => {
                let mut m = concat3("Card '", card_id, "' is not in zone ");
                m.append(zone.name());
                return Err(validation(m));
            },
        };
        proof {
            lemma_pos_of(ids_view(self.zones@[z as int]@), card_id@);
        }
        let mut cards = self.zones.remove(z);
        let id = cards.remove(k);
        cards.insert(0, id);
        self.zones.insert(z, cards);
        assert(zones_view(self.zones@) =~= zones_view(old(self).zones@).update(z as int, ids_view(self.zones@[z as int]@)));
        assert(ids_view(self.zones@[z as int]@) =~= ids_view(old(self).zones@[z as int]@).remove(k as int).insert(0, card_id@));
        Ok(())
    }

    /// The cards of a zone, bottom first, whose id, name or card type
    /// contains the trimmed query, ignoring ASCII case; ids that name no card
    /// are skipped, and a blank query finds every card.
    pub fn search_cards(&self, zone: Zone, query: &str) -> (r: Vec<&Card>)
        requires
            self.wf(),
        ensures
            card_refs_view(r@) == search_result(self.cards@, self.zone_ids()[zone_index(zone)], ascii_lower(trim(query@))),
            forall|i: int|
                0 <= i < self.zone_ids()[zone_index(zone)].len() && has_card(self.cards@, #[trigger] self.zone_ids()[zone_index(zone)][i])
                    && ({
                    let c = card_with(self.cards@, self.zone_ids()[zone_index(zone)][i]);
                    let q = ascii_lower(trim(query@));
                    q.len() == 0 || contains_sub(ascii_lower(c.id@), q) || contains_sub(ascii_lower(c.name@), q)
                        || contains_sub(ascii_lower(c.card_type_id@), q)
                }) ==> card_refs_view(r@).contains(card_with(self.cards@, self.zone_ids()[zone_index(zone)][i])),
    {
        proof {
            assert forall|i: int|
                0 <= i < self.zone_ids()[zone_index(zone)].len() && has_card(self.cards@, #[trigger] self.zone_ids()[zone_index(zone)][i])
                    && ({
                    let c = card_with(self.cards@, self.zone_ids()[zone_index(zone)][i]);
                    let q = ascii_lower(trim(query@));
                    q.len() == 0 || contains_sub(ascii_lower(c.id@), q) || contains_sub(ascii_lower(c.name@), q)
                        || contains_sub(ascii_lower(c.card_type_id@), q)
                }) implies search_result(self.cards@, self.zone_ids()[zone_index(zone)], ascii_lower(trim(query@))).contains(
                card_with(self.cards@, self.zone_ids()[zone_index(zone)][i]),
            ) by {
                crate::record_laws::law_search_finds_matching_cards(
                    self.cards@,
                    self.zone_ids()[zone_index(zone)],
                    ascii_lower(trim(query@)),
                    i,
                );
            }
        }
        let q = ascii_lower_chars(&trim_chars(&chars_of(query)));
        let ids = &self.zones[zone.index()];
        let ghost iv = ids_view(ids@);
        let mut r: Vec<&Card> = Vec::new();
        let mut i: usize = 0;
        assert(iv.take(0) =~= Seq::<Seq<char>>::empty());
        assert(card_refs_view(r@) =~= Seq::<Card>::empty());
        while i < ids.len()
            invariant
                self.wf(),
                iv == ids_view(ids@),
                i <= ids@.len(),
                q@ == ascii_lower(trim(query@)),
                card_refs_view(r@) == search_result(self.cards@, iv.take(i as int), q@),
            decreases ids.len() - i,
        {
            assert(iv.take(i + 1).drop_last() =~= iv.take(i as int));
            assert(iv.take(i + 1).last() == ids@[i as int]@);
            if let Some(k) = self.card_index(ids[i].as_str()) {
                let c = &self.cards[k];
                proof {
                    lemma_card_with(self.cards@, k as int);
                }
                let hit = q.len() == 0 || contains_chars(&ascii_lower_chars(&chars_of(c.id.as_str())), &q)
                    || contains_chars(&ascii_lower_chars(&chars_of(c.name.as_str())), &q)
                    || contains_chars(&ascii_lower_chars(&chars_of(c.card_type_id.as_str())), &q);
                if hit {
                    let ghost before = card_refs_view(r@);
                    r.push(c);
                    assert(card_refs_view(r@) =~= before.push(*c));
                }
            }
            i += 1;
        }
        assert(iv.take(ids.len() as int) =~= iv);
        r
    }
}

/// `after` is `before` with the top card of the zone at `z` taken, which is
/// returned; an empty zone gives nothing and changes nothing.
pub open spec fn draws_top(before: GameState, after: GameState, z: int, r: Option<String>) -> bool {
    let cards = before.zones@[z]@;
    if cards.len() == 0 {
        r is None && after == before
    } else {
        r == Some(cards.last()) && after.zones@ == before.zones@.update(z, after.zones@[z]) && after.zones@[z]@
            == cards.drop_last() && after.cards == before.cards && after.players == before.players
            && after.zone_token_pools == before.zone_token_pools && after.card_token_pools
            == before.card_token_pools
    }
}

pub proof fn lemma_first_unknown_prefix(cs: Seq<Card>, ids: Seq<Seq<char>>, n: int)
    requires
        0 <= n <= ids.len(),
        first_unknown(cs, ids.take(n)) is Some,
    ensures
        first_unknown(cs, ids) == first_unknown(cs, ids.take(n)),
    decreases ids.len(),
{
    if n < ids.len() {
        assert(ids.drop_last().take(n) =~= ids.take(n));
        lemma_first_unknown_prefix(cs, ids.drop_last(), n);
    } else {
        assert(ids.take(n) =~= ids);
    }
}


/// The message for a commander pile that would hold too many cards.
pub open spec fn commander_full() -> Seq<char> {
    "Commander pile cannot contain more than two cards"@
}

/// The zones after the first `id` of the source moves to the top of the
/// destination.
pub open spec fn moved(zs: Seq<Seq<Seq<char>>>, from: Zone, to: Zone, id: Seq<char>) -> Seq<Seq<Seq<char>>> {
    let f = zone_index(from);
    let t = zone_index(to);
    zs.update(f, zs[f].remove(pos_of(zs[f], id))).update(t, zs[t].push(id))
}

/// Why moving `id` from one zone to another fails, if it does: the card is
/// not in the source, or it would make the commander pile hold more than
/// two cards.
pub open spec fn move_problem(zs: Seq<Seq<Seq<char>>>, from: Zone, to: Zone, id: Seq<char>) -> Option<Seq<char>> {
    if pos_of(zs[zone_index(from)], id) < 0 {
        Some(not_in_source(id, from))
    } else if from != to && to == Zone::CommanderPile && zs[zone_index(Zone::CommanderPile)].len() + 1 > 2 {
        Some(commander_full())
    } else {
        None
    }
}

impl GameState {
    /// Moves a card from a zone to the top of another zone. The card must be
    /// in the source zone, and the commander pile holds at most two cards;
    /// moving a card to the zone it is in changes nothing.
    #[verifier::rlimit(40)]
    pub fn move_card(&mut self, from: Zone, to: Zone, card_id: &str) -> (r: Result<(), EngineError>)
        requires
            old(self).wf(),
        ensures
            final(self).wf(),
            r is Ok <==> move_problem(old(self).zone_ids(), from, to, card_id@) is None,
            r is Err ==> fails_with(r, move_problem(old(self).zone_ids(), from, to, card_id@)->0) && *final(self) == *old(self),
            r is Ok && from == to ==> *final(self) == *old(self),
            r is Ok && from != to ==> final(self).zone_ids() == moved(old(self).zone_ids(), from, to, card_id@)
                && final(self).cards == old(self).cards && final(self).players == old(self).players
                && final(self).zone_token_pools == old(self).zone_token_pools
                && final(self).card_token_pools == old(self).card_token_pools,
    {
        let f = from.index();
        let t = to.index();
        let ghost zs = self.zone_ids();
        let k = match find_id(&self.zones[f], card_id) {
            Some(k) => k,
            None => {
                let mut m = concat3("Card '", card_id, "' is not in source zone ");
                m.append(from.name());
                return Err(validation(m));
            },
        };
        if from == to {
            return Ok(());
        }
        if to == Zone::CommanderPile && self.zones[1].len() >= 2 {
            return Err(validation(owned("Commander pile cannot contain more than two cards")));
        }
        let mut source = self.zones.remove(f);
        source.remove(k);
        self.zones.insert(f, source);
        let mut dest = self.zones.remove(t);
        dest.push(owned(card_id));
        self.zones.insert(t, dest);
        assert(zones_view(self.zones@) =~= moved(zs, from, to, card_id@)) by {
            assert(ids_view(self.zones@[f as int]@) =~= zs[f as int].remove(k as int));
            assert(ids_view(self.zones@[t as int]@) =~= zs[t as int].push(card_id@));
        }
        Ok(())
    }

    /// Shuffles a zone: for each position from the last down to the second,
    /// a position at or below it is drawn at random and the two cards swap
    /// (`apply_swaps`). Any order can come out.
    pub fn shuffle_zone(&mut self, zone: Zone) -> (r: Result<(), EngineError>)
        requires
            old(self).wf(),
        ensures
            final(self).wf(),
            r is Ok,
            final(self).zones@.len() == old(self).zones@.len(),
            forall|i: int| 0 <= i < ZONE_COUNT && i != zone_index(zone) ==> #[trigger] final(self).zones@[i] == old(self).zones@[i],
            final(self).zones@[zone_index(zone)]@.to_multiset() == old(self).zones@[zone_index(zone)]@.to_multiset(),
            exists|d: Seq<usize>|
                shuffle_draws(d, old(self).zones@[zone_index(zone)]@.len())
                && #[trigger] fisher_yates(old(self).zones@[zone_index(zone)]@, d) == final(self).zones@[zone_index(zone)]@,
            final(self).cards == old(self).cards && final(self).players == old(self).players,
            final(self).zone_token_pools == old(self).zone_token_pools,
            final(self).card_token_pools == old(self).card_token_pools,
    {
        let z = zone.index();
        let cards = self.zones.remove(z);
        let n = cards.len();
        let mut draws: Vec<usize> = Vec::new();
        let mut index: usize = n;
        while index > 1
            invariant
                1 <= n ==> 1 <= index <= n,
                n == 0 ==> index == 0,
                draws@.len() == n - index,
                forall|k: int| 0 <= k < draws@.len() ==> #[trigger] draws@[k] <= n - 1 - k,
            decreases index,
        {
            index -= 1;
            let d = crate::dice::random_between(0, index);
            draws.push(d);
        }
        assert(draws@.len() <= n);
        let ghost before = cards@;
        let shuffled = apply_swaps(cards, &draws);
        assert(fisher_yates(before, draws@) == shuffled@);
        self.zones.insert(z, shuffled);
        assert(self.zones@ =~= old(self).zones@.update(z as int, self.zones@[z as int]));
        Ok(())
    }
}

/// Draws for a shuffle of `n` cards: the `j`-th draw is a position at or
/// below `n - 1 - j`, and there is at most one per position.
pub open spec fn shuffle_draws(d: Seq<usize>, n: nat) -> bool {
    d.len() <= n && forall|j: int| 0 <= j < d.len() ==> #[trigger] d[j] <= n - 1 - j
}

/// The cards after the swaps of a shuffle: the `j`-th draw swaps the card
/// at position `n - 1 - j` with the card at the drawn position, in the
/// order of the draws.
pub open spec fn fisher_yates<T>(cards: Seq<T>, d: Seq<usize>) -> Seq<T>
    decreases d.len(),
{
    if d.len() == 0 {
        cards
    } else {
        let s = fisher_yates(cards, d.drop_last());
        let i = cards.len() - d.len();
        let k = d.last() as int;
        s.update(i, s[k]).update(k, s[i])
    }
}

/// Applies the swaps of a shuffle with the given draws; the cards keep
/// their multiset.
pub fn apply_swaps(cards: Vec<String>, draws: &Vec<usize>) -> (r: Vec<String>)
    requires
        shuffle_draws(draws@, cards@.len()),
    ensures
        r@ == fisher_yates(cards@, draws@),
        r@.to_multiset() == cards@.to_multiset(),
{
    broadcast use vstd::multiset::group_multiset_properties;
    let ghost original = cards@;
    let n = cards.len();
    let mut cards = cards;
    let mut j: usize = 0;
    assert(draws@.take(0) =~= Seq::<usize>::empty());
    while j < draws.len()
        invariant
            n == original.len(),
            shuffle_draws(draws@, n as nat),
            j <= draws@.len(),
            cards@.len() == n,
            cards@ == fisher_yates(original, draws@.take(j as int)),
            cards@.to_multiset() == original.to_multiset(),
        decreases draws.len() - j,
    {
        let index = n - 1 - j;
        let swap_with = draws[j];
        assert(draws@.take(j + 1).drop_last() =~= draws@.take(j as int));
        assert(draws@.take(j + 1).last() == swap_with);
        let a = cards[index].clone();
        let b = cards[swap_with].clone();
        let ghost c0 = cards@;
        cards.set(index, b);
        let ghost c1 = cards@;
        cards.set(swap_with, a);
        assert(c1 == c0.update(index as int, b));
        assert(cards@ == c1.update(swap_with as int, a));
        proof {
            vstd::seq_lib::to_multiset_update(c0, index as int, b);
            vstd::seq_lib::to_multiset_update(c1, swap_with as int, a);
        }
        assert(a == c0[index as int] && b == c0[swap_with as int]);
        assert(c1[swap_with as int] == b);
        proof {
            let m = c0.to_multiset();
            vstd::seq_lib::to_multiset_contains(c0, a);
            assert(c0.contains(a));
            assert(m.insert(b).remove(a).insert(a) =~= m.insert(b));
            assert(m.insert(b).remove(b) =~= m);
        }
        j += 1;
    }
    assert(draws@.take(draws.len() as int) =~= draws@);
    cards
}

/// A change to one token pool.
#[derive(Clone, Copy, Debug)]
pub enum PoolChange {
    Activate(bool),
    Add(u32),
    Remove(u32),
}

/// The pools of one owner after a change to the pool `id`: turning it on or
/// off changes that pool alone; adding or removing tokens changes it and each
/// of its ancestors (see `walk_from`). Or the problem that stops the change.
pub open spec fn pools_changed(ps: Seq<TokenPool>, id: Seq<char>, c: PoolChange) -> Result<Seq<TokenPool>, Seq<char>> {
    match c {
        PoolChange::Activate(a) => if has_pool(ps, id) {
            Ok(ps.update(pool_pos(ps, id), TokenPool { active: a, ..pool_with(ps, id) }))
        } else {
            Err(unknown_pool(id))
        },
        PoolChange::Add(n) => walk_from(ps, id, n, true, Seq::empty()),
        PoolChange::Remove(n) => walk_from(ps, id, n, false, Seq::empty()),
    }
}

/// Applies a change to the pools of one owner, all or nothing.
fn change_pools(ps: &Vec<TokenPool>, id: &str, c: PoolChange) -> (r: Result<Vec<TokenPool>, String>)
    requires
        unique_pool_ids(ps@),
    ensures
        match pools_changed(ps@, id@, c) {
            Ok(w) => r matches Ok(v) && v@ == w,
            Err(m) => r matches Err(e) && e@ == m,
        },
        r matches Ok(v) ==> unique_pool_ids(v@),
{
    match c {
        PoolChange::Activate(a) => {
            let k = match pool_index(ps, id) {
                Some(k) => k,
                None => {
                    return Err(concat3("Unknown token pool '", id, "'"));
                },
            };
            let mut v = clone_pools(ps);
            let mut p = v[k].duplicate();
            p.set_active(a);
            v.set(k, p);
            proof { lemma_update_keeps_unique(ps@, k as int, p); }
            Ok(v)
        },
        PoolChange::Add(n) => walk_pools(ps, id, n, true),
        PoolChange::Remove(n) => walk_pools(ps, id, n, false),
    }
}

/// The first problem with a list of pools for one owner: a pool that breaks
/// the rules of `TokenPool::validate`, or one whose id an earlier pool has.
pub open spec fn owner_pools_problem(ps: Seq<TokenPool>) -> Option<Seq<char>>
    decreases ps.len(),
{
    if ps.len() == 0 {
        None
    } else {
        match owner_pools_problem(ps.drop_last()) {
            Some(e) => Some(e),
            None => match pool_problem(ps.last()) {
                Some(e) => Some(e),
                None => if exists|k: int| 0 <= k < ps.len() - 1 && (#[trigger] ps[k]).id@ == ps.last().id@ {
                    Some("Duplicate token pool id '"@ + ps.last().id@ + "' in the same owner"@)
                } else {
                    None
                },
            },
        }
    }
}

pub proof fn lemma_owner_pools_prefix(ps: Seq<TokenPool>, n: int)
    requires
        0 <= n <= ps.len(),
        owner_pools_problem(ps.take(n)) is Some,
    ensures
        owner_pools_problem(ps) == owner_pools_problem(ps.take(n)),
    decreases ps.len(),
{
    if n < ps.len() {
        assert(ps.drop_last().take(n) =~= ps.take(n));
        lemma_owner_pools_prefix(ps.drop_last(), n);
    } else {
        assert(ps.take(n) =~= ps);
    }
}

pub proof fn lemma_owner_pools_unique(ps: Seq<TokenPool>)
    requires
        owner_pools_problem(ps) is None,
    ensures
        unique_pool_ids(ps),
    decreases ps.len(),
{
    if ps.len() > 0 {
        lemma_owner_pools_unique(ps.drop_last());
        assert forall|i: int, j: int| 0 <= i < j < ps.len() implies (#[trigger] ps[i]).id@ != (#[trigger] ps[j]).id@ by {
            if j < ps.len() - 1 {
                assert(ps.drop_last()[i] == ps[i] && ps.drop_last()[j] == ps[j]);
            }
        }
    }
}

impl GameState {
    /// Checks a pool with `TokenPool::validate`.
    fn validate_token_pool(&self, pool: TokenPool) -> (r: Result<TokenPool, EngineError>)
        ensures
            match pool_problem(pool) {
                Some(m) => fails_with(r, m),
                None => r == Ok::<TokenPool, EngineError>(pool),
            },
    {
        match pool.validate() {
            Ok(()) => Ok(pool),
            Err(m) => Err(validation(m)),
        }
    }

    /// Checks each pool and that no two share an id.
    fn validate_token_pools(&self, pools: Vec<TokenPool>) -> (r: Result<Vec<TokenPool>, EngineError>)
        ensures
            match owner_pools_problem(pools@) {
                Some(m) => fails_with(r, m),
                None => r matches Ok(v) && v@ == pools@ && unique_pool_ids(v@),
            },
    {
        let ghost ps = pools@;
        let mut validated: Vec<TokenPool> = Vec::new();
        let mut k: usize = 0;
        assert(ps.take(0) =~= Seq::<TokenPool>::empty());
        while k < pools.len()
            invariant
                ps == pools@,
                k <= ps.len(),
                validated@ == ps.take(k as int),
                owner_pools_problem(ps.take(k as int)) is None,
            decreases pools.len() - k,
        {
            let ghost sub = ps.take(k + 1);
            assert(sub.drop_last() =~= ps.take(k as int));
            assert(sub.last() == ps[k as int]);
            let pool = match self.validate_token_pool(pools[k].duplicate()) {
                Ok(p) => p,
                Err(e) => {
                    proof { lemma_owner_pools_prefix(ps, k + 1); }
                    return Err(e);
                },
            };
            if crate::player::has_pool_id(&validated, pool.id.as_str()) {
                proof {
                    let j = choose|j: int| 0 <= j < validated@.len() && (#[trigger] validated@[j]).id@ == pool.id@;
                    assert(sub[j] == validated@[j]);
                    lemma_owner_pools_prefix(ps, k + 1);
                }
                return Err(validation(concat3("Duplicate token pool id '", pool.id.as_str(), "' in the same owner")));
            }
            assert(!exists|j: int| 0 <= j < sub.len() - 1 && (#[trigger] sub[j]).id@ == sub.last().id@) by {
                if exists|j: int| 0 <= j < sub.len() - 1 && (#[trigger] sub[j]).id@ == sub.last().id@ {
                    let j = choose|j: int| 0 <= j < sub.len() - 1 && (#[trigger] sub[j]).id@ == sub.last().id@;
                    assert(validated@[j] == sub[j]);
                }
            }
            validated.push(pool);
            k += 1;
            assert(validated@ =~= ps.take(k as int));
        }
        assert(ps.take(pools.len() as int) =~= ps);
        proof { lemma_owner_pools_unique(ps); }
        Ok(validated)
    }

    /// Replaces the pools of a zone; every pool must be valid and the ids
    /// distinct.
    pub fn set_zone_token_pools(&mut self, zone: Zone, pools: Vec<TokenPool>) -> (r: Result<(), EngineError>)
        requires
            old(self).wf(),
        ensures
            final(self).wf(),
            zone_pools_set(*old(self), *final(self), zone, pools@, r),
    {
        let pools = self.validate_token_pools(pools)?;
        self.zone_token_pools.set(zone.index(), pools);
        Ok(())
    }

    /// Adds a valid pool to a zone, replacing a pool with the same id.
    pub fn add_zone_token_pool(&mut self, zone: Zone, pool: TokenPool) -> (r: Result<(), EngineError>)
        requires
            old(self).wf(),
        ensures
            final(self).wf(),
            zone_pool_added(*old(self), *final(self), zone, pool, r),
    {
        let pool = self.validate_token_pool(pool)?;
        let z = zone.index();
        let mut inner = self.zone_token_pools.remove(z);
        upsert_pool_exec(&mut inner, pool);
        self.zone_token_pools.insert(z, inner);
        assert forall|i: int| 0 <= i < ZONE_COUNT && i != z implies #[trigger] self.zone_token_pools@[i] == old(self).zone_token_pools@[i] by {}
        Ok(())
    }

    /// Adds a valid pool to a card of the game, replacing a pool with the
    /// same id.
    pub fn add_card_token_pool(&mut self, card_id: &str, pool: TokenPool) -> (r: Result<(), EngineError>)
        requires
            old(self).wf(),
        ensures
            final(self).wf(),
            card_pool_added(*old(self), *final(self), card_id@, pool, r),
    {
        self.ensure_card_exists(card_id)?;
        let pool = self.validate_token_pool(pool)?;
        let ghost cp = self.card_token_pools@;
        match self.card_pools_index(card_id) {
            Some(i) => {
                let mut entry = self.card_token_pools.remove(i);
                upsert_pool_exec(&mut entry.pools, pool);
                self.card_token_pools.insert(i, entry);
                assert(self.card_token_pools@ =~= cp.update(i as int, self.card_token_pools@[i as int]));
                proof {
                    lemma_card_pools_update(cp, i as int, self.card_token_pools@[i as int]);
                    let np = self.card_token_pools@;
                    assert forall|id: Seq<char>| id != card_id@ && #[trigger] has_card_pools(cp, id) implies
                        np[card_pools_pos(np, id)] == cp[card_pools_pos(cp, id)] by {
                        assert(card_pools_pos(np, id) == card_pools_pos(cp, id));
                        assert(cp[card_pools_pos(cp, id)].card_id@ == id);
                    }
                    assert forall|j: int| 0 <= j < np.len() implies unique_pool_ids((#[trigger] np[j]).pools@) by {
                        if j != i {
                            assert(np[j] == cp[j]);
                        }
                    }
                }
            },
            None => {
                let mut pools: Vec<TokenPool> = Vec::new();
                upsert_pool_exec(&mut pools, pool);
                assert(pools@ == upsert_pool(Seq::<TokenPool>::empty(), pool));
                self.card_token_pools.push(CardTokenPools { card_id: owned(card_id), pools });
                proof {
                    lemma_card_pools_push(cp, self.card_token_pools@.last());
                    let np = self.card_token_pools@;
                    assert(np == cp.push(np.last()));
                    assert forall|id: Seq<char>| id != card_id@ && #[trigger] has_card_pools(cp, id) implies
                        np[card_pools_pos(np, id)] == cp[card_pools_pos(cp, id)] by {
                        assert(card_pools_pos(np, id) == card_pools_pos(cp, id));
                    }
                    assert forall|j: int| 0 <= j < np.len() implies unique_pool_ids((#[trigger] np[j]).pools@) by {
                        if j < cp.len() {
                            assert(np[j] == cp[j]);
                        }
                    }
                }
            },
        }
        Ok(())
    }

    /// The position of a card's entry of pools, if any.
    pub(crate) fn card_pools_index(&self, card_id: &str) -> (r: Option<usize>)
        requires
            self.wf(),
        ensures
            match r {
                Some(i) => i < self.card_token_pools@.len() && has_card_pools(self.card_token_pools@, card_id@)
                    && i == card_pools_pos(self.card_token_pools@, card_id@) && self.card_token_pools@[i as int].card_id@ == card_id@,
                None => !has_card_pools(self.card_token_pools@, card_id@),
            },
    {
        let mut i: usize = 0;
        while i < self.card_token_pools.len()
            invariant
                i <= self.card_token_pools@.len(),
                self.wf(),
                forall|k: int| 0 <= k < i ==> (#[trigger] self.card_token_pools@[k]).card_id@ != card_id@,
            decreases self.card_token_pools.len() - i,
        {
            if str_is(self.card_token_pools[i].card_id.as_str(), card_id) {
                assert(has_card_pools(self.card_token_pools@, card_id@));
                proof {
                    let k = card_pools_pos(self.card_token_pools@, card_id@);
                    if k != i {
                        if k < i {
                            assert(self.card_token_pools@[k].card_id@ != card_id@);
                        } else {
                            assert(self.card_token_pools@[i as int].card_id@ != self.card_token_pools@[k].card_id@);
                        }
                    }
                }
                return Some(i);
            }
            i += 1;
        }
        None
    }
}

/// Replacing an entry by one with the same card id keeps the others where
/// they are.
pub proof fn lemma_card_pools_update(cp: Seq<CardTokenPools>, i: int, e: CardTokenPools)
    requires
        0 <= i < cp.len(),
        e.card_id@ == cp[i].card_id@,
        forall|a: int, b: int| 0 <= a < b < cp.len() ==> (#[trigger] cp[a]).card_id@ != (#[trigger] cp[b]).card_id@,
    ensures
        ({
            let np = cp.update(i, e);
            &&& forall|a: int, b: int| 0 <= a < b < np.len() ==> (#[trigger] np[a]).card_id@ != (#[trigger] np[b]).card_id@
            &&& forall|id: Seq<char>| has_card_pools(np, id) <==> has_card_pools(cp, id)
            &&& forall|id: Seq<char>| #[trigger] has_card_pools(cp, id) ==> card_pools_pos(np, id) == card_pools_pos(cp, id)
        }),
{
    let np = cp.update(i, e);
    assert forall|a: int, b: int| 0 <= a < b < np.len() implies (#[trigger] np[a]).card_id@ != (#[trigger] np[b]).card_id@ by {
        assert(cp[a].card_id@ != cp[b].card_id@);
    }
    assert forall|id: Seq<char>| has_card_pools(np, id) <==> has_card_pools(cp, id) by {
        if has_card_pools(cp, id) {
            let k = card_pools_pos(cp, id);
            assert(np[k].card_id@ == id);
        }
        if has_card_pools(np, id) {
            let k = card_pools_pos(np, id);
            assert(cp[k].card_id@ == id);
        }
    }
    assert forall|id: Seq<char>| #[trigger] has_card_pools(cp, id) implies card_pools_pos(np, id) == card_pools_pos(cp, id) by {
        let k = card_pools_pos(cp, id);
        let m = card_pools_pos(np, id);
        assert(np[k].card_id@ == id);
        assert(np[m].card_id@ == id);
        if k != m {
            if k < m {
                assert(np[k].card_id@ != np[m].card_id@);
            } else {
                assert(np[m].card_id@ != np[k].card_id@);
            }
        }
    }
}

/// Adding an entry for a new card keeps the others where they are.
pub proof fn lemma_card_pools_push(cp: Seq<CardTokenPools>, e: CardTokenPools)
    requires
        !has_card_pools(cp, e.card_id@),
        forall|a: int, b: int| 0 <= a < b < cp.len() ==> (#[trigger] cp[a]).card_id@ != (#[trigger] cp[b]).card_id@,
    ensures
        ({
            let np = cp.push(e);
            &&& forall|a: int, b: int| 0 <= a < b < np.len() ==> (#[trigger] np[a]).card_id@ != (#[trigger] np[b]).card_id@
            &&& forall|id: Seq<char>| has_card_pools(np, id) <==> (has_card_pools(cp, id) || id == e.card_id@)
            &&& forall|id: Seq<char>| #[trigger] has_card_pools(cp, id) ==> card_pools_pos(np, id) == card_pools_pos(cp, id)
            &&& card_pools_pos(np, e.card_id@) == cp.len()
        }),
{
    let np = cp.push(e);
    assert forall|a: int, b: int| 0 <= a < b < np.len() implies (#[trigger] np[a]).card_id@ != (#[trigger] np[b]).card_id@ by {
        if b == cp.len() {
            assert(np[a] == cp[a]);
        } else {
            assert(cp[a].card_id@ != cp[b].card_id@);
        }
    }
    assert forall|id: Seq<char>| has_card_pools(np, id) <==> (has_card_pools(cp, id) || id == e.card_id@) by {
        if has_card_pools(cp, id) {
            let k = card_pools_pos(cp, id);
            assert(np[k].card_id@ == id);
        }
        if id == e.card_id@ {
            assert(np[cp.len() as int].card_id@ == id);
        }
        if has_card_pools(np, id) {
            let k = card_pools_pos(np, id);
            if k < cp.len() {
                assert(cp[k].card_id@ == id);
            }
        }
    }
    assert forall|id: Seq<char>| #[trigger] has_card_pools(cp, id) implies card_pools_pos(np, id) == card_pools_pos(cp, id) by {
        let k = card_pools_pos(cp, id);
        let m = card_pools_pos(np, id);
        assert(np[k].card_id@ == id);
        assert(np[m].card_id@ == id);
        if k != m {
            if k < m {
                assert(np[k].card_id@ != np[m].card_id@);
            } else {
                assert(np[m].card_id@ != np[k].card_id@);
            }
        }
    }
    assert(has_card_pools(np, e.card_id@)) by {
        assert(np[cp.len() as int].card_id@ == e.card_id@);
    }
    let m = card_pools_pos(np, e.card_id@);
    if m != cp.len() {
        assert(cp[m].card_id@ == e.card_id@);
    }
}


/// A zone's pools change as `pools_changed` says: `after` is `before` with
/// the zone's pools changed, or, where the change fails, `before` itself
/// with the matching error.
pub open spec fn zone_pool_changed(before: GameState, after: GameState, zone: Zone, pool_id: Seq<char>, c: PoolChange, r: Result<(), EngineError>) -> bool {
    let ps = before.zone_token_pools@[zone_index(zone)]@;
    match pools_changed(ps, pool_id, c) {
        Err(m) => fails_with(r, m) && after == before,
        Ok(nps) => r is Ok && after.zone_token_pools@.len() == ZONE_COUNT
            && after.zone_token_pools@[zone_index(zone)]@ == nps
            && (forall|i: int| 0 <= i < ZONE_COUNT && i != zone_index(zone) ==> #[trigger] after.zone_token_pools@[i] == before.zone_token_pools@[i])
            && after.cards == before.cards && after.zones == before.zones
            && after.players == before.players && after.card_token_pools == before.card_token_pools,
    }
}

/// A card's pools change as `pools_changed` says: `after` is `before` with
/// the card's pools changed, or, where there is no such card, the card has
/// no pools, or the change fails, `before` itself with the matching error.
pub open spec fn card_pool_changed(before: GameState, after: GameState, card_id: Seq<char>, pool_id: Seq<char>, c: PoolChange, r: Result<(), EngineError>) -> bool {
    let cp = before.card_token_pools@;
    if !has_card(before.cards@, card_id) {
        fails_with(r, unknown_card(card_id)) && after == before
    } else if !has_card_pools(cp, card_id) {
        fails_with(r, unknown_pool(pool_id)) && after == before
    } else {
        let i = card_pools_pos(cp, card_id);
        match pools_changed(cp[i].pools@, pool_id, c) {
            Err(m) => fails_with(r, m) && after == before,
            Ok(nps) => r is Ok && after.card_token_pools@.len() == cp.len()
                && after.card_token_pools@[i].card_id == cp[i].card_id
                && after.card_token_pools@[i].pools@ == nps
                && (forall|j: int| 0 <= j < cp.len() && j != i ==> #[trigger] after.card_token_pools@[j] == cp[j])
                && after.cards == before.cards && after.zones == before.zones
                && after.players == before.players && after.zone_token_pools == before.zone_token_pools,
        }
    }
}

pub proof fn lemma_update_keeps_unique(ps: Seq<TokenPool>, k: int, np: TokenPool)
    requires
        unique_pool_ids(ps),
        0 <= k < ps.len(),
        np.id == ps[k].id,
    ensures
        unique_pool_ids(ps.update(k, np)),
{
    let u = ps.update(k, np);
    assert forall|i: int, j: int| 0 <= i < j < u.len() implies (#[trigger] u[i]).id@ != (#[trigger] u[j]).id@ by {
        assert(ps[i].id@ != ps[j].id@);
    }
}

impl GameState {
    fn change_zone_pool(&mut self, zone: Zone, pool_id: &str, c: PoolChange) -> (r: Result<(), EngineError>)
        requires
            old(self).wf(),
        ensures
            final(self).wf(),
            zone_pool_changed(*old(self), *final(self), zone, pool_id@, c, r),
    {
        let z = zone.index();
        let nps = match change_pools(&self.zone_token_pools[z], pool_id, c) {
            Ok(v) => v,
            Err(m) => {
                return Err(validation(m));
            },
        };
        self.zone_token_pools.set(z, nps);
        assert forall|i: int| 0 <= i < ZONE_COUNT && i != z implies #[trigger] self.zone_token_pools@[i] == old(self).zone_token_pools@[i] by {}
        Ok(())
    }

    fn change_card_pool(&mut self, card_id: &str, pool_id: &str, c: PoolChange) -> (r: Result<(), EngineError>)
        requires
            old(self).wf(),
        ensures
            final(self).wf(),
            card_pool_changed(*old(self), *final(self), card_id@, pool_id@, c, r),
    {
        self.ensure_card_exists(card_id)?;
        let i = match self.card_pools_index(card_id) {
            Some(i) => i,
            None => {
                return Err(validation(concat3("Unknown token pool '", pool_id, "'")));
            },
        };
        let nps = match change_pools(&self.card_token_pools[i].pools, pool_id, c) {
            Ok(v) => v,
            Err(m) => {
                return Err(validation(m));
            },
        };
        let ghost cp = self.card_token_pools@;
        let mut entry = self.card_token_pools.remove(i);
        entry.pools = nps;
        self.card_token_pools.insert(i, entry);
        assert(self.card_token_pools@ =~= cp.update(i as int, self.card_token_pools@[i as int]));
        proof {
            let np = self.card_token_pools@;
            assert forall|a: int, b: int| 0 <= a < b < np.len() implies (#[trigger] np[a]).card_id@ != (#[trigger] np[b]).card_id@ by {
                assert(cp[a].card_id@ != cp[b].card_id@);
            }
            assert forall|j: int| 0 <= j < np.len() implies unique_pool_ids((#[trigger] np[j]).pools@) by {
                if j != i {
                    assert(np[j] == cp[j]);
                }
            }
        }
        Ok(())
    }

    /// The pools of a zone.
    pub fn get_zone_token_pools(&self, zone: Zone) -> (r: Result<&Vec<TokenPool>, EngineError>)
        requires
            self.wf(),
        ensures
            r matches Ok(ps) && *ps == self.zone_token_pools@[zone_index(zone)],
    {
        Ok(&self.zone_token_pools[zone.index()])
    }

    /// The pools of a card of the game, if it has any.
    pub fn get_card_token_pools(&self, card_id: &str) -> (r: Result<Option<&Vec<TokenPool>>, EngineError>)
        requires
            self.wf(),
        ensures
            !has_card(self.cards@, card_id@) ==> fails_with(r, unknown_card(card_id@)),
            has_card(self.cards@, card_id@) && has_card_pools(self.card_token_pools@, card_id@) ==> (r matches Ok(Some(ps)) && *ps
                == self.card_token_pools@[card_pools_pos(self.card_token_pools@, card_id@)].pools),
            has_card(self.cards@, card_id@) && !has_card_pools(self.card_token_pools@, card_id@) ==> r matches Ok(None),
    {
        self.ensure_card_exists(card_id)?;
        match self.card_pools_index(card_id) {
            Some(i) => Ok(Some(&self.card_token_pools[i].pools)),
            None => Ok(None),
        }
    }

    /// Turns a pool of a zone on or off.
    pub fn activate_zone_token_pool(&mut self, zone: Zone, pool_id: &str, active: bool) -> (r: Result<(), EngineError>)
        requires
            old(self).wf(),
        ensures
            final(self).wf(),
            zone_pool_changed(*old(self), *final(self), zone, pool_id@, PoolChange::Activate(active), r),
    {
        self.change_zone_pool(zone, pool_id, PoolChange::Activate(active))
    }

    /// Turns a pool of a card on or off.
    pub fn activate_card_token_pool(&mut self, card_id: &str, pool_id: &str, active: bool) -> (r: Result<(), EngineError>)
        requires
            old(self).wf(),
        ensures
            final(self).wf(),
            card_pool_changed(*old(self), *final(self), card_id@, pool_id@, PoolChange::Activate(active), r),
    {
        self.change_card_pool(card_id, pool_id, PoolChange::Activate(active))
    }

    /// Adds tokens to a pool of a zone, within its bounds.
    pub fn add_tokens_to_zone_pool(&mut self, zone: Zone, pool_id: &str, amount: u32) -> (r: Result<(), EngineError>)
        requires
            old(self).wf(),
        ensures
            final(self).wf(),
            zone_pool_changed(*old(self), *final(self), zone, pool_id@, PoolChange::Add(amount), r),
    {
        self.change_zone_pool(zone, pool_id, PoolChange::Add(amount))
    }

    /// Adds tokens to a pool of a card, within its bounds.
    pub fn add_tokens_to_card_pool(&mut self, card_id: &str, pool_id: &str, amount: u32) -> (r: Result<(), EngineError>)
        requires
            old(self).wf(),
        ensures
            final(self).wf(),
            card_pool_changed(*old(self), *final(self), card_id@, pool_id@, PoolChange::Add(amount), r),
    {
        self.change_card_pool(card_id, pool_id, PoolChange::Add(amount))
    }

    /// Removes tokens from a pool of a zone, within its bounds.
    pub fn remove_tokens_from_zone_pool(&mut self, zone: Zone, pool_id: &str, amount: u32) -> (r: Result<(), EngineError>)
        requires
            old(self).wf(),
        ensures
            final(self).wf(),
            zone_pool_changed(*old(self), *final(self), zone, pool_id@, PoolChange::Remove(amount), r),
    {
        self.change_zone_pool(zone, pool_id, PoolChange::Remove(amount))
    }

    /// Removes tokens from a pool of a card, within its bounds.
    pub fn remove_tokens_from_card_pool(&mut self, card_id: &str, pool_id: &str, amount: u32) -> (r: Result<(), EngineError>)
        requires
            old(self).wf(),
        ensures
            final(self).wf(),
            card_pool_changed(*old(self), *final(self), card_id@, pool_id@, PoolChange::Remove(amount), r),
    {
        self.change_card_pool(card_id, pool_id, PoolChange::Remove(amount))
    }

    /// The pool of a zone with the given id.
    fn zone_token_pool(&self, zone: Zone, pool_id: &str) -> (r: Result<&TokenPool, EngineError>)
        requires
            self.wf(),
        ensures
            !has_pool(self.zone_token_pools@[zone_index(zone)]@, pool_id@) ==> fails_with(r, unknown_pool(pool_id@)),
            has_pool(self.zone_token_pools@[zone_index(zone)]@, pool_id@) ==> (r matches Ok(p) && *p == pool_with(self.zone_token_pools@[zone_index(zone)]@, pool_id@)),
    {
        let z = zone.index();
        match pool_index(&self.zone_token_pools[z], pool_id) {
            Some(k) => Ok(&self.zone_token_pools[z][k]),
            None => Err(validation(concat3("Unknown token pool '", pool_id, "'"))),
        }
    }

    /// The pool of a card with the given id.
    fn card_token_pool(&self, card_id: &str, pool_id: &str) -> (r: Result<&TokenPool, EngineError>)
        requires
            self.wf(),
        ensures
            match card_pool_missing(*self, card_id@, pool_id@) {
                Some(m) => fails_with(r, m),
                None => r matches Ok(p) && *p == card_pool_of(*self, card_id@, pool_id@),
            },
    {
        self.ensure_card_exists(card_id)?;
        match self.card_pools_index(card_id) {
            Some(i) => match pool_index(&self.card_token_pools[i].pools, pool_id) {
                Some(k) => Ok(&self.card_token_pools[i].pools[k]),
                None => Err(validation(concat3("Unknown token pool '", pool_id, "'"))),
            },
            None => Err(validation(concat3("Unknown token pool '", pool_id, "'"))),
        }
    }

    /// The icon of a pool of a zone.
    pub fn zone_token_pool_icon(&self, zone: Zone, pool_id: &str) -> (r: Result<&str, EngineError>)
        requires
            self.wf(),
        ensures
            !has_pool(self.zone_token_pools@[zone_index(zone)]@, pool_id@) ==> fails_with(r, unknown_pool(pool_id@)),
            has_pool(self.zone_token_pools@[zone_index(zone)]@, pool_id@) ==> (r matches Ok(t) && t@ == pool_with(self.zone_token_pools@[zone_index(zone)]@, pool_id@).token@),
    {
        Ok(self.zone_token_pool(zone, pool_id)?.token())
    }

    /// The icon of a pool of a card.
    pub fn card_token_pool_icon(&self, card_id: &str, pool_id: &str) -> (r: Result<&str, EngineError>)
        requires
            self.wf(),
        ensures
            match card_pool_missing(*self, card_id@, pool_id@) {
                Some(m) => fails_with(r, m),
                None => r matches Ok(t) && t@ == card_pool_of(*self, card_id@, pool_id@).token@,
            },
    {
        Ok(self.card_token_pool(card_id, pool_id)?.token())
    }

    /// The background of a pool of a zone.
    pub fn zone_token_pool_background(&self, zone: Zone, pool_id: &str) -> (r: Result<Option<&str>, EngineError>)
        requires
            self.wf(),
        ensures
            !has_pool(self.zone_token_pools@[zone_index(zone)]@, pool_id@) ==> fails_with(r, unknown_pool(pool_id@)),
            has_pool(self.zone_token_pools@[zone_index(zone)]@, pool_id@) ==> (r matches Ok(b) && opt_str_view(b) == crate::text::opt_chars(pool_with(self.zone_token_pools@[zone_index(zone)]@, pool_id@).background)),
    {
        Ok(self.zone_token_pool(zone, pool_id)?.background())
    }

    /// The background of a pool of a card.
    pub fn card_token_pool_background(&self, card_id: &str, pool_id: &str) -> (r: Result<Option<&str>, EngineError>)
        requires
            self.wf(),
        ensures
            match card_pool_missing(*self, card_id@, pool_id@) {
                Some(m) => fails_with(r, m),
                None => r matches Ok(b) && opt_str_view(b) == crate::text::opt_chars(card_pool_of(*self, card_id@, pool_id@).background),
            },
    {
        Ok(self.card_token_pool(card_id, pool_id)?.background())
    }
}

/// The characters of an optional string slice.
pub open spec fn opt_str_view(o: Option<&str>) -> Option<Seq<char>> {
    match o {
        Some(s) => Some(s@),
        None => None,
    }
}

/// The pool of a card with the given id (meaningful when there is one).
pub open spec fn card_pool_of(g: GameState, card_id: Seq<char>, pool_id: Seq<char>) -> TokenPool {
    let cp = g.card_token_pools@;
    pool_with(cp[card_pools_pos(cp, card_id)].pools@, pool_id)
}

/// Why a card's pool cannot be found: the card or the pool is unknown.
pub open spec fn card_pool_missing(g: GameState, card_id: Seq<char>, pool_id: Seq<char>) -> Option<Seq<char>> {
    let cp = g.card_token_pools@;
    if !has_card(g.cards@, card_id) {
        Some(unknown_card(card_id))
    } else if !has_card_pools(cp, card_id) || !has_pool(cp[card_pools_pos(cp, card_id)].pools@, pool_id) {
        Some(unknown_pool(pool_id))
    } else {
        None
    }
}


/// A player is renamed to the trimmed name, which must not be blank;
/// otherwise nothing changes and the matching error is returned.
pub open spec fn player_renamed(before: GameState, after: GameState, player_id: Seq<char>, name: Seq<char>, r: Result<(), EngineError>) -> bool {
    &&& (r is Ok <==> trim(name).len() > 0 && has_player(before.players@, player_id))
    &&& (r matches Err(e) ==> validation_message(e) == Some(
        if trim(name).len() == 0 {
            "Player name must not be empty"@
        } else {
            unknown_player(player_id)
        },
    ))
    &&& (r is Err ==> after == before)
    &&& (r is Ok ==> {
        let i = player_pos(before.players@, player_id);
        &&& after.players@.len() == before.players@.len()
        &&& forall|k: int| 0 <= k < before.players@.len() && k != i ==> after.players@[k] == before.players@[k]
        &&& after.players@[i].id == before.players@[i].id
        &&& after.players@[i].token_pools == before.players@[i].token_pools
        &&& after.players@[i].name@ == trim(name)
        &&& after.cards == before.cards
        &&& after.zones == before.zones
        &&& after.zone_token_pools == before.zone_token_pools
        &&& after.card_token_pools == before.card_token_pools
    })
}

/// A player's pool and each of its ancestors change by `amount`, all or
/// nothing: `after` holds the walked pools, or, where the walk fails,
/// `before` itself with the walk's error.
pub open spec fn player_pool_walked(before: GameState, after: GameState, player_id: Seq<char>, pool_id: Seq<char>, amount: u32, add: bool, r: Result<(), EngineError>) -> bool {
    &&& (!has_player(before.players@, player_id) ==> fails_with(r, unknown_player(player_id)) && after == before)
    &&& (has_player(before.players@, player_id) ==> {
        let i = player_pos(before.players@, player_id);
        match walk_from(before.players@[i].token_pools@, pool_id, amount, add, Seq::empty()) {
            Err(m) => fails_with(r, m) && after == before,
            Ok(walked) => r is Ok
                && after.players@ == before.players@.update(i, Player { token_pools: after.players@[i].token_pools, ..before.players@[i] })
                && after.players@[i].token_pools@ == walked
                && after.cards == before.cards
                && after.zones == before.zones
                && after.zone_token_pools == before.zone_token_pools
                && after.card_token_pools == before.card_token_pools,
        }
    })
}

/// The pools of a zone are replaced by valid pools with distinct ids;
/// otherwise nothing changes.
pub open spec fn zone_pools_set(before: GameState, after: GameState, zone: Zone, pools: Seq<TokenPool>, r: Result<(), EngineError>) -> bool {
    &&& (match owner_pools_problem(pools) {
        Some(m) => fails_with(r, m) && after == before,
        None => r is Ok && after.zone_token_pools@.len() == ZONE_COUNT
            && after.zone_token_pools@[zone_index(zone)]@ == pools
            && (forall|i: int| 0 <= i < ZONE_COUNT && i != zone_index(zone) ==> #[trigger] after.zone_token_pools@[i] == before.zone_token_pools@[i])
            && after.cards == before.cards && after.zones == before.zones
            && after.players == before.players && after.card_token_pools == before.card_token_pools,
    })
}

/// A valid pool is stored in a zone under its id; otherwise nothing
/// changes.
pub open spec fn zone_pool_added(before: GameState, after: GameState, zone: Zone, pool: TokenPool, r: Result<(), EngineError>) -> bool {
    &&& (match pool_problem(pool) {
        Some(m) => fails_with(r, m) && after == before,
        None => r is Ok && after.zone_token_pools@.len() == ZONE_COUNT
            && after.zone_token_pools@[zone_index(zone)]@ == upsert_pool(before.zone_token_pools@[zone_index(zone)]@, pool)
            && (forall|i: int| 0 <= i < ZONE_COUNT && i != zone_index(zone) ==> #[trigger] after.zone_token_pools@[i] == before.zone_token_pools@[i])
            && after.cards == before.cards && after.zones == before.zones
            && after.players == before.players && after.card_token_pools == before.card_token_pools,
    })
}

/// A valid pool is stored under its id among the pools of a known card;
/// otherwise nothing changes.
pub open spec fn card_pool_added(before: GameState, after: GameState, card_id: Seq<char>, pool: TokenPool, r: Result<(), EngineError>) -> bool {
    &&& (!has_card(before.cards@, card_id) ==> fails_with(r, unknown_card(card_id)) && after == before)
    &&& (has_card(before.cards@, card_id) ==> match pool_problem(pool) {
        Some(m) => fails_with(r, m) && after == before,
        None => r is Ok && has_card_pools(after.card_token_pools@, card_id)
            && after.card_token_pools@[card_pools_pos(after.card_token_pools@, card_id)].pools@ == upsert_pool(
                if has_card_pools(before.card_token_pools@, card_id) {
                    before.card_token_pools@[card_pools_pos(before.card_token_pools@, card_id)].pools@
                } else {
                    Seq::empty()
                },
                pool,
            )
            && (forall|id: Seq<char>| id != card_id ==> (has_card_pools(after.card_token_pools@, id) <==> has_card_pools(before.card_token_pools@, id)))
            && (forall|id: Seq<char>| id != card_id && #[trigger] has_card_pools(before.card_token_pools@, id) ==>
                after.card_token_pools@[card_pools_pos(after.card_token_pools@, id)] == before.card_token_pools@[card_pools_pos(before.card_token_pools@, id)])
            && after.cards == before.cards && after.zones == before.zones
            && after.players == before.players && after.zone_token_pools == before.zone_token_pools,
    })
}

/// Only the zones of the state differ.
pub open spec fn only_zones_differ(a: GameState, b: GameState) -> bool {
    a.cards == b.cards && a.players == b.players && a.zone_token_pools == b.zone_token_pools
        && a.card_token_pools == b.card_token_pools
}

} // verus!
