//! The card of a running game: its definition, the optional play data of
//! the card CSV, and the token pools it starts with.
use vstd::prelude::*;

use crate::cards::{cost_view, duplicate_cost, CardCost, CardVisual};
use crate::text::clone_opt;
use crate::text::owned;
use crate::token_pools::{PoolShape, TokenPool};

verus! {

/// A card as the engine holds it.
#[derive(Debug, Clone, PartialEq, Eq)]
pub struct Card {
    pub id: String,
    pub game_id: String,
    pub name: String,
    pub card_type_id: String,
    pub description: Option<String>,
    pub cost: Option<CardCost>,
    pub visual: CardVisual,
    pub back_logo: Option<String>,
    pub back_image: Option<String>,
    pub mana: Option<String>,
    pub colors: Option<String>,
    pub oracle_text: Option<String>,
    pub power: Option<String>,
    pub toughness: Option<String>,
    pub is_commander: bool,
    pub is_partner: bool,
    pub token_pools: Vec<TokenPool>,
    pub starting_pile: Option<String>,
}


/// Two cards that agree in every field, costs compared by their components.
pub open spec fn same_card(a: Card, b: Card) -> bool {
    &&& a.id == b.id
    &&& a.game_id == b.game_id
    &&& a.name == b.name
    &&& a.card_type_id == b.card_type_id
    &&& a.description == b.description
    &&& cost_view(a.cost) == cost_view(b.cost)
    &&& a.visual == b.visual
    &&& a.back_logo == b.back_logo
    &&& a.back_image == b.back_image
    &&& a.mana == b.mana
    &&& a.colors == b.colors
    &&& a.oracle_text == b.oracle_text
    &&& a.power == b.power
    &&& a.toughness == b.toughness
    &&& a.is_commander == b.is_commander
    &&& a.is_partner == b.is_partner
    &&& a.token_pools@ == b.token_pools@
    &&& a.starting_pile == b.starting_pile
}

/// Copies of a list of pools.
pub fn duplicate_pools(ps: &Vec<TokenPool>) -> (r: Vec<TokenPool>)
    ensures
        r@ == ps@,
{
    let mut r: Vec<TokenPool> = Vec::new();
    let mut i: usize = 0;
    while i < ps.len()
        invariant
            i <= ps@.len(),
            r@ == ps@.take(i as int),
        decreases ps.len() - i,
    {
        r.push(ps[i].duplicate());
        assert(r@ =~= ps@.take(i + 1));
        i += 1;
    }
    assert(ps@.take(ps.len() as int) =~= ps@);
    r
}

impl Card {
    /// A copy of the card.
    pub fn duplicate(&self) -> (r: Self)
        ensures
            same_card(r, *self),
    {
        Card {
            id: self.id.clone(),
            game_id: self.game_id.clone(),
            name: self.name.clone(),
            card_type_id: self.card_type_id.clone(),
            description: clone_opt(&self.description),
            cost: duplicate_cost(&self.cost),
            visual: self.visual.duplicate(),
            back_logo: clone_opt(&self.back_logo),
            back_image: clone_opt(&self.back_image),
            mana: clone_opt(&self.mana),
            colors: clone_opt(&self.colors),
            oracle_text: clone_opt(&self.oracle_text),
            power: clone_opt(&self.power),
            toughness: clone_opt(&self.toughness),
            is_commander: self.is_commander,
            is_partner: self.is_partner,
            token_pools: duplicate_pools(&self.token_pools),
            starting_pile: clone_opt(&self.starting_pile),
        }
    }
}


/// The pools of a list as mathematical values.
pub open spec fn pool_shapes(ps: Seq<TokenPool>) -> Seq<PoolShape> {
    ps.map_values(|p: TokenPool| p@)
}

/// Whether a list of pools has one with the given id.
pub open spec fn has_shape_id(ps: Seq<PoolShape>, id: Seq<char>) -> bool {
    exists|i: int| 0 <= i < ps.len() && (#[trigger] ps[i]).id == id
}

/// A pool that starts at zero, never goes below zero, and moves by one.
pub open spec fn default_shape(id: Seq<char>, label: Seq<char>, token: Seq<char>, max: Option<u32>, active: bool) -> PoolShape {
    PoolShape {
        id,
        label,
        token_type_id: None,
        token,
        icon_color: None,
        background: None,
        starting: 0,
        count: 0,
        plus: 1,
        minus: 1,
        min: Some(0),
        max,
        parent_id: None,
        active,
    }
}

/// The pool of counters a card has unless it names its own: no maximum.
pub open spec fn counters_shape() -> PoolShape {
    default_shape("counters"@, "Counters"@, "fa-solid fa-plus"@, None, true)
}

/// The pool that marks a card as tapped, off until used.
pub open spec fn tapped_shape() -> PoolShape {
    default_shape("tapped"@, "Tapped"@, "fa-solid fa-rotate"@, Some(0), false)
}

/// The pool that marks a card with a back image as flipped.
pub open spec fn flipped_shape() -> PoolShape {
    default_shape("flipped"@, "Back face"@, "fa-solid fa-repeat"@, Some(0), false)
}

/// A list with `p` added at the end unless a pool of its id is there.
pub open spec fn push_missing(ps: Seq<PoolShape>, p: PoolShape) -> Seq<PoolShape> {
    if has_shape_id(ps, p.id) {
        ps
    } else {
        ps.push(p)
    }
}

/// The pools of a card once the default pools are added: counters, tapped,
/// and, for a card with a back image, flipped; each only where the card has
/// no pool of that id.
pub open spec fn default_pool_shapes(ps: Seq<PoolShape>, has_back: bool) -> Seq<PoolShape> {
    let with_tapped = push_missing(push_missing(ps, counters_shape()), tapped_shape());
    if has_back {
        push_missing(with_tapped, flipped_shape())
    } else {
        with_tapped
    }
}

/// `after` is `before` with the default pools added.
pub open spec fn defaults_added(before: Card, after: Card) -> bool {
    &&& after == Card { token_pools: after.token_pools, ..before }
    &&& pool_shapes(after.token_pools@) == default_pool_shapes(pool_shapes(before.token_pools@), before.back_image is Some)
}

/// Whether a pool of the given id is in the list.
fn has_pool_named(ps: &Vec<TokenPool>, id: &str) -> (r: bool)
    ensures
        r == has_shape_id(pool_shapes(ps@), id@),
{
    let mut i: usize = 0;
    while i < ps.len()
        invariant
            i <= ps@.len(),
            forall|k: int| 0 <= k < i ==> (#[trigger] ps@[k]).id@ != id@,
        decreases ps.len() - i,
    {
        if crate::text::str_is(ps[i].id.as_str(), id) {
            assert(pool_shapes(ps@)[i as int].id == id@);
            return true;
        }
        i += 1;
    }
    assert(!has_shape_id(pool_shapes(ps@), id@)) by {
        if has_shape_id(pool_shapes(ps@), id@) {
            let k = choose|k: int| 0 <= k < pool_shapes(ps@).len() && (#[trigger] pool_shapes(ps@)[k]).id == id@;
            assert(ps@[k].id@ == id@);
        }
    }
    false
}

/// A pool that starts at zero, never goes below zero, and moves by one.
pub(crate) fn default_pool(id: &str, label: &str, token: &str, max: Option<u32>, active: bool) -> (p: TokenPool)
    ensures
        p@ == default_shape(id@, label@, token@, max, active),
{
    TokenPool {
        id: owned(id),
        label: owned(label),
        token_type_id: None,
        token: owned(token),
        icon_color: None,
        background: None,
        starting: 0,
        count: 0,
        plus: 1,
        minus: 1,
        min: Some(0),
        max,
        parent_id: None,
        active,
    }
}

/// Adds `p` at the end unless a pool of its id is there.
fn push_if_missing(ps: &mut Vec<TokenPool>, p: TokenPool)
    ensures
        pool_shapes(final(ps)@) == push_missing(pool_shapes(old(ps)@), p@),
{
    if !has_pool_named(ps, p.id.as_str()) {
        ps.push(p);
        assert(pool_shapes(ps@) =~= pool_shapes(old(ps)@).push(p@));
    }
}

impl Card {
    /// Adds the pools every card of a game has unless it names its own:
    /// counters (from zero, no maximum), tapped (off), and, for a card with a
    /// back image, flipped (off).
    pub fn add_default_token_pools(&mut self)
        ensures
            defaults_added(*old(self), *final(self)),
    {
        push_if_missing(&mut self.token_pools, default_pool("counters", "Counters", "fa-solid fa-plus", None, true));
        push_if_missing(&mut self.token_pools, default_pool("tapped", "Tapped", "fa-solid fa-rotate", Some(0), false));
        if self.back_image.is_some() {
            push_if_missing(&mut self.token_pools, default_pool("flipped", "Back face", "fa-solid fa-repeat", Some(0), false));
        }
    }
}

/// Adds the default pools to every card of a list.
pub fn add_default_token_pools(cards: &mut Vec<Card>)
    ensures
        final(cards)@.len() == old(cards)@.len(),
        forall|i: int| 0 <= i < final(cards)@.len() ==> defaults_added(old(cards)@[i], #[trigger] final(cards)@[i]),
{
    let mut i: usize = 0;
    while i < cards.len()
        invariant
            i <= cards@.len(),
            cards@.len() == old(cards)@.len(),
            forall|k: int| 0 <= k < i ==> defaults_added(old(cards)@[k], #[trigger] cards@[k]),
            forall|k: int| i <= k < cards@.len() ==> #[trigger] cards@[k] == old(cards)@[k],
        decreases cards.len() - i,
    {
        let mut c = cards.remove(i);
        c.add_default_token_pools();
        cards.insert(i, c);
        i += 1;
    }
}

} // verus!
