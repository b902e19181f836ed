//! Properties that hold across the operations of the library: what every
//! change of a token pool keeps, what an undo gives back, and what moving
//! cards between zones preserves.
use vstd::prelude::*;

use crate::cards::{
    card_types_from, cards_from, csv_rows, end_row, has_value, scan_from, scan_step, scan_width, valid_id,
    ScanState,
};
use crate::engine::{
    checked_move, draw_outcome, drawn, entry_of, move_then_log, pile_id_of, state_moved, undo_note, undo_outcome,
    CardEngine, EngineError,
};
use crate::move_logger::MoveLogEntry;
use crate::player::unique_pool_ids;
use crate::zone_layout::{parent_problem, zone_ids, zone_rows, zones_from};
use crate::fields::{field, lookup};
use crate::text::non_blank;
use crate::token_pools::{find_type, pool_row, type_key, with_type_defaults, TokenTypeShape, inline_pool_list, shape_problem, add_problem, added, pool_valid, remove_problem, removed, same_but_count, TokenPool};
use crate::snapshot::{flat_cards, pile_index, restore_problem, saved_card_ids, saved_pile_indices, snapshot_restored, SavedPlayer, SavedZone};
use crate::zones::{
    pools_changed, PoolChange, card_with, has_card, has_pool, lemma_pos_of, only_zones_differ, move_problem, moved, pool_pos, pos_of, step_problem, stepped, walk_chain,
    walk_from, zone_index, zone_name, zone_of_pile, Zone, ZONE_COUNT,
};

verus! {

/// Adding tokens to a valid pool, where `add_tokens` succeeds, leaves a
/// valid pool: the bounds are checked whenever the count changes.
pub proof fn law_add_keeps_pool_valid(p: TokenPool, amount: u32)
    requires
        pool_valid(p),
        add_problem(p, amount) is None,
    ensures
        pool_valid(added(p, amount)),
{
}

/// Removing tokens from a valid pool, where `remove_tokens` succeeds,
/// leaves a valid pool.
pub proof fn law_remove_keeps_pool_valid(p: TokenPool, amount: u32)
    requires
        pool_valid(p),
        remove_problem(p, amount) is None,
    ensures
        pool_valid(removed(p, amount)),
{
}

/// Removing what was just added to a valid pool succeeds and gives the pool
/// back unchanged.
pub proof fn law_add_then_remove_restores(p: TokenPool, amount: u32)
    requires
        pool_valid(p),
        add_problem(p, amount) is None,
    ensures
        remove_problem(added(p, amount), amount) is None,
        removed(added(p, amount), amount) == p,
{
}

/// Adding back what was just removed from a valid pool succeeds and gives
/// the pool back unchanged.
pub proof fn law_remove_then_add_restores(p: TokenPool, amount: u32)
    requires
        pool_valid(p),
        remove_problem(p, amount) is None,
    ensures
        add_problem(removed(p, amount), amount) is None,
        added(removed(p, amount), amount) == p,
{
}

/// A step of a walk keeps a valid pool valid.
pub proof fn lemma_step_keeps_valid(p: TokenPool, amount: u32, add: bool)
    requires
        pool_valid(p),
        step_problem(p, amount, add) is None,
    ensures
        pool_valid(stepped(p, amount, add)),
{
    if add {
        law_add_keeps_pool_valid(p, amount);
    } else {
        law_remove_keeps_pool_valid(p, amount);
    }
}

/// A walk that succeeds keeps valid pools valid, keeps their number, and
/// changes no pool but in its count.
pub proof fn lemma_walk_keeps_valid(pools: Seq<TokenPool>, id: Seq<char>, amount: u32, add: bool, visited: Seq<Seq<char>>, fuel: nat)
    requires
        forall|k: int| 0 <= k < pools.len() ==> pool_valid(#[trigger] pools[k]),
        walk_chain(pools, id, amount, add, visited, fuel) is Ok,
    ensures
        ({
            let after = walk_chain(pools, id, amount, add, visited, fuel)->Ok_0;
            &&& after.len() == pools.len()
            &&& forall|k: int| 0 <= k < after.len() ==> pool_valid(#[trigger] after[k])
            &&& forall|k: int| 0 <= k < after.len() ==> same_but_count(#[trigger] after[k], pools[k])
        }),
    decreases fuel,
{
    let k = pool_pos(pools, id);
    let p = pools[k];
    lemma_step_keeps_valid(p, amount, add);
    let np = pools.update(k, stepped(p, amount, add));
    assert forall|j: int| 0 <= j < np.len() implies pool_valid(#[trigger] np[j]) by {
        if j != k {
            assert(np[j] == pools[j]);
        }
    }
    match p.parent_id {
        None => {
            assert forall|j: int| 0 <= j < np.len() implies same_but_count(#[trigger] np[j], pools[j]) by {
                if j != k {
                    assert(np[j] == pools[j]);
                }
            }
        },
        Some(par) => {
            lemma_walk_keeps_valid(np, par@, amount, add, visited.push(id), (fuel - 1) as nat);
            let after = walk_chain(np, par@, amount, add, visited.push(id), (fuel - 1) as nat)->Ok_0;
            assert forall|j: int| 0 <= j < after.len() implies same_but_count(#[trigger] after[j], pools[j]) by {
                assert(same_but_count(after[j], np[j]));
                if j != k {
                    assert(np[j] == pools[j]);
                }
            }
        },
    }
}

/// Where the pools of a valid owner change through a chain of parents,
/// every pool stays valid: the count of each pool on the chain moves by
/// `amount` within its bounds, and nothing else about any pool changes.
pub proof fn law_walk_keeps_pools_valid(pools: Seq<TokenPool>, id: Seq<char>, amount: u32, add: bool)
    requires
        forall|k: int| 0 <= k < pools.len() ==> pool_valid(#[trigger] pools[k]),
        walk_from(pools, id, amount, add, Seq::empty()) is Ok,
    ensures
        ({
            let after = walk_from(pools, id, amount, add, Seq::empty())->Ok_0;
            &&& after.len() == pools.len()
            &&& forall|k: int| 0 <= k < after.len() ==> pool_valid(#[trigger] after[k])
            &&& forall|k: int| 0 <= k < after.len() ==> same_but_count(#[trigger] after[k], pools[k])
        }),
{
    lemma_walk_keeps_valid(pools, id, amount, add, Seq::empty(), (pools.len() - 0) as nat);
}

/// Two lists of pools with the same ids, one with unique ids, find a pool
/// at the same position.
pub proof fn lemma_same_ids_same_pos(a: Seq<TokenPool>, b: Seq<TokenPool>, id: Seq<char>)
    requires
        a.len() == b.len(),
        forall|k: int| 0 <= k < a.len() ==> (#[trigger] a[k]).id == b[k].id,
        unique_pool_ids(a),
        has_pool(a, id),
    ensures
        has_pool(b, id),
        pool_pos(b, id) == pool_pos(a, id),
{
    let i = pool_pos(a, id);
    assert(b[i].id@ == id);
    let j = pool_pos(b, id);
    assert(a[j].id@ == id);
    if i != j {
        if i < j {
            assert(a[i].id@ != a[j].id@);
        } else {
            assert(a[j].id@ != a[i].id@);
        }
    }
}

/// A walk that succeeds leaves the pools it has already visited as they
/// were.
pub proof fn lemma_walk_keeps_visited(pools: Seq<TokenPool>, id: Seq<char>, amount: u32, add: bool, visited: Seq<Seq<char>>, fuel: nat)
    requires
        unique_pool_ids(pools),
        walk_chain(pools, id, amount, add, visited, fuel) is Ok,
    ensures
        ({
            let after = walk_chain(pools, id, amount, add, visited, fuel)->Ok_0;
            &&& after.len() == pools.len()
            &&& forall|k: int| 0 <= k < after.len() ==> (#[trigger] after[k]).id == pools[k].id
            &&& forall|k: int| 0 <= k < pools.len() && visited.contains((#[trigger] pools[k]).id@) ==> after[k] == pools[k]
        }),
    decreases fuel,
{
    let k = pool_pos(pools, id);
    let p = pools[k];
    let np = pools.update(k, stepped(p, amount, add));
    assert(unique_pool_ids(np)) by {
        assert forall|a: int, b: int| 0 <= a < b < np.len() implies (#[trigger] np[a]).id@ != (#[trigger] np[b]).id@ by {
            assert(np[a].id == pools[a].id && np[b].id == pools[b].id);
        }
    }
    match p.parent_id {
        None => {},
        Some(par) => {
            let v2 = visited.push(id);
            lemma_walk_keeps_visited(np, par@, amount, add, v2, (fuel - 1) as nat);
            let after = walk_chain(np, par@, amount, add, v2, (fuel - 1) as nat)->Ok_0;
            assert forall|j: int| 0 <= j < pools.len() && visited.contains((#[trigger] pools[j]).id@) implies after[j] == pools[j] by {
                assert(v2.contains(np[j].id@)) by {
                    let q = visited.index_of(pools[j].id@);
                    assert(v2[q] == pools[j].id@);
                }
                assert(j != k);
                assert(np[j] == pools[j]);
            }
        },
    }
}

/// Adding to (or removing from) a pool with a parent changes the pool and
/// its parent by the same amount: where the walk succeeds, the named pool
/// and its parent, if any, are each stepped once.
pub proof fn law_walk_steps_pool_and_parent(pools: Seq<TokenPool>, id: Seq<char>, amount: u32, add: bool)
    requires
        unique_pool_ids(pools),
        walk_from(pools, id, amount, add, Seq::empty()) is Ok,
    ensures
        has_pool(pools, id),
        ({
            let after = walk_from(pools, id, amount, add, Seq::empty())->Ok_0;
            let k = pool_pos(pools, id);
            &&& after[k] == stepped(pools[k], amount, add)
            &&& (pools[k].parent_id matches Some(par) ==> has_pool(pools, par@)
                && after[pool_pos(pools, par@)] == stepped(pools[pool_pos(pools, par@)], amount, add))
        }),
{
    let fuel = pools.len() as nat;
    let visited = Seq::<Seq<char>>::empty();
    assert(walk_from(pools, id, amount, add, visited) == walk_chain(pools, id, amount, add, visited, fuel));
    let k = pool_pos(pools, id);
    let p = pools[k];
    let np = pools.update(k, stepped(p, amount, add));
    assert(unique_pool_ids(np)) by {
        assert forall|a: int, b: int| 0 <= a < b < np.len() implies (#[trigger] np[a]).id@ != (#[trigger] np[b]).id@ by {
            assert(np[a].id == pools[a].id && np[b].id == pools[b].id);
        }
    }
    match p.parent_id {
        None => {},
        Some(par) => {
            let v2 = visited.push(id);
            let f2 = (fuel - 1) as nat;
            lemma_walk_keeps_visited(np, par@, amount, add, v2, f2);
            let after = walk_chain(np, par@, amount, add, v2, f2)->Ok_0;
            assert(v2.contains(np[k].id@)) by {
                assert(v2[0] == id);
            }
            assert(after[k] == np[k]);
            // The parent is a pool other than the named one, stepped first in
            // the rest of the walk.
            assert(!v2.contains(par@));
            assert(has_pool(np, par@));
            let kp = pool_pos(np, par@);
            lemma_same_ids_same_pos(np, pools, par@);
            assert(kp != k) by {
                assert(np[k].id@ == id);
                assert(v2[0] == id);
            }
            let pp = np[kp];
            let np2 = np.update(kp, stepped(pp, amount, add));
            assert(unique_pool_ids(np2)) by {
                assert forall|a: int, b: int| 0 <= a < b < np2.len() implies (#[trigger] np2[a]).id@ != (#[trigger] np2[b]).id@ by {
                    assert(np2[a].id == np[a].id && np2[b].id == np[b].id);
                }
            }
            match pp.parent_id {
                None => {},
                Some(gp) => {
                    let v3 = v2.push(par@);
                    lemma_walk_keeps_visited(np2, gp@, amount, add, v3, (f2 - 1) as nat);
                    assert(v3.contains(np2[kp].id@)) by {
                        assert(v3[1] == par@);
                    }
                },
            }
        },
    }
}

/// How often a card id occurs across all zones.
pub open spec fn copies(zs: Seq<Seq<Seq<char>>>, x: Seq<char>) -> nat
    decreases zs.len(),
{
    if zs.len() == 0 {
        0
    } else {
        copies(zs.drop_last(), x) + zs.last().to_multiset().count(x)
    }
}

/// Replacing one zone changes the count of a card id by the difference in
/// that zone.
pub proof fn lemma_copies_update(zs: Seq<Seq<Seq<char>>>, i: int, s: Seq<Seq<char>>, x: Seq<char>)
    requires
        0 <= i < zs.len(),
    ensures
        copies(zs.update(i, s), x) + zs[i].to_multiset().count(x) == copies(zs, x) + s.to_multiset().count(x),
    decreases zs.len(),
{
    let u = zs.update(i, s);
    if i < zs.len() - 1 {
        assert(u.drop_last() =~= zs.drop_last().update(i, s));
        lemma_copies_update(zs.drop_last(), i, s, x);
    } else {
        assert(u.drop_last() =~= zs.drop_last());
    }
}

/// Moving a card between two zones keeps every card: each card id occurs
/// across the zones as often as before.
pub proof fn law_move_keeps_cards(zs: Seq<Seq<Seq<char>>>, from: Zone, to: Zone, id: Seq<char>, x: Seq<char>)
    requires
        zs.len() == ZONE_COUNT,
        from != to,
        move_problem(zs, from, to, id) is None,
    ensures
        copies(moved(zs, from, to, id), x) == copies(zs, x),
{
    broadcast use vstd::seq_lib::to_multiset_build, vstd::seq_lib::to_multiset_remove;
    let f = zone_index(from);
    let t = zone_index(to);
    let k = pos_of(zs[f], id);
    lemma_pos_of(zs[f], id);
    let z1 = zs.update(f, zs[f].remove(k));
    lemma_copies_update(zs, f, zs[f].remove(k), x);
    lemma_copies_update(z1, t, zs[t].push(id), x);
    assert(z1[t] == zs[t]);
    assert(zs[f].remove(k).to_multiset() == zs[f].to_multiset().remove(id));
    assert(zs[t].push(id).to_multiset() == zs[t].to_multiset().insert(id));
    broadcast use vstd::multiset::group_multiset_axioms, vstd::seq_lib::to_multiset_contains;
    assert(zs[f].contains(id));
    assert(zs[f].to_multiset().count(id) > 0);
    if x == id {
        assert(zs[f].remove(k).to_multiset().count(x) + 1 == zs[f].to_multiset().count(x));
        assert(zs[t].push(id).to_multiset().count(x) == zs[t].to_multiset().count(x) + 1);
    } else {
        assert(zs[f].remove(k).to_multiset().count(x) == zs[f].to_multiset().count(x));
        assert(zs[t].push(id).to_multiset().count(x) == zs[t].to_multiset().count(x));
    }
}

/// The commander pile never holds more than two cards through moves: a
/// move that succeeds leaves at most two cards there if there were at most
/// two before.
pub proof fn law_commander_pile_bounded(zs: Seq<Seq<Seq<char>>>, from: Zone, to: Zone, id: Seq<char>)
    requires
        zs.len() == ZONE_COUNT,
        from != to,
        move_problem(zs, from, to, id) is None,
        zs[zone_index(Zone::CommanderPile)].len() <= 2,
    ensures
        moved(zs, from, to, id)[zone_index(Zone::CommanderPile)].len() <= 2,
{
    lemma_pos_of(zs[zone_index(from)], id);
}


proof fn lemma_pile_of_main_stack()
    ensures
        zone_of_pile(pile_id_of(zone_name(Zone::MainStack))) == Some(Zone::MainStack),
{
    reveal_strlit("main_stack");
    reveal_strlit("commander_pile");
    reveal_strlit("hand");
    reveal_strlit("lands");
    reveal_strlit("deck");
    reveal_strlit("discard");
    reveal_strlit("exile");
    reveal_strlit("artifacts");
    reveal_strlit("enchantments");
    reveal_strlit("creatures");
    reveal_strlit("battlefield");
    reveal_strlit("MainStack");
    reveal_with_fuel(pile_id_of, 10);
    assert(pile_id_of("MainStack"@) =~= "main_stack"@);
}

proof fn lemma_pile_of_commander_pile()
    ensures
        zone_of_pile(pile_id_of(zone_name(Zone::CommanderPile))) == Some(Zone::CommanderPile),
{
    reveal_strlit("main_stack");
    reveal_strlit("commander_pile");
    reveal_strlit("hand");
    reveal_strlit("lands");
    reveal_strlit("deck");
    reveal_strlit("discard");
    reveal_strlit("exile");
    reveal_strlit("artifacts");
    reveal_strlit("enchantments");
    reveal_strlit("creatures");
    reveal_strlit("battlefield");
    reveal_strlit("CommanderPile");
    reveal_with_fuel(pile_id_of, 14);
    assert(pile_id_of("CommanderPile"@) =~= "commander_pile"@);
}

proof fn lemma_pile_of_hand()
    ensures
        zone_of_pile(pile_id_of(zone_name(Zone::Hand))) == Some(Zone::Hand),
{
    reveal_strlit("main_stack");
    reveal_strlit("commander_pile");
    reveal_strlit("hand");
    reveal_strlit("lands");
    reveal_strlit("deck");
    reveal_strlit("discard");
    reveal_strlit("exile");
    reveal_strlit("artifacts");
    reveal_strlit("enchantments");
    reveal_strlit("creatures");
    reveal_strlit("battlefield");
    reveal_strlit("Hand");
    reveal_with_fuel(pile_id_of, 5);
    assert(pile_id_of("Hand"@) =~= "hand"@);
}

proof fn lemma_pile_of_lands()
    ensures
        zone_of_pile(pile_id_of(zone_name(Zone::Lands))) == Some(Zone::Lands),
{
    reveal_strlit("main_stack");
    reveal_strlit("commander_pile");
    reveal_strlit("hand");
    reveal_strlit("lands");
    reveal_strlit("deck");
    reveal_strlit("discard");
    reveal_strlit("exile");
    reveal_strlit("artifacts");
    reveal_strlit("enchantments");
    reveal_strlit("creatures");
    reveal_strlit("battlefield");
    reveal_strlit("Lands");
    reveal_with_fuel(pile_id_of, 6);
    assert(pile_id_of("Lands"@) =~= "lands"@);
}

proof fn lemma_pile_of_deck()
    ensures
        zone_of_pile(pile_id_of(zone_name(Zone::Deck))) == Some(Zone::Deck),
{
    reveal_strlit("main_stack");
    reveal_strlit("commander_pile");
    reveal_strlit("hand");
    reveal_strlit("lands");
    reveal_strlit("deck");
    reveal_strlit("discard");
    reveal_strlit("exile");
    reveal_strlit("artifacts");
    reveal_strlit("enchantments");
    reveal_strlit("creatures");
    reveal_strlit("battlefield");
    reveal_strlit("Deck");
    reveal_with_fuel(pile_id_of, 5);
    assert(pile_id_of("Deck"@) =~= "deck"@);
    assert("deck"@[0] != "hand"@[0]);
}

proof fn lemma_pile_of_discard()
    ensures
        zone_of_pile(pile_id_of(zone_name(Zone::Discard))) == Some(Zone::Discard),
{
    reveal_strlit("main_stack");
    reveal_strlit("commander_pile");
    reveal_strlit("hand");
    reveal_strlit("lands");
    reveal_strlit("deck");
    reveal_strlit("discard");
    reveal_strlit("exile");
    reveal_strlit("artifacts");
    reveal_strlit("enchantments");
    reveal_strlit("creatures");
    reveal_strlit("battlefield");
    reveal_strlit("Discard");
    reveal_with_fuel(pile_id_of, 8);
    assert(pile_id_of("Discard"@) =~= "discard"@);
}

proof fn lemma_pile_of_exile()
    ensures
        zone_of_pile(pile_id_of(zone_name(Zone::Exile))) == Some(Zone::Exile),
{
    reveal_strlit("main_stack");
    reveal_strlit("commander_pile");
    reveal_strlit("hand");
    reveal_strlit("lands");
    reveal_strlit("deck");
    reveal_strlit("discard");
    reveal_strlit("exile");
    reveal_strlit("artifacts");
    reveal_strlit("enchantments");
    reveal_strlit("creatures");
    reveal_strlit("battlefield");
    reveal_strlit("Exile");
    reveal_with_fuel(pile_id_of, 6);
    assert(pile_id_of("Exile"@) =~= "exile"@);
    assert("exile"@[0] != "lands"@[0]);
}

proof fn lemma_pile_of_artifacts()
    ensures
        zone_of_pile(pile_id_of(zone_name(Zone::Artifacts))) == Some(Zone::Artifacts),
{
    reveal_strlit("main_stack");
    reveal_strlit("commander_pile");
    reveal_strlit("hand");
    reveal_strlit("lands");
    reveal_strlit("deck");
    reveal_strlit("discard");
    reveal_strlit("exile");
    reveal_strlit("artifacts");
    reveal_strlit("enchantments");
    reveal_strlit("creatures");
    reveal_strlit("battlefield");
    reveal_strlit("Artifacts");
    reveal_with_fuel(pile_id_of, 10);
    assert(pile_id_of("Artifacts"@) =~= "artifacts"@);
}

proof fn lemma_pile_of_enchantments()
    ensures
        zone_of_pile(pile_id_of(zone_name(Zone::Enchantments))) == Some(Zone::Enchantments),
{
    reveal_strlit("main_stack");
    reveal_strlit("commander_pile");
    reveal_strlit("hand");
    reveal_strlit("lands");
    reveal_strlit("deck");
    reveal_strlit("discard");
    reveal_strlit("exile");
    reveal_strlit("artifacts");
    reveal_strlit("enchantments");
    reveal_strlit("creatures");
    reveal_strlit("battlefield");
    reveal_strlit("Enchantments");
    reveal_with_fuel(pile_id_of, 13);
    assert(pile_id_of("Enchantments"@) =~= "enchantments"@);
}

proof fn lemma_pile_of_creatures()
    ensures
        zone_of_pile(pile_id_of(zone_name(Zone::Creatures))) == Some(Zone::Creatures),
{
    reveal_strlit("main_stack");
    reveal_strlit("commander_pile");
    reveal_strlit("hand");
    reveal_strlit("lands");
    reveal_strlit("deck");
    reveal_strlit("discard");
    reveal_strlit("exile");
    reveal_strlit("artifacts");
    reveal_strlit("enchantments");
    reveal_strlit("creatures");
    reveal_strlit("battlefield");
    reveal_strlit("Creatures");
    reveal_with_fuel(pile_id_of, 10);
    assert(pile_id_of("Creatures"@) =~= "creatures"@);
    assert("creatures"@[0] != "artifacts"@[0]);
}

proof fn lemma_pile_of_battlefield()
    ensures
        zone_of_pile(pile_id_of(zone_name(Zone::Battlefield))) == Some(Zone::Battlefield),
{
    reveal_strlit("main_stack");
    reveal_strlit("commander_pile");
    reveal_strlit("hand");
    reveal_strlit("lands");
    reveal_strlit("deck");
    reveal_strlit("discard");
    reveal_strlit("exile");
    reveal_strlit("artifacts");
    reveal_strlit("enchantments");
    reveal_strlit("creatures");
    reveal_strlit("battlefield");
    reveal_strlit("Battlefield");
    reveal_with_fuel(pile_id_of, 12);
    assert(pile_id_of("Battlefield"@) =~= "battlefield"@);
}

/// A zone's logged name turned into a pile id names that zone again, and
/// that pile id is the only text that names the zone: any other text,
/// `Deck` or `library` or the empty text among them, names another zone or
/// none.
pub proof fn law_pile_ids_round_trip(z: Zone, s: Seq<char>)
    ensures
        zone_of_pile(pile_id_of(zone_name(z))) == Some(z),
        zone_of_pile(s) == Some(z) ==> s == pile_id_of(zone_name(z)),
{
    lemma_logged_names_find_zones(z);
}

/// The pile id of each zone's logged name names that zone again.
proof fn lemma_logged_names_find_zones(z: Zone)
    ensures
        zone_of_pile(pile_id_of(zone_name(z))) == Some(z),
{
    match z {
        Zone::MainStack => lemma_pile_of_main_stack(),
        Zone::CommanderPile => lemma_pile_of_commander_pile(),
        Zone::Hand => lemma_pile_of_hand(),
        Zone::Lands => lemma_pile_of_lands(),
        Zone::Deck => lemma_pile_of_deck(),
        Zone::Discard => lemma_pile_of_discard(),
        Zone::Exile => lemma_pile_of_exile(),
        Zone::Artifacts => lemma_pile_of_artifacts(),
        Zone::Enchantments => lemma_pile_of_enchantments(),
        Zone::Creatures => lemma_pile_of_creatures(),
        Zone::Battlefield => lemma_pile_of_battlefield(),
    }
}

/// Drawing keeps every card: the top card of the main stack or the deck
/// moves to the hand, and each card id occurs across the zones as often as
/// before.
pub proof fn law_draw_keeps_cards(z: Seq<Seq<Seq<char>>>, src: Zone, x: Seq<char>)
    requires
        z.len() == ZONE_COUNT,
        src == Zone::MainStack || src == Zone::Deck,
        z[zone_index(src)].len() > 0,
    ensures
        copies(drawn(z, zone_index(src)), x) == copies(z, x),
{
    broadcast use vstd::seq_lib::to_multiset_build, vstd::multiset::group_multiset_axioms;
    let s = zone_index(src);
    let h = zone_index(Zone::Hand);
    let top = z[s].last();
    let z1 = z.update(s, z[s].drop_last());
    lemma_copies_update(z, s, z[s].drop_last(), x);
    lemma_copies_update(z1, h, z[h].push(top), x);
    assert(z1[h] == z[h]);
    assert(z[s].drop_last().push(top) =~= z[s]);
    assert(z[s].to_multiset() == z[s].drop_last().to_multiset().insert(top));
}

/// Undoing the last recorded move, where its card is known and sits in the
/// move's destination, succeeds: the card moves from the destination back to
/// the source, the move leaves the history, and the undo joins the audit
/// log.
pub proof fn lemma_undo_succeeds(e1: CardEngine, e2: CardEngine, r2: Result<MoveLogEntry, EngineError>, from: Zone, to: Zone, id: Seq<char>)
    requires
        e1.state.wf(),
        e1.move_history@.len() > 0,
        e1.move_history@.last().card_id@ == id,
        e1.move_history@.last().from_zone@ == zone_name(from),
        e1.move_history@.last().to_zone@ == zone_name(to),
        has_card(e1.state.cards@, id),
        pos_of(e1.state.zone_ids()[zone_index(to)], id) >= 0,
        from == Zone::CommanderPile && from != to ==> e1.state.zone_ids()[zone_index(Zone::CommanderPile)].len() < 2,
        undo_outcome(e1, e2, r2),
    ensures
        r2 matches Ok(e) && entry_of(e, "undo"@, card_with(e1.state.cards@, id), to, from, Some(undo_note(e1.move_history@.last())))
            && e2.audit_log@ == e1.audit_log@.push(e),
        e2.move_history@ == e1.move_history@.drop_last(),
        state_moved(e1.state, e2.state, to, from, id),
{
    lemma_logged_names_find_zones(from);
    lemma_logged_names_find_zones(to);
}

/// The zones after a card moves away from the top of its source and back
/// are as before, where the card was in its source only at the top and
/// not in its destination.
pub proof fn lemma_move_back_restores(z: Seq<Seq<Seq<char>>>, from: Zone, to: Zone, id: Seq<char>)
    requires
        z.len() == ZONE_COUNT,
        from != to,
        pos_of(z[zone_index(from)], id) >= 0,
        pos_of(z[zone_index(from)], id) == z[zone_index(from)].len() - 1,
        !z[zone_index(to)].contains(id),
    ensures
        pos_of(moved(z, from, to, id)[zone_index(to)], id) == z[zone_index(to)].len(),
        moved(moved(z, from, to, id), to, from, id) == z,
{
    let f = zone_index(from);
    let t = zone_index(to);
    let z1 = moved(z, from, to, id);
    lemma_pos_of(z[f], id);
    lemma_pos_of(z1[t], id);
    assert(z1[t] == z[t].push(id));
    assert(z1[t][z[t].len() as int] == id);
    assert(pos_of(z1[t], id) == z[t].len()) by {
        assert forall|j: int| 0 <= j < z[t].len() implies z1[t][j] != id by {
            assert(z1[t][j] == z[t][j]);
        }
    }
    let z2 = moved(z1, to, from, id);
    let k = pos_of(z[f], id);
    assert(z[f][k] == id);
    assert(z1[f] == z[f].remove(k));
    assert(z[f].remove(k) =~= z[f].drop_last());
    assert(z2[f] == z1[f].push(id));
    assert(z2[t] =~= z[t]);
    assert(z2[f] =~= z[f]);
    assert(z2 =~= z);
}

/// Undoing a move that has just been made (by `move_card`, `play_land`,
/// `cast_to_battlefield`, `discard` or `exile`) moves the card back from
/// the destination to the top of the source: the undo succeeds and is the
/// move reversed, the history of moves is what it was before the move, the
/// audit log holds the move and then the undo, and only the zones differ
/// from before the move. Where the card was the top card of its source and
/// not in the destination before, every zone is as it was.
pub proof fn law_undo_reverts_move(
    e0: CardEngine,
    e1: CardEngine,
    r1: Result<MoveLogEntry, EngineError>,
    e2: CardEngine,
    r2: Result<MoveLogEntry, EngineError>,
    action: Seq<char>,
    from: Zone,
    to: Zone,
    id: Seq<char>,
)
    requires
        e0.state.wf(),
        checked_move(e0, e1, r1, action, from, to, id) || move_then_log(e0, e1, r1, action, from, to, id),
        r1 is Ok,
        e1.state.wf(),
        undo_outcome(e1, e2, r2),
        from == Zone::CommanderPile ==> e0.state.zone_ids()[zone_index(Zone::CommanderPile)].len() <= 2,
    ensures
        r2 matches Ok(e) && entry_of(e, "undo"@, card_with(e0.state.cards@, id), to, from, Some(undo_note(r1->Ok_0)))
            && e2.audit_log@ == e0.audit_log@.push(r1->Ok_0).push(e),
        e2.move_history@ == e0.move_history@,
        only_zones_differ(e0.state, e2.state),
        e2.state.zone_ids() == if from == to {
            e0.state.zone_ids()
        } else {
            moved(moved(e0.state.zone_ids(), from, to, id), to, from, id)
        },
        ({
            let z = e0.state.zone_ids();
            pos_of(z[zone_index(from)], id) == z[zone_index(from)].len() - 1 && !z[zone_index(to)].contains(id)
                ==> e2.state.zone_ids() == z
        }),
{
    let z = e0.state.zone_ids();
    let f = zone_index(from);
    let t = zone_index(to);
    let z1 = e1.state.zone_ids();
    let m = r1->Ok_0;
    lemma_pos_of(z[f], id);
    assert(e1.move_history@.drop_last() =~= e0.move_history@);
    assert(e1.move_history@.last() == m);
    if from != to {
        assert(z1 == moved(z, from, to, id));
        assert(z1[t] == z[t].push(id));
        lemma_pos_of(z1[t], id);
        assert(z1[t][z[t].len() as int] == id);
        if from == Zone::CommanderPile {
            assert(z1[f] == z[f].remove(pos_of(z[f], id)));
        }
    } else {
        assert(e1.state == e0.state);
    }
    lemma_undo_succeeds(e1, e2, r2, from, to, id);
    if from != to && pos_of(z[f], id) == z[f].len() - 1 && !z[t].contains(id) {
        lemma_move_back_restores(z, from, to, id);
    }
}

/// Undoing a draw that has just been made moves the card from the hand back
/// to the top of the pile it came from: the undo succeeds and is the draw
/// reversed, the history is what it was before the draw, the audit log
/// holds the draw and then the undo, and, where the card was not in the
/// hand before, every zone is as it was.
pub proof fn law_undo_reverts_draw(
    e0: CardEngine,
    e1: CardEngine,
    r1: Result<MoveLogEntry, EngineError>,
    e2: CardEngine,
    r2: Result<MoveLogEntry, EngineError>,
)
    requires
        e0.state.wf(),
        draw_outcome(e0, e1, r1),
        r1 is Ok,
        e1.state.wf(),
        undo_outcome(e1, e2, r2),
    ensures
        ({
            let z = e0.state.zone_ids();
            let src = if z[zone_index(Zone::MainStack)].len() > 0 { Zone::MainStack } else { Zone::Deck };
            let id = z[zone_index(src)].last();
            &&& r2 matches Ok(e) && entry_of(e, "undo"@, card_with(e0.state.cards@, id), Zone::Hand, src, Some(undo_note(r1->Ok_0)))
                && e2.audit_log@ == e0.audit_log@.push(r1->Ok_0).push(e)
            &&& e2.move_history@ == e0.move_history@
            &&& only_zones_differ(e0.state, e2.state)
            &&& !z[zone_index(Zone::Hand)].contains(id) ==> e2.state.zone_ids() == z
        }),
{
    let z = e0.state.zone_ids();
    let src = if z[zone_index(Zone::MainStack)].len() > 0 { Zone::MainStack } else { Zone::Deck };
    let s = zone_index(src);
    let h = zone_index(Zone::Hand);
    let id = z[s].last();
    let z1 = e1.state.zone_ids();
    let m = r1->Ok_0;
    assert(z1 == drawn(z, s));
    assert(z1[h] == z[h].push(id));
    lemma_pos_of(z1[h], id);
    assert(z1[h][z[h].len() as int] == id);
    assert(e1.move_history@.drop_last() =~= e0.move_history@);
    assert(e1.move_history@.last() == m);
    lemma_undo_succeeds(e1, e2, r2, src, Zone::Hand, id);
    if !z[h].contains(id) {
        assert(pos_of(z1[h], id) == z[h].len()) by {
            assert forall|j: int| 0 <= j < z[h].len() implies z1[h][j] != id by {
                assert(z1[h][j] == z[h][j]);
            }
        }
        let z2 = e2.state.zone_ids();
        assert(z1[s] == z[s].drop_last());
        assert(z2[h] =~= z[h]);
        assert(z2[s] =~= z[s]);
        assert(z2 =~= z);
    }
}

/// Every card type read from CSV has a valid game and id, and no two share
/// both.
pub proof fn law_card_types_have_unique_valid_keys(recs: Seq<(int, Seq<(Seq<char>, Seq<char>)>)>)
    requires
        card_types_from(recs) is Ok,
    ensures
        ({
            let ts = card_types_from(recs)->Ok_0;
            &&& forall|i: int| 0 <= i < ts.len() ==> valid_id((#[trigger] ts[i]).game_id) && valid_id(ts[i].id)
            &&& forall|i: int, j: int| 0 <= i < j < ts.len() ==> !((#[trigger] ts[i]).game_id == (#[trigger] ts[j]).game_id && ts[i].id == ts[j].id)
        }),
    decreases recs.len(),
{
    if recs.len() > 0 {
        law_card_types_have_unique_valid_keys(recs.drop_last());
        let ts = card_types_from(recs.drop_last())->Ok_0;
        let all = card_types_from(recs)->Ok_0;
        assert(all == ts.push(all.last()));
        assert forall|i: int, j: int| 0 <= i < j < all.len() implies !((#[trigger] all[i]).game_id == (#[trigger] all[j]).game_id && all[i].id == all[j].id) by {
            if j < ts.len() {
                assert(all[i] == ts[i] && all[j] == ts[j]);
            } else {
                assert(all[i] == ts[i]);
            }
        }
        assert forall|i: int| 0 <= i < all.len() implies valid_id((#[trigger] all[i]).game_id) && valid_id(all[i].id) by {
            if i < ts.len() {
                assert(all[i] == ts[i]);
            }
        }
    }
}

/// Every card read from CSV has a valid game, id and type, its type is one
/// of the known types of its game, and no two cards share both game and
/// id.
pub proof fn law_cards_have_unique_valid_keys(recs: Seq<(int, Seq<(Seq<char>, Seq<char>)>)>, types: Seq<(Seq<char>, Seq<char>)>)
    requires
        cards_from(recs, types) is Ok,
    ensures
        ({
            let cs = cards_from(recs, types)->Ok_0;
            &&& forall|i: int| 0 <= i < cs.len() ==> valid_id((#[trigger] cs[i]).game_id) && valid_id(cs[i].id)
                && valid_id(cs[i].card_type_id) && types.contains((cs[i].game_id, cs[i].card_type_id))
            &&& forall|i: int, j: int| 0 <= i < j < cs.len() ==> !((#[trigger] cs[i]).game_id == (#[trigger] cs[j]).game_id && cs[i].id == cs[j].id)
        }),
    decreases recs.len(),
{
    if recs.len() > 0 {
        law_cards_have_unique_valid_keys(recs.drop_last(), types);
        let cs = cards_from(recs.drop_last(), types)->Ok_0;
        let all = cards_from(recs, types)->Ok_0;
        assert(all == cs.push(all.last()));
        assert forall|i: int, j: int| 0 <= i < j < all.len() implies !((#[trigger] all[i]).game_id == (#[trigger] all[j]).game_id && all[i].id == all[j].id) by {
            if j < cs.len() {
                assert(all[i] == cs[i] && all[j] == cs[j]);
            } else {
                assert(all[i] == cs[i]);
            }
        }
        assert forall|i: int| 0 <= i < all.len() implies valid_id((#[trigger] all[i]).game_id) && valid_id(all[i].id)
            && valid_id(all[i].card_type_id) && types.contains((all[i].game_id, all[i].card_type_id)) by {
            if i < cs.len() {
                assert(all[i] == cs[i]);
            }
        }
    }
}

/// Every zone that `zone_rows` reads has a width and a height above zero.
pub proof fn lemma_zone_rows_sized(keys: Seq<Seq<char>>, recs: Seq<Option<Seq<Seq<char>>>>)
    requires
        zone_rows(keys, recs) is Ok,
    ensures
        forall|i: int| 0 <= i < zone_rows(keys, recs)->Ok_0.len() ==> (#[trigger] zone_rows(keys, recs)->Ok_0[i]).width > 0
            && zone_rows(keys, recs)->Ok_0[i].height > 0,
    decreases recs.len(),
{
    if recs.len() > 0 {
        lemma_zone_rows_sized(keys, recs.drop_last());
        let zs = zone_rows(keys, recs.drop_last())->Ok_0;
        let all = zone_rows(keys, recs)->Ok_0;
        assert(all == zs.push(all.last()));
        assert forall|i: int| 0 <= i < all.len() implies (#[trigger] all[i]).width > 0 && all[i].height > 0 by {
            if i < zs.len() {
                assert(all[i] == zs[i]);
            }
        }
    }
}

/// Where no zone has an invalid parent, each parent is another of the
/// zones.
pub proof fn lemma_no_parent_problem(zs: Seq<crate::zone_layout::ZoneRow>, ids: Seq<Seq<char>>)
    requires
        parent_problem(zs, ids) is None,
    ensures
        forall|i: int| 0 <= i < zs.len() && (#[trigger] zs[i]).parent_zone is Some ==> zs[i].parent_zone->0 != zs[i].id
            && ids.contains(zs[i].parent_zone->0),
    decreases zs.len(),
{
    if zs.len() > 0 {
        lemma_no_parent_problem(zs.drop_first(), ids);
        assert forall|i: int| 0 <= i < zs.len() && (#[trigger] zs[i]).parent_zone is Some implies zs[i].parent_zone->0 != zs[i].id
            && ids.contains(zs[i].parent_zone->0) by {
            if i > 0 {
                assert(zs[i] == zs.drop_first()[i - 1]);
            }
        }
    }
}

/// Every zone read from CSV has a width and a height above zero, and the
/// parent of a zone, if any, is another zone of the same file.
pub proof fn law_zones_are_sized_and_nested(t: (Option<Seq<Seq<char>>>, Seq<Option<Seq<Seq<char>>>>))
    requires
        zones_from(t) is Ok,
    ensures
        ({
            let zs = zones_from(t)->Ok_0;
            forall|i: int| 0 <= i < zs.len() ==> (#[trigger] zs[i]).width > 0 && zs[i].height > 0
                && (zs[i].parent_zone matches Some(p) ==> p != zs[i].id && zone_ids(zs).contains(p))
        }),
{
    let keys = crate::cards::header_keys(t.0->0);
    lemma_zone_rows_sized(keys, t.1);
    let zs = zones_from(t)->Ok_0;
    lemma_no_parent_problem(zs, zone_ids(zs));
}

/// A change to the valid pools of a zone or a card that succeeds (turning
/// one on or off, or adding or removing tokens through its chain of parents)
/// leaves every pool valid.
pub proof fn law_pool_change_keeps_valid(ps: Seq<TokenPool>, id: Seq<char>, c: PoolChange)
    requires
        forall|k: int| 0 <= k < ps.len() ==> pool_valid(#[trigger] ps[k]),
        pools_changed(ps, id, c) is Ok,
    ensures
        ({
            let after = pools_changed(ps, id, c)->Ok_0;
            &&& after.len() == ps.len()
            &&& forall|k: int| 0 <= k < after.len() ==> pool_valid(#[trigger] after[k])
        }),
{
    match c {
        PoolChange::Activate(_) => {
            let after = pools_changed(ps, id, c)->Ok_0;
            assert forall|k: int| 0 <= k < after.len() implies pool_valid(#[trigger] after[k]) by {
                assert(pool_valid(ps[k]));
            }
        },
        PoolChange::Add(n) => law_walk_keeps_pools_valid(ps, id, n, true),
        PoolChange::Remove(n) => law_walk_keeps_pools_valid(ps, id, n, false),
    }
}

/// Every pool written in the inline syntax that a list yields is valid:
/// its rules are checked when it is created.
pub proof fn law_inline_pools_are_valid(pieces: Seq<Seq<char>>)
    requires
        inline_pool_list(pieces) is Ok,
    ensures
        forall|i: int| 0 <= i < inline_pool_list(pieces)->Ok_0.len() ==> shape_problem(#[trigger] inline_pool_list(pieces)->Ok_0[i]) is None,
    decreases pieces.len(),
{
    if pieces.len() > 0 {
        law_inline_pools_are_valid(pieces.drop_last());
        let ps = inline_pool_list(pieces.drop_last())->Ok_0;
        let all = inline_pool_list(pieces)->Ok_0;
        assert(all == ps.push(all.last()));
        assert forall|i: int| 0 <= i < all.len() implies shape_problem(#[trigger] all[i]) is None by {
            if i < ps.len() {
                assert(all[i] == ps[i]);
            }
        }
    }
}

/// Every row the scanner has finished holds a non-empty field, from any
/// state whose finished rows all do.
pub proof fn lemma_scan_rows_have_values(c: Seq<char>, i: int, st: ScanState)
    requires
        forall|k: int| 0 <= k < st.rows.len() ==> has_value(#[trigger] st.rows[k]),
    ensures
        forall|k: int| 0 <= k < scan_from(c, i, st).rows.len() ==> has_value(#[trigger] scan_from(c, i, st).rows[k]),
    decreases c.len() - i,
{
    if 0 <= i < c.len() {
        let next = scan_step(c, i, st);
        assert forall|k: int| 0 <= k < next.rows.len() implies has_value(#[trigger] next.rows[k]) by {
            if k < st.rows.len() {
                assert(next.rows[k] == st.rows[k]);
            }
        }
        lemma_scan_rows_have_values(c, i + scan_width(c, i, st), next);
        assert(scan_from(c, i, st) == scan_from(c, i + scan_width(c, i, st), next));
    }
}

/// Every row read from CSV text holds a non-empty field: rows whose fields
/// are all empty are skipped.
pub proof fn law_csv_rows_have_values(input: Seq<char>)
    requires
        csv_rows(input) is Ok,
    ensures
        forall|k: int| 0 <= k < csv_rows(input)->Ok_0.len() ==> has_value(#[trigger] csv_rows(input)->Ok_0[k]),
{
    let init = ScanState { rows: Seq::empty(), row: Seq::empty(), field: Seq::empty(), quoted: false };
    lemma_scan_rows_have_values(input, 0, init);
    let st = scan_from(input, 0, init);
    let rows = csv_rows(input)->Ok_0;
    assert(rows == end_row(st.rows, st.row.push(crate::cards::strip_cr(st.field))));
    assert forall|k: int| 0 <= k < rows.len() implies has_value(#[trigger] rows[k]) by {
        if k < st.rows.len() {
            assert(rows[k] == st.rows[k]);
        }
    }
}

/// Looking up a record with one more pair finds that pair first.
pub proof fn lemma_lookup_push(f: Seq<(Seq<char>, Seq<char>)>, k: Seq<char>, v: Seq<char>, key: Seq<char>)
    ensures
        lookup(f.push((k, v)), key) == if k == key {
            Some(v)
        } else {
            lookup(f, key)
        },
{
    assert(f.push((k, v)).drop_last() =~= f);
}

/// Where the record of a token pool row has no non-blank `token` or `icon`,
/// completing it with its token type's defaults gives the type's icon under
/// `icon` and nothing new under `token`.
pub proof fn lemma_type_defaults_icon(f: Seq<(Seq<char>, Seq<char>)>, t: TokenTypeShape)
    requires
        field(f, "icon"@) is None,
    ensures
        lookup(with_type_defaults(f, t), "icon"@) == Some(t.icon),
        lookup(with_type_defaults(f, t), "token"@) == lookup(f, "token"@),
{
    reveal_strlit("icon");
    reveal_strlit("token");
    reveal_strlit("label");
    reveal_strlit("background");
    reveal_strlit("icon_color");
    assert("token"@[0] != "label"@[0]);
    let f1 = f.push(("icon"@, t.icon));
    lemma_lookup_push(f, "icon"@, t.icon, "icon"@);
    lemma_lookup_push(f, "icon"@, t.icon, "token"@);
    let f2 = crate::token_pools::or_insert(f1, "label"@, t.name);
    lemma_lookup_push(f1, "label"@, t.name, "icon"@);
    lemma_lookup_push(f1, "label"@, t.name, "token"@);
    let f3 = match t.background {
        Some(b) => crate::token_pools::or_insert(f2, "background"@, b),
        None => f2,
    };
    if let Some(b) = t.background {
        lemma_lookup_push(f2, "background"@, b, "icon"@);
        lemma_lookup_push(f2, "background"@, b, "token"@);
    }
    if let Some(c) = t.icon_color {
        lemma_lookup_push(f3, "icon_color"@, c, "icon"@);
        lemma_lookup_push(f3, "icon_color"@, c, "token"@);
    }
}

/// A token pool assigned in the pools CSV without an icon of its own (no
/// non-blank `token` or `icon` cell) takes its token type's icon, where the
/// types' icons are non-blank and trimmed as ingested types' icons are.
pub proof fn law_pool_takes_type_icon(line: int, f: Seq<(Seq<char>, Seq<char>)>, types: Seq<TokenTypeShape>)
    requires
        forall|k: int| 0 <= k < types.len() ==> non_blank((#[trigger] types[k]).icon) == Some(types[k].icon),
        pool_row(line, f, types) is Ok,
        field(f, "icon"@) is None,
        field(f, "token"@) is None,
    ensures
        ({
            let t = find_type(types, type_key(field(f, "game_id"@)->0, field(f, "token_type_id"@)->0))->0;
            pool_row(line, f, types)->Ok_0.0.pool.token == t.icon
        }),
{
    let key = type_key(field(f, "game_id"@)->0, field(f, "token_type_id"@)->0);
    lemma_find_type_in(types, key);
    let t = find_type(types, key)->0;
    lemma_type_defaults_icon(f, t);
}

/// A type that `find_type` finds is one of the types.
pub proof fn lemma_find_type_in(types: Seq<TokenTypeShape>, key: Seq<char>)
    ensures
        find_type(types, key) matches Some(t) ==> exists|k: int| 0 <= k < types.len() && #[trigger] types[k] == t,
    decreases types.len(),
{
    if types.len() > 0 && type_key(types.last().game_id, types.last().id) != key {
        lemma_find_type_in(types.drop_last(), key);
        if let Some(t) = find_type(types, key) {
            let k = choose|k: int| 0 <= k < types.drop_last().len() && #[trigger] types.drop_last()[k] == t;
            assert(types[k] == t);
        }
    } else if types.len() > 0 {
        assert(types[types.len() - 1] == types.last());
    }
}


/// The zones the saved zones fill, starting from empty zones: each saved
/// zone's cards in the zone its pile id names.
pub open spec fn saved_placement(zs: Seq<SavedZone>) -> Seq<Seq<Seq<char>>>
    decreases zs.len(),
{
    if zs.len() == 0 {
        Seq::new(ZONE_COUNT as nat, |k: int| Seq::<Seq<char>>::empty())
    } else {
        saved_placement(zs.drop_last()).update(pile_index(zs.last().id@), saved_card_ids(zs.last().cards@))
    }
}

/// Filling zones with saved zones of distinct piles counts each card id as
/// often as the saved cards hold it.
pub proof fn lemma_saved_placement(zs: Seq<SavedZone>, x: Seq<char>)
    requires
        forall|a: int| 0 <= a < zs.len() ==> zone_of_pile((#[trigger] zs[a]).id@) is Some,
        forall|a: int, b: int| 0 <= a < b < zs.len() ==> pile_index((#[trigger] zs[a]).id@) != pile_index((#[trigger] zs[b]).id@),
    ensures
        saved_placement(zs).len() == ZONE_COUNT,
        copies(saved_placement(zs), x) == saved_card_ids(flat_cards(zs)).to_multiset().count(x),
        forall|a: int| 0 <= a < zs.len() ==> saved_placement(zs)[pile_index((#[trigger] zs[a]).id@)] == saved_card_ids(zs[a].cards@),
        forall|k: int| 0 <= k < ZONE_COUNT && !saved_pile_indices(zs).contains(k) ==> (#[trigger] saved_placement(zs)[k]).len() == 0,
    decreases zs.len(),
{
    broadcast use vstd::seq_lib::lemma_multiset_commutative, vstd::multiset::group_multiset_axioms;
    if zs.len() == 0 {
        let e = saved_placement(zs);
        assert(flat_cards(zs) =~= Seq::<crate::snapshot::SavedCard>::empty());
        assert(saved_card_ids(flat_cards(zs)) =~= Seq::<Seq<char>>::empty());
        assert(copies(e, x) == 0) by {
            assert forall|n: int| 0 <= n <= ZONE_COUNT implies #[trigger] copies(e.take(n), x) == 0 by {
                lemma_copies_empty(e, n, x);
            }
            assert(e.take(ZONE_COUNT as int) =~= e);
        }
    } else {
        let d = zs.drop_last();
        assert forall|a: int| 0 <= a < d.len() implies zone_of_pile((#[trigger] d[a]).id@) is Some by {
            assert(d[a] == zs[a]);
        }
        assert forall|a: int, b: int| 0 <= a < b < d.len() implies pile_index((#[trigger] d[a]).id@) != pile_index((#[trigger] d[b]).id@) by {
            assert(d[a] == zs[a] && d[b] == zs[b]);
        }
        lemma_saved_placement(d, x);
        let p = saved_placement(d);
        let k = pile_index(zs.last().id@);
        let zn = zone_of_pile(zs.last().id@)->0;
        assert(zs[zs.len() - 1] == zs.last());
        assert(0 <= k < ZONE_COUNT) by {
            assert(0 <= zone_index(zn) < ZONE_COUNT);
        }
        assert(!saved_pile_indices(d).contains(k)) by {
            if saved_pile_indices(d).contains(k) {
                let a = choose|a: int| 0 <= a < saved_pile_indices(d).len() && saved_pile_indices(d)[a] == k;
                assert(d[a] == zs[a]);
                assert(pile_index(zs[a].id@) != pile_index(zs[zs.len() - 1].id@));
            }
        }
        let l = saved_card_ids(zs.last().cards@);
        lemma_copies_update(p, k, l, x);
        assert(p[k].len() == 0);
        assert(p[k] =~= Seq::<Seq<char>>::empty());
        assert(p[k].to_multiset().count(x) == 0) by {
            broadcast use vstd::seq_lib::group_to_multiset_ensures;
            assert(!p[k].contains(x));
        }
        assert(saved_card_ids(flat_cards(zs)) =~= saved_card_ids(flat_cards(d)) + l);
        assert forall|a: int| 0 <= a < zs.len() implies saved_placement(zs)[pile_index((#[trigger] zs[a]).id@)] == saved_card_ids(zs[a].cards@) by {
            if a < d.len() {
                assert(d[a] == zs[a]);
                assert(pile_index(zs[a].id@) != k);
            }
        }
        assert forall|q: int| 0 <= q < ZONE_COUNT && !saved_pile_indices(zs).contains(q) implies (#[trigger] saved_placement(zs)[q]).len() == 0 by {
            assert(saved_pile_indices(zs)[zs.len() - 1] == k);
            if saved_pile_indices(d).contains(q) {
                let a = choose|a: int| 0 <= a < saved_pile_indices(d).len() && saved_pile_indices(d)[a] == q;
                assert(saved_pile_indices(zs)[a] == q);
            }
        }
    }
}

/// Empty zones hold no card.
proof fn lemma_copies_empty(e: Seq<Seq<Seq<char>>>, n: int, x: Seq<char>)
    requires
        0 <= n <= e.len(),
        forall|k: int| 0 <= k < e.len() ==> (#[trigger] e[k]).len() == 0,
    ensures
        copies(e.take(n), x) == 0,
    decreases n,
{
    broadcast use vstd::seq_lib::group_to_multiset_ensures;
    if n > 0 {
        lemma_copies_empty(e, n - 1, x);
        assert(e.take(n).drop_last() =~= e.take(n - 1));
        assert(e.take(n).last().len() == 0);
        assert(!e.take(n).last().contains(x));
    } else {
        assert(e.take(n) =~= Seq::<Seq<Seq<char>>>::empty());
    }
}

/// Restoring a saved game can neither add, remove nor duplicate a card:
/// afterwards each card of the game is in the zones exactly once, and no
/// other id is in any zone.
pub proof fn law_restore_places_every_card_once(
    g: crate::zones::GameState,
    s: crate::zones::GameState,
    zs: Seq<SavedZone>,
    ps: Seq<SavedPlayer>,
    x: Seq<char>,
)
    requires
        g.wf(),
        s.wf(),
        restore_problem(g, zs, ps) is None,
        snapshot_restored(g, s, zs, ps),
    ensures
        copies(s.zone_ids(), x) == if has_card(g.cards@, x) { 1nat } else { 0nat },
{
    lemma_saved_placement(zs, x);
    let pl = saved_placement(zs);
    assert(s.zone_ids() =~= pl) by {
        assert forall|k: int| 0 <= k < ZONE_COUNT implies s.zone_ids()[k] == pl[k] by {
            assert(saved_pile_indices(zs).contains(k));
            let a = choose|a: int| 0 <= a < saved_pile_indices(zs).len() && saved_pile_indices(zs)[a] == k;
            assert(pile_index(zs[a].id@) == k);
        }
    }
    let ids = saved_card_ids(flat_cards(zs));
    ids.lemma_multiset_has_no_duplicates();
    broadcast use vstd::seq_lib::to_multiset_contains, vstd::multiset::group_multiset_axioms;
    if has_card(g.cards@, x) {
        assert(ids.contains(x));
        assert(ids.to_multiset().contains(x));
    } else {
        assert(!ids.contains(x));
        assert(!ids.to_multiset().contains(x));
    }
}

} // verus!
