//! Players and the token pools each of them owns.
use vstd::prelude::*;

use crate::text::owned;
use crate::token_pools::{pool_problem, TokenPool};

verus! {

/// The id of the player every new game starts with.
pub const DEFAULT_PLAYER_ID: &'static str = "player-1";

/// The life a new player starts with.
pub const DEFAULT_STARTING_LIFE: u32 = 20;

/// A player and the token pools it owns, no two with the same id.
#[derive(Clone, Debug, PartialEq, Eq)]
pub struct Player {
    pub id: String,
    pub name: String,
    pub token_pools: Vec<TokenPool>,
}

/// No two pools of the list share an id.
pub open spec fn unique_pool_ids(ps: Seq<TokenPool>) -> bool {
    forall|i: int, j: int| 0 <= i < j < ps.len() ==> (#[trigger] ps[i]).id@ != (#[trigger] ps[j]).id@
}

/// The first problem with a list of pools for one owner: a pool that
/// breaks the rules of `TokenPool::validate`, or one whose id an earlier
/// pool has.
pub open spec fn player_pools_problem(ps: Seq<TokenPool>) -> Option<Seq<char>>
    decreases ps.len(),
{
    if ps.len() == 0 {
        None
    } else {
        match player_pools_problem(ps.drop_last()) {
            Some(e) => Some(e),
            None => match pool_problem(ps.last()) {
                Some(e) => Some(e),
                None => if exists|k: int| 0 <= k < ps.len() - 1 && (#[trigger] ps[k]).id@ == ps.last().id@ {
                    Some("Duplicate player token pool id"@)
                } else {
                    None
                },
            },
        }
    }
}

pub proof fn lemma_player_pools_unique(ps: Seq<TokenPool>)
    requires
        player_pools_problem(ps) is None,
    ensures
        unique_pool_ids(ps),
    decreases ps.len(),
{
    if ps.len() > 0 {
        lemma_player_pools_unique(ps.drop_last());
        assert forall|i: int, j: int| 0 <= i < j < ps.len() implies (#[trigger] ps[i]).id@ != (#[trigger] ps[j]).id@ by {
            if j < ps.len() - 1 {
                assert(ps.drop_last()[i] == ps[i] && ps.drop_last()[j] == ps[j]);
            }
        }
    }
}

pub proof fn lemma_player_pools_prefix(ps: Seq<TokenPool>, n: int)
    requires
        0 <= n <= ps.len(),
        player_pools_problem(ps.take(n)) is Some,
    ensures
        player_pools_problem(ps) == player_pools_problem(ps.take(n)),
    decreases ps.len(),
{
    if n < ps.len() {
        assert(ps.drop_last().take(n) =~= ps.take(n));
        lemma_player_pools_prefix(ps.drop_last(), n);
    } else {
        assert(ps.take(n) =~= ps);
    }
}

/// Whether a pool with the given id is in the list.
pub fn has_pool_id(ps: &Vec<TokenPool>, id: &str) -> (r: bool)
    ensures
        r == exists|k: int| 0 <= k < ps@.len() && (#[trigger] ps@[k]).id@ == id@,
{
    let mut i: usize = 0;
    while i < ps.len()
        invariant
            i <= ps@.len(),
            forall|k: int| 0 <= k < i ==> (#[trigger] ps@[k]).id@ != id@,
        decreases ps.len() - i,
    {
        if crate::text::str_is(ps[i].id.as_str(), id) {
            return true;
        }
        i += 1;
    }
    false
}

/// The life pool of a new player: active, at least zero, no maximum.
pub open spec fn is_default_life(p: TokenPool) -> bool {
    &&& p.id@ == "life"@
    &&& p.label@ == "Life"@
    &&& p.token@ == "fa-solid fa-heart"@
    &&& p.token_type_id is None
    &&& p.icon_color is None
    &&& p.background is None
    &&& p.starting == DEFAULT_STARTING_LIFE
    &&& p.count == DEFAULT_STARTING_LIFE
    &&& p.plus == 1
    &&& p.minus == 1
    &&& p.min == Some(0u32)
    &&& p.max is None
    &&& p.parent_id is None
    &&& p.active
}

impl Default for Player {
    /// `player-1`, named `Player 1`, owning only the default life pool.
    fn default() -> (p: Self)
        ensures
            p.id@ == DEFAULT_PLAYER_ID@,
            p.name@ == "Player 1"@,
            p.token_pools@.len() == 1,
            is_default_life(p.token_pools@[0]),
    {
        let mut life = TokenPool::new("life", "Life", "fa-solid fa-heart");
        life.starting = DEFAULT_STARTING_LIFE;
        life.count = DEFAULT_STARTING_LIFE;
        life.min = Some(0);
        life.active = true;
        let mut token_pools: Vec<TokenPool> = Vec::new();
        token_pools.push(life);
        Player { id: owned(DEFAULT_PLAYER_ID), name: owned("Player 1"), token_pools }
    }
}

impl Player {
    /// A player owning the given pools; every pool must be valid and the
    /// ids distinct.
    pub fn with_token_pools(id: &str, name: &str, pools: Vec<TokenPool>) -> (r: Result<Self, String>)
        ensures
            r is Ok <==> player_pools_problem(pools@) is None,
            r matches Err(m) ==> player_pools_problem(pools@) == Some(m@),
            r matches Ok(p) ==> p.id@ == id@ && p.name@ == name@ && p.token_pools@ == pools@
                && unique_pool_ids(p.token_pools@),
    {
        let mut token_pools: Vec<TokenPool> = Vec::new();
        let mut i: usize = 0;
        let ghost ps = pools@;
        assert(ps.take(0) =~= Seq::<TokenPool>::empty());
        while i < pools.len()
            invariant
                ps == pools@,
                i <= ps.len(),
                token_pools@ == ps.take(i as int),
                player_pools_problem(ps.take(i as int)) is None,
            decreases pools.len() - i,
        {
            let ghost sub = ps.take(i + 1);
            assert(sub.drop_last() =~= ps.take(i as int));
            assert(sub.last() == ps[i as int]);
            let pool = &pools[i];
            if let Err(m) = pool.validate() {
                proof { lemma_player_pools_prefix(ps, i + 1); }
                return Err(m);
            }
            if has_pool_id(&token_pools, pool.id.as_str()) {
                proof {
                    let k = choose|k: int| 0 <= k < token_pools@.len() && (#[trigger] token_pools@[k]).id@ == pool.id@;
                    assert(sub[k] == token_pools@[k]);
                    lemma_player_pools_prefix(ps, i + 1);
                }
                return Err(owned("Duplicate player token pool id"));
            }
            assert(!exists|k: int| 0 <= k < sub.len() - 1 && (#[trigger] sub[k]).id@ == sub.last().id@) by {
                if exists|k: int| 0 <= k < sub.len() - 1 && (#[trigger] sub[k]).id@ == sub.last().id@ {
                    let k = choose|k: int| 0 <= k < sub.len() - 1 && (#[trigger] sub[k]).id@ == sub.last().id@;
                    assert(token_pools@[k] == sub[k]);
                }
            }
            token_pools.push(pool.duplicate());
            assert(token_pools@ =~= sub);
            i += 1;
        }
        assert(ps.take(ps.len() as int) =~= ps);
        proof { lemma_player_pools_unique(ps); }
        Ok(Player { id: owned(id), name: owned(name), token_pools })
    }
}

} // verus!
