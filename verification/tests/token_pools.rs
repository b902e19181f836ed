use byog::player::{Player, DEFAULT_PLAYER_ID, DEFAULT_STARTING_LIFE};
use byog::token_pools::{ingest_token_pools_csv, ingest_token_types_csv, TokenPool, TokenPoolOwner};
use byog::zones::GameState;

fn pool<'a>(pools: &'a [TokenPool], id: &str) -> &'a TokenPool {
    pools.iter().find(|p| p.id == id).expect("pool")
}

#[test]
fn parses_multiple_token_pools() {
    let pools = TokenPool::parse_list(
        "id=charge|label=Charge|token=fa-bolt|background=amber|starting=1|min=0|max=3|active=true;\
         id=shield|token=fa-shield",
    )
    .expect("parse token pools");

    assert_eq!(pools.len(), 2);
    assert_eq!(pools[0].token(), "fa-bolt");
    assert_eq!(pools[0].background(), Some("amber"));
    assert!(pools[0].active);
    assert_eq!(pools[1].label, "shield");
}

#[test]
fn enforces_token_pool_bounds() {
    let err = TokenPool::parse_list("id=charge|token=fa-bolt|starting=5|max=3")
        .expect_err("invalid token pool");
    assert!(err.contains("max"));
}

#[test]
fn enforces_minimum_when_removing_tokens() {
    let mut pool = TokenPool::parse_list("id=charge|token=fa-bolt|starting=2|min=1")
        .expect("parse token pool")
        .remove(0);
    assert!(pool.remove_tokens(2).is_err());
    assert!(pool.remove_tokens(1).is_ok());
    assert_eq!(pool.count, 1);
}

#[test]
fn loads_types_and_csv_pool_assignments() {
    let types = ingest_token_types_csv(
        "game_id,id,name,icon,icon_color\nbyog,red-mana,Red mana,fa-solid fa-mountain,red\n",
    )
    .unwrap();
    let pools = ingest_token_pools_csv("game_id,id,token_type_id,owner,owner_id,starting,plus,minus,active\nbyog,red,red-mana,player,,0,1,1,true\n", &types).unwrap();
    assert_eq!(pools[0].pool.token(), "fa-solid fa-mountain");
    assert_eq!(pools[0].pool.icon_color.as_deref(), Some("red"));
    assert_eq!(pools[0].owner, TokenPoolOwner::Player);
}

#[test]
fn parses_legacy_inline_pool() {
    let pool = TokenPool::parse_list(
        "id=charge|icon=fa-solid fa-bolt|starting=2|min=1|plus=2|minus=1",
    )
    .unwrap()
    .remove(0);
    assert_eq!(pool.starting, 2);
    assert_eq!(pool.plus, 2);
}

#[test]
fn inline_pool_defaults_token_to_label_and_label_to_id() {
    let pools = TokenPool::parse_list(" ; id=shield ;id=ward|label=Ward|count=4").unwrap();
    assert_eq!(pools.len(), 2);
    assert_eq!(pools[0].label, "shield");
    assert_eq!(pools[0].token(), "shield");
    assert_eq!(pools[0].count, 0);
    assert!(!pools[0].active);
    assert_eq!(pools[1].token(), "Ward");
    assert_eq!(pools[1].count, 4);
}

#[test]
fn inline_pool_errors_name_the_problem() {
    assert_eq!(TokenPool::parse_list("label=x").unwrap_err(), "Token pool is missing required id");
    assert_eq!(TokenPool::parse_list("id=a|plus").unwrap_err(), "Invalid token pool part 'plus'");
    assert_eq!(TokenPool::parse_list("id=a|min=x").unwrap_err(), "Invalid token pool min 'x'");
    assert_eq!(
        TokenPool::parse_list("id=a|min=5|max=3").unwrap_err(),
        "Token pool 'a' has min greater than max"
    );
}

#[test]
fn adding_then_removing_restores_a_pool() {
    let original = TokenPool::configured("mana", "Mana", "fa-solid fa-droplet", None, 2, Some(1), Some(5), true).unwrap();
    let mut pool = original.clone();
    pool.add_tokens(3).unwrap();
    assert_eq!(pool.count, 5);
    pool.remove_tokens(3).unwrap();
    assert_eq!(pool, original);
    assert_eq!(pool.add_tokens(4).unwrap_err(), "Token pool 'mana' cannot exceed max");
    assert_eq!(pool.remove_tokens(2).unwrap_err(), "Token pool 'mana' cannot go below min");
    assert_eq!(pool, original);
}

#[test]
fn add_tokens_reports_overflow() {
    let mut pool = TokenPool::configured("big", "Big", "fa-solid fa-infinity", None, u32::MAX, None, None, false).unwrap();
    assert_eq!(pool.add_tokens(1).unwrap_err(), "Token pool 'big' overflowed");
    assert_eq!(pool.count, u32::MAX);
}

#[test]
fn configured_pools_are_validated() {
    assert_eq!(
        TokenPool::configured("hp", "HP", "fa-heart", None, 0, Some(1), None, true).unwrap_err(),
        "Token pool 'hp' starts below its min"
    );
    assert_eq!(
        TokenPool::configured(" ", "HP", "fa-heart", None, 0, None, None, true).unwrap_err(),
        "Token pool id cannot be empty"
    );
}

#[test]
fn player_starts_with_life() {
    let player = Player::default();
    let life = pool(&player.token_pools, "life");
    assert_eq!(life.count, DEFAULT_STARTING_LIFE);
    assert_eq!(life.token, "fa-solid fa-heart");
    assert!(life.active);
}

#[test]
fn child_changes_propagate_to_parent_atomically() {
    let life = TokenPool::configured("life", "Life", "fa-solid fa-heart", None, 40, Some(0), None, true).unwrap();
    let mut commander = TokenPool::configured(
        "commander",
        "Commander",
        "fa-solid fa-helmet-battle",
        None,
        21,
        Some(0),
        None,
        true,
    )
    .unwrap();
    commander.parent_id = Some("life".into());
    let mut state = GameState::new(Vec::new());
    let player = Player::with_token_pools(DEFAULT_PLAYER_ID, "Player 1", vec![life, commander]).unwrap();
    let slot = state.players.iter().position(|p| p.id == DEFAULT_PLAYER_ID).unwrap();
    state.players[slot] = player;

    state.remove_tokens_from_player_pool(DEFAULT_PLAYER_ID, "commander", 1).unwrap();
    let pools = state.get_player_token_pools(DEFAULT_PLAYER_ID).unwrap();
    assert_eq!(pool(pools, "commander").count, 20);
    assert_eq!(pool(pools, "life").count, 39);
}

#[test]
fn failing_parent_leaves_every_pool_unchanged() {
    let life = TokenPool::configured("life", "Life", "fa-solid fa-heart", None, 1, Some(0), None, true).unwrap();
    let mut poison = TokenPool::configured("poison", "Poison", "fa-solid fa-skull", None, 5, Some(0), None, true).unwrap();
    poison.parent_id = Some("life".into());
    let mut state = GameState::new(Vec::new());
    state.players[0] = Player::with_token_pools(DEFAULT_PLAYER_ID, "Player 1", vec![life, poison]).unwrap();
    let before = state.players.clone();
    let err = state.remove_tokens_from_player_pool(DEFAULT_PLAYER_ID, "poison", 2).unwrap_err();
    assert!(matches!(err, byog::engine::EngineError::Validation(ref m) if m == "Token pool 'life' cannot go below zero"));
    assert_eq!(state.players, before);
    state.add_tokens_to_player_pool(DEFAULT_PLAYER_ID, "poison", 2).unwrap();
    let pools = state.get_player_token_pools(DEFAULT_PLAYER_ID).unwrap();
    assert_eq!(pool(pools, "poison").count, 7);
    assert_eq!(pool(pools, "life").count, 3);
}

#[test]
fn parent_cycles_are_refused() {
    let mut a = TokenPool::configured("a", "A", "fa-a", None, 1, None, None, true).unwrap();
    let mut b = TokenPool::configured("b", "B", "fa-b", None, 1, None, None, true).unwrap();
    a.parent_id = Some("b".into());
    b.parent_id = Some("a".into());
    let mut state = GameState::new(Vec::new());
    state.players[0] = Player::with_token_pools(DEFAULT_PLAYER_ID, "Player 1", vec![a, b]).unwrap();
    let err = state.add_tokens_to_player_pool(DEFAULT_PLAYER_ID, "a", 1).unwrap_err();
    assert!(matches!(err, byog::engine::EngineError::Validation(ref m) if m == "Token pool parent cycle at 'a'"));
    assert!(state.add_tokens_to_player_pool("nobody", "a", 1).is_err());
}

#[test]
fn blank_icon_cell_takes_the_token_type_icon() {
    let types = ingest_token_types_csv("game_id,id,name,icon\nbyog,mana,Mana,fa-solid fa-droplet\n").unwrap();
    let pools = ingest_token_pools_csv(
        "game_id,id,token_type_id,owner,icon,token\nbyog,blue,mana,player, ,\nbyog,red,mana,player,fa-fire,\n",
        &types,
    )
    .unwrap();
    assert_eq!(pools[0].pool.token(), "fa-solid fa-droplet");
    assert_eq!(pools[0].pool.label, "Mana");
    assert_eq!(pools[1].pool.token(), "fa-fire");
}
