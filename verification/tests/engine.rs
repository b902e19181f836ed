use byog::token_pools::TokenPoolOwner;
use byog::card::Card;
use byog::cards::CardVisual;
use byog::engine::{CardEngine, EngineError};
use byog::token_pools::TokenPool;
use byog::zones::Zone;

fn test_card(id: &str, name: &str, card_type: &str) -> Card {
    Card {
        id: id.to_string(),
        game_id: String::new(),
        name: name.to_string(),
        card_type_id: card_type.to_ascii_lowercase(),
        description: None,
        cost: None,
        visual: CardVisual::Generated {
            image: None,
            background_image: None,
            background_color: None,
            icon: None,
        },
        back_logo: None,
        back_image: None,
        mana: None,
        colors: None,
        oracle_text: None,
        power: None,
        toughness: None,
        is_commander: false,
        is_partner: false,
        token_pools: Vec::new(),
        starting_pile: None,
    }
}

fn validation<T: std::fmt::Debug>(r: Result<T, EngineError>) -> String {
    match r {
        Err(EngineError::Validation(m)) => m,
        Err(other) => panic!("expected a validation error, got {:?}", other),
        Ok(v) => panic!("expected an error, got {:?}", v),
    }
}

#[test]
fn engine_valid_and_invalid_zone_moves() {
    let mut engine = CardEngine::new(
        vec![test_card("land", "Island", "Land"), test_card("creature", "Grizzly Bears", "Creature")],
        None,
    );
    engine
        .state
        .set_zone_cards(Zone::MainStack, vec!["land".to_string(), "creature".to_string()])
        .expect("seed main stack");

    engine.draw().expect("draw 1");
    engine.draw().expect("draw 2");

    engine.play_land("land").expect("play land");
    engine.play_land("creature").expect("play non-land to lands");
    assert_eq!(engine.state.zone_cards(Zone::Lands), &["land", "creature"]);
}

#[test]
fn engine_commander_partner_rule_is_enforced() {
    let mut engine = CardEngine::new(
        vec![
            test_card("p1", "Partner One", "Creature"),
            test_card("p2", "Partner Two", "Creature"),
            test_card("solo", "Solo Commander", "Creature"),
        ],
        None,
    );
    engine
        .state
        .set_zone_cards(Zone::Deck, vec!["p1".to_string(), "p2".to_string(), "solo".to_string()])
        .expect("seed deck");

    engine.move_card(Zone::Deck, Zone::CommanderPile, "p1").expect("first commander");
    engine.move_card(Zone::Deck, Zone::CommanderPile, "p2").expect("second partner commander");

    let result = engine.move_card(Zone::Deck, Zone::CommanderPile, "solo");
    assert!(result.is_err());
    assert_eq!(validation(result), "Commander pile cannot contain more than two cards");
    assert_eq!(engine.state.zone_cards(Zone::Deck), &["solo"]);
}

#[test]
fn engine_move_log_appends_rows_with_header_once() {
    let mut engine = CardEngine::new(vec![test_card("c1", "Card One", "Creature")], None);
    engine.state.set_zone_cards(Zone::Hand, vec!["c1".to_string()]).expect("seed hand");

    engine.discard(Zone::Hand, "c1").expect("discard from hand");
    engine.exile(Zone::Discard, "c1").expect("exile from discard");

    let logged = engine.move_history_csv().expect("log as csv");
    let lines = logged.lines().collect::<Vec<_>>();
    assert_eq!(lines[0], "timestamp,action,card_id,card_name,from_pile,to_pile,notes");
    assert_eq!(lines.len(), 3);
    assert!(lines[1].ends_with(",discard,c1,Card One,Hand,Discard,"));
    assert!(lines[2].ends_with(",exile,c1,Card One,Discard,Exile,"));
}

#[test]
fn searches_moves_and_undoes_a_card_between_piles() {
    let mut engine = CardEngine::new(vec![test_card("c1", "Silvercoat Lion", "Creature")], None);
    engine.state.set_zone_cards(Zone::Deck, vec!["c1".into()]).expect("seed deck");

    let found = engine.search_pile("deck", "lion").expect("search pile");
    assert_eq!(found[0].id, "c1");
    engine.move_card_between_piles("deck", "hand", "c1").expect("move card");
    assert_eq!(engine.state.zone_cards(Zone::Hand), &["c1"]);
    engine.undo_last_move().expect("undo move");
    assert_eq!(engine.state.zone_cards(Zone::Deck), &["c1"]);

    let csv = engine.move_history_csv().expect("log as csv");
    assert!(csv.contains(",move_card,c1,Silvercoat Lion,Deck,Hand,"));
    assert!(csv.contains(",undo,c1,Silvercoat Lion,Hand,Deck,"));
}

#[test]
fn moves_a_selected_deck_card_to_the_bottom() {
    let mut engine = CardEngine::new(
        vec![
            test_card("bottom", "Bottom", "Creature"),
            test_card("middle", "Middle", "Creature"),
            test_card("top", "Top", "Creature"),
        ],
        None,
    );
    engine
        .state
        .set_zone_cards(Zone::Deck, vec!["bottom".into(), "middle".into(), "top".into()])
        .expect("seed deck");

    engine.move_card_to_bottom("deck", "top").expect("move card to bottom");

    assert_eq!(engine.state.zone_cards(Zone::Deck), &["top", "bottom", "middle"]);
    assert_eq!(engine.state.draw_top_from_deck().as_deref(), Some("middle"));
}

#[test]
fn engine_manages_zone_and_card_token_pools() {
    let mut ring = test_card("ring", "Sol Ring", "artifact");
    ring.token_pools = vec![TokenPool::configured("charge", "Charge", "fa-bolt", Some("amber".to_string()), 1, None, Some(3), true)
        .expect("card token pool")];
    let mut engine = CardEngine::new(vec![ring], None);

    engine
        .set_zone_token_pools(
            Zone::Hand,
            vec![TokenPool::configured("energy", "Energy", "fa-fire", Some("slate".to_string()), 0, Some(0), Some(2), false)
                .expect("zone token pool")],
        )
        .expect("seed zone token pools");

    engine.activate_zone_token_pool(Zone::Hand, "energy", true).expect("activate zone pool");
    engine.add_tokens_to_zone_pool(Zone::Hand, "energy", 2).expect("add zone tokens");
    engine.add_tokens_to_card_pool("ring", "charge", 1).expect("add card tokens");

    assert_eq!(engine.state.zone_token_pool_icon(Zone::Hand, "energy").expect("zone token icon"), "fa-fire");
    assert_eq!(engine.state.zone_token_pool_background(Zone::Hand, "energy").expect("zone background"), Some("slate"));
    assert_eq!(engine.state.card_token_pool_icon("ring", "charge").expect("card token icon"), "fa-bolt");
    assert_eq!(engine.state.card_token_pool_background("ring", "charge").expect("card background"), Some("amber"));
    assert_eq!(
        engine
            .state
            .get_zone_token_pools(Zone::Hand)
            .expect("zone token pools")
            .iter()
            .find(|p| p.id == "energy")
            .expect("energy pool")
            .count,
        2
    );
    assert_eq!(
        engine
            .state
            .get_card_token_pools("ring")
            .expect("card pools")
            .and_then(|pools| pools.iter().find(|p| p.id == "charge"))
            .expect("charge pool")
            .count,
        2
    );
    assert!(engine.remove_tokens_from_zone_pool(Zone::Hand, "energy", 2).is_ok());
    assert!(engine.remove_tokens_from_card_pool("ring", "charge", 3).is_err());
    assert!(engine.add_tokens_to_zone_pool(Zone::Hand, "energy", 3).is_err());
}

#[test]
fn draw_falls_back_to_the_deck_and_fails_when_both_are_empty() {
    let mut engine = CardEngine::new(vec![test_card("a", "A", "Creature")], None);
    engine.state.set_zone_cards(Zone::Deck, vec!["a".into()]).unwrap();
    let entry = engine.draw().unwrap();
    assert_eq!(entry.action, "draw");
    assert_eq!(entry.from_zone, "Deck");
    assert_eq!(entry.to_zone, "Hand");
    assert_eq!(entry.notes.as_deref(), Some("MainStack empty, drew from Deck"));
    assert_eq!(engine.state.zone_cards(Zone::Hand), &["a"]);
    assert_eq!(validation(engine.draw()), "Cannot draw: both MainStack and Deck are empty");
}

#[test]
fn undo_without_moves_is_refused() {
    let mut engine = CardEngine::new(Vec::new(), None);
    assert_eq!(validation(engine.undo_last_move()), "There are no moves to undo");
}

#[test]
fn undo_returns_a_card_to_the_top_of_its_source() {
    let mut engine = CardEngine::new(vec![test_card("a", "A", "Creature"), test_card("b", "B", "Creature")], None);
    engine.state.set_zone_cards(Zone::Deck, vec!["a".into(), "b".into()]).unwrap();
    engine.move_card(Zone::Deck, Zone::Exile, "a").unwrap();
    let undo = engine.undo_last_move().unwrap();
    assert_eq!(undo.action, "undo");
    assert!(undo.notes.as_deref().unwrap().starts_with("reverts move_card at "));
    assert_eq!(engine.state.zone_cards(Zone::Deck), &["b", "a"]);
    assert!(engine.state.zone_cards(Zone::Exile).is_empty());
    assert_eq!(engine.move_history.len(), 0);
    assert_eq!(engine.audit_log.len(), 2);
}

#[test]
fn moves_between_unknown_or_equal_piles_are_refused() {
    let mut engine = CardEngine::new(vec![test_card("a", "A", "Creature")], None);
    engine.state.set_zone_cards(Zone::Hand, vec!["a".into()]).unwrap();
    assert_eq!(validation(engine.move_card_between_piles("library", "hand", "a")), "Unknown pile 'library'");
    assert_eq!(validation(engine.move_card_between_piles("hand", "hand", "a")), "Source and destination piles must differ");
    assert_eq!(validation(engine.move_card(Zone::Hand, Zone::Exile, "zz")), "Unknown card id 'zz'");
    assert_eq!(validation(engine.move_card(Zone::Deck, Zone::Exile, "a")), "Card 'a' is not in source zone Deck");
    assert_eq!(validation(engine.search_pile("library", "a")), "Unknown pile 'library'");
    assert_eq!(validation(engine.move_card_to_bottom("hand", "zz")), "Card 'zz' is not in zone Hand");
    assert_eq!(engine.audit_log.len(), 0);
}

#[test]
fn peek_shows_the_top_of_the_main_stack_first() {
    let mut engine = CardEngine::new(vec![test_card("a", "A", "x"), test_card("b", "B", "x"), test_card("c", "C", "x")], None);
    engine.state.set_zone_cards(Zone::MainStack, vec!["a".into(), "b".into(), "c".into()]).unwrap();
    assert_eq!(engine.peek_main_stack(2), vec!["c".to_string(), "b".to_string()]);
    assert_eq!(engine.peek_main_stack(10), vec!["c".to_string(), "b".to_string(), "a".to_string()]);
}

#[test]
fn shuffling_keeps_the_cards_of_a_zone() {
    let mut engine = CardEngine::new(vec![test_card("a", "A", "x"), test_card("b", "B", "x"), test_card("c", "C", "x")], None);
    engine.state.set_zone_cards(Zone::Deck, vec!["a".into(), "b".into(), "c".into()]).unwrap();
    engine.state.shuffle_zone(Zone::Deck).unwrap();
    let mut cards = engine.state.zone_cards(Zone::Deck).to_vec();
    cards.sort();
    assert_eq!(cards, vec!["a".to_string(), "b".to_string(), "c".to_string()]);
}

#[test]
fn players_can_be_renamed_and_named_pools_changed() {
    let mut engine = CardEngine::new(Vec::new(), None);
    engine.set_player_name("player-1", "  Alice ").unwrap();
    assert_eq!(engine.state.player("player-1").unwrap().name, "Alice");
    assert_eq!(validation(engine.set_player_name("player-1", "   ")), "Player name must not be empty");
    assert_eq!(validation(engine.set_player_name("ghost", "Bob")), "Unknown player id 'ghost'");
    engine.remove_tokens_from_player_pool("player-1", "life", 5).unwrap();
    engine.add_tokens_to_player_pool("player-1", "life", 2).unwrap();
    let life = engine.state.get_player_token_pools("player-1").unwrap().iter().find(|p| p.id == "life").unwrap().count;
    assert_eq!(life, 17);
    assert_eq!(validation(engine.add_tokens_to_player_pool("player-1", "mana", 1)), "Unknown token pool 'mana'");
}

#[test]
fn zones_know_their_pile_ids() {
    assert_eq!(Zone::from_pile_id("commander_pile"), Some(Zone::CommanderPile));
    assert_eq!(Zone::from_pile_id("CommanderPile"), None);
    assert!(Zone::Battlefield.is_battlefield());
    assert!(!Zone::Hand.is_battlefield());
    assert_eq!(Zone::MainStack.name(), "MainStack");
}

#[test]
fn card_pools_need_known_cards_and_valid_pools() {
    let mut engine = CardEngine::new(vec![test_card("a", "A", "x")], None);
    let pool = TokenPool::configured("p", "P", "fa-p", None, 0, None, None, true).unwrap();
    assert_eq!(validation(engine.add_card_token_pool("zz", pool.clone())), "Unknown card id 'zz'");
    engine.add_card_token_pool("a", pool.clone()).unwrap();
    let mut bad = pool.clone();
    bad.plus = 0;
    assert_eq!(validation(engine.add_zone_token_pool(Zone::Hand, bad)), "Token pool 'p' plus and minus must be greater than zero");
    assert_eq!(engine.state.get_card_token_pools("a").unwrap().unwrap().len(), 1);
    engine.activate_card_token_pool("a", "p", false).unwrap();
    assert!(!engine.state.get_card_token_pools("a").unwrap().unwrap()[0].active);
}

#[test]
fn undo_finds_zones_with_compound_names() {
    let mut engine = CardEngine::new(vec![test_card("a", "A", "Creature")], None);
    engine.state.set_zone_cards(Zone::MainStack, vec!["a".into()]).unwrap();
    engine.move_card_between_piles("main_stack", "commander_pile", "a").unwrap();
    engine.move_card(Zone::CommanderPile, Zone::Enchantments, "a").unwrap();
    let undo = engine.undo_last_move().unwrap();
    assert_eq!((undo.from_zone.as_str(), undo.to_zone.as_str()), ("Enchantments", "CommanderPile"));
    engine.undo_last_move().unwrap();
    assert_eq!(engine.state.zone_cards(Zone::MainStack), &["a"]);
    assert!(engine.state.zone_cards(Zone::CommanderPile).is_empty());
}

#[test]
fn undo_of_a_hand_edited_history_entry_is_refused() {
    let mut engine = CardEngine::new(vec![test_card("a", "A", "Creature")], None);
    engine.state.set_zone_cards(Zone::Hand, vec!["a".into()]).unwrap();
    let mut entry = engine.move_card(Zone::Hand, Zone::Exile, "a").unwrap();
    entry.to_zone = "Graveyard".into();
    engine.move_history[0] = entry;
    assert_eq!(validation(engine.undo_last_move()), "Invalid destination in move history");
    assert!(engine.move_history.is_empty());
    assert_eq!(engine.state.zone_cards(Zone::Exile), &["a"]);
}

fn pool_count(pools: &[TokenPool], id: &str) -> u32 {
    pools.iter().find(|p| p.id == id).expect("pool").count
}

#[test]
fn zone_pool_changes_propagate_to_the_parent() {
    let mut engine = CardEngine::new(Vec::new(), None);
    let mana = TokenPool::configured("mana", "Mana", "fa-solid fa-droplet", None, 10, Some(0), None, true).unwrap();
    let mut blue = TokenPool::configured("blue", "Blue", "fa-solid fa-droplet", None, 3, Some(0), None, true).unwrap();
    blue.parent_id = Some("mana".into());
    engine.add_zone_token_pool(Zone::Hand, mana).unwrap();
    engine.add_zone_token_pool(Zone::Hand, blue).unwrap();
    engine.add_tokens_to_zone_pool(Zone::Hand, "blue", 2).unwrap();
    let pools = engine.state.get_zone_token_pools(Zone::Hand).unwrap();
    assert_eq!((pool_count(pools, "blue"), pool_count(pools, "mana")), (5, 12));
    engine.remove_tokens_from_zone_pool(Zone::Hand, "blue", 4).unwrap();
    let pools = engine.state.get_zone_token_pools(Zone::Hand).unwrap();
    assert_eq!((pool_count(pools, "blue"), pool_count(pools, "mana")), (1, 8));
    engine.activate_zone_token_pool(Zone::Hand, "blue", false).unwrap();
    let pools = engine.state.get_zone_token_pools(Zone::Hand).unwrap();
    assert!(pools.iter().find(|p| p.id == "mana").unwrap().active);
    assert_eq!(pool_count(pools, "mana"), 8);
}

#[test]
fn card_pool_change_refused_by_the_parent_changes_nothing() {
    let mut engine = CardEngine::new(vec![test_card("a", "A", "x")], None);
    let total = TokenPool::configured("total", "Total", "fa-solid fa-plus", None, 1, Some(0), Some(2), true).unwrap();
    let mut charge = TokenPool::configured("charge", "Charge", "fa-solid fa-bolt", None, 0, Some(0), None, true).unwrap();
    charge.parent_id = Some("total".into());
    engine.add_card_token_pool("a", total).unwrap();
    engine.add_card_token_pool("a", charge).unwrap();
    let before = engine.state.get_card_token_pools("a").unwrap().unwrap().clone();
    assert_eq!(validation(engine.add_tokens_to_card_pool("a", "charge", 2)), "Token pool 'total' cannot exceed max");
    assert_eq!(engine.state.get_card_token_pools("a").unwrap().unwrap(), &before);
    engine.add_tokens_to_card_pool("a", "charge", 1).unwrap();
    let pools = engine.state.get_card_token_pools("a").unwrap().unwrap();
    assert_eq!((pool_count(pools, "charge"), pool_count(pools, "total")), (1, 2));
    assert_eq!(validation(engine.remove_tokens_from_card_pool("a", "missing", 1)), "Unknown token pool 'missing'");
}

#[test]
fn logged_moves_carry_a_utc_timestamp() {
    let mut engine = CardEngine::new(vec![test_card("a", "A", "Creature")], None);
    engine.state.set_zone_cards(Zone::Hand, vec!["a".into()]).unwrap();
    let entry = engine.move_card(Zone::Hand, Zone::Exile, "a").unwrap();
    let t = entry.timestamp.as_str();
    assert!(t.ends_with("+00:00"), "{t}");
    assert!(t.len() >= 25, "{t}");
    let b = t.as_bytes();
    assert_eq!((b[4], b[7], b[10], b[13], b[16]), (b'-', b'-', b'T', b':', b':'));
    assert!(b[..4].iter().all(|c| c.is_ascii_digit()));
}

#[test]
fn cards_get_counters_tapped_and_flipped_pools_by_default() {
    let plain = test_card("a", "A", "x");
    let mut flippable = test_card("b", "B", "x");
    flippable.back_image = Some("/back.webp".into());
    flippable.token_pools = vec![TokenPool::configured("counters", "Counters", "fa-solid fa-plus", None, 1, Some(1), Some(5), true).unwrap()];
    let mut cards = vec![plain, flippable];
    byog::card::add_default_token_pools(&mut cards);
    let ids: Vec<&str> = cards[0].token_pools.iter().map(|p| p.id.as_str()).collect();
    assert_eq!(ids, ["counters", "tapped"]);
    let counters = &cards[0].token_pools[0];
    assert_eq!((counters.count, counters.min, counters.max, counters.active), (0, Some(0), None, true));
    let tapped = &cards[0].token_pools[1];
    assert_eq!((tapped.token.as_str(), tapped.max, tapped.active), ("fa-solid fa-rotate", Some(0), false));
    let ids: Vec<&str> = cards[1].token_pools.iter().map(|p| p.id.as_str()).collect();
    assert_eq!(ids, ["counters", "tapped", "flipped"]);
    assert_eq!((cards[1].token_pools[0].count, cards[1].token_pools[0].max), (1, Some(5)));
    assert_eq!(cards[1].token_pools[2].label, "Back face");
    cards[1].add_default_token_pools();
    assert_eq!(cards[1].token_pools.len(), 3);
}

fn def(pool: TokenPool, owner: byog::token_pools::TokenPoolOwner, owner_id: Option<&str>) -> byog::token_pools::TokenPoolDefinition {
    byog::token_pools::TokenPoolDefinition { pool, owner, owner_id: owner_id.map(String::from) }
}

fn plain_pool(id: &str) -> TokenPool {
    TokenPool::configured(id, id, "fa-solid fa-circle", None, 1, Some(0), None, true).unwrap()
}

fn layout(id: &str, pools: Vec<TokenPool>) -> byog::zone_layout::ZoneLayout {
    byog::zone_layout::ZoneLayout {
        id: id.into(),
        name: id.into(),
        color: "#000000".into(),
        scope: byog::zone_layout::ZoneScope::Game,
        parent_zone: None,
        x: 0,
        y: 0,
        width: 1,
        height: 1,
        token_pools: pools,
    }
}

#[test]
fn new_game_places_cards_and_assigns_pools_to_their_owners() {
    let mut a = test_card("a", "A", "x");
    a.starting_pile = Some("hand".into());
    let mut b = test_card("b", "B", "x");
    b.is_commander = true;
    let c = test_card("c", "C", "x");
    let mut d = test_card("d", "D", "x");
    d.starting_pile = Some("nowhere".into());
    let defs = vec![
        def(plain_pool("mana"), TokenPoolOwner::Player, None),
        def(plain_pool("charge"), TokenPoolOwner::Card, Some("a")),
        def(plain_pool("energy"), TokenPoolOwner::Zone, Some("hand")),
        def(plain_pool("storm"), TokenPoolOwner::Battlefield, None),
    ];
    let layouts = vec![layout("exile", vec![plain_pool("void")]), layout("hand", Vec::new())];
    let g = byog::engine::new_game(vec![a, b, c, d], defs, &layouts, Some("log.csv".into())).unwrap();
    assert_eq!(g.state.zone_cards(Zone::Hand), &["a"]);
    assert_eq!(g.state.zone_cards(Zone::CommanderPile), &["b"]);
    assert_eq!(g.state.zone_cards(Zone::MainStack), &["c", "d"]);
    let player = &g.state.players[0];
    assert_eq!((player.id.as_str(), player.name.as_str()), ("player-1", "Player 1"));
    assert_eq!(player.token_pools.iter().map(|p| p.id.as_str()).collect::<Vec<_>>(), ["mana"]);
    let a_pools = g.state.get_card_token_pools("a").unwrap().unwrap();
    assert_eq!(a_pools.iter().map(|p| p.id.as_str()).collect::<Vec<_>>(), ["counters", "tapped", "charge"]);
    let c_pools = g.state.get_card_token_pools("c").unwrap().unwrap();
    assert_eq!(c_pools.iter().map(|p| p.id.as_str()).collect::<Vec<_>>(), ["counters", "tapped"]);
    assert_eq!(g.state.get_zone_token_pools(Zone::Hand).unwrap()[0].id, "energy");
    assert_eq!(g.state.get_zone_token_pools(Zone::Battlefield).unwrap()[0].id, "storm");
    assert_eq!(g.state.get_zone_token_pools(Zone::Exile).unwrap()[0].id, "void");
    assert!(g.move_history.is_empty() && g.audit_log.is_empty());
    assert_eq!(g.logger.path, "log.csv");
}

#[test]
fn new_game_refuses_what_it_cannot_assign() {
    let cards = || vec![test_card("a", "A", "x")];
    assert_eq!(validation(byog::engine::new_game(Vec::new(), Vec::new(), &Vec::new(), None)), "No cards found in embedded CSV");
    let orphan = vec![def(plain_pool("charge"), TokenPoolOwner::Creature, None)];
    assert_eq!(validation(byog::engine::new_game(cards(), orphan, &Vec::new(), None)), "Pool 'charge' requires owner_id");
    let stranger = vec![def(plain_pool("charge"), TokenPoolOwner::Card, Some("zz"))];
    assert_eq!(validation(byog::engine::new_game(cards(), stranger, &Vec::new(), None)), "Unknown card id 'zz'");
    let nowhere = vec![def(plain_pool("energy"), TokenPoolOwner::Zone, Some("library"))];
    assert_eq!(validation(byog::engine::new_game(cards(), nowhere, &Vec::new(), None)), "Unknown pile 'library'");
    let twice = vec![def(plain_pool("mana"), TokenPoolOwner::Player, None), def(plain_pool("mana"), TokenPoolOwner::Player, None)];
    assert_eq!(validation(byog::engine::new_game(cards(), twice, &Vec::new(), None)), "Duplicate player token pool id");
    let doubled = vec![layout("hand", vec![plain_pool("p"), plain_pool("p")])];
    assert_eq!(validation(byog::engine::new_game(cards(), Vec::new(), &doubled, None)), "Duplicate token pool id 'p' in the same owner");
}

#[test]
fn an_unlogged_move_is_taken_back() {
    let mut engine = CardEngine::new(vec![test_card("a", "A", "Creature"), test_card("b", "B", "Creature")], None);
    engine.state.set_zone_cards(Zone::MainStack, vec!["b".into(), "a".into()]).unwrap();
    assert_eq!(validation(engine.revert_unlogged_move(None)), "There is no logged move to revert");
    engine.draw().unwrap();
    engine.move_card(Zone::Hand, Zone::Exile, "a").unwrap();
    engine.revert_unlogged_move(None).unwrap();
    assert_eq!(engine.state.zone_cards(Zone::Hand), &["a"]);
    assert!(engine.state.zone_cards(Zone::Exile).is_empty());
    assert_eq!((engine.move_history.len(), engine.audit_log.len()), (1, 1));
    let drawn = engine.move_history[0].clone();
    engine.undo_last_move().unwrap();
    assert_eq!(engine.state.zone_cards(Zone::MainStack), &["b", "a"]);
    engine.revert_unlogged_move(Some(drawn)).unwrap();
    assert_eq!(engine.state.zone_cards(Zone::Hand), &["a"]);
    assert_eq!((engine.move_history.len(), engine.audit_log.len()), (1, 1));
    engine.revert_unlogged_move(None).unwrap();
    assert_eq!(engine.state.zone_cards(Zone::Hand), &["a"]);
    assert!(engine.move_history.is_empty() && engine.audit_log.is_empty());
}
