use byog::card::Card;
use byog::cards::CardVisual;
use byog::engine::{CardEngine, EngineError};
use byog::move_logger::{MoveLogEntry, MoveLogger};
use byog::pile::parse_piles_csv;
use byog::zones::{GameState, Zone};

const ALL_ZONES: [Zone; 11] = [
    Zone::MainStack,
    Zone::CommanderPile,
    Zone::Hand,
    Zone::Lands,
    Zone::Deck,
    Zone::Discard,
    Zone::Exile,
    Zone::Artifacts,
    Zone::Enchantments,
    Zone::Creatures,
    Zone::Battlefield,
];

fn card(id: &str) -> Card {
    Card {
        id: id.to_string(),
        game_id: String::new(),
        name: id.to_uppercase(),
        card_type_id: "creature".to_string(),
        description: None,
        cost: None,
        visual: CardVisual::Generated { image: None, background_image: None, background_color: None, icon: None },
        back_logo: None,
        back_image: None,
        mana: None,
        colors: None,
        oracle_text: None,
        power: None,
        toughness: None,
        is_commander: false,
        is_partner: false,
        token_pools: Vec::new(),
        starting_pile: None,
    }
}

fn all_cards(state: &GameState) -> Vec<String> {
    let mut ids: Vec<String> = ALL_ZONES.iter().flat_map(|z| state.zone_cards(*z).to_vec()).collect();
    ids.sort();
    ids
}

fn snapshot(state: &GameState) -> Vec<Vec<String>> {
    ALL_ZONES.iter().map(|z| state.zone_cards(*z).to_vec()).collect()
}

#[test]
fn moves_and_draws_keep_every_card() {
    let mut engine = CardEngine::new(vec![card("a"), card("b"), card("c"), card("d")], None);
    engine.state.set_zone_cards(Zone::MainStack, vec!["a".into(), "b".into()]).unwrap();
    engine.state.set_zone_cards(Zone::Deck, vec!["c".into(), "d".into()]).unwrap();
    let before = all_cards(&engine.state);
    engine.draw().unwrap();
    engine.move_card(Zone::Deck, Zone::Exile, "c").unwrap();
    engine.cast_to_battlefield("b").unwrap();
    engine.discard(Zone::Deck, "d").unwrap();
    engine.draw().unwrap();
    assert!(engine.move_card(Zone::Deck, Zone::Exile, "zz").is_err());
    assert_eq!(all_cards(&engine.state), before);
}

#[test]
fn undoing_a_move_of_a_top_card_restores_every_zone() {
    let mut engine = CardEngine::new(vec![card("a"), card("b"), card("c")], None);
    engine.state.set_zone_cards(Zone::Deck, vec!["a".into(), "b".into()]).unwrap();
    engine.state.set_zone_cards(Zone::Hand, vec!["c".into()]).unwrap();
    let before = snapshot(&engine.state);
    let history = engine.move_history.len();
    engine.move_card(Zone::Deck, Zone::Hand, "b").unwrap();
    engine.undo_last_move().unwrap();
    assert_eq!(snapshot(&engine.state), before);
    assert_eq!(engine.move_history.len(), history);
    assert_eq!(engine.audit_log.len(), 2);
}

#[test]
fn commander_pile_stays_within_two_cards() {
    let mut engine = CardEngine::new(vec![card("a"), card("b"), card("c")], None);
    engine.state.set_zone_cards(Zone::Hand, vec!["a".into(), "b".into(), "c".into()]).unwrap();
    for id in ["a", "b", "c"] {
        let _ = engine.move_card(Zone::Hand, Zone::CommanderPile, id);
        assert!(engine.state.zone_cards(Zone::CommanderPile).len() <= 2);
    }
    assert_eq!(engine.state.zone_cards(Zone::Hand), &["c"]);
}

#[test]
fn refused_token_changes_keep_pools_within_bounds() {
    let mut engine = CardEngine::new(Vec::new(), None);
    assert!(engine.remove_tokens_from_player_pool("player-1", "life", 21).is_err());
    assert!(engine.add_tokens_to_player_pool("player-1", "life", u32::MAX).is_err());
    let life = &engine.state.get_player_token_pools("player-1").unwrap()[0];
    assert_eq!(life.count, 20);
}

#[test]
fn append_text_writes_the_header_only_when_asked() {
    let entry = MoveLogEntry {
        timestamp: "2026-08-18T15:00:00Z".to_string(),
        action: "draw".to_string(),
        card_id: "land1".to_string(),
        card_name: "Plains, Basic".to_string(),
        from_zone: "MainStack".to_string(),
        to_zone: "Hand".to_string(),
        notes: None,
    };
    assert_eq!(
        MoveLogger::append_text(&entry, false).unwrap(),
        "2026-08-18T15:00:00Z,draw,land1,\"Plains, Basic\",MainStack,Hand,\n"
    );
    assert_eq!(
        MoveLogger::append_text(&entry, true).unwrap(),
        "timestamp,action,card_id,card_name,from_pile,to_pile,notes\n2026-08-18T15:00:00Z,draw,land1,\"Plains, Basic\",MainStack,Hand,\n"
    );
    assert_eq!(
        MoveLogger::entries_to_csv(&[entry]).unwrap(),
        "timestamp,action,card_id,card_name,from_pile,to_pile,notes\n2026-08-18T15:00:00Z,draw,land1,\"Plains, Basic\",MainStack,Hand,\n"
    );
}

#[test]
fn logged_moves_carry_a_timestamp() {
    let mut engine = CardEngine::new(vec![card("a")], None);
    engine.state.set_zone_cards(Zone::Hand, vec!["a".into()]).unwrap();
    let entry = engine.play_land("a").unwrap();
    assert!(entry.timestamp.contains('T'));
    assert_eq!(entry.card_name, "A");
    assert_eq!(engine.logger.path, "data/moves_log.csv");
}

#[test]
fn errors_describe_themselves() {
    let err = parse_piles_csv("id,name,zone_id,x,y\np,P,z,1,1,extra\n").unwrap_err();
    assert!(matches!(err, EngineError::Csv(_)));
    let text = err.describe();
    assert!(text.starts_with("CSV error: "));
    assert!(text.len() > "CSV error: ".len());
    assert_eq!(EngineError::Validation("bad".into()).describe(), "Validation error: bad");
}

#[test]
fn apply_swaps_swaps_from_the_last_position_down() {
    let cards = vec!["a".to_string(), "b".to_string(), "c".to_string()];
    assert_eq!(byog::zones::apply_swaps(cards.clone(), &vec![0, 1]), vec!["c", "b", "a"]);
    assert_eq!(byog::zones::apply_swaps(cards.clone(), &vec![1, 0]), vec!["c", "a", "b"]);
    assert_eq!(byog::zones::apply_swaps(cards.clone(), &vec![2, 1]), cards);
    assert_eq!(byog::zones::apply_swaps(cards.clone(), &Vec::new()), cards);
}

#[test]
fn undoing_a_draw_restores_every_zone() {
    let mut engine = CardEngine::new(vec![card("a"), card("b")], None);
    engine.state.set_zone_cards(Zone::Deck, vec!["a".into(), "b".into()]).unwrap();
    let before = snapshot(&engine.state);
    let drawn = engine.draw().unwrap();
    let undo = engine.undo_last_move().unwrap();
    assert_eq!((undo.from_zone.as_str(), undo.to_zone.as_str()), ("Hand", "Deck"));
    assert_eq!(snapshot(&engine.state), before);
    assert!(engine.move_history.is_empty());
    assert_eq!(engine.audit_log.len(), 2);
    assert_eq!(engine.audit_log[0].card_id, drawn.card_id);
}

#[test]
fn move_history_csv_starts_with_the_header_even_when_empty() {
    let engine = CardEngine::new(Vec::new(), None);
    assert_eq!(engine.move_history_csv().unwrap(), "timestamp,action,card_id,card_name,from_pile,to_pile,notes\n");
}
