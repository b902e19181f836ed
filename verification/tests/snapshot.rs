use byog::card::Card;
use byog::cards::CardVisual;
use byog::engine::EngineError;
use byog::snapshot::{SavedCard, SavedPlayer, SavedPool, SavedZone};
use byog::token_pools::TokenPool;
use byog::zones::{GameState, Zone};

const PILES: [&str; 11] = [
    "main_stack", "commander_pile", "hand", "lands", "deck", "discard", "exile", "artifacts", "enchantments",
    "creatures", "battlefield",
];

fn card(id: &str) -> Card {
    Card {
        id: id.to_string(),
        game_id: String::new(),
        name: id.to_uppercase(),
        card_type_id: "x".into(),
        description: None,
        cost: None,
        visual: CardVisual::Generated { image: None, background_image: None, background_color: None, icon: None },
        back_logo: None,
        back_image: None,
        mana: None,
        colors: None,
        oracle_text: None,
        power: None,
        toughness: None,
        is_commander: false,
        is_partner: false,
        token_pools: Vec::new(),
        starting_pile: None,
    }
}

fn game() -> GameState {
    let mut state = GameState::new(vec![card("a"), card("b")]);
    let charge = TokenPool::configured("charge", "Charge", "fa-solid fa-bolt", None, 0, Some(0), Some(5), true).unwrap();
    state.add_card_token_pool("a", charge).unwrap();
    state.set_zone_cards(Zone::MainStack, vec!["a".into(), "b".into()]).unwrap();
    state
}

fn saved(id: &str, count: u32, active: bool) -> SavedPool {
    SavedPool { id: id.into(), count, active }
}

fn zones_with(hand: Vec<SavedCard>, main: Vec<SavedCard>) -> Vec<SavedZone> {
    let mut hand = Some(hand);
    let mut main = Some(main);
    PILES
        .iter()
        .map(|p| SavedZone {
            id: p.to_string(),
            token_pools: Vec::new(),
            cards: match *p {
                "hand" => hand.take().unwrap(),
                "main_stack" => main.take().unwrap(),
                _ => Vec::new(),
            },
        })
        .collect()
}

fn card_a(count: u32) -> SavedCard {
    SavedCard { id: "a".into(), token_pools: vec![saved("charge", count, false)] }
}

fn card_b() -> SavedCard {
    SavedCard { id: "b".into(), token_pools: Vec::new() }
}

fn player(name: &str, life: u32) -> SavedPlayer {
    SavedPlayer { id: "player-1".into(), name: name.into(), token_pools: vec![saved("life", life, true)] }
}

fn message(r: Result<(), EngineError>) -> String {
    match r {
        Err(EngineError::Validation(m)) => m,
        other => panic!("expected a validation error, got {:?}", other),
    }
}

#[test]
fn restore_snapshot_moves_cards_and_restores_pools_and_names() {
    let mut state = game();
    state.restore_snapshot(zones_with(vec![card_a(3)], vec![card_b()]), vec![player("Alice", 15)]).unwrap();
    assert_eq!(state.zone_cards(Zone::Hand), &["a"]);
    assert_eq!(state.zone_cards(Zone::MainStack), &["b"]);
    let charge = &state.get_card_token_pools("a").unwrap().unwrap()[0];
    assert_eq!((charge.count, charge.active, charge.max), (3, false, Some(5)));
    assert_eq!(state.players[0].name, "Alice");
    assert_eq!(state.players[0].token_pools[0].count, 15);
    assert_eq!(state.cards.len(), 2);
}

#[test]
fn restore_snapshot_refuses_bad_saves_and_changes_nothing() {
    let base = game();
    let cases: Vec<(Vec<SavedZone>, Vec<SavedPlayer>, &str)> = vec![
        (
            {
                let mut z = zones_with(vec![card_a(1)], vec![card_b()]);
                z[0].id = "library".into();
                z
            },
            vec![player("P", 20)],
            "Saved game state contains an unknown or duplicate pile 'library'",
        ),
        (zones_with(vec![card_a(1), card_b()], vec![card_b()]), vec![player("P", 20)], "Saved game state contains an unknown or duplicate card 'b'"),
        (zones_with(vec![card_a(1)], Vec::new()), vec![player("P", 20)], "Saved game state does not match the current deck and pile configuration"),
        (zones_with(vec![card_a(9)], vec![card_b()]), vec![player("P", 20)], "Token pool 'charge' starts above its max"),
        (
            zones_with(vec![SavedCard { id: "a".into(), token_pools: Vec::new() }], vec![card_b()]),
            vec![player("P", 20)],
            "Saved card 'a' token pools do not match the current configuration",
        ),
        (
            zones_with(vec![SavedCard { id: "a".into(), token_pools: vec![saved("spark", 1, true)] }], vec![card_b()]),
            vec![player("P", 20)],
            "Saved card 'a' contains unknown token pool 'spark'",
        ),
        (
            zones_with(vec![card_a(1)], vec![card_b()]),
            vec![SavedPlayer { id: "player-2".into(), name: "Q".into(), token_pools: Vec::new() }],
            "Saved game state contains unknown player 'player-2'",
        ),
        (zones_with(vec![card_a(1)], vec![card_b()]), vec![player("P", 20), player("P", 20)], "Saved game state contains duplicate player 'player-1'"),
        (zones_with(vec![card_a(1)], vec![card_b()]), Vec::new(), "Saved game state does not contain every player"),
    ];
    for (zones, players, expected) in cases {
        let mut state = base.clone();
        assert_eq!(message(state.restore_snapshot(zones, players)), expected);
        assert_eq!(state.zone_cards(Zone::MainStack), &["a", "b"]);
        assert_eq!(state.get_card_token_pools("a").unwrap().unwrap()[0].count, 0);
        assert_eq!(state.players[0].name, "Player 1");
    }
}

fn pile(id: &str, zone_id: &str) -> byog::pile::Pile {
    byog::pile::Pile { id: id.into(), name: id.into(), zone_id: zone_id.into(), x: 0, y: 0, associated_piles: Vec::new() }
}

fn layout(id: &str) -> byog::zone_layout::ZoneLayout {
    byog::zone_layout::ZoneLayout {
        id: id.into(),
        name: id.into(),
        color: "#000000".into(),
        scope: byog::zone_layout::ZoneScope::Game,
        parent_zone: None,
        x: 0,
        y: 0,
        width: 1,
        height: 1,
        token_pools: Vec::new(),
    }
}

#[test]
fn create_card_adds_a_card_with_default_pools_to_a_pile() {
    let mut state = game();
    let piles = vec![pile("hand", "hand-area"), pile("exile", "nowhere")];
    let layouts = vec![layout("hand-area")];
    state.create_card(&piles, &layouts, " c ", " Goblin ", " Tiny Beast ", "  ", "2", " ", "hand").unwrap();
    let c = state.cards.last().unwrap();
    assert_eq!((c.id.as_str(), c.name.as_str(), c.card_type_id.as_str()), ("c", "Goblin", "tiny-beast"));
    assert_eq!((c.oracle_text.clone(), c.power.clone(), c.toughness.clone()), (None, Some("2".to_string()), None));
    assert_eq!(c.starting_pile.as_deref(), Some("hand"));
    assert_eq!(state.zone_cards(Zone::Hand), &["c"]);
    let pools = state.get_card_token_pools("c").unwrap().unwrap();
    assert_eq!(pools.iter().map(|p| p.id.as_str()).collect::<Vec<_>>(), ["counters", "tapped"]);
    let err = |r: Result<(), EngineError>| message(r);
    assert_eq!(err(state.create_card(&piles, &layouts, "d", " ", "x", "", "", "", "hand")), "Card ID, name, and type are required");
    assert_eq!(err(state.create_card(&piles, &layouts, "a", "A", "x", "", "", "", "hand")), "Card 'a' already exists");
    assert_eq!(err(state.create_card(&piles, &layouts, "d", "D", "x", "", "", "", "lands")), "Unknown pile 'lands'");
    assert_eq!(err(state.create_card(&piles, &layouts, "d", "D", "x", "", "", "", "exile")), "Pile 'exile' has no zone layout");
    assert_eq!(state.cards.len(), 3);
}
