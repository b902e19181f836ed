use byog::cards::{
    ingest_card_types_csv, ingest_cards_csv, parse_card_cost, parse_csv, resolve_card_appearance,
    resolve_card_visual, CardCostComponent, CardVisual,
};

#[test]
fn ingests_cost_and_inherits_appearance() {
    let types = ingest_card_types_csv("game_id,id,name,background_color,icon,back_logo\narcana,creature,Creature,#123456,fa-solid fa-dragon,/back.svg").unwrap();
    let cards = ingest_cards_csv("game_id,id,name,card_type_id,description,cost,image,background_color,full_image\narcana,ember-drake,Ember Drake,creature,A dragon born from flame,2|fire:2,/art/ember.webp,#654321,", &types).unwrap();
    assert_eq!(cards[0].cost.as_ref().unwrap().components[1], CardCostComponent { resource: "fire".into(), amount: 2 });
    let appearance = resolve_card_appearance(&cards[0], &types[0]).unwrap().unwrap();
    assert_eq!(appearance.image.as_deref(), Some("/art/ember.webp"));
    assert_eq!(appearance.background_color.as_deref(), Some("#654321"));
    assert_eq!(appearance.icon.as_deref(), Some("fa-solid fa-dragon"));
}

#[test]
fn full_image_suppresses_generated_appearance() {
    let types = ingest_card_types_csv("game_id,id,name\narcana,creature,Creature").unwrap();
    let cards = ingest_cards_csv("game_id,id,name,card_type_id,full_image\narcana,printed-drake,Printed Drake,creature,/cards/printed.webp", &types).unwrap();
    assert!(matches!(resolve_card_visual(&cards[0], &types[0]).unwrap(), CardVisual::FullImage { .. }));
    assert_eq!(resolve_card_appearance(&cards[0], &types[0]).unwrap(), None);
}

#[test]
fn supports_quoted_commas() {
    let types = ingest_card_types_csv("game_id,id,name,description\narcana,event,Event,\"Resolve once, then discard\"").unwrap();
    assert_eq!(types[0].description.as_deref(), Some("Resolve once, then discard"));
}

#[test]
fn parse_csv_handles_quotes_blank_rows_and_carriage_returns() {
    let rows = parse_csv("a,\"b \"\"c\"\"\",d\r\n\n,,\nx\n").unwrap();
    assert_eq!(rows, vec![vec!["a".to_string(), "b \"c\"".to_string(), "d".to_string()], vec!["x".to_string()]]);
}

#[test]
fn parse_csv_quote_inside_a_field_is_kept() {
    let rows = parse_csv("ab\"c,d").unwrap();
    assert_eq!(rows, vec![vec!["ab\"c".to_string(), "d".to_string()]]);
}

#[test]
fn parse_csv_rejects_an_open_quote_on_its_row() {
    let err = parse_csv("a\nb\n\"open").unwrap_err();
    assert_eq!(err.row, 3);
    assert_eq!(err.message, "unterminated quoted field");
    assert_eq!(err.describe(), "row 3: unterminated quoted field");
}

#[test]
fn parse_csv_of_empty_text_has_no_rows() {
    assert!(parse_csv("").unwrap().is_empty());
}

#[test]
fn card_cost_reads_generic_and_named_resources() {
    let cost = parse_card_cost(" 3 | Fire Mana:+2 ", 7).unwrap().unwrap();
    assert_eq!(cost.components, vec![
        CardCostComponent { resource: "generic".into(), amount: 3 },
        CardCostComponent { resource: "fire-mana".into(), amount: 2 },
    ]);
    assert_eq!(parse_card_cost("   ", 7).unwrap(), None);
}

#[test]
fn card_cost_rejects_zero_and_malformed_components() {
    let err = parse_card_cost("fire:0", 4).unwrap_err();
    assert_eq!(err.row, 4);
    assert_eq!(err.message, "invalid cost component 'fire:0'");
    let err = parse_card_cost("1|a:b:c", 5).unwrap_err();
    assert_eq!(err.message, "invalid cost component 'a:b:c'");
    let err = parse_card_cost("-x-:1", 5).unwrap_err();
    assert_eq!(err.message, "invalid cost component '-x-:1'");
    assert!(parse_card_cost("4294967296", 1).is_err());
}

#[test]
fn card_types_normalize_ids_and_reject_duplicates() {
    let types = ingest_card_types_csv("Game_ID,ID,Name\n My Game ,Big_Creature,Big\n").unwrap();
    assert_eq!(types[0].game_id, "my-game");
    assert_eq!(types[0].id, "big-creature");
    let err = ingest_card_types_csv("game_id,id,name\ng,a,A\ng,A,Again\n").unwrap_err();
    assert_eq!(err.row, 3);
    assert_eq!(err.message, "duplicate card type 'g/a'");
}

#[test]
fn card_types_report_missing_columns_and_values() {
    let err = ingest_card_types_csv("game_id,name\ng,A\n").unwrap_err();
    assert_eq!((err.row, err.message.as_str()), (1, "missing required column 'id'"));
    let err = ingest_card_types_csv("game_id,id,name\ng,a,\n").unwrap_err();
    assert_eq!((err.row, err.message.as_str()), (2, "'name' is required"));
    let err = ingest_card_types_csv("game_id,id,name\ng,-a,A\n").unwrap_err();
    assert_eq!((err.row, err.message.as_str()), (2, "'id' is not a valid identifier"));
    assert!(ingest_card_types_csv("").unwrap().is_empty());
}

#[test]
fn cards_need_a_known_type_and_a_unique_key() {
    let types = ingest_card_types_csv("game_id,id,name\ng,unit,Unit\n").unwrap();
    let err = ingest_cards_csv("game_id,id,name,card_type_id\ng,c1,One,spell\n", &types).unwrap_err();
    assert_eq!((err.row, err.message.as_str()), (2, "unknown card type 'g/spell'"));
    let err = ingest_cards_csv("game_id,id,name,card_type_id\ng,c1,One,unit\ng,c1,Two,unit\n", &types).unwrap_err();
    assert_eq!((err.row, err.message.as_str()), (3, "duplicate card 'g/c1'"));
    let err = ingest_cards_csv("game_id,id,name,card_type_id,cost\ng,c1,One,unit,x:y\n", &types).unwrap_err();
    assert_eq!((err.row, err.message.as_str()), (2, "invalid cost component 'x:y'"));
}

#[test]
fn resolving_against_another_type_fails() {
    let types = ingest_card_types_csv("game_id,id,name\ng,unit,Unit\ng,spell,Spell\n").unwrap();
    let cards = ingest_cards_csv("game_id,id,name,card_type_id\ng,c1,One,unit\n", &types).unwrap();
    assert_eq!(resolve_card_visual(&cards[0], &types[1]).unwrap_err(), "card type 'g/spell' does not belong to card 'g/c1'");
    assert!(resolve_card_appearance(&cards[0], &types[1]).is_err());
}

#[test]
fn appearance_takes_back_logo_from_type_when_card_has_none() {
    let types = ingest_card_types_csv("game_id,id,name,back_logo,background_image\ng,unit,Unit,/logo.svg,/bg.png\n").unwrap();
    let cards = ingest_cards_csv("game_id,id,name,card_type_id,back_logo\ng,c1,One,unit,\ng,c2,Two,unit,/own.svg\n", &types).unwrap();
    let a = resolve_card_appearance(&cards[0], &types[0]).unwrap().unwrap();
    assert_eq!(a.back_logo.as_deref(), Some("/logo.svg"));
    assert_eq!(a.background_image.as_deref(), Some("/bg.png"));
    let b = resolve_card_appearance(&cards[1], &types[0]).unwrap().unwrap();
    assert_eq!(b.back_logo.as_deref(), Some("/own.svg"));
}
