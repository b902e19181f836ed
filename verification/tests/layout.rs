use byog::card_csv::load_cards_from_csv;
use byog::engine::EngineError;
use byog::pile::parse_piles_csv;
use byog::zone_layout::{parse_zones_csv, ZoneScope};

fn validation(r: Result<impl std::fmt::Debug, EngineError>) -> String {
    match r {
        Err(EngineError::Validation(m)) => m,
        Err(other) => panic!("expected a validation error, got {:?}", other),
        Ok(v) => panic!("expected an error, got {:?}", v),
    }
}

#[test]
fn zone_layout_parses_zones_csv() {
    let csv = "id,name,color,grid,scope,token_pools\n\
               command_zone,Command Zone,violet,\"0,0.8x4\",player,\n\
               battlefield,Battlefield,emerald,\"0,8.32x16\",game,\"id=energy|label=Energy|icon=fa-solid fa-bolt|active=true\"\n";
    let zones = parse_zones_csv(csv).expect("parse zones");
    assert_eq!(zones.len(), 2);
    assert_eq!(zones[0].id, "command_zone");
    assert_eq!(zones[0].x, 0);
    assert_eq!(zones[0].y, 0);
    assert_eq!(zones[0].width, 8);
    assert_eq!(zones[0].height, 4);
    assert_eq!(zones[0].scope, ZoneScope::Player);
    assert_eq!(zones[0].parent_zone, None);
    assert_eq!(zones[1].scope, ZoneScope::Game);
    assert_eq!(zones[1].width, 32);
    assert_eq!(zones[1].height, 16);
    assert_eq!(zones[1].token_pools[0].id, "energy");
    assert_eq!(zones[1].token_pools[0].token(), "fa-solid fa-bolt");
}

#[test]
fn parses_parent_zone_and_explicit_width() {
    let csv = "id,name,color,grid,scope,parent_zone,width\n\
               main,Main,emerald,\"0,0.32x8\",player,,32\n\
               lands,Lands,lime,\"0,0.8x8\",player,main,12\n";
    let zones = parse_zones_csv(csv).expect("parse nested zones");
    assert_eq!(zones[1].parent_zone.as_deref(), Some("main"));
    assert_eq!(zones[1].width, 12);
}

#[test]
fn zone_layout_rejects_invalid_grid_notation() {
    let csv = "id,name,color,grid\nbad,Bad,red,invalid\n";
    assert!(parse_zones_csv(csv).is_err());
    assert_eq!(
        validation(parse_zones_csv(csv)),
        "Invalid grid notation 'invalid' at zones CSV line 2; expected x,y.WxH"
    );
}

#[test]
fn defaults_missing_scope_to_player_and_rejects_unknown_scope() {
    let legacy = "id,name,color,grid\nhand,Hand,cyan,\"0,0.8x4\"\n";
    assert_eq!(parse_zones_csv(legacy).unwrap()[0].scope, ZoneScope::Player);

    let invalid = "id,name,color,grid,scope\nhand,Hand,cyan,\"0,0.8x4\",table\n";
    assert!(parse_zones_csv(invalid).is_err());
    assert_eq!(
        validation(parse_zones_csv(invalid)),
        "Invalid zone scope 'table' at zones CSV line 2; expected 'game' or 'player'"
    );
}

#[test]
fn zone_errors_name_the_line_and_field() {
    assert_eq!(
        validation(parse_zones_csv("id,name,grid\nz,Z,\"0,0.1x1\"\n")),
        "Missing required 'color' column in zones CSV"
    );
    assert_eq!(
        validation(parse_zones_csv("id,name,color,grid\nz,Z, ,\"0,0.1x1\"\n")),
        "Missing required 'color' at zones CSV line 2"
    );
    assert_eq!(
        validation(parse_zones_csv("id,name,color,grid,height\nz,Z,red,\"0,0.1x1\",0\n")),
        "Zone width and height must be greater than zero at zones CSV line 2"
    );
    assert_eq!(
        validation(parse_zones_csv("id,name,color,grid,width\nz,Z,red,\"0,0.1x1\",300\n")),
        "Invalid width '300' at zones CSV line 2; expected 0-255"
    );
    assert_eq!(
        validation(parse_zones_csv("id,name,color,grid,token_pools\nz,Z,red,\"0,0.1x1\",label=x\n")),
        "Invalid token_pools value at zones CSV line 2: Token pool is missing required id"
    );
}

#[test]
fn zone_parents_must_be_other_zones() {
    assert_eq!(
        validation(parse_zones_csv("id,name,color,grid,parent_zone\na,A,red,\"0,0.1x1\",a\n")),
        "Zone 'a' has invalid parent_zone 'a'"
    );
    assert_eq!(
        validation(parse_zones_csv("id,name,color,grid,parent_zone\na,A,red,\"0,0.1x1\",\nb,B,red,\"1,1.1x1\",c\n")),
        "Zone 'b' has invalid parent_zone 'c'"
    );
}

#[test]
fn zone_scope_names() {
    assert_eq!(ZoneScope::Game.as_str(), "game");
    assert_eq!(ZoneScope::Player.as_str(), "player");
    assert_eq!(ZoneScope::default(), ZoneScope::Player);
}

#[test]
fn grid_parts_are_trimmed_and_bounded() {
    let zones = parse_zones_csv("id,name,color,grid\nz,Z,red,\" 1 , 2 . 3 x 4 \"\n").unwrap();
    assert_eq!((zones[0].x, zones[0].y, zones[0].width, zones[0].height), (1, 2, 3, 4));
    assert!(parse_zones_csv("id,name,color,grid\nz,Z,red,\"1,2.3x256\"\n").is_err());
    assert!(parse_zones_csv("id,name,color,grid\nz,Z,red,\"1.3x4\"\n").is_err());
}

#[test]
fn parses_piles_csv() {
    let csv = "id,name,zone_id,x,y,associated_piles\n\
               deck,Deck,deck_zone,0,4,\"main_stack,discard\"\n\
               hand,Hand,hand,0,28,\n";
    let piles = parse_piles_csv(csv).expect("parse piles");
    assert_eq!(piles.len(), 2);
    assert_eq!(piles[0].id, "deck");
    assert_eq!(piles[0].x, 0);
    assert_eq!(piles[0].y, 4);
    assert_eq!(piles[0].associated_piles, vec!["main_stack", "discard"]);
    assert!(piles[1].associated_piles.is_empty());
}

#[test]
fn pile_coordinates_default_to_zero_and_are_bounded() {
    let piles = parse_piles_csv("id,name,zone_id,x,y\np,P,z,,\n").unwrap();
    assert_eq!((piles[0].x, piles[0].y), (0, 0));
    assert_eq!(
        validation(parse_piles_csv("id,name,zone_id,x,y\np,P,z,1,999\n")),
        "Invalid u8 for 'y' at piles CSV line 2: '999'"
    );
    assert_eq!(
        validation(parse_piles_csv("id,name,x,y\np,P,1,1\n")),
        "Missing required 'zone_id' column in piles CSV"
    );
    assert_eq!(
        validation(parse_piles_csv("id,name,zone_id,x,y\np,,z,1,1\n")),
        "Missing required 'name' at piles CSV line 2"
    );
}

#[test]
fn csv_read_errors_are_csv_errors() {
    match parse_piles_csv("id,name,zone_id,x,y\np,P,z,1,1,extra\n") {
        Err(EngineError::Csv(_)) => {},
        other => panic!("expected a CSV error, got {:?}", other),
    }
}

#[test]
fn parses_cards_and_tolerates_missing_optional_columns() {
    let csv = "id,name,card_type,is_commander,token_pools\n1,Sol Ring,Artifact,true,\"id=charge|token=fa-bolt|background=amber|starting=1|max=3|active=true\"\n2,Island,Basic Land,,\n";
    let cards = load_cards_from_csv(csv).expect("load cards");
    assert_eq!(cards.len(), 2);
    assert_eq!(cards[0].id, "1");
    assert_eq!(cards[0].name, "Sol Ring");
    assert_eq!(cards[0].card_type_id, "artifact");
    assert!(cards[0].is_commander);
    assert_eq!(cards[0].token_pools[0].token(), "fa-bolt");
    assert_eq!(cards[1].card_type_id, "basic-land");
    assert!(!cards[1].is_commander);
    assert_eq!(cards[1].mana, None);
    assert_eq!(cards[1].oracle_text, None);
    assert!(cards[1].token_pools.is_empty());
}

#[test]
fn cards_csv_accepts_type_column_and_reports_missing_values() {
    let cards = load_cards_from_csv("id,name,type,mana\nc,Card,Spell,2R\n").unwrap();
    assert_eq!(cards[0].card_type_id, "spell");
    assert_eq!(cards[0].mana.as_deref(), Some("2R"));
    assert_eq!(
        validation(load_cards_from_csv("id,name\nc,Card\n")),
        "Missing required 'card_type' CSV header"
    );
    assert_eq!(
        validation(load_cards_from_csv("id,name,card_type\nc,,Spell\n")),
        "Missing required value for 'name' at CSV line 2"
    );
    assert_eq!(
        validation(load_cards_from_csv("id,name,card_type,token_pools\nc,C,Spell,id=x|max=z\n")),
        "Invalid token_pools value at CSV line 2: Invalid token pool max 'z'"
    );
}
