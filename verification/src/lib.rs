//! A card and deck engine: card and token-pool data ingested from CSV text,
//! zones and piles of cards, bounded token pools, dice, and an audited
//! move log, with the rules of each operation stated and proved.

pub mod card;
pub mod card_csv;
pub mod cards;
pub mod csv_text;
pub mod dice;
pub mod engine;
pub mod fields;
pub mod laws;
pub mod move_logger;
pub mod pile;
pub mod record_laws;
pub mod setup;
pub mod snapshot;
pub mod player;
pub mod text;
pub mod token_pools;
pub mod zone_layout;
pub mod zones;

