//! The card engine: a game state, the moves made on it, and the log of
//! those moves.
use vstd::prelude::*;
use vstd::string::*;

use crate::card::{same_card, Card};
use crate::move_logger::{header_line, current_timestamp, utc_time_text, duplicate_entry, log_csv, MoveLogEntry, MoveLogger};
use crate::text::{ascii_lower, concat3, lower_char, lower_char_exec, opt_chars, owned, trim};
use crate::token_pools::{TokenPool, TokenPoolDefinition, TokenPoolOwner};
use crate::card::{add_default_token_pools, defaults_added, duplicate_pools};
use crate::player::{Player, DEFAULT_PLAYER_ID};
use crate::setup::{
    card_defs_applied, card_pools_of, layouts_applied, layouts_problem, no_zone_pools, player_def_pools, setup_problem,
    starting_card_pools, starting_placement, starting_zones, zone_defs_applied, zone_pools_view, defs_problem,
    def_problem, layout_zone, lemma_defs_problem_prefix, lemma_layouts_problem_prefix, player_pools_of,
};
use crate::zone_layout::ZoneLayout;
use crate::zones::{collect_cards, has_card_pools};
use crate::zones::{
    card_pool_added, card_pool_changed, card_with, player_pool_walked, player_renamed, zone_pool_added, zone_pools_set, has_card, moved, move_problem, only_zones_differ,
    search_result, unknown_card, validation, zone_index, zone_name, zone_of_pile, zone_pool_changed, GameState,
    PoolChange, Zone, ZONE_COUNT,
};

verus! {

/// What can go wrong in the engine.
#[derive(Debug)]
pub enum EngineError {
    /// The CSV reader failed.
    Csv(csv::Error),
    /// A rule of the game or of its data was broken.
    Validation(String),
}

/// The message of a validation error, if the error is one.
pub open spec fn validation_message(e: EngineError) -> Option<Seq<char>> {
    match e {
        EngineError::Validation(m) => Some(m@),
        EngineError::Csv(_) => None,
    }
}


impl EngineError {
    /// The error as text: `CSV error: {error}` or `Validation error:
    /// {message}`.
    pub fn describe(&self) -> (s: String)
        ensures
            match *self {
                EngineError::Validation(m) => s@ == "Validation error: "@ + m@,
                EngineError::Csv(_) => exists|t: Seq<char>| s@ == "CSV error: "@ + t,
            },
    {
        match self {
            EngineError::Validation(m) => {
                let mut s = owned("Validation error: ");
                s.append(m.as_str());
                s
            },
            EngineError::Csv(e) => {
                let mut s = owned("CSV error: ");
                let t = crate::csv_text::csv_error_text(e);
                s.append(t.as_str());
                s
            },
        }
    }
}

/// The result is a validation error with the given message.
pub open spec fn fails_with<T>(r: Result<T, EngineError>, m: Seq<char>) -> bool {
    match r {
        Err(e) => validation_message(e) == Some(m),
        Ok(_) => false,
    }
}


/// Whether a log entry records the given move of a card.
pub open spec fn entry_of(e: MoveLogEntry, action: Seq<char>, c: Card, from: Zone, to: Zone, notes: Option<Seq<char>>) -> bool {
    &&& e.action@ == action
    &&& e.card_id@ == c.id@
    &&& e.card_name@ == c.name@
    &&& e.from_zone@ == zone_name(from)
    &&& e.to_zone@ == zone_name(to)
    &&& opt_chars(e.notes) == notes
    &&& utc_time_text(e.timestamp@)
}

/// The pile id a logged zone name stands for: an underscore before each
/// ASCII capital after the first character, and ASCII letters lower-cased.
pub open spec fn pile_id_of(s: Seq<char>) -> Seq<char>
    decreases s.len(),
{
    if s.len() == 0 {
        Seq::empty()
    } else {
        let r = pile_id_of(s.drop_last());
        let c = s.last();
        if 'A' <= c <= 'Z' && s.len() > 1 {
            r.push('_').push(lower_char(c))
        } else {
            r.push(lower_char(c))
        }
    }
}

/// Turns a logged zone name such as `MainStack` into its pile id,
/// `main_stack`.
fn to_pile_id(zone: &str) -> (r: String)
    ensures
        r@ == pile_id_of(zone@),
{
    let c = crate::text::chars_of(zone);
    let mut out = String::new();
    let mut i: usize = 0;
    assert(c@.take(0) =~= Seq::<char>::empty());
    while i < c.len()
        invariant
            i <= c@.len(),
            c@ == zone@,
            out@ == pile_id_of(c@.take(i as int)),
        decreases c.len() - i,
    {
        assert(c@.take(i + 1).drop_last() =~= c@.take(i as int));
        let ch = c[i];
        if 'A' <= ch && ch <= 'Z' && i > 0 {
            crate::text::push_char(&mut out, '_');
        }
        crate::text::push_char(&mut out, lower_char_exec(ch));
        i += 1;
    }
    assert(c@.take(c.len() as int) =~= c@);
    out
}

/// The logs are unchanged.
pub open spec fn logs_unchanged(a: CardEngine, b: CardEngine) -> bool {
    a.move_history == b.move_history && a.audit_log == b.audit_log && a.logger == b.logger
}

/// The entry is appended to both the history of moves and the audit log.
pub open spec fn recorded(a: CardEngine, b: CardEngine, e: MoveLogEntry) -> bool {
    b.move_history@ == a.move_history@.push(e) && b.audit_log@ == a.audit_log@.push(e) && b.logger == a.logger
}

/// The state after a card moves between zones, or the same state when the
/// zones are the same.
pub open spec fn state_moved(a: GameState, b: GameState, from: Zone, to: Zone, id: Seq<char>) -> bool {
    if from == to {
        b == a
    } else {
        b.zone_ids() == moved(a.zone_ids(), from, to, id) && only_zones_differ(a, b)
    }
}

/// The message for a move whose source and destination are the same.
pub open spec fn same_pile_message() -> Seq<char> {
    "Source and destination piles must differ"@
}

/// The message for a pile id that names no zone.
pub open spec fn unknown_pile(id: Seq<char>) -> Seq<char> {
    "Unknown pile '"@ + id + "'"@
}

/// The outcome of a logged move whose card is looked up before it moves:
/// an unknown card or a refused move changes nothing; otherwise the card
/// moves and the entry of the move is recorded.
pub open spec fn checked_move(a: CardEngine, b: CardEngine, r: Result<MoveLogEntry, EngineError>, action: Seq<char>, from: Zone, to: Zone, id: Seq<char>) -> bool {
    let s = a.state;
    if !has_card(s.cards@, id) {
        fails_with(r, unknown_card(id)) && b == a
    } else if move_problem(s.zone_ids(), from, to, id) is Some {
        fails_with(r, move_problem(s.zone_ids(), from, to, id)->0) && b == a
    } else {
        r matches Ok(e) && entry_of(e, action, card_with(s.cards@, id), from, to, None) && recorded(a, b, e)
            && state_moved(s, b.state, from, to, id)
    }
}

/// The outcome of a logged move whose card is looked up after it moves: a
/// refused move changes nothing; a card that moved but is not among the
/// cards of the game stays moved and nothing is recorded.
pub open spec fn move_then_log(a: CardEngine, b: CardEngine, r: Result<MoveLogEntry, EngineError>, action: Seq<char>, from: Zone, to: Zone, id: Seq<char>) -> bool {
    let s = a.state;
    if move_problem(s.zone_ids(), from, to, id) is Some {
        fails_with(r, move_problem(s.zone_ids(), from, to, id)->0) && b == a
    } else if !has_card(s.cards@, id) {
        fails_with(r, unknown_card(id)) && logs_unchanged(a, b) && state_moved(s, b.state, from, to, id)
    } else {
        r matches Ok(e) && entry_of(e, action, card_with(s.cards@, id), from, to, None) && recorded(a, b, e)
            && state_moved(s, b.state, from, to, id)
    }
}

/// The note of an undo entry.
pub open spec fn undo_note(p: MoveLogEntry) -> Seq<char> {
    "reverts "@ + p.action@ + " at "@ + p.timestamp@
}

/// What undoing the last move does: with no move to undo nothing changes;
/// otherwise the move leaves the history, and where its zones and card are
/// known and the card can move back, it moves from the move's destination
/// to its source and the undo is added to the audit log.
pub open spec fn undo_outcome(a: CardEngine, b: CardEngine, r: Result<MoveLogEntry, EngineError>) -> bool {
    &&& (b.logger == a.logger)
    &&& (a.move_history@.len() == 0 ==> fails_with(r, "There are no moves to undo"@) && b == a)
    &&& (a.move_history@.len() > 0 ==> {
        let p = a.move_history@.last();
        let s = a.state;
        let id = p.card_id@;
        &&& b.move_history@ == a.move_history@.drop_last()
        &&& match (zone_of_pile(pile_id_of(p.to_zone@)), zone_of_pile(pile_id_of(p.from_zone@))) {
            (None, _) => fails_with(r, "Invalid destination in move history"@) && b.state == s
                && b.audit_log == a.audit_log,
            (Some(_), None) => fails_with(r, "Invalid source in move history"@) && b.state == s
                && b.audit_log == a.audit_log,
            (Some(from), Some(to)) => if !has_card(s.cards@, id) {
                fails_with(r, unknown_card(id)) && b.state == s && b.audit_log == a.audit_log
            } else if move_problem(s.zone_ids(), from, to, id) is Some {
                fails_with(r, move_problem(s.zone_ids(), from, to, id)->0) && b.state == s
                    && b.audit_log == a.audit_log
            } else {
                r matches Ok(e) && entry_of(e, "undo"@, card_with(s.cards@, id), from, to, Some(undo_note(p)))
                    && b.audit_log@ == a.audit_log@.push(e)
                    && state_moved(s, b.state, from, to, id)
            },
        }
    })
}

/// What a draw does: with both the main stack and the deck empty nothing
/// changes; otherwise the top card of the main stack (or, where it is empty,
/// of the deck) moves to the hand, and where the card is known the draw is
/// recorded.
pub open spec fn draw_outcome(a: CardEngine, b: CardEngine, r: Result<MoveLogEntry, EngineError>) -> bool {
    let s = a.state;
    let z = s.zone_ids();
    let ms = zone_index(Zone::MainStack);
    let dk = zone_index(Zone::Deck);
    if z[ms].len() == 0 && z[dk].len() == 0 {
        fails_with(r, "Cannot draw: both MainStack and Deck are empty"@) && b == a
    } else {
        let src = if z[ms].len() > 0 { Zone::MainStack } else { Zone::Deck };
        let id = z[zone_index(src)].last();
        let note = if src == Zone::MainStack { None } else { Some("MainStack empty, drew from Deck"@) };
        &&& b.state.zone_ids() == drawn(z, zone_index(src))
        &&& only_zones_differ(s, b.state)
        &&& if has_card(s.cards@, id) {
            r matches Ok(e) && entry_of(e, "draw"@, card_with(s.cards@, id), src, Zone::Hand, note)
                && recorded(a, b, e)
        } else {
            fails_with(r, unknown_card(id)) && logs_unchanged(a, b)
        }
    }
}

/// The zones after the top card of the zone at `src` is drawn into the
/// hand.
pub open spec fn drawn(z: Seq<Seq<Seq<char>>>, src: int) -> Seq<Seq<Seq<char>>> {
    z.update(src, z[src].drop_last()).update(zone_index(Zone::Hand), z[zone_index(Zone::Hand)].push(z[src].last()))
}

/// A card engine: the game state, where moves are logged, the moves that
/// can be undone, and the audit log of every move and undo.
#[derive(Debug)]
pub struct CardEngine {
    pub state: GameState,
    pub logger: MoveLogger,
    pub move_history: Vec<MoveLogEntry>,
    pub audit_log: Vec<MoveLogEntry>,
}

impl CardEngine {
    /// An engine for a new game of the given cards, logging to the given
    /// path or to `data/moves_log.csv`.
    pub fn new(cards: Vec<Card>, move_log_path: Option<String>) -> (e: Self)
        ensures
            e.state.wf(),
            e.state.cards@ == crate::zones::collect_cards(cards@),
            forall|i: int| 0 <= i < ZONE_COUNT ==> (#[trigger] e.state.zones@[i])@.len() == 0,
            e.move_history@.len() == 0,
            e.audit_log@.len() == 0,
            match move_log_path {
                Some(p) => e.logger.path == p,
                None => e.logger.path@ == crate::move_logger::DEFAULT_MOVES_LOG_PATH@,
            },
    {
        CardEngine {
            state: GameState::new(cards),
            logger: MoveLogger::new(move_log_path),
            move_history: Vec::new(),
            audit_log: Vec::new(),
        }
    }

    /// The entry of a move, stamped with the current time.
    fn log_move(&self, action: &str, card: &Card, from: Zone, to: Zone, notes: Option<&str>) -> (e: MoveLogEntry)
        ensures
            entry_of(e, action@, *card, from, to, match notes { Some(n) => Some(n@), None => None }),
    {
        MoveLogEntry {
            timestamp: current_timestamp(),
            action: owned(action),
            card_id: card.id.clone(),
            card_name: card.name.clone(),
            from_zone: owned(from.name()),
            to_zone: owned(to.name()),
            notes: match notes {
                Some(n) => Some(owned(n)),
                None => None,
            },
        }
    }

    fn record(&mut self, e: MoveLogEntry)
        ensures
            recorded(*old(self), *final(self), e),
            final(self).state == old(self).state,
    {
        self.move_history.push(duplicate_entry(&e));
        self.audit_log.push(e);
    }

    /// Moves a card between two different zones and logs the move.
    pub fn move_card(&mut self, from: Zone, to: Zone, card_id: &str) -> (r: Result<MoveLogEntry, EngineError>)
        requires
            old(self).state.wf(),
        ensures
            final(self).state.wf(),
            if from == to {
                fails_with(r, same_pile_message()) && *final(self) == *old(self)
            } else {
                checked_move(*old(self), *final(self), r, "move_card"@, from, to, card_id@)
            },
    {
        if from == to {
            return Err(validation(owned("Source and destination piles must differ")));
        }
        let card = self.state.card_by_id(card_id)?.duplicate();
        self.state.move_card(from, to, card_id)?;
        let e = self.log_move("move_card", &card, from, to, None);
        self.record(duplicate_entry(&e));
        Ok(e)
    }

    /// Moves a card between two piles named by their ids.
    pub fn move_card_between_piles(&mut self, from_pile: &str, to_pile: &str, card_id: &str) -> (r: Result<MoveLogEntry, EngineError>)
        requires
            old(self).state.wf(),
        ensures
            final(self).state.wf(),
            ({
                match (zone_of_pile(from_pile@), zone_of_pile(to_pile@)) {
                    (None, _) => fails_with(r, unknown_pile(from_pile@)) && *final(self) == *old(self),
                    (Some(_), None) => fails_with(r, unknown_pile(to_pile@)) && *final(self) == *old(self),
                    (Some(from), Some(to)) => if from == to {
                        fails_with(r, same_pile_message()) && *final(self) == *old(self)
                    } else {
                        checked_move(*old(self), *final(self), r, "move_card"@, from, to, card_id@)
                    },
                }
            }),
    {
        let from = match Zone::from_pile_id(from_pile) {
            Some(z) => z,
            None => {
                return Err(validation(concat3("Unknown pile '", from_pile, "'")));
            },
        };
        let to = match Zone::from_pile_id(to_pile) {
            Some(z) => z,
            None => {
                return Err(validation(concat3("Unknown pile '", to_pile, "'")));
            },
        };
        self.move_card(from, to, card_id)
    }

    /// Copies of the cards of a pile that match a query; see
    /// `GameState::search_cards`.
    pub fn search_pile(&self, pile_id: &str, query: &str) -> (r: Result<Vec<Card>, EngineError>)
        requires
            self.state.wf(),
        ensures
            match zone_of_pile(pile_id@) {
                None => fails_with(r, unknown_pile(pile_id@)),
                Some(z) => r matches Ok(cs) && {
                    let found = search_result(self.state.cards@, self.state.zone_ids()[zone_index(z)], ascii_lower(trim(query@)));
                    cs@.len() == found.len() && forall|i: int| 0 <= i < found.len() ==> same_card(#[trigger] cs@[i], found[i])
                },
            },
    {
        let zone = match Zone::from_pile_id(pile_id) {
            Some(z) => z,
            None => {
                return Err(validation(concat3("Unknown pile '", pile_id, "'")));
            },
        };
        let found = self.state.search_cards(zone, query);
        let ghost fv = crate::zones::card_refs_view(found@);
        let mut out: Vec<Card> = Vec::new();
        let mut i: usize = 0;
        while i < found.len()
            invariant
                i <= found@.len(),
                fv == crate::zones::card_refs_view(found@),
                out@.len() == i,
                forall|k: int| 0 <= k < i ==> same_card(#[trigger] out@[k], fv[k]),
            decreases found.len() - i,
        {
            out.push(found[i].duplicate());
            i += 1;
        }
        Ok(out)
    }

    /// Moves a card of a pile to the bottom of that pile.
    pub fn move_card_to_bottom(&mut self, pile_id: &str, card_id: &str) -> (r: Result<(), EngineError>)
        requires
            old(self).state.wf(),
        ensures
            final(self).state.wf(),
            logs_unchanged(*old(self), *final(self)),
            match zone_of_pile(pile_id@) {
                None => fails_with(r, unknown_pile(pile_id@)) && *final(self) == *old(self),
                Some(zone) => {
                    let z = old(self).state.zone_ids()[zone_index(zone)];
                    let k = crate::zones::pos_of(z, card_id@);
                    &&& (r is Ok <==> k >= 0)
                    &&& r is Err ==> fails_with(r, "Card '"@ + card_id@ + "' is not in zone "@ + zone_name(zone)) && *final(self) == *old(self)
                    &&& r is Ok ==> final(self).state.zone_ids() == old(self).state.zone_ids().update(zone_index(zone), z.remove(k).insert(0, card_id@))
                        && only_zones_differ(old(self).state, final(self).state)
                },
            },
    {
        let zone = match Zone::from_pile_id(pile_id) {
            Some(z) => z,
            None => {
                return Err(validation(concat3("Unknown pile '", pile_id, "'")));
            },
        };
        self.state.move_card_to_bottom(zone, card_id)
    }

    /// Moves a known card between two zones and records the move; the card
    /// is looked up first.
    fn checked_logged_move(&mut self, action: &str, from: Zone, to: Zone, card_id: &str) -> (r: Result<MoveLogEntry, EngineError>)
        requires
            old(self).state.wf(),
        ensures
            final(self).state.wf(),
            checked_move(*old(self), *final(self), r, action@, from, to, card_id@),
    {
        let card = self.state.card_by_id(card_id)?.duplicate();
        self.state.move_card(from, to, card_id)?;
        let e = self.log_move(action, &card, from, to, None);
        self.record(duplicate_entry(&e));
        Ok(e)
    }

    /// Moves a card between two zones, then looks it up and records the
    /// move.
    fn logged_move_then_lookup(&mut self, action: &str, from: Zone, to: Zone, card_id: &str) -> (r: Result<MoveLogEntry, EngineError>)
        requires
            old(self).state.wf(),
        ensures
            final(self).state.wf(),
            move_then_log(*old(self), *final(self), r, action@, from, to, card_id@),
    {
        self.state.move_card(from, to, card_id)?;
        let card = self.state.card_by_id(card_id)?.duplicate();
        let e = self.log_move(action, &card, from, to, None);
        self.record(duplicate_entry(&e));
        Ok(e)
    }

    /// Undoes the last move that has not been undone: the card goes back
    /// from the move's destination to its source, and the undo is added to
    /// the audit log. The undone move leaves the history of moves.
    pub fn undo_last_move(&mut self) -> (r: Result<MoveLogEntry, EngineError>)
        requires
            old(self).state.wf(),
        ensures
            final(self).state.wf(),
            undo_outcome(*old(self), *final(self), r),
    {
        if self.move_history.len() == 0 {
            return Err(validation(owned("There are no moves to undo")));
        }
        let previous = match self.move_history.pop() {
            Some(p) => p,
            None => {
                return Err(validation(owned("There are no moves to undo")));
            },
        };
        let from = match Zone::from_pile_id(to_pile_id(previous.to_zone.as_str()).as_str()) {
            Some(z) => z,
            None => {
                return Err(validation(owned("Invalid destination in move history")));
            },
        };
        let to = match Zone::from_pile_id(to_pile_id(previous.from_zone.as_str()).as_str()) {
            Some(z) => z,
            None => {
                return Err(validation(owned("Invalid source in move history")));
            },
        };
        let card = self.state.card_by_id(previous.card_id.as_str())?.duplicate();
        self.state.move_card(from, to, previous.card_id.as_str())?;
        let mut note = concat3("reverts ", previous.action.as_str(), " at ");
        note.append(previous.timestamp.as_str());
        let e = self.log_move("undo", &card, from, to, Some(note.as_str()));
        self.audit_log.push(duplicate_entry(&e));
        Ok(e)
    }

    /// The audit log as CSV text: the header line, then one record per
    /// entry, in order; it is always written.
    pub fn move_history_csv(&self) -> (r: Result<String, EngineError>)
        ensures
            match log_csv(self.audit_log@) {
                Some(t) => r matches Ok(s) && s@ == t,
                None => fails_with(r, "Could not write the move log as CSV"@),
            },
            r matches Ok(s) && header_line().len() <= s@.len() && s@.take(header_line().len() as int) == header_line(),
    {
        MoveLogger::entries_to_csv(self.audit_log.as_slice())
    }

    /// Draws the top card of the main stack into the hand, or, when the
    /// main stack is empty, the top card of the deck.
    pub fn draw(&mut self) -> (r: Result<MoveLogEntry, EngineError>)
        requires
            old(self).state.wf(),
        ensures
            final(self).state.wf(),
            draw_outcome(*old(self), *final(self), r),
    {
        let ghost z = self.state.zone_ids();
        let (from_zone, card_id, note) = match self.state.draw_top_from_main_stack() {
            Some(id) => (Zone::MainStack, id, None),
            None => match self.state.draw_top_from_deck() {
                Some(id) => (Zone::Deck, id, Some("MainStack empty, drew from Deck")),
                None => {
                    return Err(validation(owned("Cannot draw: both MainStack and Deck are empty")));
                },
            },
        };
        let ghost mid = self.state.zones@;
        let mut hand = self.state.zones.remove(2);
        hand.push(card_id.clone());
        self.state.zones.insert(2, hand);
        assert(self.state.zones@ =~= mid.update(2, self.state.zones@[2]));
        assert(crate::zones::zones_view(mid) =~= z.update(zone_index(from_zone), z[zone_index(from_zone)].drop_last())) by {
            assert(crate::zones::ids_view(mid[zone_index(from_zone)]@) =~= z[zone_index(from_zone)].drop_last());
        }
        assert(crate::zones::ids_view(self.state.zones@[2]@) =~= z[2].push(card_id@));
        assert(self.state.zone_ids() =~= drawn(z, zone_index(from_zone)));
        let card = self.state.card_by_id(card_id.as_str())?.duplicate();
        let e = self.log_move("draw", &card, from_zone, Zone::Hand, note);
        self.record(duplicate_entry(&e));
        Ok(e)
    }

    /// Plays a card of the hand onto the lands.
    pub fn play_land(&mut self, card_id: &str) -> (r: Result<MoveLogEntry, EngineError>)
        requires
            old(self).state.wf(),
        ensures
            final(self).state.wf(),
            checked_move(*old(self), *final(self), r, "play_land"@, Zone::Hand, Zone::Lands, card_id@),
    {
        self.checked_logged_move("play_land", Zone::Hand, Zone::Lands, card_id)
    }

    /// Discards a card of a zone.
    pub fn discard(&mut self, from: Zone, card_id: &str) -> (r: Result<MoveLogEntry, EngineError>)
        requires
            old(self).state.wf(),
        ensures
            final(self).state.wf(),
            move_then_log(*old(self), *final(self), r, "discard"@, from, Zone::Discard, card_id@),
    {
        self.logged_move_then_lookup("discard", from, Zone::Discard, card_id)
    }

    /// Exiles a card of a zone.
    pub fn exile(&mut self, from: Zone, card_id: &str) -> (r: Result<MoveLogEntry, EngineError>)
        requires
            old(self).state.wf(),
        ensures
            final(self).state.wf(),
            move_then_log(*old(self), *final(self), r, "exile"@, from, Zone::Exile, card_id@),
    {
        self.logged_move_then_lookup("exile", from, Zone::Exile, card_id)
    }

    /// Casts a card of the hand onto the battlefield.
    pub fn cast_to_battlefield(&mut self, card_id: &str) -> (r: Result<MoveLogEntry, EngineError>)
        requires
            old(self).state.wf(),
        ensures
            final(self).state.wf(),
            checked_move(*old(self), *final(self), r, "cast_to_battlefield"@, Zone::Hand, Zone::Battlefield, card_id@),
    {
        self.checked_logged_move("cast_to_battlefield", Zone::Hand, Zone::Battlefield, card_id)
    }

    /// The ids of the top `count` cards of the main stack, top first.
    pub fn peek_main_stack(&self, count: usize) -> (r: Vec<String>)
        requires
            self.state.wf(),
        ensures
            ({
                let ms = self.state.zones@[zone_index(Zone::MainStack)]@;
                r@ == ms.reverse().take(if count < ms.len() { count as int } else { ms.len() as int })
            }),
    {
        self.state.peek_main_stack(count)
    }

    /// Replaces the pools of a zone; see `GameState::set_zone_token_pools`.
    pub fn set_zone_token_pools(&mut self, zone: Zone, pools: Vec<TokenPool>) -> (r: Result<(), EngineError>)
        requires
            old(self).state.wf(),
        ensures
            final(self).state.wf(),
            logs_unchanged(*old(self), *final(self)),
            zone_pools_set(old(self).state, final(self).state, zone, pools@, r),
    {
        self.state.set_zone_token_pools(zone, pools)
    }

    /// Adds a pool to a zone; see `GameState::add_zone_token_pool`.
    pub fn add_zone_token_pool(&mut self, zone: Zone, pool: TokenPool) -> (r: Result<(), EngineError>)
        requires
            old(self).state.wf(),
        ensures
            final(self).state.wf(),
            logs_unchanged(*old(self), *final(self)),
            zone_pool_added(old(self).state, final(self).state, zone, pool, r),
    {
        self.state.add_zone_token_pool(zone, pool)
    }

    /// Adds a pool to a card; see `GameState::add_card_token_pool`.
    pub fn add_card_token_pool(&mut self, card_id: &str, pool: TokenPool) -> (r: Result<(), EngineError>)
        requires
            old(self).state.wf(),
        ensures
            final(self).state.wf(),
            logs_unchanged(*old(self), *final(self)),
            card_pool_added(old(self).state, final(self).state, card_id@, pool, r),
    {
        self.state.add_card_token_pool(card_id, pool)
    }

    /// Adds tokens to a player's pool and to each of its ancestors.
    pub fn add_tokens_to_player_pool(&mut self, player_id: &str, pool_id: &str, amount: u32) -> (r: Result<(), EngineError>)
        requires
            old(self).state.wf(),
        ensures
            final(self).state.wf(),
            logs_unchanged(*old(self), *final(self)),
            player_pool_walked(old(self).state, final(self).state, player_id@, pool_id@, amount, true, r),
    {
        self.state.add_tokens_to_player_pool(player_id, pool_id, amount)
    }

    /// Renames a player; the name is trimmed and must not be blank.
    pub fn set_player_name(&mut self, player_id: &str, name: &str) -> (r: Result<(), EngineError>)
        requires
            old(self).state.wf(),
        ensures
            final(self).state.wf(),
            logs_unchanged(*old(self), *final(self)),
            player_renamed(old(self).state, final(self).state, player_id@, name@, r),
    {
        self.state.set_player_name(player_id, name)
    }

    /// Removes tokens from a player's pool and from each of its ancestors.
    pub fn remove_tokens_from_player_pool(&mut self, player_id: &str, pool_id: &str, amount: u32) -> (r: Result<(), EngineError>)
        requires
            old(self).state.wf(),
        ensures
            final(self).state.wf(),
            logs_unchanged(*old(self), *final(self)),
            player_pool_walked(old(self).state, final(self).state, player_id@, pool_id@, amount, false, r),
    {
        self.state.remove_tokens_from_player_pool(player_id, pool_id, amount)
    }

    /// Turns a pool of a zone on or off.
    pub fn activate_zone_token_pool(&mut self, zone: Zone, pool_id: &str, active: bool) -> (r: Result<(), EngineError>)
        requires
            old(self).state.wf(),
        ensures
            final(self).state.wf(),
            logs_unchanged(*old(self), *final(self)),
            zone_pool_changed(old(self).state, final(self).state, zone, pool_id@, PoolChange::Activate(active), r),
    {
        self.state.activate_zone_token_pool(zone, pool_id, active)
    }

    /// Turns a pool of a card on or off.
    pub fn activate_card_token_pool(&mut self, card_id: &str, pool_id: &str, active: bool) -> (r: Result<(), EngineError>)
        requires
            old(self).state.wf(),
        ensures
            final(self).state.wf(),
            logs_unchanged(*old(self), *final(self)),
            card_pool_changed(old(self).state, final(self).state, card_id@, pool_id@, PoolChange::Activate(active), r),
    {
        self.state.activate_card_token_pool(card_id, pool_id, active)
    }

    /// Adds tokens to a pool of a zone, within its bounds.
    pub fn add_tokens_to_zone_pool(&mut self, zone: Zone, pool_id: &str, amount: u32) -> (r: Result<(), EngineError>)
        requires
            old(self).state.wf(),
        ensures
            final(self).state.wf(),
            logs_unchanged(*old(self), *final(self)),
            zone_pool_changed(old(self).state, final(self).state, zone, pool_id@, PoolChange::Add(amount), r),
    {
        self.state.add_tokens_to_zone_pool(zone, pool_id, amount)
    }

    /// Adds tokens to a pool of a card, within its bounds.
    pub fn add_tokens_to_card_pool(&mut self, card_id: &str, pool_id: &str, amount: u32) -> (r: Result<(), EngineError>)
        requires
            old(self).state.wf(),
        ensures
            final(self).state.wf(),
            logs_unchanged(*old(self), *final(self)),
            card_pool_changed(old(self).state, final(self).state, card_id@, pool_id@, PoolChange::Add(amount), r),
    {
        self.state.add_tokens_to_card_pool(card_id, pool_id, amount)
    }

    /// Removes tokens from a pool of a zone, within its bounds.
    pub fn remove_tokens_from_zone_pool(&mut self, zone: Zone, pool_id: &str, amount: u32) -> (r: Result<(), EngineError>)
        requires
            old(self).state.wf(),
        ensures
            final(self).state.wf(),
            logs_unchanged(*old(self), *final(self)),
            zone_pool_changed(old(self).state, final(self).state, zone, pool_id@, PoolChange::Remove(amount), r),
    {
        self.state.remove_tokens_from_zone_pool(zone, pool_id, amount)
    }

    /// Removes tokens from a pool of a card, within its bounds.
    pub fn remove_tokens_from_card_pool(&mut self, card_id: &str, pool_id: &str, amount: u32) -> (r: Result<(), EngineError>)
        requires
            old(self).state.wf(),
        ensures
            final(self).state.wf(),
            logs_unchanged(*old(self), *final(self)),
            card_pool_changed(old(self).state, final(self).state, card_id@, pool_id@, PoolChange::Remove(amount), r),
    {
        self.state.remove_tokens_from_card_pool(card_id, pool_id, amount)
    }
}


/// What a game that `new_game` sets up holds: every card with its default
/// pools, each card id in its starting zone, the default player owning the
/// player-owned pools, the zone-owned pools and then the layouts' pools on
/// their zones, and the card-owned pools on their cards; no moves yet.
pub open spec fn game_set_up(g: CardEngine, cs: Seq<Card>, defs: Seq<TokenPoolDefinition>, ls: Seq<ZoneLayout>, log_path: Option<String>) -> bool {
    &&& g.state.wf()
    &&& exists|d: Seq<Card>| #![trigger collect_cards(d)]
        d.len() == cs.len() && (forall|i: int| 0 <= i < cs.len() ==> defaults_added(cs[i], #[trigger] d[i]))
            && g.state.cards@ == collect_cards(d)
    &&& g.state.zone_ids() == starting_zones(cs)
    &&& g.state.players@.len() == 1
    &&& g.state.players@[0].id@ == DEFAULT_PLAYER_ID@
    &&& g.state.players@[0].name@ == "Player 1"@
    &&& g.state.players@[0].token_pools@ == player_def_pools(defs)
    &&& zone_pools_view(g.state.zone_token_pools@) == layouts_applied(zone_defs_applied(no_zone_pools(), defs), ls)
    &&& forall|id: Seq<char>| #[trigger] card_pools_of(g.state.card_token_pools@, id) == card_defs_applied(
        starting_card_pools(g.state.cards@, id),
        defs,
        id,
    )
    &&& g.move_history@.len() == 0
    &&& g.audit_log@.len() == 0
    &&& match log_path {
        Some(p) => g.logger.path == p,
        None => g.logger.path@ == crate::move_logger::DEFAULT_MOVES_LOG_PATH@,
    }
}

/// Sets up a game: gives every card its default pools, places each card in
/// its starting zone, gives the default player the player-owned pools,
/// assigns the card-owned and zone-owned pools of the definitions in order,
/// and sets the pools of each zone that a layout gives pools. Fails, with
/// nothing set up, where there are no cards or a pool cannot be assigned.
#[verifier::loop_isolation(false)]
pub fn new_game(cards: Vec<Card>, defs: Vec<TokenPoolDefinition>, layouts: &Vec<ZoneLayout>, log_path: Option<String>) -> (r: Result<CardEngine, EngineError>)
    ensures
        match setup_problem(cards@, defs@, layouts@) {
            Some(m) => fails_with(r, m),
            None => r matches Ok(g) && game_set_up(g, cards@, defs@, layouts@, log_path),
        },
{
    if cards.len() == 0 {
        return Err(validation(owned("No cards found in embedded CSV")));
    }
    let ghost input = cards@;
    let placement = starting_placement(&cards);
    let mut cards = cards;
    add_default_token_pools(&mut cards);
    let ghost defaulted = cards@;
    let mut state = GameState::new(cards);
    let ghost stored = state.cards@;
    proof {
        crate::setup::lemma_collect_cards_ids(defaulted);
        crate::zones::lemma_collect_cards_unique(defaulted);
        crate::setup::lemma_new_card_pools(state.card_token_pools@, state.cards@);
        assert forall|id: Seq<char>| has_card(stored, id) <==> has_card(input, id) by {
            if has_card(input, id) {
                let k = choose|k: int| 0 <= k < input.len() && (#[trigger] input[k]).id@ == id;
                assert(defaulted[k].id@ == id);
            }
            if has_card(defaulted, id) {
                let k = choose|k: int| 0 <= k < defaulted.len() && (#[trigger] defaulted[k]).id@ == id;
                assert(input[k].id@ == id);
            }
        }
    }
    let player = match Player::with_token_pools(DEFAULT_PLAYER_ID, "Player 1", player_pools_of(&defs)) {
        Ok(p) => p,
        Err(m) => {
            return Err(validation(m));
        },
    };
    state.players.set(0, player);
    let ghost start = state;
    let ghost ds = defs@;
    assert(ds.take(0) =~= Seq::<TokenPoolDefinition>::empty());
    let mut i: usize = 0;
    while i < defs.len()
        invariant
            ds == defs@,
            i <= ds.len(),
            input.len() > 0,
            state.wf(),
            crate::player::player_pools_problem(player_def_pools(ds)) is None,
            defs_problem(input, ds.take(i as int)) is None,
            state.cards == start.cards,
            state.zones == start.zones,
            state.players == start.players,
            stored == start.cards@,
            forall|id: Seq<char>| has_card(stored, id) <==> has_card(input, id),
            zone_pools_view(state.zone_token_pools@) == zone_defs_applied(zone_pools_view(start.zone_token_pools@), ds.take(i as int)),
            forall|id: Seq<char>| #[trigger] card_pools_of(state.card_token_pools@, id) == card_defs_applied(
                card_pools_of(start.card_token_pools@, id),
                ds.take(i as int),
                id,
            ),
        decreases ds.len() - i,
    {
        let ghost before = state;
        assert(ds.take(i + 1).drop_last() =~= ds.take(i as int));
        assert(ds.take(i + 1).last() == ds[i as int]);
        let d = &defs[i];
        match d.owner {
            TokenPoolOwner::Card | TokenPoolOwner::Creature => {
                let o = match &d.owner_id {
                    Some(o) => o,
                    None => {
                        proof {
                            assert(def_problem(input, ds[i as int]) is Some);
                            assert(defs_problem(input, ds.take(i + 1)) == def_problem(input, ds[i as int]));
                            lemma_defs_problem_prefix(input, ds, i + 1);
                        }
                        return Err(validation(concat3("Pool '", d.pool.id.as_str(), "' requires owner_id")));
                    },
                };
                assert(has_card(before.cards@, o@) <==> has_card(input, o@));
                match state.add_card_token_pool(o.as_str(), d.pool.duplicate()) {
                    Ok(()) => {},
                    Err(e) => {
                        proof {
                            assert(def_problem(input, ds[i as int]) is Some);
                            assert(defs_problem(input, ds.take(i + 1)) == def_problem(input, ds[i as int]));
                            lemma_defs_problem_prefix(input, ds, i + 1);
                        }
                        return Err(e);
                    },
                }
                assert forall|id: Seq<char>| #[trigger] card_pools_of(state.card_token_pools@, id) == card_defs_applied(
                    card_pools_of(start.card_token_pools@, id),
                    ds.take(i + 1),
                    id,
                ) by {
                    assert(card_pools_of(before.card_token_pools@, id) == card_defs_applied(
                        card_pools_of(start.card_token_pools@, id),
                        ds.take(i as int),
                        id,
                    ));
                    if id != o@ {
                        if has_card_pools(before.card_token_pools@, id) {
                        }
                    }
                }
                assert(zone_pools_view(state.zone_token_pools@) == zone_pools_view(before.zone_token_pools@));
            },
            TokenPoolOwner::Zone | TokenPoolOwner::Battlefield => {
                let z = match &d.owner_id {
                    Some(o) => match Zone::from_pile_id(o.as_str()) {
                        Some(z) => z,
                        None => {
                            proof { lemma_defs_problem_prefix(input, ds, i + 1); }
                            return Err(validation(concat3("Unknown pile '", o.as_str(), "'")));
                        },
                    },
                    None => Zone::Battlefield,
                };
                match state.add_zone_token_pool(z, d.pool.duplicate()) {
                    Ok(()) => {},
                    Err(e) => {
                        proof { lemma_defs_problem_prefix(input, ds, i + 1); }
                        return Err(e);
                    },
                }
                let ghost k = zone_index(z);
                assert(zone_pools_view(state.zone_token_pools@) =~= zone_pools_view(before.zone_token_pools@).update(
                    k,
                    crate::zones::upsert_pool(zone_pools_view(before.zone_token_pools@)[k], d.pool),
                ));
                assert forall|id: Seq<char>| #[trigger] card_pools_of(state.card_token_pools@, id) == card_defs_applied(
                    card_pools_of(start.card_token_pools@, id),
                    ds.take(i + 1),
                    id,
                ) by {
                    assert(card_pools_of(before.card_token_pools@, id) == card_defs_applied(
                        card_pools_of(start.card_token_pools@, id),
                        ds.take(i as int),
                        id,
                    ));
                }
            },
            TokenPoolOwner::Player => {
                assert forall|id: Seq<char>| #[trigger] card_pools_of(state.card_token_pools@, id) == card_defs_applied(
                    card_pools_of(start.card_token_pools@, id),
                    ds.take(i + 1),
                    id,
                ) by {
                    assert(card_pools_of(before.card_token_pools@, id) == card_defs_applied(
                        card_pools_of(start.card_token_pools@, id),
                        ds.take(i as int),
                        id,
                    ));
                }
            },
        }
        i += 1;
    }
    assert(ds.take(ds.len() as int) =~= ds);
    let ghost after_defs = state;
    let ghost ls = layouts@;
    assert(ls.take(0) =~= Seq::<ZoneLayout>::empty());
    let mut j: usize = 0;
    while j < layouts.len()
        invariant
            ls == layouts@,
            j <= ls.len(),
            input.len() > 0,
            state.wf(),
            crate::player::player_pools_problem(player_def_pools(ds)) is None,
            defs_problem(input, ds) is None,
            layouts_problem(ls.take(j as int)) is None,
            state.cards == after_defs.cards,
            state.zones == after_defs.zones,
            state.players == after_defs.players,
            state.card_token_pools == after_defs.card_token_pools,
            zone_pools_view(state.zone_token_pools@) == layouts_applied(zone_pools_view(after_defs.zone_token_pools@), ls.take(j as int)),
        decreases ls.len() - j,
    {
        let ghost before = state;
        assert(ls.take(j + 1).drop_last() =~= ls.take(j as int));
        assert(ls.take(j + 1).last() == ls[j as int]);
        let l = &layouts[j];
        if l.token_pools.len() > 0 {
            if let Some(z) = Zone::from_pile_id(l.id.as_str()) {
                match state.set_zone_token_pools(z, duplicate_pools(&l.token_pools)) {
                    Ok(()) => {},
                    Err(e) => {
                        proof {
                            assert(layout_zone(ls[j as int]) == Some(z));
                            assert(layouts_problem(ls.take(j + 1)) == crate::zones::owner_pools_problem(ls[j as int].token_pools@));
                            lemma_layouts_problem_prefix(ls, j + 1);
                        }
                        return Err(e);
                    },
                }
                assert(zone_pools_view(state.zone_token_pools@) =~= zone_pools_view(before.zone_token_pools@).update(
                    zone_index(z),
                    l.token_pools@,
                ));
            }
        }
        j += 1;
    }
    assert(ls.take(ls.len() as int) =~= ls);
    state.zones = placement;
    let g = CardEngine {
        state,
        logger: MoveLogger::new(log_path),
        move_history: Vec::new(),
        audit_log: Vec::new(),
    };
    assert(zone_pools_view(start.zone_token_pools@) =~= no_zone_pools()) by {
        assert forall|k: int| 0 <= k < ZONE_COUNT implies zone_pools_view(start.zone_token_pools@)[k] =~= no_zone_pools()[k] by {
            assert(start.zone_token_pools@[k]@.len() == 0);
        }
    }
    assert(forall|id: Seq<char>| #[trigger] card_pools_of(start.card_token_pools@, id) == starting_card_pools(stored, id));
    assert(g.state.cards@ == collect_cards(defaulted));
    Ok(g)
}


/// What taking back the last logged move does, where its entry could not be
/// written to the log file: the entry leaves the audit log; a drawn card
/// stays drawn and the draw leaves the history; any other move is reversed
/// where the card can move back, and leaves the history, except an undo,
/// which gives the undone move (`undone`) back to the history.
pub open spec fn unlogged_reverted(a: CardEngine, b: CardEngine, undone: Option<MoveLogEntry>, r: Result<(), EngineError>) -> bool {
    if a.audit_log@.len() == 0 {
        fails_with(r, "There is no logged move to revert"@) && b == a
    } else {
        let e = a.audit_log@.last();
        match (zone_of_pile(pile_id_of(e.from_zone@)), zone_of_pile(pile_id_of(e.to_zone@))) {
            (Some(from), Some(to)) => {
                &&& r is Ok
                &&& b.audit_log@ == a.audit_log@.drop_last()
                &&& b.logger == a.logger
                &&& if e.action@ == "draw"@ {
                    b.state == a.state && b.move_history@ == if a.move_history@.len() > 0 {
                        a.move_history@.drop_last()
                    } else {
                        a.move_history@
                    }
                } else {
                    &&& (if move_problem(a.state.zone_ids(), to, from, e.card_id@) is None {
                        state_moved(a.state, b.state, to, from, e.card_id@)
                    } else {
                        b.state == a.state
                    })
                    &&& b.move_history@ == if e.action@ == "undo"@ {
                        match undone {
                            Some(p) => a.move_history@.push(p),
                            None => a.move_history@,
                        }
                    } else if a.move_history@.len() > 0 {
                        a.move_history@.drop_last()
                    } else {
                        a.move_history@
                    }
                }
            },
            _ => fails_with(r, "Invalid move in the audit log"@) && b == a,
        }
    }
}

impl CardEngine {
    /// Takes back the last logged move when writing its entry to the log
    /// file failed, so that the game holds only logged moves: the entry
    /// leaves the audit log, the card goes back where the move can be
    /// reversed (a drawn card stays drawn), and the history of moves is as
    /// before the move; for an undo, `undone` is the move it undid, which
    /// returns to the history.
    pub fn revert_unlogged_move(&mut self, undone: Option<MoveLogEntry>) -> (r: Result<(), EngineError>)
        requires
            old(self).state.wf(),
        ensures
            final(self).state.wf(),
            unlogged_reverted(*old(self), *final(self), undone, r),
    {
        let n = self.audit_log.len();
        if n == 0 {
            return Err(validation(owned("There is no logged move to revert")));
        }
        let from = match Zone::from_pile_id(to_pile_id(self.audit_log[n - 1].from_zone.as_str()).as_str()) {
            Some(z) => z,
            None => {
                return Err(validation(owned("Invalid move in the audit log")));
            },
        };
        let to = match Zone::from_pile_id(to_pile_id(self.audit_log[n - 1].to_zone.as_str()).as_str()) {
            Some(z) => z,
            None => {
                return Err(validation(owned("Invalid move in the audit log")));
            },
        };
        let e = match self.audit_log.pop() {
            Some(e) => e,
            None => {
                return Err(validation(owned("There is no logged move to revert")));
            },
        };
        if crate::text::str_is(e.action.as_str(), "draw") {
            let _ = self.move_history.pop();
            return Ok(());
        }
        let _ = self.state.move_card(to, from, e.card_id.as_str());
        if crate::text::str_is(e.action.as_str(), "undo") {
            if let Some(p) = undone {
                self.move_history.push(p);
            }
        } else {
            let _ = self.move_history.pop();
        }
        Ok(())
    }
}

} // verus!
