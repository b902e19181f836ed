# byog

A card and deck engine for MTG-like games, written in Verus: every operation
of the library carries a contract, and Verus proves the code against it.

## Layout

- `src/` — the verified library.
  - `cards` — card types and cards of a game read from CSV text: the CSV
    scanner, identifier normalization, costs, and card appearances.
  - `card`, `card_csv` — the card a running game holds with the pools every
    card gets by default (counters, tapped, and flipped for a card with a back
    image), and reading such cards from CSV text.
  - `token_pools`, `player` — bounded token pools (inline syntax, CSV type and
    pool files), and players owning pools.
  - `zones` — the zones of the table and the game state: moving, drawing,
    searching and shuffling cards, and changing the pools of players, zones and
    cards (a change to a pool with a parent reaches every ancestor, all or
    nothing).
  - `engine`, `move_logger` — the card engine, its history of moves, undo,
    taking back a move whose log entry could not be written, setting up a
    game (`new_game`), and the CSV form of the move log.
  - `setup` — where each card of a new game starts, which owners the pools of
    the token-pool and zone-layout files go to, and creating a card in a pile.
  - `snapshot` — restoring a saved game, checked against the game's own cards,
    zones, players and pools, all or nothing.
  - `zone_layout`, `pile` — the board layout and piles read from CSV text.
  - `dice` — dice rolls and Font Awesome icon validation.
  - `csv_text`, `text`, `fields` — the CSV reader and writer of the `csv`
    crate behind trusted wrappers, and text helpers.
  - `laws` — properties across operations: pool bounds kept by every change,
    adding and removing as inverses, undo reverting a move, moves and draws
    keeping every card, a restored game holding every card once, the pile-id
    and zone-scope round trips, the commander pile bound, and the keys of ingested
    data.
- `tests/` — tests of the library on concrete values.
- `app/` — the demo program: file and environment access, and appending the
  move log to its file (the library gives the text to append,
  `MoveLogger::append_text`; the engine itself keeps its moves in memory).

There is no browser or WebAssembly front end in this crate.

## Environment variables (demo)

- `CARDS_CSV_PATH` (default `data/cards.csv`)
- `MOVES_LOG_PATH` (default `data/moves_log.csv`)
- `ZONES_CSV_PATH` (default `data/zones.csv`)
- `PILES_CSV_PATH` (default `data/piles.csv`)
