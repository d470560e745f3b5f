# adventure

A small text adventure engine: a world of rooms, exits, items, features, characters to
talk to, facts and quests; a parser for what the player types; a renderer for what the
player is told; and the reading, checking and building of worlds written down in TOML.

- `src/` is the library, verified with Verus. `game/` holds the world model, the rules of
  play (`rules.rs` states them as specifications, `game.rs` carries them out) and the laws
  proved of them (`laws.rs`). `terminal/` reads typed lines and renders events.
  `world_data/` checks world definitions and turns them into worlds; its `laws.rs` proves
  that a definition that passes the checks converts, places each item once (in the room that
  lists it, or nowhere), has well-formed quests, and has quest chains that end. `text.rs`
  and `order.rs` hold the text utilities and the sorting the rest relies on; `order.rs`
  also proves that sorting puts the same texts in the same order whatever order they come
  in.
- `app/` is the program around it: it reads `worlds/origin/world.toml`, parses it with
  `toml` and `serde`, and runs the terminal loop.
- `tests/` exercises the library from outside.
