# mls_sim

The logic of a local simulator for MLS cloud scripts (Warcraft III map scripts that run
on a platform server), written in Verus. Every function in `src/` carries a contract; Verus proves each one,
except the contracts of the thin wrappers around std, `md5` and `serde_json` calls
(marked `external_body`), which it takes as given.

- `src/config.rs`: the configuration file, command-line overrides, and the players and
  room data built from the configured players.
- `src/player.rs`: a player's record and its defaults per slot.
- `src/simulation.rs`: room data and rankings (ordering, derived rankings, queries).
- `src/script_api.rs`, `src/items.rs`, `src/events.rs`: what the script API answers and
  changes: player figures, archives, item consumption, event handlers.
- `src/require.rs`: how `require` finds a module and what it keeps of loaded modules.
- `src/command.rs`, `src/console.rs`: the console's command line, hints and replies, and
  its log filters.
- `src/json_text.rs`, `src/lua_text.rs`, `src/text.rs`: text and JSON encoding, Lua string
  decoding, decimal numbers, MD5 digests in hex.
- `app/`: what stays outside verification: argument parsing and file I/O, the Lua
  bindings (`json`, `md5`, `require`, `Log`, the room's `Ms*` functions), serde copies of the library's types, and floating-point formatting.
