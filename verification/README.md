# Antarian Chess

A chess variant played with Emperors, Empresses, Priests, Paladins, Dragons
and Knights. This crate is its verified core: Verus proves the functions
under `src/` against their contracts. The few functions that only call
another crate (the transposition table's `DashMap` calls, the random id,
trimming and upper-casing text, and parsing, ordering and printing versions
with `semver`) are trusted instead: their contracts say only what those
crates guarantee, which for creating, filling and clearing the shared table
is nothing.

- `types`, `zobrist`, `board`, `rays`, `movegen`, `pieces`: the board, move
  generation for every piece kind, check, legality and game results, with
  an incrementally kept Zobrist hash.
- `move_facts`, `laws`, `attack_laws`: facts and laws of the rules (legal
  moves keep the Emperor safe, legal captures are the captures among the
  legal moves, check means an opponent move could take the Emperor, no two
  generated moves of a piece share a target, ...).
- `evaluation`, `mirror_laws`: the middle-game and end-game evaluation
  terms, and how swapping the colours and mirroring the board changes them.
- `stop_flag`, `tt`, `move_sort`, `search`, `search_log`: the shared stop
  flag and transposition table as one thread sees them, move ordering, and
  the alpha-beta search run by each thread of a Lazy SMP search, whose
  nodes record the child searches they make so that their contracts can say
  which searches a node makes and how its score follows from them.
- `protocol`, `server`, `server_laws`: the client/server messages and the
  match server's state (players, matchmaking, games, rematches, chat).
- `session`, `session_laws`, `client`: a game as the player's client sees it
  and how it reacts to the server.
- `release`, `update_check`, `launch`: names of release assets, deciding
  whether a published release is an update (with `semver` behind trusted
  wrappers), and the installer's argument.

`app/` holds the WebSocket match server, the JSON forms of the messages, the
threaded bot driver and the floating-point parts of evaluation and clocks.
