# mech_game_ddev

The rules of a two-player arena auto-battler, verified with Verus: players
draft and ban unit kinds, buy packs and techs with per-round gold, fight
rounds whose loser pays life points, and keep two peers' simulations in
lockstep by exchanging per-frame state hashes.

- `src/` — the verified library: unit and pack catalogues, techs and their
  prices, the shop and its per-round build limit, the build board with undo,
  the draft/ban rules, the match's rounds,
  life points and round-end reports, the AI's purchases, hash-history
  bookkeeping for desync detection, the lobby's screen flow and its name and
  room-code fields, the chat box's line editing, the order in which the
  state hash visits units and projectiles, which obstacles block what, timestamps for
  log files, and the nav-grid search for a free cell.
- `tests/` — tests of the library on concrete values.
- `app/` — the game around the library (not verified): window and input,
  drawing, the float simulation of battles, pathfinding, networking and
  logging.
