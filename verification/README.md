# clicker

The game logic of a peer-to-peer clicker game, verified with Verus.

- `src/` is the library. Each file under `src/systems/` holds one per-frame
  decision of the game as a function from plain values (the frame's
  transport events, the cursors as `Slot`s, the join gate, the kept
  scores) to plain values (events passed on, commands for the transport,
  roster edits, actions on cursors), with a contract over spec functions.
  `src/laws.rs` states and proves the properties that span calls.
- `tests/` exercises the library on concrete values.
- `app/` is the Bevy side: it gathers the world into the library's values,
  carries out the library's decisions, encodes messages for the transport,
  and draws.
