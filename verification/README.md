# pogoot

The logic of a small learning platform: a multiplayer quiz game played over
websockets, note-card sets and their permissions, user accounts and session
tokens, and a spaced-repetition drill. The functions in `src/` carry
contracts that Verus proves, except the small trusted wrappers (marked
`#[verifier::external_body]`) that call the outside crates (argon2, uuid,
nanoid, rand, zstd, chrono, serde_json) and a few std functions; their doc
comments say what their contracts assume.

## Layout

- `src/quiz.rs`: the quiz server's wire types and decisions (socket state
  machine, lobby joins and reconnections, rounds, scoring).
- `src/game.rs`, `src/protocol.rs`, `src/util.rs`: the game of the second
  server: its protocol, game session and leaderboard.
- `src/login.rs`, `src/token_storage.rs`, `src/sessions.rs`, `src/accounts.rs`,
  `src/storage.rs`: logins, session tokens, the login system and the user map.
- `src/records.rs`, `src/notecards.rs`, `src/payload.rs`: database records,
  passwords, permissions, note-card requests and replies.
- `src/drill.rs`, `src/split.rs`: the drill's deck format, scheduler and
  multiple-choice questions.
- `src/compression.rs`, `src/dashboard.rs`, `src/viewport.rs`, `src/ids.rs`,
  `src/text.rs`, `src/counting.rs`: smaller pieces and shared helpers.
- `app/`: the quiz server (axum websockets), the game server of commanders
  and players, and the terminal drill.
- `tests/`: tests of the library.
