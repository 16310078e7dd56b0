# QuickLAN

QuickLAN shares files, chat, watch rooms and gomoku games between devices on a
LAN.  This crate holds its logic, verified with Verus: `src/` states what each
function does in `requires` / `ensures` contracts over mathematical models
(`Seq`, `Map`, `Multiset`, spec functions and views) and proves it.

## Layout

- `src/text.rs`, `src/numbers.rs`, `src/pieces.rs`: trimming, cutting,
  splitting and number parsing on strings, with the specifications the rest
  builds on.
- `src/chat.rs`, `src/settings.rs`: chat rooms and messages, nicknames and
  settings.
- `src/gomoku.rs`, `src/game_types.rs`, `src/game.rs`: gomoku rooms, moves,
  wins, restarts and surrenders, with the host as the authority.
- `src/watch.rs`, `src/watch_state.rs`, `src/watch_loop.rs`: watch rooms,
  joining and leaving, their chat, and the video page's status.
- `src/library.rs`, `src/digest.rs`: the shared library's rules (passwords,
  versions, download sources, listing order) and SHA-256 digests.
- `src/crypto.rs`: X25519 key agreement and AES-GCM envelopes for chat.
- `src/discovery.rs`, `src/protocol.rs`, `src/http.rs`, `src/transfer.rs`:
  device discovery decisions, the wire records, the LAN HTTP API's requests
  and answers, and transfer framing.
- `src/commands.rs`, `src/storage.rs`: update checks, ezmovie stream
  sharing, window requests and download file names.
- `src/laws.rs`: properties that relate several operations, stated and
  proved as proof functions.
- `app/`: the runtime around the library: disk, SQLite, sockets, threads,
  the JSON forms of the records, and playback synchronisation.
- `tests/`: tests run against the compiled library.
