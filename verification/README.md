# qliveplayer_lib

The back end of a live-stream player: it finds the stream behind a room address
(Bilibili, CC, Twitch, YouTube), builds the packets of the CC danmaku protocol,
relays an HLS stream segment by segment, and renders received danmaku for the player.

- `src/` is the library, written in Verus: every function is proved, against a contract
  wherever there is something to state (constructors of field-less types, and the player
  state whose flags and queue live in std atomics and a mutex, carry none). Calls into
  `url`, `regex`, `fancy-regex`, `serde_json` and a few parts of `std` sit behind small trusted wrappers whose contracts name what those calls return.
  - `text.rs`: string helpers (search, split, trim, integer parsing) and the URL and
    regular-expression calls.
  - `json.rs`: strings and JSON texts read out of JSON replies.
  - `danmaku/cc.rs`: the CC packet format (frame header, strings, numbers, sorted
    dictionaries) and the registration, heartbeat and join packets.
  - `streamer/hls.rs`: playlist decoding and the pacing of segment downloads.
  - `streamfinder/`: per-site requests and replies; YouTube's search is a state machine.
  - `implementation.rs` and `lib.rs`: danmaku rendering, site dispatch and replies.
- `app/` is ordinary Rust around it: the HTTP requests, the `streamlink` run, the Unix
  socket of the HLS relay, the tokio runtime and the waiting.
- `tests/` runs the library on concrete inputs.
