# paracord

The request logic of the Paracord chat server (and a few helpers of its
desktop client), written as a Verus library: every function in `src/` is
verified against its `requires`/`ensures` contract.

## Layout

- `src/text.rs`, `src/json.rs`, `src/headers.rs` — text, JSON and request
  header models with the operations the handlers use.
- `src/error.rs` — the API error type and the status and message of each
  error.
- `src/http_layer.rs` — rate limiting, request metrics and their
  exposition, security headers, CORS origins.
- `src/routes/` — one module per group of endpoints: authentication and
  login challenges, federation (room ids, transport headers, file tokens,
  outbound content, catch-up planning, delivery of inbound messages), voice,
  LiveKit webhooks, access tokens and proxying, guilds,
  channels, commands, bots, files, realtime events.
- `src/trusted.rs` — the calls into outside crates (`sha2`, `rand`,
  `chrono`, `url`, `dashmap`, `ed25519-dalek`, `jsonwebtoken`) and into
  `std` where vstd
  gives no specification; each contract there is assumed, not proved.
- `tests/` — tests run against the compiled library.
- `app/` — process glue that Verus does not check: environment settings,
  serde forms of bodies, `serde_json` conversion, metrics text
  with its float, and the client's PCM helpers.

The handlers themselves are not here: their database, event-bus and
LiveKit calls go through crates of the original workspace that this
project does not have, so the library holds the decisions those handlers
make (which request is refused, what is stored, what is announced) as
functions of the values the handlers read, and `app/` holds no handler
either.
