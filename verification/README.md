# pickpoint

A client SDK for the Pickpoint geolocation platform: geocoding, address search, routing and
devices over HTTP, and live GPS tracking over a binary WebSocket protocol (`tracking.v2`). It is
written in Rust and verified with Verus.

- `src/` is the library. It decides everything and does no I/O: it builds requests and reads
  replies, runs retries, token renewal and batches as state machines, encodes and decodes frames,
  filters and queues GPS samples, and drives a tracking session from one step to the next. Every
  function carries a contract that Verus proves; functions named `law_*` state what holds across
  several of them.
- `app/` carries out what the library decides, over reqwest, tokio and tungstenite. Floating-point
  geometry lives here too: the library takes positions in microdegrees and findings such as "the
  sample has moved" as plain values.
- `tests/` runs the library on concrete values.

## Library modules

| Module | What it holds |
|--------|---------------|
| `config`, `auth`, `mint` | settings, credentials, renewal and minting of token pairs |
| `transport`, `batch` | one request with its retries; many requests with a cap |
| `query`, `geocoding`, `address`, `routing`, `devices`, `client` | the requests of each service and the reading of their replies |
| `error` | errors of the HTTP side |
| `tracking::wire`, `points`, `codec`, `uuids` | the frames of `tracking.v2` |
| `tracking::filter`, `queue`, `rate`, `backoff` | what goes out, when, and what is kept for later |
| `tracking::session`, `client`, `url`, `subs` | the session as a state machine |
| `tracking::codec_laws`, `codec_cuts`, `client_laws` | what holds of frames and sessions as a whole |
| `encoding`, `json`, `clock`, `random`, `text` | the edges to other crates and to std |

## Units

Durations and points on the monotonic clock are nanoseconds (`u128`); wall-clock times are
milliseconds since the Unix epoch. Positions are microdegrees, altitudes millimetres, accuracies
centimetres. Where a value is only carried through, a floating-point number is held as its
IEEE-754 bit pattern.
