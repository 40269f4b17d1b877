# ct-firehose-filter

Edge filter for a stream of certificate transparency entries. It reads the frames of a
CertStream server, holds the names of each leaf certificate against a watchlist of registrable
domains, archives and batches the matches, and raises an alert the first time a coalition of
brands appears on one certificate.

The decisions are a library whose functions are proved, with Verus, to do what their contracts
say. The program around it reads and writes sockets, files and the database.

## Layout

| path | what it holds |
|---|---|
| `src/parse.rs`, `src/json.rs` | frames: which give names, which are ignored, which are errors |
| `src/watchlist.rs` | the watchlist: suffix matching at label boundaries, suppression, hot swap |
| `src/filter.rs`, `src/keywords.rs` | keywords as whole DNS labels, and where they come from |
| `src/event.rs` | match events, and the time in them |
| `src/novelty.rs` | novelty memory: coalitions, hosts, degrees, captured facts, pending changes |
| `src/novelty_alert.rs` | what becomes of a match: hubs, coalitions, alerts |
| `src/novelty_sink.rs` | the sink: burn-in and counters around it |
| `src/novelty_laws.rs` | what holds of novelty processing over any history |
| `src/batch.rs`, `src/egress.rs` | batching with retry, and sinks |
| `src/pipeline.rs`, `src/ingress.rs` | frames to matches, backpressure, reconnecting |
| `src/archive.rs`, `src/alerts_file.rs`, `src/chunks.rs` | append-only files, sealing, pruning, snapshots |
| `src/config.rs`, `src/status.rs`, `src/metrics.rs`, `src/consumer.rs` | settings, status page, counters, queue consumer |
| `src/text.rs`, `src/names.rs`, `src/numbers.rs`, `src/span.rs`, `src/dates.rs`, `src/error.rs` | foundations |
| `tests/` | tests of the compiled library |
| `app/` | the program |

## Models

- Text is the sequence of its characters; lists are sequences, sets of names are sets.
- A timestamp in an event is the bit pattern of its double; the library computes with its whole
  seconds.
- A span of time is its nanoseconds.
- Novelty memory is its tables. A store keeps in memory what its rules read, and lists the row
  changes that storage has not seen; replaying them over what storage holds gives the tables.
- Components that wait (the batcher, the stream client, the loop over frames) are state
  machines: each step takes what happened and says what to do next.

## What is taken on trust

Contracts on code outside the library are stated beside the few functions that call it: the
Public Suffix List (`addr`), the multi-pattern searcher (`aho-corasick`), JSON (`serde_json`,
`serde_json_borrow`), SHA-256 (`sha2`), the calendar (`chrono`), the swappable cell
(`arc-swap`), the bounded channel (`tokio`), and a handful of functions of the standard
library. Each has a comment that says what is claimed of it.
