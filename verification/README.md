# jet1090 (verified core)

A Verus library holding the decision logic of a Mode S / ADS-B decoding
toolkit, each function with a contract that Verus proves.

- `src/beast.rs` — Beast frames: MLAT timestamp and Mode S payload extraction.
- `src/bds/` — Comm-B registers: dispatch by BDS code with Type Code checks,
  inference over all supported codes, and the bit-level decoder of the
  aircraft and airline registration markings (BDS 2,1). Only BDS 2,1 is
  decoded field by field: every other supported register is returned as
  the bytes its field decoder would receive, so no field decoding error
  can come back for it.
- `src/decode.rs`, `src/filters.rs` — the decoded message as the filters see
  it, and filters on Downlink Format and aircraft address.
- `src/metrics.rs` — pipeline counters and their snapshot.
- `src/web.rs` — comma-separated query lists for the live stream, the
  live-stream delivery policy, per-sensor statistics and airport search.
- `src/error.rs` — error codes and JSON error responses.
- `src/text.rs` — decimal formatting, trimming, integer parsing, list splitting.

`app/` holds what the library leaves out: floating-point timestamps, the
system clock, serde representations, and the axum web server.
