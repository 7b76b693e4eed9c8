# cbor_web

A verified library for CBOR-Web, a format in which a site publishes its
content as deterministic CBOR (RFC 8949 §4.2.1) under `/.well-known/cbor-web`:
a manifest, one document per page, an optional bundle, access tiers, and a
feedback channel (Doléance).

- `src/` is the library, written in Verus. Each function states in its
  contract what it returns, and the proofs are checked by Verus. It covers the
  CBOR value model and deterministic map order, reading manifests and pages,
  the crawler's decisions (`collect`), the page generator (HTML to CBOR-Web),
  the server's rate limit and feedback log, the token ledger, the conversion
  service's accounts and pages, and usage counters. `src/laws.rs` holds the
  properties that span several calls.
- Calls into outside crates (ciborium, sha2, sha3, hex, scraper, chrono,
  uuid) stand behind small trusted wrappers whose doc comments say what is
  assumed of them.
- `app/` is the command-line program around the library: HTTP, files, the
  web servers and argument parsing. It holds no decisions of its own.
- `tests/` runs the library on concrete values.
