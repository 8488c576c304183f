# vaultsync

An end-to-end encrypted vault with multi-device sync, verified with Verus.

Files are kept in per-file containers (content-defined chunks sealed with
AES-256-GCM under deterministic `prefix ‖ counter` nonces), listed in an
encrypted index with an HMAC-token search index, and synced between paired
devices over a Noise channel with application-level sequence numbers.

## Layout

- `src/` — the verified library.
  - `crypto/` AES-GCM, Argon2id, HKDF, SHA-256/HMAC, hex, randomness.
  - `vault/` container format and chunk sealing, the index (folders, files,
    tags, search, shares, tombstones), key hierarchy, tokenizer, listing order.
  - `vaultcore/` vault header (keystore), unlock / biometric / password change,
    brute-force cooldowns, platform secure store, host status codes.
  - `p2p/` device identity, the secure channel (Noise handshake, framing,
    replay protection), signalling messages, sync planning and its decisions,
    the responder connection's state machine (`conn`), receiving a pushed
    file incrementally with resume and conflict copies (`receive`), peer
    table, base64.
  - `relay.rs` room pairing of the relay server; `vclock.rs` vector clocks;
    `idmap.rs`, `strmap.rs` the maps the index and tables are built on.
- `app/` — the host around the library: the relay server (`main.rs`), vault
  files on disk, the channel over TCP, the sync engine's connections and
  threads, JSON forms of the records, and the C ABI for the desktop UI.
- `tests/` — tests of the library.

Laws of the library are public proof functions (for example
`crypto::hex::hex_roundtrip`, `vault::container::head_roundtrip`,
`vaultcore::service::password_change_keeps_master_key`,
`p2p::sync::plan_respects_causality`, `p2p::base64::base64_roundtrip_law`,
`vaultcore::session::cooldown_after_repeated_failures`,
`p2p::conn::only_admitted_peers_are_served`).
