# ssh_key_sync

Verified core of an SSH key synchronisation daemon: the participants of a group
share a secret token, sign every message with HMAC-SHA-256, discover each other
through signed announcements, exchange public keys over signed HTTP messages and
keep the keys of their peers in a managed block of `authorized_keys`.

Layout:

- `src/` — the library, verified with Verus.
  - `text.rs`, `hex.rs`, `payload.rs`: text primitives, hex and the
    `key=value` payload format, with their specifications.
  - `crypto.rs`: the trusted boundary to `sha2`, `hmac` and std's case mapping.
  - `auth.rs`: signed envelopes and the replay-checking verifier.
  - `ssh_keys.rs`: parsing and normalising public key lines.
  - `authorized_keys.rs`: rewriting the managed block.
  - `daemon.rs`: the daemon's sync scheduling state machine.
  - `discovery.rs`: bootstrap peers and announcements.
  - `transport.rs`: the HTTP key exchange messages.
- `tests/`: executable tests of the library.
- `app/`: the command line front end and the file-system operations.
