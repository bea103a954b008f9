# soulbeet

The verified core of a self-hosted music manager: it finds finished Soulseek
downloads on disk, keeps a Navidrome library in line with its listeners'
ratings, seals stored service credentials, and recommends new music from
scrobble histories.

- `src/` is the library, written in Verus and proved by it. Its functions
  state their results in contracts (trait methods take theirs from the
  trait): download path probing and file-name
  matching, the ratings-sync decisions and library statistics, the HTTP retry
  and rate-limit policy, secret encryption, where a decrypted secret is the one
  that was encrypted, the listener-profile rankings and fingerprints, the
  float-free steps of the recommendation engine, and the settings-page rules.
  The public proof functions state the laws that hold across calls.
- `tests/` runs the library on concrete values.
- `app/` is the ordinary Rust around it: file-system and network access, the
  database rows, the sync and recommendation loops, and the floating-point
  scoring.
