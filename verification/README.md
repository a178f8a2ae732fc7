# keyforge

A deterministic password generator. A site password is derived from a master
password, the site's host name, a username, a length and a symbols switch:

1. the salt `keyforge-argon2-v1|<bytes of site>|site|<bytes of username>|username`;
2. a 64-byte key from Argon2id (version 0x13, 64 MiB, 3 passes, 4 lanes);
3. the password, drawn by rejection sampling from HMAC-SHA256 blocks of the
   key, retried round by round until every character class occurs.

## Layout

- `src/` — the library, verified with Verus:
  - `encode.rs` — HMAC expansion, rejection sampling, class coverage, and the
    laws on encoded passwords;
  - `crypto.rs` — salt layout (and its injectivity) and Argon2id key derivation;
  - `options.rs` — merging arguments with the configuration, option limits,
    `--remember`, and the whole derivation;
  - `config.rs` — configuration, the sorted table of remembered sites, and the
    `keyforge config` summary;
  - `cli.rs` — `gen` arguments and site normalization;
  - `term.rs`, `clipboard.rs` — decisions of the terminal dialogue and of
    clipboard clearing;
  - `sensitive.rs` — `SecretVec`, wiped on drop;
  - `text.rs`, `order.rs` — decimal rendering, trimming, search, text order.
- `app/` — the command-line program: argument parsing, the JSON config file,
  password prompts, the clipboard and memory locking.
- `tests/` — tests of the library.
