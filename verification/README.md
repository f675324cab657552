# inkstone

The verified core of Inkstone, a local-first, end-to-end encrypted notes
app: the encrypted file format, the key envelopes of a vault manifest,
recovery codes, document metadata and listing order, asset naming, search
query planning and snippets, and the table of unlocked vaults. Everything in
`src/` is proved with Verus against its contract; the cryptographic
primitives, Base64, SHA-256, ULIDs, the clock and lower-casing are called
through small trusted wrappers whose contracts state what those crates do.

- `src/` — the library (`crypto`, `recovery`, `vault`, `docs`, `assets`,
  `index`, `session`, and the helpers `json`, `text`, `codec`).
- `tests/` — tests run against the compiled library.
- `app/` — the file system, SQLite index, shared session table and the
  commands the front end calls, around the library.
