# smarthb

The rules of a small academy's management program, written in Verus and
proved against their contracts: calendar arithmetic, monthly attendance
planning and its summaries, make-up classes and their deadlines, billing and
payment checks, the academic calendar's placement rules, dashboard figures,
the self-diagnosis history, the credential rules around the app PIN, backup
rotation and naming, audit codes and code tables.

Layout:

- `src/` — the verified library, one module per area (`civil` and `text`
  hold the shared date and text arithmetic). Calls into `chrono`, `pbkdf2`,
  `hex`, `rand`, `zeroize` and `keyring` stand behind small trusted wrappers
  whose contracts say what the library relies on.
- `tests/` — tests of the library on concrete values.
- `app/` — a command-line program around the library: files, the key store,
  the SQLite pool and the serde forms of the library's types.
