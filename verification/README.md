# mediavault

The verified core of MediaVault, a self-hosted archive for files and media:
uploads through the browser, search, tags, albums, duplicate detection and
public share links.

`src/` is a Verus library. Its contracts state exactly what each rule decides:

- `config` — reading the configuration from environment variables, the storage
  layout (objects are stored under `objects/<2>/<rest>/<sha256>`), and the
  checks on stored paths.
- `auth` — Argon2 password hashing and checking, session tokens and their
  cookie, CSRF protection, role checks, login and account-creation decisions.
- `util` — validation of e-mail addresses and passwords, file-name
  sanitising, SHA-256 digests and random tokens.
- `http` — header-value validity, download headers, the cross-origin policy.
- `routes` — the decisions of the API handlers: the file listing query, uploads
  in progress, share links, duplicates, tag and album names, audit listings.
- `text`, `hex`, `digest`, `error` — the string, hex and digest primitives
  and the error type these rest on.

`app/` is the HTTP server around the library (Axum, SQLite through sqlx,
Tokio): it reads the environment, talks to the database and the file system,
and hands plain values to the library.
