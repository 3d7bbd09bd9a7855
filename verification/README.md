# NavHub

A self-hosted navigation site for web applications: a JSON API over SQLite
(applications, categories, site settings, icon uploads), JWT logins with a
lockout after repeated failures, and a single-page front end served from disk.

## Layout

- `src/` is the `navhub` library, verified with Verus. It holds every rule of
  the service: request-body validation (`schemas`), error answers (`errors`),
  login throttling (`limiter`), passwords, tokens and the login and
  password-change decisions (`auth`), configuration defaults and the JWT
  secret (`config`), dates (`dates`), the SQL of partial updates (`sql`),
  routing decisions (`routes`), listings and records (`handlers`, `models`),
  uploads (`upload`) and the seed data (`seed`).
- `app/` is the service around it: environment and file I/O, the SQLite
  connection, the axum router, extractors and handlers.
- `tests/` exercises the library on concrete values.
