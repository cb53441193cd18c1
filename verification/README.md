# hh_rust_bot

A Telegram bot that relays Rust job offers published on HeadHunter (hh.ru).

- `src/` is the verified library (Verus): the vacancy records, how a vacancy is
  announced in a chat and summarized in the log, the search address, what a
  chat message asks for (`/start` subscribes; a number N asks for the N latest
  vacancies), and the decision of each periodic fetch cycle: which fetched
  vacancies are new (ids compared as numbers, each id once) and which id is
  stored next. Its laws are proof functions: over any run of fetch cycles no
  (chat, vacancy) pair is sent twice, the stored id never goes back, and every
  subscriber gets every new vacancy once and in order (`src/scheduler.rs`).
- `app/` is the program around it: the HTTP client and its JSON shapes, the
  SQLite store, the Telegram handler and the periodic task, which stores the
  new id before it sends.
- `tests/` runs the library on concrete values.
