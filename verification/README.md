# reading_assistant

The verified core of a desktop reading assistant: select text anywhere, and a
small popup shows the word's dictionary entry or the phrase's translation with
its keywords; words and phrases can be starred and listed later.

- `src/` is the library, verified with Verus:
  - `text` — character-level text operations (trimming, splitting, joining,
    replacing, decimal numbers) with their specifications;
  - `models` — the values exchanged by the lookup, the store and the popup,
    and their mathematical views;
  - `dictionary` — the local dictionary, normalising, tokenising and
    lemmatising selected text;
  - `translator` — local translation, keyword extraction, and reading the
    online translator's and dictionary's pages;
  - `lookup` — what a lookup asks of the network and the answer it builds;
  - `store` and `starred` — settings and starred entries, and listing them;
  - `stamps` — the random UUID and the RFC 3339 time a new starred entry is
    stamped with;
  - `popup` — debouncing of mouse triggers, dragging, placement and hiding of
    the popup;
  - `selection` — which windows are left alone and how the copied selection
    is read and cut to length.
- `tests/` runs the library on concrete values.
- `app/` is the desktop shell around it: the SQLite database, the HTTP
  requests, the Windows mouse hook and clipboard, and the commands that the
  front end calls.

## The store and the database

The library's `Store` is the model of the application's SQLite tables: it
holds the settings and the starred entries, keeps the database's `UNIQUE`
constraints (one entry per identifier and per normalised text) as its type
invariant, and decides every change, which `app/` then writes with SQL.
Listing the starred entries filters and orders them in the library: a search
is matched as SQLite's `LIKE` matches the pattern `%search%` by default (`%`
any run of characters, `_` any one character, ASCII letters in either case,
no escape character), and the entries come newest first, their update times
compared character by character as SQLite compares text. Both rules are short
spec functions (`like_match`, `text_le`), proved against in `src/starred.rs`
and exercised on concrete values in `tests/`.
