# pastebin

An in-memory pastebin. Pastes are kept in a plain `Vec`; a global tick records
when each paste was last touched, and once the store is full a countdown LRU
sweep frees one slot: pastes are visited from the one seen longest ago, each
visit counts one hit down, and the first paste counted down to zero is evicted.

## Layout

- `src/` — the library, verified with Verus:
  - `store.rs` — `PasteStore`: insertion, views, the read-only lookup, the
    eviction search and the countdown, with the laws of the store;
  - `model.rs` — pastes, ids, content kinds, errors, validation, file names;
  - `render.rs` — HTML escaping, file sizes, download names and the pages;
  - `markdown.rs` — Markdown with highlighted code blocks and Mermaid diagrams;
  - `mcp.rs` — the logic of the MCP tools;
  - `routes.rs` — the request body and the uploaded file name of the HTTP API;
  - `text.rs` — decimal numerals, `replace`, white space.
- `app/` — the server around the library: configuration, the axum routes, the
  MCP endpoint (rmcp), and the serde copies of the request types.
- `tests/` — tests of the library.

## Running

The server reads `URL`, `PORT`, `MAX_PASTES`, `MAX_PASTE_SIZE` and
`MAX_FILE_SIZE` from the environment (or `.env`).

## What rests on the outside crates

The library's contracts take some facts about the crates it calls as given:
each such call is a small trusted function in `src/` whose doc comment says
what it assumes. In particular, that a Markdown page is answered without a
panic rests on pulldown-cmark's parser and on mermaid-svg's diagram renderer
returning on every input; their sources guard their internal state with
`unwrap` and `expect`, which was sampled but not proved here.
