# justkv

A read-only key-value server. It loads a dataset from a file into memory at startup and
serves lookups over HTTP; the data never changes while it runs.

The rules of the server are a library in `src/`, written and proved in Verus. Files,
sockets and the command line are ordinary Rust in `app/`.

| Module | What it holds |
|---|---|
| `store` | entries, the arena they point into, the table, `Store::get`, `load` |
| `store::csv_loader` | CSV/TSV rows to an arena and entries, with every problem reported |
| `store::compiled` | the binary format: writer, reader, and what each refuses |
| `store::laws` | what loading promises as a whole |
| `server` | content types, the key in a query string, replies to each route |
| `metrics` | counters and the latency histogram, their text, and what holds of both |
| `cli` | `check`, `build` step by step, `healthcheck` |
| `config`, `path` | command lines, and the delimiter a path suggests |
| `bench` | the rows of a synthetic dataset |

What is taken from elsewhere without proof is declared with a contract and a comment that
says what it claims:

- from other crates: CSV reading in `store::rows`, hashing and the hash tables in
  `store::table`, shared byte buffers in `store::arena`, percent-decoding in
  `server::query`, JSON strings in `server::handlers`;
- from the standard library: the extension of a path in `path`, and in `store::csv_loader`
  quoting a text, showing bytes as text, the UTF-8 test, and giving spare room back.
