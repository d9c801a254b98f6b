# token_list_module

Token lists for a multi-chain EVM wallet: the lists a user downloads, the user's own tokens and a
list that ships with the module, merged into one catalogue with one row for each address on a
chain; the tokens that a user enabled, kept as snapshots; and a configuration that applications
share. The rules are written in Verus and proved.

## Layout

- `src/` is the verified library. It reads, fetches and writes nothing: what a directory holds and
  what was fetched come in as values, and what is to be written and announced goes out as values.
  - `text`, `token`, `config`, `proxy`, `store`: plain data and how it is read.
  - `catalogue`, `model`: the mathematics. `model::ListView` is the state of a list, with a spec
    function for what it serves and one for each operation.
  - `tokens`: `TokenList`, whose methods are proved to do what the model says.
  - `offered`: the pinned tokens and the errors of enabling and disabling.
  - `digest`: fingerprints of what is served, and the difference between two of them.
  - `module`, `events`: the calls of the module, their replies and what they announce.
  - `json`: the one place that calls `serde_json`.
  - `laws`: what holds of the library as a whole, stated over the model.
- `tests/` runs the library on values.
- `app/` is ordinary Rust around it: JSON, files, HTTP and locks.

## Buckets

A row is answered by the first of `custom`, `downloaded` and `embedded` that knows its address, and
says which. A refresh replaces the downloaded tokens only; one in which every URL fails leaves the
other two.

## Events

A call announces the chains of which callers see something else than before, found by
fingerprinting either side of it, and the configuration record where that moved. A call that
changes nothing announces nothing.

## What is trusted

`str::trim`, `str::to_lowercase`, `str::eq_ignore_ascii_case` and `str::contains` of the standard
library, and `serde_json::from_str` on a list of strings. Their contracts stand in `src/text.rs` and
`src/json.rs`.
