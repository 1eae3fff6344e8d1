# finn-cli

A command-line client for FINN.no Torget (search listings, look up ads,
list and pick categories), built around a library whose logic is verified
with Verus.

## Layout

- `src/` — the verified library. Every function there carries a
  `requires`/`ensures` contract that Verus proves:
  - `model` — search parameters, filters, categories, results, item details;
  - `query` — the query parameters a search sends;
  - `text`, `order`, `keyed` — characters, trimming, words, decimal numbers,
    substring search, the order of texts, and sorted key/value lists;
  - `category`, `catalog`, `ident`, `plan` — category normalisation, aliases
    and lookup, the category tree, category ids, ad ids and addresses;
  - `search`, `item` — mapping FINN's search and ad-page data;
  - `paging` — fetching several pages of one search;
  - `output`, `cli` — the text shown to users and the answers of the
    interactive picker;
  - `ext` — the few calls into `chrono`, `regex`, `serde_json` and `std`
    (`char::is_alphanumeric`) whose results the library takes on trust,
    each with its stated contract; `text` holds the one other such call,
    `String::push`.
- `tests/` — tests of the library on concrete values.
- `app/` — the program: argument parsing (`clap`), HTTP (`reqwest`,
  `tokio`), JSON (`serde`), terminal and file output, and the
  floating-point similarity ranking of categories (`strsim`).

The laws the library keeps (for instance that normalising category text
twice changes nothing, that an ad id and its address name the same ad, and
that a paged search stays within its page limits) are public proof functions
whose names begin with `law_`.
