# ypshuo_scraper

A book-metadata scraper for the ypshuo (阅评说) plugin of Ting Reader, written
in Verus. A search asks the ypshuo JSON API first and, when that fails, the
youshu site's search page; the answer is a list of books with title, author,
cover, introduction and tags, the book of the wanted author first.

- `src/` is the verified library:
  - `text` — character-level search, trimming, replacement, splitting and
    decimal rendering, each against a spec function;
  - `encode` — form-urlencoding (through the `url` crate), lowercasing and
    lossy UTF-8 decoding (through std);
  - `model` — the data and their views;
  - `html` — extraction of books from the youshu HTML pages;
  - `search` — search keyword, author preference and the shaping of both
    sites' answers;
  - `flow` — the steps of a search between the host's HTTP calls, the method
    dispatch and the checks on the host's results;
  - `laws` — properties of the library as a whole.
- `app/` is the WASM plugin: the C ABI exports, the host's HTTP functions and
  the JSON encodings (serde, serde_json).
- `tests/` exercises the library on concrete pages and answers.
