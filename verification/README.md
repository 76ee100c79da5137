# atletiek_nu_api

Parsers for the pages of athletics.app (formerly atletiek.nu), verified
with Verus.

Each parser reads a page with `scraper`: the text nodes, attributes and
elements that its CSS selectors pick. It hands what it read, as plain
values (the `*Source` types), to functions whose contracts say exactly what
they return. Those functions are public, so the same values can be written
by hand.

Layout:

- `src/text.rs`: trimming, replacing, splitting, number parsing and the
  other text operations, each stated over `Seq<char>`.
- `src/html.rs`: the `scraper` types and calls. A page is known by its
  text, an element by its page and the steps that reach it; what `scraper`
  gives for each step is named (`texts_at`, `attribute_at`, `element_picks`
  and so on) rather than written out.
- `src/pattern.rs`: the `regex` calls. Their results are named by
  `regex_captures` and `regex_replace`, because stating them would mean
  restating the regex engine.
- `src/calendar.rs`: reading a date with `chrono`.
- `src/models/`: one module per page. Each module holds the page's records,
  what is read of the page, the functions over it, and proofs of what
  every result keeps.
- `app/`: serializable copies of the records, and the floating-point
  values of performances and wind readings.
- `tests/`: tests on real pages and on values written by hand.

Each `parse` function states what it reads of the page over those names
(`page_rows`, `page_items`, `page_detail`, ...), and that its result is
what the functions over plain values give for exactly that reading. It
fails only when one of its selectors does not compile, or on the
conditions its contract names.
