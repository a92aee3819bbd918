# pbca — Palm Beach County property records

`pbca` looks up Palm Beach County, Florida property records: owner, mailing
address, parcel control number (PCN), market and assessed values,
exemptions, sale history and building details. The data is anonymous public
records from the county's ArcGIS parcel layer and the appraiser's
per-parcel detail page.

## Layout

- `src/` — the library, verified with Verus: PCN parsing, epoch-date
  conversion, SQL-literal escaping and query normalization, reading the
  parcel layer's attribute records and the detail page's embedded data
  block, search-clause construction, result paging, preferences, and the
  text rendering of every command's output. Each public function states its
  result in its contract; the properties that span functions (a PCN's two
  forms parse to the same value, escaping round-trips, `unset` undoes `set`,
  normalizing is idempotent on ASCII, sales and tax years come newest first,
  the data-block scanner returns exactly an embedded JSON object, paging
  makes at most ⌈limit / 5000⌉ requests) are proved as lemmas.
- `app/` — the `pbca` program: argument parsing, HTTP requests, the config
  file, JSON output, and printing.
- `tests/` — tests of the library on concrete values.
