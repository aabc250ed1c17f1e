# invoice_lookup

Looks up Japanese invoice registrations ("T-numbers") at the National Tax
Agency's public registry and checks spending-history sheets against it.

The library in `src/` is written in Verus. Its functions carry contracts
that Verus proves, except two trusted wrappers whose contracts are taken on
trust: `page::select_texts`, which runs the `scraper` crate on a page, and
`text::push_char`, which calls `String::push`.

- `text` — characters, trimming (Unicode white space), line and field
  splitting, `u32` parsing, decimal numerals.
- `tnumber` — T-number validation and normalisation, the registry URL, the
  error type, number lists.
- `page` — reading the registry's detail page; the HTML itself is parsed by
  the `scraper` crate behind one trusted wrapper.
- `date`, `date_parse` — dates, their order, sheet dates (`2025/01/02`) and
  Japanese-era dates (`令和5年10月1日`).
- `entity`, `csv`, `history` — the history check: which numbers to look up,
  each row's status, the annotated sheet and the summary.
- `sheet` — annotating a sheet in place, with lenient number reading.

`app/` holds the command-line program: argument parsing (`clap`), the HTTP
request (`reqwest`, `tokio`), files, JSON output (`serde_json`), and the
error type with `Display` (`thiserror`). Run under the name `check_history`,
the program annotates a sheet in place.
