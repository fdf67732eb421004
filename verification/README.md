# vortex

The screen logic of Vortex, a terminal network monitor (interface picker,
live flow dashboard, per-process tree), written in Verus. The functions in `src/`
carry contracts that Verus proves; the calls they make into std and
rustc-hash (clocks, hash sets and maps, slice swap, string push) go through
a small set of trusted wrappers and `assume_specification` items whose
contracts are taken on trust from those libraries' documentation and
source.

## Layout

- `src/` — the verified library.
  - `flow`, `common`, `compare`, `sorting`: flow keys, connection keys,
    endpoint orientation, three-way comparisons and the stable sort every
    table uses, with the laws that make the tables sorted.
  - `ratesum`, `rounding`, `bps`, `format`, `text`: exact integer models of
    single-precision rate sums, the binary64 arithmetic behind the compact
    counts, and every text rendering (rates, counts, bytes, durations,
    clocks, ports).
  - `dashboard`, `conn`, `dashboard_keys`, `live`: flow rows, the merge of
    opposing flows into connections, the dashboard's key handling and the
    rows it shows.
  - `processes`, `processes_keys`, `pidset`: the process tree, its child
    rows, its key handling, and the set of expanded processes.
  - `picker`, `prefs`, `details`, `tables`, `widgets`: the interface picker,
    preferences, the details overlay, table cells and layout geometry.
- `tests/` — tests run against the compiled library.
- `app/` — the terminal front end: drawing with ratatui, key input from
  crossterm, the screen state on bevy, the session that feeds key presses
  and probe reports to the library and builds the details overlays, and the
  float logarithm of the sparklines.
