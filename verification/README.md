# manifest_core

A load-order analyzer and sorter for Ship of Harkinian mods, written in
Verus: the analysis is executable Rust whose behaviour is stated in
`requires`/`ensures` contracts and proved.

## Layout

- `src/formats/` reads asset lists out of archives: MPQ (`.otr`) headers,
  enciphered hash and block tables, sectors and the `(listfile)` text, and
  ZIP (`.o2r`) directories.
- `src/conflicts.rs` builds the asset-to-providers map in load order;
  `src/warnings.rs` finds problems no order can fix (with
  `src/overlap_count.rs` counting the mods behind each group of identical
  asset lists, and `src/warning_order.rs` proving the order the warnings
  come in); `src/sort.rs` proposes
  an order, with `src/sort_laws.rs` proving what every proposal satisfies;
  `src/report.rs` puts it all together.
- `src/config.rs`, `src/pins.rs` and `src/json.rs` read and write the
  game's config and the pins file as JSON values; `src/toggle.rs` plans
  enabling and disabling mods; `src/scan.rs` and `src/desktop.rs` hold the
  decisions of scanning a folder and of the desktop app; `src/paths.rs`
  says when a path's folder and file name read alike on every platform.
- `app/` is the `manifest` command line: argument parsing, file and
  folder access, JSON text, and printing.
- `tests/` runs the library on concrete cases.
