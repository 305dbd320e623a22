# autoterm

The verified core of AutoTerm, a terminal multiplexer for the AutoOS desktop:
a library whose functions carry contracts proved by the Verus verifier, plus
a thin unverified host program around it.

## Layout

- `src/` — the library:
  - `mux/` — tabs, panes and split trees (`model`: the state and its
    invariant `Mux::wf`; `grow`/`close`/`ops`: structural operations and the
    action queue; `layout`: the per-mille projection of the active tab;
    `resize`, `nav`: divider drags and directional focus; `view`, `json`:
    read-side queries and JSON renderings; `undo`: laws relating operations;
    `tiling`: pane slots never overlap and cover the content area; `owned`:
    the facts behind tab-local links and focus; `counts`: leaves and
    branches per tab, and why every tab keeps a pane);
  - `shell` — the window shell's event handling, tab strip and slot placement;
  - `config`, `cmdline` — profile configuration (TOML) and command lines;
  - `keys`, `dev` — key bytes, clipboard shortcuts, paste normalisation,
    click runs, and the developer injection flags;
  - `engine`, `backlog`, `ring`, `palette`, `width` — what the terminal engine
    exchanges with the window: colour encodings, row snapshots, the output
    backlog and its bounded ring, colour schemes, character widths;
  - `media`, `text`, `api` — JSON listings and string helpers.
- `tests/` — executable tests of the library.
- `app/` — the host: command line, HTTP API, and the engine library loaded at
  run time; it performs the I/O and calls the library for every decision.

Outside crates called from the library (behind trusted declarations whose
contracts are stated in their doc comments): `toml` (document parsing) and
`unicode-width` (character widths), plus `String::push` from std.
