# newmac-core

The brains of the newmac picker, verified with Verus: the package catalog
and its cross-reference checks, the user's selection and the exact
`newmac.conf` text bash sources (with its read-back), fuzzy search ranking,
theme palettes, flavours (presets), the Homebrew lists, the generated bash
sources, and the picker itself as a state machine over keys and clicks.

Layout:

* `src/` — the verified library. `app.rs`, `keys.rs` and `mouse.rs` hold the
  picker: each key or mouse event is a transition stated over `AppView`, and
  the handlers are proved to follow it. Work that leaves the process (writing
  the conf, fetching the live Homebrew leaderboard, running the installer) is
  handed back to the caller as an `Effect` and its outcome handed in again.
* `tests/` — tests run against the compiled library.
* `app/` — the `newmac-ui` binary: argument handling, reading the repo's data
  files (TOML, JSON, bash theme files), `curl`, the terminal event loop and
  all drawing with ratatui.
