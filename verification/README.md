# artifact_keeper_cli — ferry downloads

The `ak download` side of the Artifact Keeper CLI: build an air-gap "ferry"
pack of npm, Go, PyPI or Cargo packages with the native toolchains, one
isolated root at a time, with a manifest of every file and its SHA-256, a
SQLite download cache, and an optional server catalog of what the intranet
repository already holds. `ak ferry-plan DIR` shows what uploading a ferry
directory would send.

## Layout

- `src/` — the library, verified with Verus. It holds the decisions and the
  text formats: parsing module lists, lockfiles and tool output
  (`manifest`, `npm`, `go`, `pypi`, `cargo`), the pass matrix (`passes`),
  the job plan (`config`, `cli`), the cache keys (`cache`), the catalog
  (`catalog`), what a fetched module becomes (`collect`, `expand`), file
  names and paths in the pack (`naming`, `ferry_dir`, `go_proxy`), digests
  (`digest`), the clock (`clock`), JSON and TOML inputs taken over from
  `serde_json` and `toml` (`json`, `toml_doc`), dash-joined runs (`runs`)
  and the shared string toolkit (`text`). Beside the downloads it holds the
  request bodies of the lifecycle policy commands (`lifecycle`), the
  `--config` object of imports (`import`) and the paging and tally of a
  bulk migration (`migrate`), which the program does not yet send. Contracts are stated
  over `Seq<char>` views; the laws are public proof functions beside the
  functions they relate.
- `app/` — the program around it: argument parsing (clap), the toolchain
  runs (`std::process`), files, the SQLite cache (rusqlite), zip output,
  JSON/TOML reading (serde), and the worker threads.
- `tests/` — tests of the library.
