# FindX2

The logic of FindX2, a file search for whole disks, as a Verus library: reading the NTFS file table
and the change journal, keeping an index up to date, answering requests, and the window program that
shows the hits. Every function states in its contract what it returns, and Verus proves it.

## Layout

- `src/` is the library. It performs no input or output: what the system answers comes in as an
  argument, and what to do next goes out as a result.
  - Bytes and text: `bytes`, `utf16`, `text`, `paths`, `unix_path`, `sort`, `clsid`.
  - Scanning a volume: `volumes`, `mft`, `mft_read`, `nt_dir_query`, `open_by_id`, `metadata_fill`,
    `volume_scan`, `full_index_build`.
  - Following changes: `usn`, `watch`, `watch_health`, `stat_queue`, `rebuild`.
  - Sizes and times filled in later: `backfill`, `overlay`.
  - The service: `cli`, `run`, `run_unix`, `load_state`, `startup_compact`, `ipc_dispatch`,
    `pipe_server`, `win_service`, `session_spawn`, `everything_ipc`.
  - The window program: `findx_settings`, `service_start`, `indexing`, `index_status`, `gui_search`,
    `file_actions`, `context_menu`, `desktop`, `window_layout`, `tray`, `elevate`, `autostart`,
    `app_update`, `update_download`, `frontend_build`.
  - Previews: `preview_data`, `preview_handler`, `win_preview`.
- `tests/` runs the library on concrete values.
- `app/` is the program around it: arguments, files, sockets, threads, and the sizes of windows,
  which are floating point. The search engine and the calls into the Windows API are crates of their
  own; they register themselves with it (`engine.rs`, `volume.rs`, `windows_host.rs`).

## What is not proved

Calls into other crates stand behind small functions marked `#[verifier::external_body]`, each with
a comment that says what is claimed of the call: version numbers (`semver`), JSON fields
(`serde_json`), base64 (`base64`), class identifiers (`windows-core`), and a few functions of the
standard library on text.

The public proof functions whose names begin with `law_` state what holds of the library as a whole.
