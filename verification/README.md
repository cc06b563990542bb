# llama_tray

A system-tray manager for `llama-server` (llama.cpp): start and stop the
server, load and unload a model, choose a model (found by scanning a folder
for `.gguf` files) and an argument profile from the tray menu.

The library in `src/` is written in Verus and verified:

- `text` — character helpers with specifications: whitespace (Unicode
  `White_Space`), trimming, prefixes, decimal numerals, `u16` parsing and
  the lexicographic order of strings.
- `args` — tokenizing profile argument strings (double quotes keep spaces
  together), rejecting profiles that choose the model themselves, reading
  the host and port a profile listens on, and the model alias.
- `config` — the settings, their default, migration, and the profile
  operations, which keep "at least one profile, and the active id names
  one" true.
- `models` — which walked files are models, how each is described, and
  the stable sort of the list.
- `server` — the launch plan and command line, and the server life cycle as a
  state machine; the caller spawns,
  kills and health-checks the process and hands the outcomes back.
- `tray` — status label, tooltip, status icon pixels, the menu's contents
  and the command behind each menu item.
- `commands` — the checks behind load/unload and startup model listing.

`app/` holds the Tauri application around it: windows, tray and commands,
the settings file (serde_json), the directory walk (walkdir), the child
process and the HTTP health check (reqwest).
