# sat_cli

A terminal dashboard over the system's global package managers (npm, pnpm,
pip, uv, cargo, gem, dotnet, and winget/choco/scoop on Windows or
brew/apt/pacman elsewhere): it lists what each has installed, shows which
packages have upgrades, and updates or removes marked packages in batches.

## Layout

- `src/` — the library, verified with Verus.
  - `manager.rs`, `command.rs`: the managers of each platform and the
    commands they run (wrapped in `cmd /C` on Windows).
  - `text.rs`: lines, words, trimming and searching over characters, with
    specifications that follow std's `str` methods, and UTF-8 byte offsets.
  - `parse.rs`, `installed.rs`, `upgrades.rs`, `json.rs`, `output.rs`:
    reading the bytes each manager prints into packages and available
    upgrades (JSON through serde_json, text through UTF-8 decoding).
  - `order.rs`: listing packages by lowercased name (a stable sort).
  - `dashboard.rs`: the dashboard state and its reaction to loaded data and
    keys, with the laws it keeps.
  - `ops.rs`: the steps of a batch of updates or removals.
  - `screen.rs`: the texts and rows the screen shows.
- `app/` — the program: runs the commands with tokio, hands their output to
  the library, and draws with ratatui.
- `tests/` — tests of the library, several of them against std's own
  string functions.
