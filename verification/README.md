# codex-manager-core

The core of Codex Manager, a tool that switches the Codex desktop app between
API accounts and starts it, written as a library whose behaviour is stated in
`requires`/`ensures` contracts and proved with Verus.

## Layout

- `src/` — the verified library
  - `settings.rs` — accounts, login state, settings normalisation, the store's path
  - `codex_config.rs` — rewriting `config.toml` and `auth.json`, backups, restore plans
  - `preferences.rs` — Codex's locale and instructions in `config.toml`, through `toml_edit`
  - `launcher.rs` — launch plans and the command line
  - `app_paths.rs` — package names, activation ids and versions read from install paths
  - `remote.rs` — requests to and replies from the remote key service, cookies
  - `update.rs` — release versions, update assets, the update check
  - `plugin_unlock.rs` — DevTools switches, target choice, commands and replies
  - `commands.rs` — command payloads, installer names, account edits
  - `paths.rs` — where the manager and Codex keep their files
  - `json.rs`, `text.rs` — the JSON values and text operations the rest reads with
- `tests/` — tests of the library
- `app/` — the launcher and the command layer: file, network and process work
  around the library

Each law of the library is a public `proof fn` whose name starts with `law_`.
