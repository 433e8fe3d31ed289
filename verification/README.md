# VSnapU Downloader core

The verified core of the VSnapU Downloader desktop app, written in Verus.

- `src/update_check.rs` — reading version tags and `min-version:` markers, deciding between no
  update, a banner and a blocking update, and choosing an installer URL that stays inside the
  app's own repository.
- `src/manifest.rs` — the job manifest types, when the editor token may be attached to a request,
  and the message shown when a manifest link is rejected.
- `src/download.rs` — resume ranges, file-name sanitizing, the per-file download state machine
  (events from the caller's I/O in, progress events and next steps out) and a job's outcome.
- `src/editor_session.rs` — which logins open a desktop session, what is stored between launches,
  refresh handling and login error messages.
- `src/text.rs` — the character-level model (whitespace, trimming, splitting, decimal text) the
  parsers are specified with.

`app/` is the Tauri shell: commands, plugins, HTTP with reqwest, files with tokio and std, and the
serde forms of the library's types.
