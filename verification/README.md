# simplesync

A small file-sync tool for Nextcloud and WebDAV servers: push local folders
to the server (only files that changed since their last upload; a mirror
target also deletes remote files that are no longer local), pull remote
folders down (only files missing locally), and manage the account through
Nextcloud's Login Flow v2.

## Layout

- `src/` — the verified library (Verus). The application's logic is here,
  with its contracts; what stays in `app/` is listed at the end:
  - `text.rs` — character-sequence helpers (trimming, searching, decimal
    numbers) and their specifications.
  - `urlcode.rs` — percent-encoding of URL path segments and paths, and
    percent-decoding; decoding undoes encoding.
  - `webdav.rs` — the WebDAV client: URLs, the `Authorization` header, the
    request each operation sends and what each answer's status means.
  - `propfind.rs` — reading a PROPFIND multi-status document into entries.
  - `listing.rs` — the depth-first recursive listing of a remote folder.
  - `plan.rs` — the directories a push creates and the files a mirror
    deletes.
  - `push.rs`, `pull.rs` — pushes and pulls as state machines: each asks
    for one step of outside work (disk, database, server) and takes its
    result back; also the plans shown before a run (files to transfer and
    to skip).
  - `keyring.rs` — which secrets are stored, looked up or cleared, and
    what the answers mean.
  - `ui.rs` — texts and decisions of the pages (row titles, progress and
    result messages, the folder browser's entries, the login poll, the
    refusals of the targets page and the one-run-at-a-time rule).
- `tests/` — tests of the library.
- `app/` — the GTK/libadwaita program around the library: pages, HTTP with
  reqwest, SQLite with rusqlite, the keyring through `secret-tool`, and the
  threads that drive pushes and pulls.

Decisions that stay in `app/`: whether a file is unchanged since its last
upload (a floating-point comparison of modification times) and the refusal
of credentials too long to encode in a header. The rule that only one push
or pull runs at a time is `ui::RunGuard`.
