# goldsrc_addons

Backend of a GameAP panel plugin that manages Metamod and AMX Mod X plugins on
GoldSource servers (Half-Life 1, Counter-Strike 1.6, ...), verified with Verus.

- `src/` — the verified library:
  - `goldsrc/ini` — the byte-preserving `plugins.ini` document (parse, group,
    toggle, append, replace, remove, serialize) and its laws (`laws.rs`,
    `reread.rs`, `titles.rs`): parse then serialize is the identity, toggling
    off and on restores a line, setting a state twice is setting it once,
    groups partition the entries, group titles are non-empty and trimmed, and
    every edit leaves lines that read back as written.
  - `goldsrc/liblist`, `goldsrc/paths`, `goldsrc/moddir`, `goldsrc/amxxpc` —
    `liblist.gam` reading, node path helpers and request sanitizing, game
    code to mod folder, compiler command line and diagnostics.
  - `router` — the route table and segment-wise matching.
  - `handlers` — the HTTP routes. They reach the node through
    `host_api::Recorded`, which keeps a ghost record of every call made through
    a `HostApi` with its arguments and answer, and of the errors logged; each
    route's contract gives its reply, what it uploads or deletes and what it
    logs as a function of the request and of that record. `handlers/edit.rs`
    and `handlers/rows.rs` hold the file edits and the state rows as functions
    of the downloaded bytes and listings; `handlers/listing.rs` says which
    folder listings the state route asks for (each folder once, in order of
    first use) and which listing each plugin row is looked up in.
- `app/` — the plugin glue: SDK `Plugin` impl, the SDK host functions behind
  `HostApi`, and the JSON encoding of requests and replies (serde copies of the
  library's request/response types).
- `tests/` — tests of the library, handler tests against an in-memory host.
