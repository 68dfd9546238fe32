# akbox

A toolbox for an Arknights assistant: it drives an Android emulator over
adb, reads screenshots, and keeps a local store of game data synced from
the official news site, the PRTS wiki, Penguin Stats and Skland.

The library under `src/` holds the logic, each function with a contract
that Verus proves:

- `device`: the adb connection, screenshot and input flows, as state
  machines that ask for one command at a time.
- `vision`: page-state catalogs, regions of interest scaled onto
  screenshots, and inventory page signatures.
- `ocr`: the normalization of recognized text.
- `official`, `prts`, `wiki`, `html`: reading the official news page and
  the wiki's index pages, sections and tables.
- `skland`: request signing, the player-info envelope, and the import
  plans for operators, status and base.
- `sync`: the sync flow of every source, item-name resolution and the
  planning of recipe rows.
- `records`, `json`, `text`: the stored rows, a plain JSON model, and
  string helpers.

`app/` holds what stays outside the proofs: processes, HTTP clients,
file access, the SQLite store, and the loops that run the library's flows.
