# CVR MelonLoader Assistant

A mod manager for ChilloutVR with MelonLoader on Linux (via Proton): it lists
the CVRMG mod catalogue, matches it against the mod files installed in the
game folder, installs, updates, quarantines and removes mods, manages
MelonLoader itself, and analyses MelonLoader's log.

## Layout

- `src/` — the verified library (Verus). Every function carries a contract
  over plain mathematical values (`Seq`, `int`, views of the records):
  - `melon_dll` — PE / CLI metadata reading of mod DLLs: the MelonInfo
    attribute and the referenced assemblies.
  - `api` — version ordering and the catalogue order.
  - `archive` — the entries of a zip archive and the steps that unpack it
    (used to install MelonLoader).
  - `matching` — which installed file belongs to which catalogue mod.
  - `install` — update detection, quarantine decisions, download targets,
    dependency resolution, MelonLoader version detection.
  - `listing` — what the mod list shows and how it is grouped, searched
    and collapsed; the action selections and dialog texts.
  - `log_scanner` — the MelonLoader log analysis and its report.
  - `steam`, `config`, `models`, `text` — Steam manifests, settings and
    log lines, the records, and character-level string helpers.
- `app/` — the GTK4 program around the library: windows and dialogs, HTTP,
  files, Steam folder discovery, JSON.
- `tests/` — behaviour tests of the library.
