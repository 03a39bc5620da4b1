# papyro

The core of Papyro, a Markdown notes application, written in Verus: each
function of the library carries a `requires`/`ensures` contract that Verus
proves, and the properties that span several functions are stated and
proved as proof functions.

## Layout

- `src/` — the verified library.
  - `text`, `paths` — character-level text and path operations (trimming,
    words, lines, searching; `Path`-style joins, parents, extensions,
    components, equality and order, lexical normalization).
  - `file_ops`, `tree`, `workspace` — note titles and word counts, file
    name sanitizing, free names for new notes and folders, the workspace
    tree, note metadata and identifiers, trash locations.
  - `front_matter` — tags from YAML front matter (the YAML itself is read
    by `yaml-rust`).
  - `search` — tokenized, case-insensitive search over notes, with
    highlights and path-ordered results.
  - `asset_cleanup` — which assets deleting notes leaves unreferenced.
  - `preview` — `file://` URLs for local images in the preview, and
    preview notices.
  - `doc_cache` — a bounded cache of what is derived from a document.
  - `editor_host` — what an editor host does on each event of its runtime.
  - `editor_pane`, `commands`, `palette`, `quick_open`, `file_tree`,
    `status`, `labels`, `primitives`, `highlight`, `settings_form`,
    `assets`, `models` — the decisions of the user interface: command
    palette actions, quick open filtering, tree ordering and keyboard
    actions, what the editor pane shows and which editor bridges it
    retires, labels and class names.
  - `platform`, `watch` — file dialog requests, external URL checks, and
    the workspace events made of file-system events.
- `tests/` — tests of the library on concrete values.
- `app/` — what surrounds the library: disk I/O, the watcher loop (which
  converts `notify` events into the library's event kinds),
  native dialogs, the system opener, and the interface arithmetic on
  floating-point coordinates.
