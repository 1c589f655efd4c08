# spotlight

A keyboard-driven application launcher, as a Verus library with a thin
program around it.

`src/` is the verified library:

- `text` — whitespace and quote trimming, `lines`, ASCII case folding and
  substring and subsequence search over `Seq<char>`, with executable
  counterparts.
- `app` — a catalog entry and its abstract value.
- `desktop` — reading a `.desktop` file's text into an entry.
- `command` — the program and arguments that an entry's `Exec` value starts.
- `catalog` — ordering entries by name with one entry per name.
- `scan` — building the catalog from `.desktop` texts or registry entries.
- `icon` — where an entry's icon is looked for, and scaling icon pictures.
- `launcher` — the launcher's state and what the hotkey, the search box and
  the keys do to it.

`app/main.rs` is the window (eframe), the global hotkey, the file and
registry reading, and starting programs. `tests/` runs the library on
concrete inputs.
