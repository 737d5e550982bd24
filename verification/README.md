# SpoolEase console, verified

The decisions of a console that keeps track of filament spools for 3D printers, written
in Rust and verified with Verus.

- `src/` is the library. Every function states what it returns and what it changes, and
  Verus proves it. What the library promises as a whole is stated in public proof
  functions beside the functions that they speak of.
- `tests/` runs the library on concrete values.
- `app/` is ordinary Rust around the library: files, connections, the display, the web
  pages, and the floating point arithmetic on weights.

| Module | What it decides |
|---|---|
| `bambu`, `bambu_print` | what a running print has used, and of which slot |
| `gcode_analysis`, `gcode_analysis_task`, `gcode_jobs` | what the gcode of a print extrudes, how it is fetched, and where it is analyzed |
| `my_ftp`, `net` | the control dialogue of a file transfer |
| `csvdb` | the file of records of one width |
| `spool_record`, `store` | the spools, their tags, and what each operation writes |
| `filament_info`, `filament_staging` | filaments, brands, and the staged spool |
| `view_model`, `display` | what is shown, and what a tag, a weight or a changed slot leads to |
| `web_app` | the web pages and what they are answered |
| `nfc` | the record on a tag |
| `translations` | the texts of the display in its languages, and the source that they become |
| `text`, `numbers`, `text_map`, `hex_text`, `grams`, `types`, `settings` | what the others are built on |

Calls into other crates stand behind small functions whose contracts say what they are
believed to do: `hashbrown` in `text_map`, `hex` in `hex_text`, `semver` in `store`,
`serde_json` in `translations`.
