# xt_core

A library for translating Bethesda game plugins (ESP/ESM), with its
behaviour stated in `requires` / `ensures` contracts and proved by Verus.

## Layout

- `src/` — the verified library:
  - `esp/`: plugin headers, record tree, parser, game detection, string
    comparison and delocalisation;
  - `bsa/`, `ba2/`: reading archives, extracting files and rebuilding an
    archive with replaced files;
  - `matching/`: applying translation dictionaries to loaded strings;
  - `mcm/`: MCM translation files;
  - `heuristic`, `normalization`, `header_processor`, `command_processor`,
    `def_ui`, `dial_html`, `add_id`, `add_id_to_strings`, `cache`,
    `cache_index`, `config`, `data_config`, `batch_queue`: the other tools.
  Calls into outside crates (compression, regular expressions, digests,
  text decoding) go through small trusted wrappers whose contracts name
  or describe what those crates return.
- `tests/` — tests of the library.
- `app/` — file and archive I/O, settings and cache files on disk,
  retrying translations, running command scripts against a host, and the
  floating-point scoring (similarity scores, item weights, lip-sync
  timing), built on the library.
