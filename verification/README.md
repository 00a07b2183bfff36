# amp

The verified core of a modal text editor, written in Verus. `src/` holds the
editor's logic with its contracts and laws; `app/` is a small program around it
that reads files and the environment.

- `application`, `modes`, `jump`, `open_mode`, `buffer_mode`, `select_modes`,
  `symbol_jump`, `search_results`, `search_select`: the editor's modes and the
  switching between them.
- `preferences`, `key_map`: user preferences over built-in defaults, and keymaps.
- `editorconfig`, `glob`: `.editorconfig` sections and their glob patterns.
- `reflow`, `token`, `ranges`, `distance`: text layout and positions in a buffer.
- `clipboard`, `git_status`, `paths`, `matching`, `tag_generator`,
  `selectable_vec`, `text`, `number`, `errors`: supporting pieces.

The tests under `tests/` exercise the library on concrete values.
