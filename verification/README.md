# jl_ui

An XML-driven UI runtime for macroquad games: schemas describe component
trees, variables and constants; the runtime loads them, switches between them
and lets the game read and write their variables.

The crate is in two parts.

- `src/` is the verified library (Verus). It holds the rules of the runtime:
  the schema document structure (`xml`, `document`), `<def>` declarations and
  `<var>` updates (`def`, `vars`, `expand`), attribute readers and size
  expressions (`parser`, `expr`, `num`, `hex`, `types`), the schema registry
  with its switching history (`schema`), component lookup by id and class
  (`outline`, `ui`), keyboard bindings (`keyboard`), sound categories
  (`audio`), log file naming and rotation (`logger`), JSONC comment handling
  (`jsonc`) and path text (`path`, `text`, `names`, `table`).
- `app/` is ordinary Rust around it: rendering, textures, sounds, file access,
  logging and everything that computes with floats.

`tests/` exercises the library on concrete inputs.
