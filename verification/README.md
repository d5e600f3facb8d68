# seija

Verified logic of the seija engine's tools and UI layer, written in Verus.

- `src/` is the library. Each function carries a contract that Verus
  proves: the FFI header lexer and parser (`lex_string`, `parser`,
  `grammar`, `ffi_file`), the C# binding generator (`csharp_gen`,
  `parse_gen`), the material compiler's slot reader and GLSL writer
  (`material`, `shader_backend`), the sprite atlas, allocator and sheets
  (`atlas`, `sprite_alloc`, `sprite_upload`, `spritesheet`), and the UI rules (`ui_types`,
  `ui_event`, `input_text`, `draw_call`, `canvas_changes`, `zorder`, `hierarchy`,
  `text_mesh`, `runner`).
- `tests/` runs the library on concrete inputs.
- `app/` is the command-line binding generator and the parts of the UI
  layer that are computed in floating point or read files: layout sizes
  and flex placement, hit testing, caret placement, mesh vertices, and
  sprite sheet loading.
