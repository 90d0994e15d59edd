# wgsl_gpu

Code generation for GPU entry points written in Rust, with its decisions
proved in Verus.

- `src/` is the verified library. It reads the attributes and types of a
  shader entry point (`entry`) or of an argument struct (`arguments`) as plain
  values (`syntax`), reads attribute settings (`args`), and returns what is to
  be generated: vertex formats (`vertex`), shader bindings, vertex buffer
  layouts, bind group tables and the `Arguments` impl, or the errors to
  report (`errors`). `entry::entry` and `arguments::derive_arguments` say
  what each macro does with its input, panics included (`ident` says which
  texts `format_ident!` accepts as identifiers). `pipeline` merges
  the bind group tables of two stages; `texture` fills the example's test
  texture.
- `app/` turns compiler syntax into the library's values and the library's
  plans into tokens, and holds the `macro_rules!` macros that generated code
  expands through and the example shaders.
- `tests/` runs the library on the example shaders' entry points and structs.
