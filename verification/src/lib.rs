//! Tooling and UI logic of the seija engine: a lexer and parser for the C
//! headers of the engine's FFI layer and a C# binding generator over the
//! parsed declarations; the material compiler's reader of GLSL slot code
//! and its writer of the GLSL around a shader; a dynamic sprite atlas and
//! sprite sheets; and the rules of the UI layer: event capture and
//! bubbling, text input editing, draw-call batching, draw order, queries up
//! the element tree, mesh indices, and the window loop's decisions.
pub mod text;

pub mod lex_string;
pub mod ffi_file;
pub mod parser;
pub mod grammar;
pub mod csharp_gen;
pub mod parse_gen;
pub mod material;
pub mod shader_backend;
pub mod atlas;
pub mod canvas_changes;
pub mod spritesheet;
pub mod ui_types;
pub mod ui_event;
pub mod sprite_alloc;
pub mod sprite_upload;
pub mod draw_call;
pub mod input_text;
pub mod zorder;
pub mod hierarchy;
pub mod text_mesh;
pub mod runner;
pub mod type_converter;
