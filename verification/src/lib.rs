//! Parses and evaluates Fjord code, lexes command lines, and holds the
//! editing logic of a small text editor.

pub mod text;
pub mod syntax_kind;
pub mod text_range;
pub mod lexer;
pub mod tree;
pub mod sealed;
pub mod parser;
pub mod grammar;
pub mod debug_tree;
pub mod val;
pub mod command_line;
pub mod ident_name;
pub mod editor;
pub mod script_ast;
pub mod script_grammar;
pub mod script_parser;
pub mod params;
pub mod script_eval;
pub mod script;
pub mod themes;
pub mod ast;
pub mod env;
pub mod eval;
pub mod expr;
pub mod ffi;
