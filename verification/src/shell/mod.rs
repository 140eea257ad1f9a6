//! A small, fork-less bash interpreter.
//!
//! # Compatibility
//!
//! Emulated: pipelines, redirects (`>`, `>>`, `<`, `2>`, `2>&1`), heredocs and
//! here-strings, `;`, `&&`, `||`, `!`, `if/elif/else`, `for` (word lists),
//! `while`/`until`, `$(...)` and `( )` (env snapshot), quoting
//! (single/double/backslash), `$VAR`, `$?`, assignments, comments, brace groups
//! `{ ...; }`. `&` separates commands; nothing runs in the background.
//!
//! Not supported, and refused when a script is parsed: globbing (an unquoted `*`,
//! `?` or `[`, but for assignments and here-strings, which expand none), arithmetic
//! `$(( ))`, the forms of `${...}` other than `${NAME}`, `case`, arrays, `[[ ]]` and
//! functions.
//!
//! Builtins: `echo`, `printf`, `cd`, `pwd`, `export`, `unset`, `set`, `env`,
//! `test`/`[`, `true`, `false`, `exit`.
pub mod ast;
pub mod lexer;
pub mod nesting;
pub mod parser;
pub mod grammar;
pub mod path;
pub mod patterns;
pub mod vars;
pub mod state;
pub mod words;
pub mod exec;
pub mod heredoc;
pub mod machine;
pub mod interp;
pub mod builtins;
pub mod laws;
pub mod runs;
pub mod commands;
