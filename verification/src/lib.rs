//! Build configuration for a LaTeX project: a small record naming the
//! compiler executable, the project, extra flags, a cleanup switch and an
//! invocation mode.  The record renders to (and is read back from) a flat
//! `compiler.toml`-style text file, and it yields the exact argument list,
//! cleanup paths and notification text that drive one compile run.

pub mod config;
pub mod laws;
pub mod parse;
pub mod render;

pub use config::Compiler;
pub use config::CompilerMode;
