//! Khawrizm: the computational core of the Khawrizm spreadsheet engine and
//! its Ring-0 text refinery.  Each operation carries a contract that Verus
//! proves; calls into std and outside crates go through trusted wrappers whose
//! contracts say what those calls are believed to do.

pub mod taco;
pub mod taco_laws;
pub mod text;
pub mod lexer;
pub mod grid;
pub mod desktop;
pub mod desktop_ipc;
pub mod browser;
pub mod sanitizer;
pub mod monolith;
pub mod unikernel;
pub mod provenance;
pub mod llm;
pub mod pattern;
pub mod refinery;
pub mod console;
