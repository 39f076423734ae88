//! Flattens a bundle of source files into one directory: files whose base
//! names collide with a differently-contented earlier file are renamed
//! `<base>_<n>`, and import statements that point at a renamed file are
//! rewritten to the new sibling file name.
//!
//! Everything here is pure; the program around the library performs the
//! filesystem work (canonicalizing paths, creating directories, writing),
//! driven by a `RemapRun`.

pub mod error;
pub mod naming;
pub mod remapper;
pub mod run;
pub mod scanner;
pub mod table;

pub use error::RemapError;
pub use naming::{base_name_of, numbered};
pub use remapper::{LocalRemapper, OutputFile, OutputPath, RemapPlan, SourceEntry};
pub use run::RemapRun;
pub use scanner::{ImportScanner, IMPORT_PATTERN};
pub use table::NameTable;
