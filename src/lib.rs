//! Resolution of C functions that headers expose through renaming macros.
//!
//! Macro names that carry a configured prefix are collected while headers are
//! scanned; a probe translation unit makes the preprocessor expand each of them
//! once, and the marked lines of its output become a bijective rename table
//! between the name a header shows and the symbol that is linked against.

pub mod expansion;
pub mod lines;
pub mod probe;
pub mod rename_table;
pub mod renames;

pub use expansion::{parse_expansion, rename_in_line};
pub use lines::split_lines;
pub use probe::probe_source;
pub use rename_table::RenameTable;
pub use renames::{ExpandStep, FunctionRenames, ItemKind, MacroParsingBehavior};
