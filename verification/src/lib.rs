//! Static consistency checks for a code-generation project: cross-referencing
//! manual extension traits found in source text against the objects and traits
//! registered in a configuration document, plus two small per-file textual
//! checks (license headers and indentation).

pub mod args;
pub mod config;
pub mod gir_files;
pub mod license;
pub mod manual_traits;
pub mod registry;
pub mod text;
