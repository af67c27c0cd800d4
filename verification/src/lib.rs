//! Typed generation of per-workspace Ghostty configuration: validated input
//! types, config and `Info.plist` generation, wrapper entries, and the
//! resolution of wrapper names to executable targets.

pub mod config;
pub mod error;
pub mod generate;
pub mod ghostty;
pub mod plist;
pub mod runtime;
pub mod validate;
pub mod wrapper;
