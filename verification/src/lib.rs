//! whichway: the verified core of a macOS network route inspector.
//!
//! The library holds the parsers for the text that `netstat`, `ifconfig`,
//! `scutil`, `route`, `lsof`, `nettop` and `pfctl` print, the tunnel
//! attribution rules, the assembly of the summary, and the small pieces of
//! the web UI that decide (token check, token injection, content types).
//! Running the commands and serving HTTP stays outside the library.

pub mod attribute;
pub mod collect;
pub mod model;
pub mod report;
pub mod text;
pub mod web;
