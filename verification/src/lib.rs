//! Planning and packaging of hardware description projects: design units
//! are indexed into a dependency graph, the graph is ordered into a
//! blueprint, and packages are pinned by a lockfile and a checksummed cache.

pub mod blueprint;
pub mod catalog;
pub mod checksum;
pub mod digest;
pub mod document;
pub mod fileset;
pub mod graph;
pub mod install;
pub mod ip;
pub mod lang;
pub mod lexer;
pub mod lockfile;
pub mod manifest;
pub mod order;
pub mod pkgid;
pub mod plan;
pub mod results;
pub mod scan;
pub mod sha256;
pub mod show;
pub mod sv;
pub mod text;
pub mod version;
pub mod vhdl;
