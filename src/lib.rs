//! Derives a compile/archive/link graph from a tree of Fortran sources and
//! renders it as a Ninja statement file or a Makefile.
//!
//! Paths are handled as `/`-separated text throughout the library.

pub mod buildsystem;
pub mod config;
pub mod graph;
pub mod order;
pub mod paths;
pub mod scan;

pub use paths::{join, with_extension};
pub use scan::{defined_modules, get_defined_module, get_used_module, unreadable_lines, used_modules};
pub use config::{Config, Package, System};
pub use graph::{source_kind, Archive, Build, Compile, Link, ReadError, SourceFile, SourceKind};
pub use buildsystem::{BuildSystem, ParseBuildSystemError};
