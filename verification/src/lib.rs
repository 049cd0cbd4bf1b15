//! Scaffolds new projects from a tree of template files.
//!
//! The crate classifies a project name's lexical casing, derives name
//! variants in the four supported casings, discovers which files of a
//! template tree must be rendered and which copied verbatim, substitutes
//! `{{ name }}` placeholders in path components and file contents, and
//! checks the destination for conflicts before anything is written.
//! Filesystem and network work is left to the caller; every function here
//! is pure computation over plain values.

pub mod chars;
pub mod context;
pub mod error;
pub mod naming;
pub mod naming_laws;
pub mod project;
pub mod render;
pub mod rendering_method;
pub mod structure;
pub mod substitute;
pub mod template_parser;
pub mod template_processing;
pub mod uid;

pub use naming::Casing;
pub use naming::detect_casing;
