//! Derives a class diagram from a syntax tree of a Rust program.
//!
//! The syntax tree is given in the plain model of [`syntax`]; [`extract`]
//! walks it and fills the class, relation and method tables; a
//! [`formaters::ClassDiagramFormater`] decides how each fragment reads.
pub mod formaters;
pub mod syntax;
pub mod text;
pub mod extract;
pub mod laws;
