//! The front end of the Lilit compiler, with its proofs.
//!
//! A program is a set of source files. The way from text to code goes
//! through these modules:
//!
//! - [`parse`] reads a source text into syntax ([`ast`]);
//! - [`semantics`] builds from syntax the tree that carries links
//!   ([`tree`]), with every link empty;
//! - [`index`] collects the top-level definitions of all files into one
//!   table, and [`analyse`] links every type annotation, call and variable
//!   to the definition it denotes, with a chain of lexical scopes laid over
//!   that table; what cannot be linked is reported ([`diagnostic`]);
//! - [`link`] is the short way for a single unit of free functions: a table
//!   of the functions, and the calls linked through it;
//! - [`codegen`] plans the emission of code for a linked unit and performs
//!   the plan on LLVM.
//!
//! A definition is known by a handle, not by a borrow: the index, the scopes
//! and the links of the tree all speak of definitions by their place in the
//! program. [`laws`] holds what is proved of resolution as a whole.
pub mod analyse;
pub mod ast;
pub mod codegen;
pub mod diagnostic;
pub mod index;
pub mod laws;
pub mod link;
pub mod parse;
pub mod semantics;
pub mod tree;
