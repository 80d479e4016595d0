//! A small compiler core: an abstract syntax tree is lowered into a flat,
//! handle-indexed intermediate representation, from which assembly text is
//! generated under a pluggable storage-allocation strategy.
//!
//! - [`ast`]: the syntax tree, its source form, how it is lowered, and what
//!   it computes.
//! - [`ir`]: the intermediate representation, and what it computes.
//! - [`backend`]: instruction selection, the allocation strategies, the
//!   assembly as data and as text, and a model of the machine.
//! - [`driver`]: the whole pipeline, and the statement that the code it
//!   makes computes what the source computes.
//! - [`error`]: the failures, in their two classes.
//! - [`text`]: decimal numerals.

pub mod ast;
pub mod backend;
pub mod driver;
pub mod error;
pub mod ir;
pub mod text;
