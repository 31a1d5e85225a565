//! A small scripting front end: a grammar for script cells (assignments,
//! tasks, runtimes, blocks, imports, packages) and an interpolation engine
//! that resolves `[:name]`, `[:name=default]` and `[:name(args)]`
//! placeholders in task bodies against a registry of variables.
pub mod accessors;
pub mod ast;
pub mod atoms;
pub mod cells;
pub mod compare;
pub mod copy;
pub mod ctx;
pub mod grammar;
pub mod interp;
pub mod interp_spec;
pub mod laws;
pub mod menu;
pub mod parser;
pub mod render;
pub mod repository;
pub mod run;
pub mod scan;
pub mod text;
pub mod widths;
