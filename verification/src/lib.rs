//! Verified building blocks of the Arc-Lang streaming runtime and compiler.
pub mod duration;
pub mod time;
pub mod iterator;
pub mod event;
pub mod ops;
pub mod panes;
pub mod window;
pub mod incremental;
pub mod join;
pub mod source;
pub mod laws;
pub mod hir;
pub mod book;
pub mod matrix;
pub mod generator;
pub mod ssa;
pub mod mono;
