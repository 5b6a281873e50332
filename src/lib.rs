//! Static analysis of a module graph: a symbol table of each module's imports
//! and exports, the file-level dependency graph built from it, and the
//! analyses over both (unused exports, re-exports, cycles, affected files).
use vstd::prelude::*;

pub mod affected;
pub mod builder;
pub mod cycles;
pub mod declaration;
pub mod dependency_graph;
pub mod graphviz;
pub mod module;
pub mod reexports;
pub mod symbol;
pub mod symbols_map;
pub mod text;
pub mod unused_exports;

verus! {

} // verus!
