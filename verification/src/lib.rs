//! A front end for a small class-based language, together with a lowering
//! pass to a linear intermediate representation and an interpreter for it.
//!
//! The syntax tree is handed in ready-made. Semantic questions about it are
//! answered on demand by the [`query_engine::QueryEngine`]; the same answers can
//! be computed for a whole program at once by [`type_checker::check`].

pub mod agreement;
pub mod ast;
pub mod coverage;
pub mod error;
pub mod interpreter;
pub mod ir;
pub mod labels;
pub mod lowering;
pub mod node;
pub mod preprocess;
pub mod pretty;
pub mod query_engine;
pub mod type_checker;
pub mod type_map;
pub mod typing;
pub mod var_tracker;
