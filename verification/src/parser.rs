//! Parser for the accepted subset of Verilog (IEEE 1364).
use vstd::prelude::*;

pub mod cst;
pub mod error_laws;
pub mod expr;
pub mod expr_laws;
pub mod generate;
pub mod item_laws;
pub mod items;
pub mod module;
pub mod routine_laws;
pub mod routines;
pub mod state;
pub mod stmt;
pub mod stmt_laws;
pub mod subst;
pub mod subst_laws;

verus! {

} // verus!
