//! Core library for the `data-dict.yaml` specification: the expression
//! readers, the type rules, the dictionary model, and the problem vocabulary
//! that the three validation levels share.

use vstd::prelude::*;

pub mod assert_expr;
pub mod data;
pub mod emit;
pub mod join_expr;
pub mod lower;
pub mod meta;
pub mod model;
pub mod parse;
pub mod problem;
pub mod report;
pub mod text;
pub mod translate;
pub mod validate_meta;
pub mod validate_spec;
pub mod yaml;

verus! {

/// Which of the three validation levels a check belongs to.
#[derive(Debug, Clone, Copy, PartialEq, Eq, Structural)]
pub enum Level {
    Spec,
    Meta,
    Data,
}

} // verus!
