//! Symbolic equation solving: expression trees are normalized into a
//! canonical sum-of-products-of-ratios form, compared up to a consistent
//! renaming of symbols, and solved for a single variable by peeling off
//! invertible transformations while collecting non-degeneracy constraints.

pub mod analyze;
pub mod ast;
pub mod context;
pub mod flatten;
pub mod graph;
pub mod inverse;
pub mod is_same;
pub mod laws;
pub mod normalize;
pub mod rational;
pub mod render;
pub mod solve;
pub mod tokenizer;
pub mod traverse;
