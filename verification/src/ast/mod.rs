//! The expression data model: signed tree nodes, products of ratios,
//! expressions as sums of products, and equations as sequences of sides.

pub mod element;
pub mod equation;
