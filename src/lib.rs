//! Edit distance between two character sequences under a pluggable cost
//! policy: the alignment matrix, and the backtrace that turns it into an
//! ordered list of edit operations.

pub mod costs;
pub mod matrix;
pub mod edit_matrix;
pub mod edit_operation;
pub mod edits;
pub mod levenshtein;
pub mod difference;
