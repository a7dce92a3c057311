//! TopK fusion on a relational plan model, and the text layout of `EXPLAIN` output.

pub mod explain;
pub mod relation;
pub mod scalar;
pub mod text;
pub mod top_k;
