//! Staged representation and lowering pipeline for an extended grammar
//! notation: recursive syntax trees with grouping, repetition operators and
//! exceptions are progressively lowered into a canonical, operator-free
//! disjunction of atom sequences, with textual identifiers replaced by
//! interned symbols along the way.

pub mod finalize;
pub mod flatten;
pub mod interner;
pub mod interning;
pub mod nesting;
pub mod node;
pub mod pipeline;
pub mod release;
