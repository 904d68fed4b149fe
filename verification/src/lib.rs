//! Expression evaluation core of a small transformation language for
//! structured event records: conditional and variable-reference nodes,
//! resolved one row at a time or over a batch of rows, with static types
//! and the diagnostic of an undefined variable.

pub mod value;
pub mod type_def;
pub mod state;
pub mod expression;
pub mod internal_events;
