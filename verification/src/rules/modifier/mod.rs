//! Rules on modifiers.

pub mod candidate;
pub mod common;
pub mod final_local_variable;
pub mod grounding;

pub use final_local_variable::FinalLocalVariable;
