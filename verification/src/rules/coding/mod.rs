//! Coding rules.

pub mod multiple_variable_declarations;
pub mod one_statement_per_line;

pub use multiple_variable_declarations::MultipleVariableDeclarations;
pub use one_statement_per_line::OneStatementPerLine;
