//! The rules, grouped by what they look at.

pub mod coding;
pub mod imports;
pub mod modifier;
pub mod naming;

pub use coding::{MultipleVariableDeclarations, OneStatementPerLine};
pub use imports::UnusedImports;
pub use modifier::FinalLocalVariable;
pub use naming::PackageName;
