//! Rules on import declarations.

pub mod common;
pub mod javadoc;
pub mod unused_imports;
pub mod usages;

pub use unused_imports::UnusedImports;
pub use common::{collect_imports, get_package_name, ImportInfo};
pub use javadoc::collect_javadoc_references;
pub use usages::collect_type_usages;
