//! Naming convention rules.

pub mod package_name;

pub use package_name::PackageName;
