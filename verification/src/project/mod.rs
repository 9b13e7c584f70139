//! Project selection and project-relative paths.

pub mod manifest;
pub mod native;
pub mod path;
pub mod select;
