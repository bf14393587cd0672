//! Verified core of a course-content mirroring tool: naming of files and
//! folders, ordering and de-duplication of file listings, the path registry,
//! and the decisions taken while walking a course.

pub mod assignments;
pub mod attempts;
pub mod files;
pub mod model;
pub mod modules;
pub mod naming;
pub mod numbers;
pub mod registry;
pub mod requests;
pub mod text;
pub mod time;
pub mod urls;
