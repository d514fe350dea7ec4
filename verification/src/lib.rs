//! Search over package-manager buckets: decode manifests, match them against a
//! query by name, bundled executable or description, and order the matches.

pub mod json;
pub mod manifest;
pub mod matcher;
pub mod order;
pub mod path;
pub mod report;
pub mod scan;
pub mod text;
