//! Feature inventory engine: discovers the features of a repository,
//! extracts imports and metadata comments from source lines, resolves
//! cross-feature dependencies and attributes commit history.
pub mod checks;
pub mod commits;
pub mod config;
pub mod coverage;
pub mod dependency;
pub mod import_detector;
pub mod metadata;
pub mod owner;
pub mod paths;
pub mod readme;
pub mod reports;
pub mod resolver;
pub mod sources;
pub mod text;
pub mod tree;
