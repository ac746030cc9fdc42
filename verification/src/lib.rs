//! A catalog manager for fabrication projects: it keeps a relational record
//! of projects discovered on disk, reconciles each project's known files
//! against the live filesystem, classifies files by extension, resolves
//! display images, and answers filtered, tag-intersected queries.
pub mod catalog;
pub mod config;
pub mod error;
pub mod file;
pub mod laws;
pub mod project;
pub mod reconcile;
pub mod store;
pub mod text;
