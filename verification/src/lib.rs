//! A course-catalog library: a tokenizer for free-form prerequisite
//! sentences, the course records they belong to, and the catalog that
//! answers queries over those records.

pub mod catalog;
pub mod class;
pub mod get_classes;
pub mod prereq;
pub mod text;
pub mod token;
pub mod traits;
