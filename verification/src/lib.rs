//! In-memory schema model and scoring engines for matching job candidates to
//! vacancies, scoring placement submissions against a company's role tree, and
//! scoring quiz submissions.
//!
//! The schema is built once from a generic configuration document and is
//! read-only afterwards; the engines are pure functions over it. Scores are
//! exact rationals, so that every scoring result is pinned down precisely;
//! callers that want a floating-point value divide the two components.

pub mod document;
pub mod models;
pub mod schema;
pub mod score;
pub mod quiz;
pub mod recommend;
pub mod placement;
pub mod api;
