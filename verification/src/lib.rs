//! Signal-classification and report-aggregation pipeline for review-request
//! discussion threads: decides whether a comment carries an endorsement or
//! rejection marker, derives excerpts, and orders and groups the results by
//! calendar date for rendering.

pub mod aggregate;
pub mod classify;
pub mod dates;
pub mod excerpt;
pub mod model;
pub mod render;
pub mod text;
