//! The data the database holds, and the pure parts of its queries.
pub mod queries;
