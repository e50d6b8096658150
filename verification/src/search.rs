//! Searching for albums: the queries that are sent, and what is kept of the
//! answers.

pub mod cascade;
pub mod grouping;
pub mod identity;
pub mod identity_laws;
pub mod laws;
pub mod matching;
pub mod terms;
pub mod titles;
