//! Decomposition of movie-catalogue lines into typed records, with a registry
//! that hands out stable identifiers for titles.
pub mod text;
pub mod id_handler;
pub mod fields;
pub mod movies;
