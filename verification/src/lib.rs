//! Duplicate-photo tooling for Flickr libraries: the method and model
//! catalogue of the deduplication engine, perceptual-hash pair search,
//! OAuth 1.0a request signing, Flickr request building and pagination,
//! and metadata-based duplicate grouping.

pub mod text;
pub mod params;
pub mod types;
pub mod oauth;
pub mod token_file;
pub mod models;
pub mod engine;
pub mod phash;
pub mod scan;
pub mod fuzzy;
pub mod client;
pub mod config;
