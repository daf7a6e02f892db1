//! Wheel filenames: parsing, rendering and tag-compatibility queries.
pub mod text;
pub mod build_tag;
pub mod outside;
pub mod wheel;
