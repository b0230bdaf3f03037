//! Version resolution for Architectury artifacts: a catalog that maps game
//! versions to version sources, and an ordering on version strings that picks
//! the newest candidate a source offers.

pub mod architectury;
pub mod decimal;
pub mod entries;
pub mod json;
pub mod latest;
pub mod metadata;
pub mod nesting;
pub mod order;
pub mod ordering;
pub mod pattern;
pub mod text;
pub mod version;
