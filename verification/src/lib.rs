//! Resolve user-supplied tokens — species names, numeric identifiers,
//! region names, or requests for a random entry — to sprite paths, and
//! compose the resolved sprites side by side on a common baseline.

pub mod config;
pub mod list;
pub mod pokemon;
pub mod random;
pub mod sprites;
pub mod text;
