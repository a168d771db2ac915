//! Verified core of a directory listing tool: entries for the immediate
//! children of a directory, recursive size aggregation, ordering of the
//! entry sequence, human-readable size formatting with color tiers, and
//! table rendering.

pub mod casefold;
pub mod entry;
pub mod sorting;
pub mod human;
pub mod render;
pub mod sizing;
