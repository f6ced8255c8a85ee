//! From correlated windows to a map of donor offsets.
pub mod gcc_phat;
pub mod offset_map;
pub mod refine;
pub mod sliding;
