//! Directory-listing layout: attribute resolution, display-width prediction,
//! column packing and grid rendering.

pub mod grid;
pub mod term;
pub mod names;
pub mod attr;
pub mod entry;
pub mod order;
pub mod layout;
pub mod laws;
