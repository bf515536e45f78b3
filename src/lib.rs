//! Seat allocation for single-member-constituency elections.
//!
//! The library resolves each constituency under a chosen electoral system
//! (plurality, or instant runoff with preference transfers) and folds the
//! winners into a national seat table.
pub mod model;
pub mod ranking;
pub mod transfer;
pub mod runoff;
pub mod simulation;
pub mod laws;
pub mod presets;
pub mod totals;
