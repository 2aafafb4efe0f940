//! Greedy spacer fitting: an inventory of shims kept thickest first, the
//! largest-first fit of a target thickness, and a log of saved fits.

pub mod decimal;
pub mod registry;
pub mod fit;
pub mod log;
pub mod state;
