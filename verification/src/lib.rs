//! Material Design color utilities: the integer core.
//!
//! Packed ARGB colors, the Wu color quantizer, the integer steps of the
//! weighted k-means quantizer, the dynamic-color role and variant catalogs,
//! and small helpers, each with a machine-checked contract.

pub mod argb;
pub mod capi;
pub mod dynamic;
pub mod palettes;
pub mod quantize;
pub mod score;
pub mod temperature;
pub mod utils;

pub use argb::Argb;
pub use dynamic::{DynamicColorRole, Variant};

use vstd::prelude::*;

verus! {

/// The version of this library.
pub const VERSION: &'static str = "1.0.0";

} // verus!
