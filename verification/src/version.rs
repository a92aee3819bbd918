//! Version information.

use vstd::prelude::*;

verus! {

/// The crate's release version, as published in its package metadata.
pub const VERSION: &'static str = "0.1.0";

} // verus!
