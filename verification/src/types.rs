//! What the slicer knows of a filament.

use vstd::prelude::*;

verus! {

/// A filament of the slicer, and how it was found.
#[derive(Debug)]
pub struct FilamentSupInfo {
    /// It was found by the material, not by its own code.
    pub origin_is_material: bool,
    /// It is one of the slicer's own filaments.
    pub base_filament: bool,
    pub slicer_name: String,
    pub slicer_code: String,
    pub nozzle_temp_low: i32,
    pub nozzle_temp_high: i32,
}

} // verus!
