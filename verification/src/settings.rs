//! Where the scale looks for its updates.

use vstd::prelude::*;

verus! {

pub const SCALE_STABLE_OTA_PATH: &'static str = "/yanshay/SpoolEase/main/build/bins/0.6/scale/ota/";

pub const SCALE_UNSTABLE_OTA_PATH: &'static str = "/yanshay/SpoolEase/main/build/bins/0.6/scale/ota-unstable/";

pub const SCALE_DEBUG_OTA_PATH: &'static str = "/yanshay/SpoolEase/main/build/bins/0.6/scale/debug/";

pub const OTA_DOMAIN_STABLE: &'static str = "raw.githubusercontent.com";

pub const OTA_DOMAIN_UNSTABLE: &'static str = "raw.githubusercontent.com";

pub const OTA_DOMAIN_DEBUG: &'static str = "raw.githubusercontent.com";

} // verus!
