//! Settings endpoints: the answer shape.
use vstd::prelude::*;

use std::collections::HashMap;

verus! {

/// Answer of the settings endpoints: every stored setting.
pub struct SettingsResponse {
    pub settings: HashMap<String, String>,
}

} // verus!
