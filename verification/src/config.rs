//! The configuration record that map generation consumes: grid dimensions,
//! an optional player count, and the desired territory size, as delivered by
//! the host's settings loading.

use vstd::prelude::*;

verus! {

/// The map generation settings. An absent player count defaults to eight; a
/// territory size of zero is treated as one.
#[derive(Clone, Debug)]
pub struct GameSettings {
    pub width: u32,
    pub height: u32,
    pub area_size: u32,
    pub player_count: Option<u32>,
}

impl GameSettings {
    /// The player count after applying the default of eight.
    pub open spec fn spec_resolved_player_count(&self) -> u32 {
        match self.player_count {
            Some(p) => p,
            None => 8u32,
        }
    }

    /// The target territory size after treating zero as one.
    pub open spec fn spec_resolved_area_size(&self) -> u32 {
        if self.area_size == 0 {
            1u32
        } else {
            self.area_size
        }
    }

    /// The player count after applying the default of eight.
    pub fn resolved_player_count(&self) -> (r: u32)
        ensures
            r == self.spec_resolved_player_count(),
    {
        match self.player_count {
            Some(p) => p,
            None => 8,
        }
    }

    /// The target territory size after treating zero as one.
    pub fn resolved_area_size(&self) -> (r: u32)
        ensures
            r == self.spec_resolved_area_size(),
            r >= 1,
    {
        if self.area_size == 0 {
            1
        } else {
            self.area_size
        }
    }
}

} // verus!
