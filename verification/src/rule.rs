//! The rules that a release has to meet before a package manager sees it.

use vstd::prelude::*;

verus! {

/// The rules in force.
#[derive(Debug, Clone, Copy)]
pub struct Rules {
    min_age_hours: u32,
}

impl Rules {
    /// The age in hours that a release must have reached.
    pub closed spec fn age(self) -> u32 {
        self.min_age_hours
    }

    /// Rules that ask for releases at least `min_age_hours` old.
    pub fn new(min_age_hours: u32) -> (r: Rules)
        ensures
            r.age() == min_age_hours,
    {
        Rules { min_age_hours }
    }

    /// The age in hours that a release must have reached.
    pub fn min_age_hours(&self) -> (r: u32)
        ensures
            r == self.age(),
    {
        self.min_age_hours
    }
}

} // verus!
