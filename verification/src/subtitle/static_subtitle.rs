//! A subtitle held in memory: a time range and its text.

use vstd::prelude::*;

use crate::base::time::Time;

verus! {

/// A subtitle: where it starts, how long it shows, and what it says.
#[derive(Debug)]
pub struct StaticSubtitle {
    pub start: Time,
    pub duration: Time,
    pub content: String,
}

} // verus!
