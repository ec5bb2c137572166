//! A small library for modelling multimedia timelines: tracks that hold
//! time-ordered, collision-checked segments, and a timeline that routes a
//! segment into the first track with room for it.

pub mod base;
pub mod subtitle;
pub mod timeline;

