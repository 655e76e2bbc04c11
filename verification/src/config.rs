//! The configuration: its files, what may stand in them, and the policy they make.
//!
//! A configuration is read in layers, and a later layer overrides an earlier one key by key. A
//! layer with anything wrong in it is dropped as a whole and recorded as a fault; the layers around
//! it stay in force.

pub mod document;
pub mod error;
pub mod judged;
pub mod laws;
pub mod listing;
pub mod load;
pub mod meaning;
pub mod section;
pub mod timeout;
pub mod written;
