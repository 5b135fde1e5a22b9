//! Verified core of a companion tool for the Flipper Zero: the text protocol
//! spoken over its serial CLI, screen frames, file listings, firmware
//! versions and the tool's configuration.
use vstd::prelude::*;

pub mod config;
pub mod device;
pub mod files;
pub mod firmware;
pub mod protocol;
pub mod screen;
pub mod text;

verus! {

} // verus!
