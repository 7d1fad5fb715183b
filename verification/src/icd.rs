//! Interface control data: the plain wire-level value types that endpoint
//! requests and responses are built from.

use vstd::prelude::*;

verus! {

/// One RGB triple, eight bits per channel.
#[derive(Clone, Copy, Debug, PartialEq, Eq, Structural)]
pub struct Rgb8 {
    pub r: u8,
    pub g: u8,
    pub b: u8,
}

/// Request body for setting a single LED: a position and a colour.
#[derive(Clone, Copy, Debug, PartialEq, Eq, Structural)]
pub struct SingleLed {
    pub position: u32,
    pub rgb: Rgb8,
}

/// Application-level failure carried inside an ordinary response when a
/// request names an LED position the device does not have.
#[derive(Clone, Copy, Debug, PartialEq, Eq, Structural)]
pub struct BadPositionError;

} // verus!
