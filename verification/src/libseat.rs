//! Events of the seat manager.
use vstd::prelude::*;

verus! {

/// What the seat manager announces.
#[derive(Debug, Clone, Copy, PartialEq, Eq, Structural)]
pub enum Event {
    Enable,
    Disable,
}

/// Names a device that was opened on the seat.
#[derive(Debug)]
#[must_use]
pub struct DeviceId(pub i32);

} // verus!
