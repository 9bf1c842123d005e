//! Cursor shapes that clients name.
use vstd::prelude::*;

use crate::cursor::{Cursor, Shape};

verus! {

/// Requests on a cursor shape object.
#[derive(Debug, Clone, Copy, PartialEq, Eq, Structural)]
pub enum ShapeDeviceRequest {
    Destroy,
    SetShape(Shape),
}

/// Handles a request on a cursor shape object.
pub fn shape_device_cb(cursor: &mut Cursor, request: ShapeDeviceRequest)
    ensures
        final(cursor)@ == (match request {
            ShapeDeviceRequest::Destroy => old(cursor)@,
            ShapeDeviceRequest::SetShape(shape) => old(cursor)@.shape_set(shape),
        }),
{
    if let ShapeDeviceRequest::SetShape(shape) = request {
        cursor.set_shape(shape);
    }
}

} // verus!
