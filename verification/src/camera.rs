//! Camera-facing data: a decoded frame and a camera's listing entry.
//! Enumeration and the capture thread are platform I/O and live with the
//! application.

use vstd::prelude::*;

verus! {

/// One decoded camera frame: `width * height` pixels, 3 bytes (R, G, B)
/// each, row-major.
#[derive(Clone)]
pub struct Frame {
    pub width: u32,
    pub height: u32,
    pub rgb: Vec<u8>,
}

/// A camera as listed by the platform backend.
#[derive(Clone, Debug)]
pub struct CameraInfo {
    pub index: u32,
    pub name: String,
}

} // verus!
