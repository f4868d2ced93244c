//! The size rule of the cover-art endpoint.

use vstd::prelude::*;

verus! {

/// Covers wider or taller than this many pixels are scaled down before they
/// are served.
pub const MAX_ART_SIDE: u32 = 1024;

/// The square, in pixels, that a scaled-down cover is fitted into.
pub const ART_BOX: u32 = 1000;

/// The box to fit a cover of the given size into, or `None` to serve it as
/// it is.
pub fn resize_box(width: u32, height: u32) -> (r: Option<(u32, u32)>)
    ensures
        r == if width > MAX_ART_SIDE || height > MAX_ART_SIDE {
            Some((ART_BOX, ART_BOX))
        } else {
            None
        },
{
    if width > MAX_ART_SIDE || height > MAX_ART_SIDE {
        Some((ART_BOX, ART_BOX))
    } else {
        None
    }
}

} // verus!
