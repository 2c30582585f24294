//! What can go wrong while a frame is rendered.

use vstd::prelude::*;

verus! {

/// The ways in which a drawing surface can fail.
#[derive(Clone, Copy, Debug, PartialEq, Eq, Structural)]
pub enum RenderError {
    /// The surface, or its 2D context, could not be created.
    SurfaceCreation,
    /// The surface rejected a transform or a fill.
    DrawCall,
    /// The surface denied a pixel read or write.
    PixelIo,
}

} // verus!
