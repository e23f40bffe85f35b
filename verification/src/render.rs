//! Geometry of the shell's pixel surface.
use vstd::prelude::*;

verus! {

/// The size of a texture, in pixels.
#[derive(Clone, Copy)]
pub struct TextureSize {
    pub width: u32,
    pub height: u32,
}

/// A position on a texture, in pixels.
#[derive(Clone, Copy)]
pub struct TexturePosition {
    pub x: u32,
    pub y: u32,
}

/// Whether a position lies on a texture of the given size: a frame placed
/// outside the texture is discarded by the compositor.
pub fn position_in_texture(position: &TexturePosition, size: &TextureSize) -> (r: bool)
    ensures
        r == (position.x < size.width && position.y < size.height),
{
    position.x < size.width && position.y < size.height
}

} // verus!
