//! Layout enums of UI components.
use vstd::prelude::*;

verus! {

/// Arithmetic operator of a size expression.
#[derive(Debug, Clone, Copy, PartialEq, Eq, Structural)]
pub enum SizeOp {
    Add,
    Sub,
    Mul,
    Div,
}

/// How a texture is sized within its layout bounds.
#[derive(Debug, Clone, Copy, PartialEq, Eq, Structural)]
pub enum ObjectFit {
    /// Stretch to fill the bounds.
    Warp,
    /// Scale to fill the bounds, cropping the excess.
    Cover,
    /// Scale to fit inside the bounds.
    Contain,
}

impl Default for ObjectFit {
    fn default() -> (r: Self)
        ensures
            r == ObjectFit::Warp,
    {
        ObjectFit::Warp
    }
}

/// Whether a gradient runs along a line or outward from the centre.
#[derive(Debug, Clone, Copy, PartialEq, Eq, Structural)]
pub enum GradientType {
    Linear,
    Radial,
}

impl Default for GradientType {
    fn default() -> (r: Self)
        ensures
            r == GradientType::Linear,
    {
        GradientType::Linear
    }
}

/// Horizontal alignment of a container's children.
#[derive(Debug, Clone, Copy, PartialEq, Eq, Structural)]
pub enum AlignX {
    Left,
    Center,
    Right,
}

/// Vertical alignment of a container's children.
#[derive(Debug, Clone, Copy, PartialEq, Eq, Structural)]
pub enum AlignY {
    Top,
    Center,
    Bottom,
}

impl Default for AlignX {
    fn default() -> (r: Self)
        ensures
            r == AlignX::Left,
    {
        AlignX::Left
    }
}

impl Default for AlignY {
    fn default() -> (r: Self)
        ensures
            r == AlignY::Top,
    {
        AlignY::Top
    }
}

/// The runtime backend of a `physics-container-2d` element.
#[derive(Debug, Clone, Copy, PartialEq, Eq, Structural)]
pub enum Physics2DEngine {
    /// A macroquad-based scene callback.
    Macroquad,
    /// A bevy-based scene callback.
    Bevy,
}

impl Default for Physics2DEngine {
    fn default() -> (r: Self)
        ensures
            r == Physics2DEngine::Macroquad,
    {
        Physics2DEngine::Macroquad
    }
}

} // verus!
