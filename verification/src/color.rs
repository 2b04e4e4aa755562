use vstd::prelude::*;

verus! {

/// An RGBA color, one byte per channel, alpha `0` meaning fully transparent.
#[derive(Clone, Copy, PartialEq, Eq, Structural, Debug)]
pub struct Color {
    pub r: u8,
    pub g: u8,
    pub b: u8,
    pub a: u8,
}

impl Color {
    /// The fully transparent color that freshly created layers are filled with.
    pub open spec fn spec_transparent() -> Color {
        Color { r: 0, g: 0, b: 0, a: 0 }
    }

    #[verifier::when_used_as_spec(spec_transparent)]
    pub fn transparent() -> (c: Color)
        ensures
            c == Color::spec_transparent(),
    {
        Color { r: 0, g: 0, b: 0, a: 0 }
    }

    /// Dark checkerboard cell of the synthetic alpha layer.
    pub open spec fn spec_dark_gray() -> Color {
        Color { r: 96, g: 96, b: 96, a: 255 }
    }

    #[verifier::when_used_as_spec(spec_dark_gray)]
    pub fn dark_gray() -> (c: Color)
        ensures
            c == Color::spec_dark_gray(),
    {
        Color { r: 96, g: 96, b: 96, a: 255 }
    }

    /// Light checkerboard cell of the synthetic alpha layer.
    pub open spec fn spec_light_gray() -> Color {
        Color { r: 220, g: 220, b: 220, a: 255 }
    }

    #[verifier::when_used_as_spec(spec_light_gray)]
    pub fn light_gray() -> (c: Color)
        ensures
            c == Color::spec_light_gray(),
    {
        Color { r: 220, g: 220, b: 220, a: 255 }
    }

    /// Semi-transparent black used for tool-cursor preview squares.
    pub open spec fn spec_highlight() -> Color {
        Color { r: 0, g: 0, b: 0, a: 127 }
    }

    #[verifier::when_used_as_spec(spec_highlight)]
    pub fn highlight() -> (c: Color)
        ensures
            c == Color::spec_highlight(),
    {
        Color { r: 0, g: 0, b: 0, a: 127 }
    }
}

} // verus!
