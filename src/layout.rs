use vstd::prelude::*;

verus! {

/// Integer pixels.
pub type Pixel = usize;

#[derive(Clone, Copy)]
pub struct Size {
    pub width: Pixel,
    pub height: Pixel,
}

/// Position from the top left of the screen.
#[derive(Clone, Copy)]
pub struct Position {
    pub x: Pixel,
    pub y: Pixel,
}

/// Optional ceilings on width and height; an absent ceiling always fits.
#[derive(Clone, Copy)]
pub struct SizeConstraint {
    pub width: Option<Pixel>,
    pub height: Option<Pixel>,
}

/// Whether `value` is within the optional `bound`.
pub open spec fn within(bound: Option<Pixel>, value: int) -> bool {
    match bound {
        Some(b) => value <= b,
        None => true,
    }
}

impl SizeConstraint {
    pub open spec fn fits_width_spec(&self, width: int) -> bool {
        within(self.width, width)
    }

    pub open spec fn fits_height_spec(&self, height: int) -> bool {
        within(self.height, height)
    }

    pub open spec fn fits_spec(&self, width: int, height: int) -> bool {
        self.fits_width_spec(width) && self.fits_height_spec(height)
    }

    /// No ceiling on either axis.
    pub fn auto() -> (r: Self)
        ensures
            r.width is None,
            r.height is None,
    {
        Self { height: None, width: None }
    }

    /// A width ceiling only.
    pub fn intrinsic_width(width: Pixel) -> (r: Self)
        ensures
            r.width == Some(width),
            r.height is None,
    {
        Self { width: Some(width), height: None }
    }

    /// A height ceiling only.
    pub fn intrinsic_height(height: Pixel) -> (r: Self)
        ensures
            r.height == Some(height),
            r.width is None,
    {
        Self { height: Some(height), width: None }
    }

    pub fn fits(&self, inner: Size) -> (r: bool)
        ensures
            r == self.fits_spec(inner.width as int, inner.height as int),
    {
        self.fits_width(inner.width) && self.fits_height(inner.height)
    }

    pub fn fits_width(&self, width: Pixel) -> (r: bool)
        ensures
            r == self.fits_width_spec(width as int),
    {
        match self.width {
            Some(cw) => width <= cw,
            None => true,
        }
    }

    pub fn fits_height(&self, height: Pixel) -> (r: bool)
        ensures
            r == self.fits_height_spec(height as int),
    {
        match self.height {
            Some(ch) => height <= ch,
            None => true,
        }
    }
}

} // verus!
