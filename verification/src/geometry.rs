//! Points of the plane and the play field.

use vstd::prelude::*;

verus! {

/// A point, or a displacement, in millionths of a field unit.
#[derive(Clone, Copy, Debug, PartialEq, Eq, Structural)]
pub struct Vec2 {
    pub x: i64,
    pub y: i64,
}

/// The play field: a rectangle with one corner at the origin. Both sides are
/// positive.
#[derive(Clone, Copy, Debug, PartialEq, Eq)]
pub struct Field {
    width: i64,
    height: i64,
}

impl Field {
    /// The side along x, in millionths.
    pub closed spec fn spec_width(&self) -> i64 {
        self.width
    }

    /// The side along y, in millionths.
    pub closed spec fn spec_height(&self) -> i64 {
        self.height
    }

    /// Both sides are positive.
    #[verifier::type_invariant]
    pub open spec fn valid(self) -> bool {
        0 < self.spec_width() && 0 < self.spec_height()
    }

    /// The field of the given size, if both sides are positive.
    pub fn new(width: i64, height: i64) -> (field: Option<Field>)
        ensures
            field is Some <==> 0 < width && 0 < height,
            field matches Some(f) ==> f.valid() && f.spec_width() == width && f.spec_height()
                == height,
    {
        if 0 < width && 0 < height {
            Some(Field { width, height })
        } else {
            None
        }
    }

    /// The side along x, in millionths.
    #[verifier::when_used_as_spec(spec_width)]
    pub fn width(&self) -> (w: i64)
        ensures
            w == self.spec_width(),
            0 < w,
    {
        proof {
            use_type_invariant(self);
        }
        self.width
    }

    /// The side along y, in millionths.
    #[verifier::when_used_as_spec(spec_height)]
    pub fn height(&self) -> (h: i64)
        ensures
            h == self.spec_height(),
            0 < h,
    {
        proof {
            use_type_invariant(self);
        }
        self.height
    }
}

} // verus!
