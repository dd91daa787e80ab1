//! Confinement of a circle to the play field.

use vstd::prelude::*;
use crate::geometry::{Field, Vec2};

verus! {

/// One coordinate of a circle's centre after confinement: raised to `radius`
/// if it was below, then lowered to `dimension - radius` if it is above.
pub open spec fn clamp_axis(x: int, radius: int, dimension: int) -> int {
    let raised = if x < radius { radius } else { x };
    if raised > dimension - radius { dimension - radius } else { raised }
}

/// Whether confinement moves the coordinate at either edge.
pub open spec fn axis_clamped(x: int, radius: int, dimension: int) -> bool {
    x < radius || x > dimension - radius || radius > dimension - radius
}

/// A confined position, and per axis whether the edge was met.
#[derive(Clone, Copy, Debug, PartialEq, Eq, Structural)]
pub struct Confined {
    pub position: Vec2,
    pub clamped_x: bool,
    pub clamped_y: bool,
}

/// What `confine` returns.
pub open spec fn confined(position: Vec2, radius: u32, field: Field) -> Confined {
    Confined {
        position: Vec2 {
            x: clamp_axis(position.x as int, radius as int, field.width() as int) as i64,
            y: clamp_axis(position.y as int, radius as int, field.height() as int) as i64,
        },
        clamped_x: axis_clamped(position.x as int, radius as int, field.width() as int),
        clamped_y: axis_clamped(position.y as int, radius as int, field.height() as int),
    }
}

fn confine_axis(x: i64, radius: u32, dimension: i64) -> (r: (i64, bool))
    requires
        0 < dimension,
    ensures
        r.0 == clamp_axis(x as int, radius as int, dimension as int),
        r.1 == axis_clamped(x as int, radius as int, dimension as int),
{
    let low: i64 = radius as i64;
    let high: i64 = dimension - low;
    let mut value: i64 = x;
    let mut clamped = false;
    if value < low {
        value = low;
        clamped = true;
    }
    if value > high {
        value = high;
        clamped = true;
    }
    (value, clamped)
}

/// Moves the centre of a circle of the given radius so that the circle does
/// not cross the field's edges, and reports on which axes it had to. On an
/// axis on which the field is narrower than the circle, the centre goes to
/// `dimension - radius`.
pub fn confine(position: Vec2, radius: u32, field: Field) -> (c: Confined)
    ensures
        c == confined(position, radius, field),
        field.width() >= 2 * radius ==> radius <= c.position.x <= field.width() - radius,
        field.height() >= 2 * radius ==> radius <= c.position.y <= field.height() - radius,
        confined(c.position, radius, field).position == c.position,
{
    let (x, clamped_x) = confine_axis(position.x, radius, field.width());
    let (y, clamped_y) = confine_axis(position.y, radius, field.height());
    Confined { position: Vec2 { x, y }, clamped_x, clamped_y }
}

/// A confined coordinate lies between `radius` and `dimension - radius`
/// whenever the field is at least as wide as the circle.
pub proof fn lemma_clamp_axis_within(x: int, radius: int, dimension: int)
    requires
        dimension >= 2 * radius,
    ensures
        radius <= clamp_axis(x, radius, dimension) <= dimension - radius,
{
}

/// Confining twice is confining once.
pub proof fn lemma_clamp_axis_idempotent(x: int, radius: int, dimension: int)
    ensures
        clamp_axis(clamp_axis(x, radius, dimension), radius, dimension) == clamp_axis(
            x,
            radius,
            dimension,
        ),
{
}

/// In a field at least as wide as the circle, an edge was met exactly when
/// the coordinate moved, and a confined coordinate meets none.
pub proof fn lemma_axis_clamped_iff_moved(x: int, radius: int, dimension: int)
    requires
        dimension >= 2 * radius,
    ensures
        axis_clamped(x, radius, dimension) <==> clamp_axis(x, radius, dimension) != x,
        !axis_clamped(clamp_axis(x, radius, dimension), radius, dimension),
{
}

/// A confined circle lies inside a field that has room for it, and
/// confining it again changes nothing.
pub proof fn lemma_confined_within(position: Vec2, radius: u32, field: Field)
    requires
        field.valid(),
    ensures
        confined(confined(position, radius, field).position, radius, field).position == confined(
            position,
            radius,
            field,
        ).position,
        field.width() >= 2 * radius ==> radius <= confined(position, radius, field).position.x
            <= field.width() - radius,
        field.height() >= 2 * radius ==> radius <= confined(position, radius, field).position.y
            <= field.height() - radius,
        field.width() >= 2 * radius && field.height() >= 2 * radius ==> {
            let again = confined(confined(position, radius, field).position, radius, field);
            !again.clamped_x && !again.clamped_y
        },
{
}

} // verus!
