//! Headings: vectors of length one, counted in millionths.

use vstd::prelude::*;
use crate::config::UNIT;

verus! {

/// The square of a vector's length.
pub open spec fn norm_squared(x: int, y: int) -> int {
    x * x + y * y
}

/// A vector counts as a heading when its length is `UNIT`, less what
/// rounding each component down to a whole millionth can take away.
pub open spec fn is_unit(x: int, y: int) -> bool {
    UNIT * UNIT - 4 * UNIT - 2 < norm_squared(x, y) <= UNIT * UNIT
}

/// `n` is `UNIT * |c| / sqrt(m)` rounded down, for a component `c` of a
/// vector whose squared length is `m`.
pub open spec fn is_scaled(n: int, c: int, m: int) -> bool {
    0 <= n && n * n * m <= UNIT * UNIT * (c * c) < (n + 1) * (n + 1) * m
}

/// A number without its sign.
pub open spec fn magnitude(v: int) -> int {
    if v < 0 {
        -v
    } else {
        v
    }
}

/// `(hx, hy)` is the vector `(x, y)` scaled to length `UNIT`, each component
/// rounded towards zero.
pub open spec fn points_along(hx: int, hy: int, x: int, y: int) -> bool {
    &&& is_scaled(magnitude(hx), x, norm_squared(x, y))
    &&& is_scaled(magnitude(hy), y, norm_squared(x, y))
    &&& (x >= 0 ==> hx >= 0)
    &&& (x <= 0 ==> hx <= 0)
    &&& (y >= 0 ==> hy >= 0)
    &&& (y <= 0 ==> hy <= 0)
}

/// A heading: a vector of length `UNIT`, up to rounding. One is made from
/// a vector with `from_vector`, and mirrored with `flipped`; its length
/// never changes.
#[derive(Clone, Copy, Debug, PartialEq, Eq)]
pub struct Direction {
    x: i64,
    y: i64,
}

proof fn lemma_square_monotonic(a: int, b: int)
    requires
        0 <= a <= b,
    ensures
        a * a <= b * b,
{
    assert(a * a <= b * b) by (nonlinear_arith)
        requires
            0 <= a <= b,
    ;
}

/// The components of a heading lie between `-UNIT` and `UNIT`.
pub proof fn lemma_unit_components_bounded(x: int, y: int)
    requires
        is_unit(x, y),
    ensures
        -UNIT <= x <= UNIT,
        -UNIT <= y <= UNIT,
{
    assert(x * x >= 0 && y * y >= 0) by (nonlinear_arith);
    assert(magnitude(x) * magnitude(x) == x * x) by (nonlinear_arith);
    assert(magnitude(y) * magnitude(y) == y * y) by (nonlinear_arith);
    if magnitude(x) > UNIT {
        lemma_square_monotonic(UNIT + 1, magnitude(x));
    }
    if magnitude(y) > UNIT {
        lemma_square_monotonic(UNIT + 1, magnitude(y));
    }
}

/// At most one number is a given component scaled.
pub proof fn lemma_scaled_unique(n1: int, n2: int, c: int, m: int)
    requires
        is_scaled(n1, c, m),
        is_scaled(n2, c, m),
    ensures
        n1 == n2,
{
    assert(UNIT * UNIT * (c * c) >= 0) by (nonlinear_arith);
    assert(m > 0) by (nonlinear_arith)
        requires
            (n1 + 1) * (n1 + 1) * m > 0,
    ;
    if n1 < n2 {
        lemma_square_monotonic(n1 + 1, n2);
        assert((n1 + 1) * (n1 + 1) * m <= n2 * n2 * m) by (nonlinear_arith)
            requires
                (n1 + 1) * (n1 + 1) <= n2 * n2,
                m > 0,
        ;
    } else if n2 < n1 {
        lemma_square_monotonic(n2 + 1, n1);
        assert((n2 + 1) * (n2 + 1) * m <= n1 * n1 * m) by (nonlinear_arith)
            requires
                (n2 + 1) * (n2 + 1) <= n1 * n1,
                m > 0,
        ;
    }
}

/// Scaling both components of a vector that is not zero gives a heading.
pub proof fn lemma_scaled_is_unit(nx: int, ny: int, x: int, y: int)
    requires
        x != 0 || y != 0,
        is_scaled(nx, x, norm_squared(x, y)),
        is_scaled(ny, y, norm_squared(x, y)),
    ensures
        is_unit(nx, ny),
        0 <= nx <= UNIT,
        0 <= ny <= UNIT,
{
    let m = norm_squared(x, y);
    let s = UNIT * UNIT;
    let q = nx * nx + ny * ny;
    let q1 = (nx + 1) * (nx + 1) + (ny + 1) * (ny + 1);
    assert(m > 0) by (nonlinear_arith)
        requires
            m == x * x + y * y,
            x != 0 || y != 0,
    ;
    assert(q * m <= s * m) by (nonlinear_arith)
        requires
            nx * nx * m <= s * (x * x),
            ny * ny * m <= s * (y * y),
            m == x * x + y * y,
            q == nx * nx + ny * ny,
    ;
    assert(q <= s) by (nonlinear_arith)
        requires
            q * m <= s * m,
            m > 0,
    ;
    assert(q1 * m > s * m) by (nonlinear_arith)
        requires
            s * (x * x) < (nx + 1) * (nx + 1) * m,
            s * (y * y) < (ny + 1) * (ny + 1) * m,
            m == x * x + y * y,
            q1 == (nx + 1) * (nx + 1) + (ny + 1) * (ny + 1),
    ;
    assert(q1 > s) by (nonlinear_arith)
        requires
            q1 * m > s * m,
            m > 0,
    ;
    assert(nx * nx >= 0 && ny * ny >= 0) by (nonlinear_arith);
    if nx > UNIT {
        lemma_square_monotonic(UNIT + 1, nx);
    }
    if ny > UNIT {
        lemma_square_monotonic(UNIT + 1, ny);
    }
    assert(q1 == q + 2 * nx + 2 * ny + 2) by (nonlinear_arith)
        requires
            q == nx * nx + ny * ny,
            q1 == (nx + 1) * (nx + 1) + (ny + 1) * (ny + 1),
    ;
}

/// Along an axis the heading has the full length `UNIT`.
pub proof fn lemma_scaled_on_axis(n: int, c: int)
    requires
        c != 0,
        is_scaled(n, c, c * c),
    ensures
        n == UNIT,
{
    let m = c * c;
    assert(m > 0) by (nonlinear_arith)
        requires
            m == c * c,
            c != 0,
    ;
    assert(UNIT * UNIT * m < (UNIT + 1) * (UNIT + 1) * m) by (nonlinear_arith)
        requires
            m > 0,
    ;
    assert(is_scaled(UNIT as int, c, m));
    lemma_scaled_unique(n, UNIT as int, c, m);
}

/// The component that is zero stays zero.
pub proof fn lemma_scaled_zero(n: int, m: int)
    requires
        m > 0,
        is_scaled(n, 0, m),
    ensures
        n == 0,
{
    assert(is_scaled(0, 0, m)) by (nonlinear_arith)
        requires
            m > 0,
    ;
    lemma_scaled_unique(n, 0, 0, m);
}

proof fn lemma_scaled_found(n: int, c: int, m: int)
    requires
        0 <= n <= UNIT,
        0 < m,
        c * c <= m,
        n * n * m <= UNIT * UNIT * (c * c),
    ensures
        exists|k: int| is_scaled(k, c, m),
    decreases UNIT - n,
{
    if UNIT * UNIT * (c * c) < (n + 1) * (n + 1) * m {
        assert(is_scaled(n, c, m));
    } else {
        if n == UNIT {
            assert((UNIT + 1) * (UNIT + 1) * m > UNIT * UNIT * (c * c)) by (nonlinear_arith)
                requires
                    c * c <= m,
                    0 < m,
            ;
        }
        lemma_scaled_found(n + 1, c, m);
    }
}

/// Every component of a vector that is not zero can be scaled.
pub proof fn lemma_scaled_exists(c: int, x: int, y: int)
    requires
        x != 0 || y != 0,
        c == x || c == y,
    ensures
        exists|k: int| is_scaled(k, c, norm_squared(x, y)),
{
    let m = norm_squared(x, y);
    assert(0 < m && c * c <= m) by (nonlinear_arith)
        requires
            m == x * x + y * y,
            x != 0 || y != 0,
            c == x || c == y,
    ;
    assert(0 * 0 * m == 0) by (nonlinear_arith);
    assert(UNIT * UNIT * (c * c) >= 0) by (nonlinear_arith);
    lemma_scaled_found(0, c, m);
}

/// `UNIT * c / sqrt(m)` rounded down, found by bisection.
fn scale_component(c: u64, m: u64) -> (n: u64)
    requires
        c <= 0x8000_0000,
        c * c <= m,
        0 < m,
    ensures
        is_scaled(n as int, c as int, m as int),
        n <= UNIT,
{
    let target: u128 = 1_000_000_000_000u128 * ((c as u128) * (c as u128));
    proof {
        assert(c * c <= 0x8000_0000 * 0x8000_0000) by (nonlinear_arith)
            requires
                c <= 0x8000_0000,
        ;
        assert(UNIT == 1_000_000);
        assert(target == UNIT * UNIT * (c * c));
        assert(1_000_001 * 1_000_001 * m > UNIT * UNIT * (c * c)) by (nonlinear_arith)
            requires
                c * c <= m,
                0 < m,
                UNIT == 1_000_000,
        ;
        assert(UNIT * UNIT * (c * c) >= 0) by (nonlinear_arith);
    }
    let mut low: u64 = 0;
    let mut high: u64 = 1_000_001;
    proof {
        assert(low * low * m == 0) by (nonlinear_arith)
            requires
                low == 0,
        ;
        assert(high * high * m == 1_000_001 * 1_000_001 * m) by (nonlinear_arith)
            requires
                high == 1_000_001,
        ;
    }
    while high - low > 1
        invariant
            low < high <= UNIT + 1,
            low * low * m <= target < high * high * m,
            target == UNIT * UNIT * (c * c),
        decreases high - low,
    {
        let mid: u64 = low + (high - low) / 2;
        proof {
            assert(mid * mid <= 1_000_001 * 1_000_001) by (nonlinear_arith)
                requires
                    0 <= mid <= 1_000_001,
            ;
            assert(mid * mid * m <= 1_000_001 * 1_000_001 * 0xffff_ffff_ffff_ffff)
                by (nonlinear_arith)
                requires
                    0 <= mid * mid <= 1_000_001 * 1_000_001,
                    0 <= m <= 0xffff_ffff_ffff_ffff,
            ;
        }
        let square: u128 = (mid as u128) * (mid as u128);
        if square * (m as u128) <= target {
            low = mid;
        } else {
            high = mid;
        }
    }
    low
}

fn magnitude_of(v: i32) -> (a: u64)
    ensures
        a == magnitude(v as int),
        a <= 0x8000_0000,
{
    if v < 0 {
        (-(v as i64)) as u64
    } else {
        v as u64
    }
}

impl Direction {
    /// The component along x, in millionths.
    pub closed spec fn spec_x(&self) -> i64 {
        self.x
    }

    /// The component along y, in millionths.
    pub closed spec fn spec_y(&self) -> i64 {
        self.y
    }

    /// The vector has length one.
    #[verifier::type_invariant]
    pub open spec fn valid(self) -> bool {
        is_unit(self.spec_x() as int, self.spec_y() as int)
    }

    /// The heading of the vector `(x, y)`: the vector scaled to length
    /// `UNIT`, each component rounded towards zero.
    pub open spec fn along(x: int, y: int) -> Direction {
        choose|h: Direction| points_along(h.spec_x() as int, h.spec_y() as int, x, y)
    }

    /// The heading of the vector `(x, y)`, which the zero vector lacks.
    pub open spec fn spec_from_vector(x: int, y: int) -> Option<Direction> {
        if x == 0 && y == 0 {
            None
        } else {
            Some(Direction::along(x, y))
        }
    }

    /// No other heading points along a vector than `along` of it.
    pub proof fn lemma_along_unique(self, x: int, y: int)
        requires
            points_along(self.spec_x() as int, self.spec_y() as int, x, y),
        ensures
            self == Direction::along(x, y),
    {
        let other = Direction::along(x, y);
        let m = norm_squared(x, y);
        lemma_scaled_unique(magnitude(self.x as int), magnitude(other.x as int), x, m);
        lemma_scaled_unique(magnitude(self.y as int), magnitude(other.y as int), y, m);
        if x == 0 {
            assert(self.x == 0 && other.x == 0);
        }
        if y == 0 {
            assert(self.y == 0 && other.y == 0);
        }
    }

    /// A vector that is not zero has a heading: `along` of it points along
    /// it and has length one.
    pub proof fn lemma_along(x: int, y: int)
        requires
            x != 0 || y != 0,
        ensures
            points_along(
                Direction::along(x, y).spec_x() as int,
                Direction::along(x, y).spec_y() as int,
                x,
                y,
            ),
            Direction::along(x, y).valid(),
    {
        let m = norm_squared(x, y);
        assert(0 < m) by (nonlinear_arith)
            requires
                m == x * x + y * y,
                x != 0 || y != 0,
        ;
        lemma_scaled_exists(x, x, y);
        lemma_scaled_exists(y, x, y);
        let nx = choose|k: int| is_scaled(k, x, m);
        let ny = choose|k: int| is_scaled(k, y, m);
        lemma_scaled_is_unit(nx, ny, x, y);
        let hx: int = if x < 0 { -nx } else { nx };
        let hy: int = if y < 0 { -ny } else { ny };
        if x == 0 {
            lemma_scaled_zero(nx, m);
        }
        if y == 0 {
            lemma_scaled_zero(ny, m);
        }
        let h = Direction { x: hx as i64, y: hy as i64 };
        assert(points_along(h.spec_x() as int, h.spec_y() as int, x, y));
        let a = Direction::along(x, y);
        lemma_scaled_is_unit(magnitude(a.x as int), magnitude(a.y as int), x, y);
        assert(magnitude(a.x as int) * magnitude(a.x as int) == a.x * a.x) by (nonlinear_arith);
        assert(magnitude(a.y as int) * magnitude(a.y as int) == a.y * a.y) by (nonlinear_arith);
    }

    /// Along an axis the heading has the full length on that axis and
    /// nothing across it.
    pub proof fn lemma_along_axis(c: int)
        requires
            c != 0,
        ensures
            Direction::along(c, 0).spec_x() == (if c > 0 {
                UNIT as int
            } else {
                -UNIT
            }),
            Direction::along(c, 0).spec_y() == 0,
            Direction::along(0, c).spec_x() == 0,
            Direction::along(0, c).spec_y() == (if c > 0 {
                UNIT as int
            } else {
                -UNIT
            }),
    {
        assert(norm_squared(c, 0) == c * c && norm_squared(0, c) == c * c) by (nonlinear_arith);
        Direction::lemma_along(c, 0);
        Direction::lemma_along(0, c);
        let h = Direction::along(c, 0);
        let v = Direction::along(0, c);
        lemma_scaled_on_axis(magnitude(h.x as int), c);
        lemma_scaled_on_axis(magnitude(v.y as int), c);
    }

    /// Between two axes, at equal parts of each, both components of the
    /// heading are 707106 millionths long.
    pub proof fn lemma_along_diagonal(x: int, y: int)
        requires
            x == 1 || x == -1,
            y == 1 || y == -1,
        ensures
            Direction::along(x, y).spec_x() == 707_106 * x,
            Direction::along(x, y).spec_y() == 707_106 * y,
    {
        Direction::lemma_along(x, y);
        let h = Direction::along(x, y);
        assert(norm_squared(x, y) == 2 && x * x == 1 && y * y == 1) by (nonlinear_arith)
            requires
                x == 1 || x == -1,
                y == 1 || y == -1,
        ;
        assert(is_scaled(707_106, 1, 2)) by (nonlinear_arith);
        assert(is_scaled(707_106, x, 2));
        assert(is_scaled(707_106, y, 2));
        lemma_scaled_unique(magnitude(h.x as int), 707_106, x, 2);
        lemma_scaled_unique(magnitude(h.y as int), 707_106, y, 2);
    }

    /// The heading of the vector `(x, y)`, which the zero vector lacks.
    pub fn from_vector(x: i32, y: i32) -> (heading: Option<Direction>)
        ensures
            heading == Direction::spec_from_vector(x as int, y as int),
            heading matches Some(h) ==> h.valid() && points_along(
                h.spec_x() as int,
                h.spec_y() as int,
                x as int,
                y as int,
            ),
    {
        if x == 0 && y == 0 {
            return None;
        }
        let ax = magnitude_of(x);
        let ay = magnitude_of(y);
        proof {
            assert(ax * ax <= 0x8000_0000 * 0x8000_0000) by (nonlinear_arith)
                requires
                    ax <= 0x8000_0000,
            ;
            assert(ay * ay <= 0x8000_0000 * 0x8000_0000) by (nonlinear_arith)
                requires
                    ay <= 0x8000_0000,
            ;
            assert(ax * ax == x * x) by (nonlinear_arith)
                requires
                    ax == magnitude(x as int),
            ;
            assert(ay * ay == y * y) by (nonlinear_arith)
                requires
                    ay == magnitude(y as int),
            ;
            assert(ax * ax + ay * ay > 0) by (nonlinear_arith)
                requires
                    ax > 0 || ay > 0,
            ;
        }
        let m: u64 = ax * ax + ay * ay;
        let nx = scale_component(ax, m);
        let ny = scale_component(ay, m);
        proof {
            assert(m == norm_squared(x as int, y as int));
            lemma_scaled_is_unit(nx as int, ny as int, x as int, y as int);
            assert(magnitude(-(nx as int)) == nx);
            assert(magnitude(-(ny as int)) == ny);
            assert((-(nx as int)) * (-(nx as int)) == nx * nx) by (nonlinear_arith);
            assert((-(ny as int)) * (-(ny as int)) == ny * ny) by (nonlinear_arith);
            if x == 0 {
                lemma_scaled_zero(nx as int, m as int);
            }
            if y == 0 {
                lemma_scaled_zero(ny as int, m as int);
            }
        }
        let hx: i64 = if x < 0 { -(nx as i64) } else { nx as i64 };
        let hy: i64 = if y < 0 { -(ny as i64) } else { ny as i64 };
        let heading = Direction { x: hx, y: hy };
        proof {
            heading.lemma_along_unique(x as int, y as int);
        }
        Some(heading)
    }

    /// The heading along the positive x axis.
    pub closed spec fn spec_east() -> Direction {
        Direction { x: UNIT, y: 0 }
    }

    /// The heading along the positive x axis is `along` of every vector
    /// that points that way.
    pub proof fn lemma_east()
        ensures
            Direction::spec_east().valid(),
            Direction::spec_east().spec_x() == UNIT,
            Direction::spec_east().spec_y() == 0,
            forall|c: int| c > 0 ==> #[trigger] Direction::along(c, 0) == Direction::spec_east(),
    {
        assert forall|c: int| c > 0 implies #[trigger] Direction::along(c, 0)
            == Direction::spec_east() by {
            Direction::lemma_along_axis(c);
        }
    }

    /// The heading along the positive x axis.
    pub fn east() -> (heading: Direction)
        ensures
            heading == Direction::spec_east(),
            heading.valid(),
    {
        Direction { x: 1_000_000, y: 0 }
    }

    /// The component along x, in millionths.
    #[verifier::when_used_as_spec(spec_x)]
    pub fn x(&self) -> (x: i64)
        ensures
            x == self.spec_x(),
            -UNIT <= x <= UNIT,
    {
        proof {
            use_type_invariant(self);
            lemma_unit_components_bounded(self.x as int, self.y as int);
        }
        self.x
    }

    /// The component along y, in millionths.
    #[verifier::when_used_as_spec(spec_y)]
    pub fn y(&self) -> (y: i64)
        ensures
            y == self.spec_y(),
            -UNIT <= y <= UNIT,
    {
        proof {
            use_type_invariant(self);
            lemma_unit_components_bounded(self.x as int, self.y as int);
        }
        self.y
    }

    /// What `flipped` returns.
    pub closed spec fn spec_flipped(self, flip_x: bool, flip_y: bool) -> Direction {
        Direction {
            x: if flip_x { (-self.x) as i64 } else { self.x },
            y: if flip_y { (-self.y) as i64 } else { self.y },
        }
    }

    /// The heading mirrored on the chosen axes.
    pub fn flipped(self, flip_x: bool, flip_y: bool) -> (heading: Direction)
        ensures
            heading == self.spec_flipped(flip_x, flip_y),
            heading.valid(),
            heading.spec_x() == (if flip_x {
                -self.spec_x()
            } else {
                self.spec_x() as int
            }),
            heading.spec_y() == (if flip_y {
                -self.spec_y()
            } else {
                self.spec_y() as int
            }),
    {
        proof {
            use_type_invariant(self);
            lemma_unit_components_bounded(self.x as int, self.y as int);
            assert((-self.x) * (-self.x) == self.x * self.x) by (nonlinear_arith);
            assert((-self.y) * (-self.y) == self.y * self.y) by (nonlinear_arith);
        }
        Direction {
            x: if flip_x { -self.x } else { self.x },
            y: if flip_y { -self.y } else { self.y },
        }
    }

    /// Mirroring negates the chosen components and keeps the length.
    pub proof fn lemma_flipped(self, flip_x: bool, flip_y: bool)
        requires
            self.valid(),
        ensures
            self.spec_flipped(flip_x, flip_y).spec_x() == (if flip_x {
                -self.spec_x()
            } else {
                self.spec_x() as int
            }),
            self.spec_flipped(flip_x, flip_y).spec_y() == (if flip_y {
                -self.spec_y()
            } else {
                self.spec_y() as int
            }),
            norm_squared(
                self.spec_flipped(flip_x, flip_y).spec_x() as int,
                self.spec_flipped(flip_x, flip_y).spec_y() as int,
            ) == norm_squared(self.spec_x() as int, self.spec_y() as int),
            self.spec_flipped(flip_x, flip_y).valid(),
    {
        lemma_unit_components_bounded(self.x as int, self.y as int);
        assert((-self.x) * (-self.x) == self.x * self.x) by (nonlinear_arith);
        assert((-self.y) * (-self.y) == self.y * self.y) by (nonlinear_arith);
    }
}

} // verus!
