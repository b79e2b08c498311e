//! Integer plane geometry: points, the bend of an edge, and one step of a train.

use vstd::prelude::*;

verus! {

/// A grid point.
#[derive(Debug, PartialEq, Eq, Structural, Clone, Copy, Hash)]
pub struct Point {
    pub x: i32,
    pub y: i32,
}

impl Point {
    /// The point with the coordinates `x` and `y`.
    pub fn new(x: i32, y: i32) -> (p: Self)
        ensures
            p == (Point { x, y }),
    {
        Point { x, y }
    }
}

/// Largest magnitude of a coordinate of a station or of a bend.
pub const COORD_LIMIT: i32 = 1_000_000_000;

/// The sign of `v`: 1, -1 or 0.
pub open spec fn sign(v: int) -> int {
    if v > 0 {
        1
    } else if v < 0 {
        -1
    } else {
        0
    }
}

/// The magnitude of `v`.
pub open spec fn abs(v: int) -> int {
    if v < 0 {
        -v
    } else {
        v
    }
}

/// `len` laid out in the direction of `dir`: the product of `len` and the sign of `dir`.
pub open spec fn toward(len: int, dir: int) -> int {
    if dir > 0 {
        len
    } else if dir < 0 {
        -len
    } else {
        0
    }
}

/// Both coordinates are at most `limit` in magnitude.
pub open spec fn within(p: Point, limit: int) -> bool {
    -limit <= p.x <= limit && -limit <= p.y <= limit
}

/// The bend between `a` and `b`: a diagonal of 45 degrees out of `a`, then a
/// tail along one axis into `b`.
pub open spec fn via_point(a: Point, b: Point) -> (int, int) {
    let dx = b.x - a.x;
    let dy = b.y - a.y;
    if abs(dx) < abs(dy) {
        (a.x + dx, a.y + toward(abs(dx), dy))
    } else {
        (a.x + toward(abs(dy), dx), a.y + dy)
    }
}

/// Computes the bend between two points.
pub fn via_point_between(a: Point, b: Point) -> (v: Point)
    ensures
        (v.x as int, v.y as int) == via_point(a, b),
        within(a, COORD_LIMIT as int) && within(b, COORD_LIMIT as int) ==> within(
            v,
            COORD_LIMIT as int,
        ),
{
    let dx: i64 = b.x as i64 - a.x as i64;
    let dy: i64 = b.y as i64 - a.y as i64;
    let adx: i64 = if dx < 0 { -dx } else { dx };
    let ady: i64 = if dy < 0 { -dy } else { dy };
    if adx < ady {
        let off: i64 = if dy > 0 { adx } else { -adx };
        let y: i64 = a.y as i64 + off;
        Point { x: b.x, y: y as i32 }
    } else {
        let off: i64 = if dx > 0 { ady } else if dx < 0 { -ady } else { 0 };
        let x: i64 = a.x as i64 + off;
        Point { x: x as i32, y: b.y }
    }
}

/// Largest distance along one axis between a train and the point it heads for.
pub const REACH_LIMIT: i64 = 2_000_065_535;

/// Whether `to` lies farther from `from` than `reach`, by Euclidean distance.
pub open spec fn farther_than(from: Point, to: Point, reach: int) -> bool {
    let dx = to.x - from.x;
    let dy = to.y - from.y;
    dx * dx + dy * dy > reach * reach
}

/// Where a train at `pos` that heads for `heading` stands after one step at
/// `speed`. While the goal is farther away than `speed`, the train moves by
/// `speed` along each axis on which it is off the goal; otherwise it lands on
/// the goal.
pub open spec fn step_toward(pos: Point, heading: Point, speed: int) -> (int, int) {
    if farther_than(pos, heading, speed) {
        (pos.x + toward(speed, heading.x - pos.x), pos.y + toward(speed, heading.y - pos.y))
    } else {
        (heading.x as int, heading.y as int)
    }
}

/// The square of a distance along one axis.
pub(crate) fn square(d: i64) -> (r: i64)
    requires
        -REACH_LIMIT <= d <= REACH_LIMIT,
    ensures
        r == d * d,
        0 <= r <= REACH_LIMIT * REACH_LIMIT,
{
    assert(0 <= d * d <= REACH_LIMIT * REACH_LIMIT) by (nonlinear_arith)
        requires
            -REACH_LIMIT <= d <= REACH_LIMIT,
    ;
    d * d
}

/// Whether `a` and `b` are closer to each other than `gap`, by Euclidean distance.
pub open spec fn closer_than(a: Point, b: Point, gap: int) -> bool {
    let dx = a.x - b.x;
    let dy = a.y - b.y;
    dx * dx + dy * dy < gap * gap
}

/// Decides [`closer_than`] for two points within the coordinate limit.
pub fn is_closer_than(a: Point, b: Point, gap: u16) -> (r: bool)
    requires
        within(a, COORD_LIMIT as int),
        within(b, COORD_LIMIT as int),
    ensures
        r == closer_than(a, b, gap as int),
{
    let dx: i64 = a.x as i64 - b.x as i64;
    let dy: i64 = a.y as i64 - b.y as i64;
    square(dx) + square(dy) < square(gap as i64)
}

/// A step towards a goal within the coordinate limit keeps a train within
/// reach of that limit.
pub proof fn lemma_step_within(pos: Point, heading: Point, speed: int)
    requires
        0 <= speed,
        within(heading, COORD_LIMIT as int),
        within(pos, COORD_LIMIT + speed),
    ensures
        -(COORD_LIMIT + speed) <= step_toward(pos, heading, speed).0 <= COORD_LIMIT + speed,
        -(COORD_LIMIT + speed) <= step_toward(pos, heading, speed).1 <= COORD_LIMIT + speed,
{
}

/// Moves a train by one step; see [`step_toward`].
pub fn step_point(pos: Point, heading: Point, speed: u16) -> (p: Point)
    requires
        within(heading, COORD_LIMIT as int),
        within(pos, COORD_LIMIT + speed),
    ensures
        (p.x as int, p.y as int) == step_toward(pos, heading, speed as int),
        within(p, COORD_LIMIT + speed),
{
    let dx: i64 = heading.x as i64 - pos.x as i64;
    let dy: i64 = heading.y as i64 - pos.y as i64;
    let reach: i64 = speed as i64;
    let far = square(dx) + square(dy) > square(reach);
    if far {
        let sx: i64 = if dx > 0 { reach } else if dx < 0 { -reach } else { 0 };
        let sy: i64 = if dy > 0 { reach } else if dy < 0 { -reach } else { 0 };
        let x: i64 = pos.x as i64 + sx;
        let y: i64 = pos.y as i64 + sy;
        Point { x: x as i32, y: y as i32 }
    } else {
        heading
    }
}

} // verus!
