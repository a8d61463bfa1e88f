use vstd::prelude::*;

use crate::point::Point2;

verus! {

/// The corners of the rectangle spanned by two points: the smaller
/// coordinates first, the larger second.
pub open spec fn normalize_spec(p1: Point2<i32>, p2: Point2<i32>) -> (Point2<i32>, Point2<i32>) {
    (
        Point2 {
            x: if p1.x <= p2.x { p1.x } else { p2.x },
            y: if p1.y <= p2.y { p1.y } else { p2.y },
        },
        Point2 {
            x: if p1.x >= p2.x { p1.x } else { p2.x },
            y: if p1.y >= p2.y { p1.y } else { p2.y },
        },
    )
}

/// The two positions in reading order: the one on the earlier line first,
/// and on one line the one at the earlier column.
pub open spec fn order_spec(p1: Point2<i32>, p2: Point2<i32>) -> (Point2<i32>, Point2<i32>) {
    if p1.y < p2.y || (p1.y == p2.y && p1.x <= p2.x) {
        (p1, p2)
    } else {
        (p2, p1)
    }
}

pub(crate) fn order_points(p1: Point2<i32>, p2: Point2<i32>) -> (r: (Point2<i32>, Point2<i32>))
    ensures
        r == order_spec(p1, p2),
{
    if p1.y < p2.y || (p1.y == p2.y && p1.x <= p2.x) {
        (p1, p2)
    } else {
        (p2, p1)
    }
}

/// A point of non-negative coordinates as column and line.
pub open spec fn cast_point_spec(point: Point2<i32>) -> Point2<usize> {
    Point2 { x: point.x as usize, y: point.y as usize }
}

pub(crate) fn cast_point(point: Point2<i32>) -> (p: Point2<usize>)
    requires
        point.x >= 0,
        point.y >= 0,
    ensures
        p == cast_point_spec(point),
{
    Point2::new(point.x as usize, point.y as usize)
}

pub(crate) fn normalize_points(p1: Point2<i32>, p2: Point2<i32>) -> (r: (Point2<i32>, Point2<i32>))
    ensures
        r == normalize_spec(p1, p2),
{
    let min_x = if p1.x <= p2.x { p1.x } else { p2.x };
    let min_y = if p1.y <= p2.y { p1.y } else { p2.y };
    let max_x = if p1.x >= p2.x { p1.x } else { p2.x };
    let max_y = if p1.y >= p2.y { p1.y } else { p2.y };
    (Point2::new(min_x, min_y), Point2::new(max_x, max_y))
}

/// The two numbers, the smaller first.
pub fn normalize_number(n1: usize, n2: usize) -> (r: (usize, usize))
    ensures
        r.0 <= r.1,
        (r == (n1, n2)) || (r == (n2, n1)),
        n1 <= n2 ==> r == (n1, n2),
{
    if n1 > n2 {
        (n2, n1)
    } else {
        (n1, n2)
    }
}

/// The point with negative coordinates moved to 0.
pub fn clamp_to_edge(point: Point2<i32>) -> (p: Point2<i32>)
    ensures
        p.x == (if point.x < 0 { 0 } else { point.x }),
        p.y == (if point.y < 0 { 0 } else { point.y }),
{
    let x = if point.x < 0 {
        0
    } else {
        point.x
    };
    let y = if point.y < 0 {
        0
    } else {
        point.y
    };
    Point2::new(x, y)
}

} // verus!
