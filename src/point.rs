//! Points of the plane with integer coordinates.
use vstd::prelude::*;

verus! {

pub struct Point {
    pub x: i32,
    pub y: i32,
}

pub open spec fn abs(v: int) -> int {
    if v < 0 {
        -v
    } else {
        v
    }
}

/// The Manhattan distance between two points.
pub open spec fn distance(a: Point, b: Point) -> int {
    abs(a.x - b.x) + abs(a.y - b.y)
}

impl Point {
    /// The distance to `p2` along the axes.
    pub fn manhattan_distance(&self, p2: Point) -> (r: i32)
        requires
            distance(*self, p2) <= i32::MAX,
        ensures
            r == distance(*self, p2),
    {
        let dx: i64 = self.x as i64 - p2.x as i64;
        let dy: i64 = self.y as i64 - p2.y as i64;
        let ax: i64 = if dx < 0 { -dx } else { dx };
        let ay: i64 = if dy < 0 { -dy } else { dy };
        (ax + ay) as i32
    }
}

/// The side of the smallest square, anchored at the origin, that reaches every
/// point: the largest coordinate of all, given for both axes.
pub fn get_edge_coordinates(points: &Vec<Point>) -> (r: (i32, i32))
    requires
        points@.len() > 0,
    ensures
        r.0 == r.1,
        forall|i: int| 0 <= i < points@.len() ==> #[trigger] points@[i].x <= r.0 && points@[i].y <= r.0,
        exists|i: int| 0 <= i < points@.len() && (#[trigger] points@[i].x == r.0 || points@[i].y == r.0),
{
    let mut best: i32 = if points[0].x > points[0].y { points[0].x } else { points[0].y };
    let mut i: usize = 1;
    let ghost mut at: int = 0;
    while i < points.len()
        invariant
            1 <= i <= points@.len(),
            forall|j: int| 0 <= j < i ==> #[trigger] points@[j].x <= best && points@[j].y <= best,
            0 <= at < i,
            points@[at].x == best || points@[at].y == best,
        decreases points@.len() - i,
    {
        let p = &points[i];
        if p.x > best {
            best = p.x;
            proof {
                at = i as int;
            }
        }
        if p.y > best {
            best = p.y;
            proof {
                at = i as int;
            }
        }
        i += 1;
    }
    assert(points@[at].x == best || points@[at].y == best);
    (best, best)
}

} // verus!
