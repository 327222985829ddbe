//! A model: lists of points and edges in model space, and the position
//! of the model-space origin in world space.

use crate::fixed::{sat_i64, tdiv, tdiv_i128};
use crate::three;
use vstd::prelude::*;

verus! {

/// A set of points and edges to render, in model space, together with
/// the world-space position of the model's origin.
pub struct Model {
    /// Points, in model space.
    pub points: Vec<three::Point>,
    /// Edges, as pairs of model-space endpoints.
    pub edges: Vec<(three::Point, three::Point)>,
    /// Position of the model-space origin in world space.
    pub position: three::Point,
}

/// `p` moved from model space into world space: `p + position`, each
/// coordinate saturating into the `i64` range.
pub open spec fn spec_model_to_world(position: three::Point, p: three::Point) -> three::Point {
    three::Point {
        x: three::sat(p.x + position.x),
        y: three::sat(p.y + position.y),
        z: three::sat(p.z + position.z),
    }
}

/// The twelve edges of an axis-aligned cube of the given side length
/// centred on the model-space origin: the four front edges, the four
/// rear edges, and the four edges joining rear to front.
pub open spec fn spec_cube_edges(side_length: i64) -> Seq<(three::Point, three::Point)> {
    let h = tdiv(side_length as int, 2) as i64;
    let nh = -(tdiv(side_length as int, 2)) as i64;
    let f0 = three::Point { x: nh, y: nh, z: h };
    let f1 = three::Point { x: nh, y: h, z: h };
    let f2 = three::Point { x: h, y: h, z: h };
    let f3 = three::Point { x: h, y: nh, z: h };
    let r0 = three::Point { x: nh, y: nh, z: nh };
    let r1 = three::Point { x: nh, y: h, z: nh };
    let r2 = three::Point { x: h, y: h, z: nh };
    let r3 = three::Point { x: h, y: nh, z: nh };
    seq![
        (f0, f1),
        (f1, f2),
        (f2, f3),
        (f3, f0),
        (r0, r1),
        (r1, r2),
        (r2, r3),
        (r3, r0),
        (r0, f0),
        (r1, f1),
        (r2, f2),
        (r3, f3),
    ]
}

/// Every point of the model, in the order the bounds scan visits them:
/// each edge's two endpoints, then the free-standing points.
pub open spec fn spec_all_points(m: Model) -> Seq<three::Point> {
    Seq::new(
        2 * m.edges@.len(),
        |i: int|
            if i % 2 == 0 {
                m.edges@[i / 2].0
            } else {
                m.edges@[i / 2].1
            },
    ) + m.points@
}

impl Model {
    /// Creates a new model at a specified position.
    pub fn new(
        points: Vec<three::Point>,
        edges: Vec<(three::Point, three::Point)>,
        position: three::Point,
    ) -> (m: Model)
        ensures
            m.points == points,
            m.edges == edges,
            m.position == position,
    {
        Model { points, position, edges }
    }

    /// Creates a new cube, centred on the model-space origin, with the
    /// given side length, placed at the given position.
    pub fn new_cube(side_length: i64, position: three::Point) -> (m: Model)
        ensures
            m.points@.len() == 0,
            m.edges@ == spec_cube_edges(side_length),
            m.position == position,
    {
        proof {
            crate::fixed::lemma_tdiv_shrinks(side_length as int, 2);
        }
        let h128 = tdiv_i128(side_length as i128, 2);
        let h = h128 as i64;
        let nh = -h;
        let f0 = three::Point::new(nh, nh, h);
        let f1 = three::Point::new(nh, h, h);
        let f2 = three::Point::new(h, h, h);
        let f3 = three::Point::new(h, nh, h);
        let r0 = three::Point::new(nh, nh, nh);
        let r1 = three::Point::new(nh, h, nh);
        let r2 = three::Point::new(h, h, nh);
        let r3 = three::Point::new(h, nh, nh);
        let mut edges: Vec<(three::Point, three::Point)> = Vec::new();
        edges.push((f0, f1));
        edges.push((f1, f2));
        edges.push((f2, f3));
        edges.push((f3, f0));
        edges.push((r0, r1));
        edges.push((r1, r2));
        edges.push((r2, r3));
        edges.push((r3, r0));
        edges.push((r0, f0));
        edges.push((r1, f1));
        edges.push((r2, f2));
        edges.push((r3, f3));
        proof {
            assert(edges@ =~= spec_cube_edges(side_length));
        }
        Model { points: Vec::new(), edges, position }
    }

    /// Move a model-space point into world space by the model's
    /// position, each coordinate saturating into the `i64` range.
    pub fn model_to_world(&self, point: &three::Point) -> (r: three::Point)
        ensures
            r == spec_model_to_world(self.position, *point),
    {
        three::Point {
            x: sat_i64(point.x as i128 + self.position.x as i128),
            y: sat_i64(point.y as i128 + self.position.y as i128),
            z: sat_i64(point.z as i128 + self.position.z as i128),
        }
    }

    /// The min and max corners of the model's bounding box in model
    /// space, over every point and every edge endpoint.  A model with
    /// nothing in it has a zero box.
    pub fn world_bounds(&self) -> (b: (three::Point, three::Point))
        requires
            self.points@.len() > 0 || self.edges@.len() == 0,
        ensures
            ({
                let s = spec_all_points(*self);
                if s.len() == 0 {
                    b.0 == (three::Point { x: 0, y: 0, z: 0 }) && b.1 == (three::Point {
                        x: 0,
                        y: 0,
                        z: 0,
                    })
                } else {
                    &&& forall|i: int|
                        0 <= i < s.len() ==> b.0.x <= (#[trigger] s[i]).x <= b.1.x && b.0.y
                            <= s[i].y <= b.1.y && b.0.z <= s[i].z <= b.1.z
                    &&& exists|i: int| 0 <= i < s.len() && (#[trigger] s[i]).x == b.0.x
                    &&& exists|i: int| 0 <= i < s.len() && (#[trigger] s[i]).y == b.0.y
                    &&& exists|i: int| 0 <= i < s.len() && (#[trigger] s[i]).z == b.0.z
                    &&& exists|i: int| 0 <= i < s.len() && (#[trigger] s[i]).x == b.1.x
                    &&& exists|i: int| 0 <= i < s.len() && (#[trigger] s[i]).y == b.1.y
                    &&& exists|i: int| 0 <= i < s.len() && (#[trigger] s[i]).z == b.1.z
                }
            }),
    {
        let ghost s = spec_all_points(*self);
        if self.points.len() == 0 && self.edges.len() == 0 {
            proof {
                assert(s.len() == 0);
            }
            return (three::Point::new(0, 0, 0), three::Point::new(0, 0, 0));
        }
        let mut lo = self.points[0];
        let mut hi = self.points[0];
        proof {
            assert(s[2 * self.edges@.len() as int] == self.points@[0]);
        }
        let mut ei: usize = 0;
        while ei < self.edges.len()
            invariant
                self.points@.len() > 0,
                s == spec_all_points(*self),
                ei <= self.edges@.len(),
                s.len() == 2 * self.edges@.len() + self.points@.len(),
                forall|i: int|
                    0 <= i < 2 * ei || i == 2 * self.edges@.len() ==> lo.x
                        <= (#[trigger] s[i]).x <= hi.x && lo.y <= s[i].y <= hi.y && lo.z <= s[i].z
                        <= hi.z,
                exists|i: int| 0 <= i < s.len() && (#[trigger] s[i]).x == lo.x,
                exists|i: int| 0 <= i < s.len() && (#[trigger] s[i]).y == lo.y,
                exists|i: int| 0 <= i < s.len() && (#[trigger] s[i]).z == lo.z,
                exists|i: int| 0 <= i < s.len() && (#[trigger] s[i]).x == hi.x,
                exists|i: int| 0 <= i < s.len() && (#[trigger] s[i]).y == hi.y,
                exists|i: int| 0 <= i < s.len() && (#[trigger] s[i]).z == hi.z,
            decreases self.edges@.len() - ei,
        {
            let e = self.edges[ei];
            proof {
                assert(s[2 * ei as int] == e.0);
                assert(s[2 * ei as int + 1] == e.1);
            }
            lo = bound_min(lo, &e.0);
            hi = bound_max(hi, &e.0);
            lo = bound_min(lo, &e.1);
            hi = bound_max(hi, &e.1);
            ei = ei + 1;
        }
        let mut pi: usize = 0;
        while pi < self.points.len()
            invariant
                self.points@.len() > 0,
                s == spec_all_points(*self),
                pi <= self.points@.len(),
                s.len() == 2 * self.edges@.len() + self.points@.len(),
                forall|i: int|
                    0 <= i < 2 * self.edges@.len() + pi ==> lo.x <= (#[trigger] s[i]).x <= hi.x
                        && lo.y <= s[i].y <= hi.y && lo.z <= s[i].z <= hi.z,
                exists|i: int| 0 <= i < s.len() && (#[trigger] s[i]).x == lo.x,
                exists|i: int| 0 <= i < s.len() && (#[trigger] s[i]).y == lo.y,
                exists|i: int| 0 <= i < s.len() && (#[trigger] s[i]).z == lo.z,
                exists|i: int| 0 <= i < s.len() && (#[trigger] s[i]).x == hi.x,
                exists|i: int| 0 <= i < s.len() && (#[trigger] s[i]).y == hi.y,
                exists|i: int| 0 <= i < s.len() && (#[trigger] s[i]).z == hi.z,
            decreases self.points@.len() - pi,
        {
            let p = self.points[pi];
            proof {
                assert(s[2 * self.edges@.len() + pi as int] == p);
            }
            lo = bound_min(lo, &p);
            hi = bound_max(hi, &p);
            pi = pi + 1;
        }
        (lo, hi)
    }
}

/// The coordinate-wise minimum of two points.
fn bound_min(a: three::Point, b: &three::Point) -> (r: three::Point)
    ensures
        r.x == if b.x < a.x { b.x } else { a.x },
        r.y == if b.y < a.y { b.y } else { a.y },
        r.z == if b.z < a.z { b.z } else { a.z },
{
    three::Point {
        x: if b.x < a.x { b.x } else { a.x },
        y: if b.y < a.y { b.y } else { a.y },
        z: if b.z < a.z { b.z } else { a.z },
    }
}

/// The coordinate-wise maximum of two points.
fn bound_max(a: three::Point, b: &three::Point) -> (r: three::Point)
    ensures
        r.x == if b.x > a.x { b.x } else { a.x },
        r.y == if b.y > a.y { b.y } else { a.y },
        r.z == if b.z > a.z { b.z } else { a.z },
{
    three::Point {
        x: if b.x > a.x { b.x } else { a.x },
        y: if b.y > a.y { b.y } else { a.y },
        z: if b.z > a.z { b.z } else { a.z },
    }
}

} // verus!
