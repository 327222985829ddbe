//! The projector/clipper: a camera with a pose and viewport parameters
//! that converts world-space points and segments into screen space,
//! clipping segments against the near plane before rasterizing them into
//! its framebuffer.
//!
//! Angles reach the camera as fixed-point sine/cosine pairs, and the
//! field of view as the fixed-point tangent of its half-angle: the only
//! facts the pipeline reads of an angle.  The caller that owns the pose
//! evaluates the trigonometry when it updates the camera between frames.

use crate::fixed::{
    clamp, fxdiv, fxmul, fxround, lemma_mul_bound, lemma_tdiv_bound, sat_i32, sat_i64, tdiv,
    tdiv_i128, HALF, SCALE,
};
use crate::screen;
use vstd::prelude::*;

verus! {

/// A 3-D point, world or camera space depending on context, in
/// fixed-point coordinates (1/65536ths of a world unit).
#[derive(Copy, Clone)]
pub struct Point {
    pub x: i64,
    pub y: i64,
    pub z: i64,
}

impl Point {
    /// Create a new point.
    pub fn new(x: i64, y: i64, z: i64) -> (p: Point)
        ensures
            p.x == x,
            p.y == y,
            p.z == z,
    {
        Point { x, y, z }
    }
}

/// One rotation angle, held as its fixed-point sine and cosine: all the
/// pipeline ever reads of an angle.
#[derive(Copy, Clone)]
pub struct Angle {
    pub sin: i64,
    pub cos: i64,
}

impl Angle {
    /// Sine and cosine always lie in the fixed-point unit interval.
    pub open spec fn wf(&self) -> bool {
        &&& -(SCALE as int) <= self.sin <= SCALE as int
        &&& -(SCALE as int) <= self.cos <= SCALE as int
    }

    /// Create an angle from its sine and cosine, each forced into the
    /// fixed-point unit interval.
    pub fn new(sin: i64, cos: i64) -> (a: Angle)
        ensures
            a.sin as int == clamp(sin as int, -(SCALE as int), SCALE as int),
            a.cos as int == clamp(cos as int, -(SCALE as int), SCALE as int),
            a.wf(),
    {
        let s = if sin < -SCALE {
            -SCALE
        } else if sin > SCALE {
            SCALE
        } else {
            sin
        };
        let c = if cos < -SCALE {
            -SCALE
        } else if cos > SCALE {
            SCALE
        } else {
            cos
        };
        Angle { sin: s, cos: c }
    }

    /// The zero angle: sine zero, cosine one.
    pub fn zero() -> (a: Angle)
        ensures
            a.sin == 0,
            a.cos == SCALE,
            a.wf(),
    {
        Angle { sin: 0, cos: SCALE }
    }
}

/// Largest fixed-point value accepted for the near-plane distance and the
/// half-fov tangent, so that every projection fits exact 128-bit
/// intermediates.
pub const MAX_VIEWPORT_PARAM: i64 = 0x4000_0000;

/// `v` saturated into the `i64` range, as an `i64`.
pub open spec fn sat(v: int) -> i64 {
    clamp(v, i64::MIN as int, i64::MAX as int) as i64
}

pub struct Camera {
    /// Location of the camera in world space.
    pub coordinates: Point,
    /// Orientation: starting from the world basis, yaw is applied first,
    /// then pitch, then roll.  Projection applies the inverse.
    pub yaw: Angle,
    pub pitch: Angle,
    pub roll: Angle,
    /// Near-plane distance, fixed-point, positive.
    pub viewport_distance: i64,
    /// Tangent of half the field-of-view angle, fixed-point, positive.
    pub tan_half_fov: i64,
    /// Framebuffer to render into.
    pub screen: screen::Screen,
}

impl Camera {
    pub open spec fn wf(&self) -> bool {
        &&& self.yaw.wf()
        &&& self.pitch.wf()
        &&& self.roll.wf()
        &&& 1 <= self.viewport_distance <= MAX_VIEWPORT_PARAM
        &&& 1 <= self.tan_half_fov <= MAX_VIEWPORT_PARAM
        &&& self.screen.wf()
    }

    /// Create a new camera with an empty framebuffer.
    pub fn new(
        coordinates: Point,
        yaw: Angle,
        pitch: Angle,
        roll: Angle,
        viewport_distance: i64,
        tan_half_fov: i64,
    ) -> (c: Camera)
        requires
            1 <= viewport_distance <= MAX_VIEWPORT_PARAM,
            1 <= tan_half_fov <= MAX_VIEWPORT_PARAM,
        ensures
            c.coordinates == coordinates,
            c.yaw == yaw,
            c.pitch == pitch,
            c.roll == roll,
            c.viewport_distance == viewport_distance,
            c.tan_half_fov == tan_half_fov,
            c.screen.width == 0,
            c.screen.height == 0,
            c.yaw.wf() && c.pitch.wf() && c.roll.wf() ==> c.wf(),
    {
        Camera {
            coordinates,
            yaw,
            pitch,
            roll,
            viewport_distance,
            tan_half_fov,
            screen: screen::Screen::new(),
        }
    }

    /// The camera-space image of world point `p`: translate by the
    /// camera position, then undo yaw, pitch and roll in turn, each a
    /// plane rotation; every coordinate saturates into the `i64` range.
    #[verifier::opaque]
    pub open spec fn spec_world_to_camera(&self, p: Point) -> (int, int, int) {
        let dx = p.x - self.coordinates.x;
        let dy = p.y - self.coordinates.y;
        let dz = p.z - self.coordinates.z;
        let ux = fxmul(dx, self.yaw.cos as int) - fxmul(dz, self.yaw.sin as int);
        let uy = dy;
        let uz = fxmul(dx, self.yaw.sin as int) + fxmul(dz, self.yaw.cos as int);
        let py = fxmul(uy, self.pitch.cos as int) - fxmul(uz, self.pitch.sin as int);
        let pz = fxmul(uy, self.pitch.sin as int) + fxmul(uz, self.pitch.cos as int);
        let rx = fxmul(ux, self.roll.cos as int) - fxmul(py, self.roll.sin as int);
        let ry = fxmul(ux, self.roll.sin as int) + fxmul(py, self.roll.cos as int);
        (sat(rx) as int, sat(ry) as int, sat(pz) as int)
    }

    /// Transform a world-space point into camera space.
    pub fn world_to_camera(&self, point: &Point) -> (r: Point)
        requires
            self.wf(),
        ensures
            (r.x as int, r.y as int, r.z as int) == self.spec_world_to_camera(*point),
    {
        proof {
            reveal(Camera::spec_world_to_camera);
        }
        let dx = point.x as i128 - self.coordinates.x as i128;
        let dy = point.y as i128 - self.coordinates.y as i128;
        let dz = point.z as i128 - self.coordinates.z as i128;
        let (ux, uz) = rotate(dx, dz, self.yaw.sin, self.yaw.cos);
        let uy = dy;
        let (py, pz) = rotate(uy, uz, self.pitch.sin, self.pitch.cos);
        let (rx, ry) = rotate(ux, py, self.roll.sin, self.roll.cos);
        Point { x: sat_i64(rx), y: sat_i64(ry), z: sat_i64(pz) }
    }
}

impl Camera {
    /// Width of the viewport rectangle at the near plane:
    /// `2 * near_distance * tan(fov / 2)`, in fixed point.
    #[verifier::opaque]
    pub open spec fn spec_viewport_width(&self) -> int {
        tdiv(2 * self.viewport_distance * self.tan_half_fov, SCALE as int)
    }

    /// Height of the viewport rectangle: the width scaled by the
    /// framebuffer's height-to-width ratio.
    #[verifier::opaque]
    pub open spec fn spec_viewport_height(&self) -> int {
        if self.screen.width == 0 {
            0
        } else {
            tdiv(self.spec_viewport_width() * self.screen.height, self.screen.width as int)
        }
    }

    /// Whether the viewport is wide and tall enough, in fixed-point
    /// steps, for a projection to be meaningful; nothing is drawn when it
    /// is not (nothing would be visible).
    pub open spec fn spec_projectable(&self) -> bool {
        self.spec_viewport_width() >= 1 && self.spec_viewport_height() >= 1
    }

    /// Screen column of the camera-space point `(x, _, z)`:
    /// `round((x * near / z / viewport_width + 1/2) * screen_width)`,
    /// saturated into the `i32` range.
    #[verifier::opaque]
    pub open spec fn spec_screen_x(&self, x: int, z: int) -> int {
        clamp(
            fxround(
                (fxdiv(tdiv(x * self.viewport_distance, z), self.spec_viewport_width()) + HALF)
                    * self.screen.width,
            ),
            i32::MIN as int,
            i32::MAX as int,
        )
    }

    /// Screen row of the camera-space point `(_, y, z)`: as the column,
    /// but flipped vertically, camera-space +y being screen up.
    #[verifier::opaque]
    pub open spec fn spec_screen_y(&self, y: int, z: int) -> int {
        clamp(
            fxround(
                (SCALE - (fxdiv(tdiv(y * self.viewport_distance, z), self.spec_viewport_height())
                    + HALF)) * self.screen.height,
            ),
            i32::MIN as int,
            i32::MAX as int,
        )
    }

    /// Compute the fixed-point viewport width and height.
    fn viewport_dims(&self) -> (d: (i64, i64))
        requires
            self.wf(),
        ensures
            d.0 == self.spec_viewport_width(),
            d.1 == self.spec_viewport_height(),
            0 <= d.0 <= 0x2000_0000_0000,
            0 <= d.1 <= 0x2000_0000_0000_0000,
    {
        let vd = self.viewport_distance;
        let tan = self.tan_half_fov;
        proof {
            reveal(Camera::spec_viewport_width);
            reveal(Camera::spec_viewport_height);
            lemma_mul_bound(vd as int, MAX_VIEWPORT_PARAM as int, tan as int,
                MAX_VIEWPORT_PARAM as int);
            assert(2 * (vd as int) * (tan as int) == 2 * ((vd as int) * (tan as int)))
                by (nonlinear_arith);
            lemma_tdiv_bound(2 * (vd as int) * (tan as int), SCALE as int, 0x2000_0000_0000);
        }
        let vw128 = tdiv_i128(2 * (vd as i128) * (tan as i128), SCALE as i128);
        let vw = vw128 as i64;
        if self.screen.width == 0 {
            (vw, 0)
        } else {
            proof {
                lemma_mul_bound(vw as int, 0x2000_0000_0000, self.screen.height as int, 0x1_0000);
                lemma_tdiv_bound(
                    vw as int * self.screen.height as int,
                    self.screen.width as int,
                    0x2000_0000_0000_0000,
                );
            }
            let vh128 = tdiv_i128(vw as i128 * self.screen.height as i128,
                self.screen.width as i128);
            (vw, vh128 as i64)
        }
    }

    /// Project a camera-space point at or beyond the near plane onto the
    /// screen.
    pub fn camera_to_screen(&self, point: &Point) -> (r: screen::Point)
        requires
            self.wf(),
            point.z >= self.viewport_distance,
            self.spec_projectable(),
        ensures
            r.x as int == self.spec_screen_x(point.x as int, point.z as int),
            r.y as int == self.spec_screen_y(point.y as int, point.z as int),
    {
        let (vw, vh) = self.viewport_dims();
        let vd = self.viewport_distance;
        let z = point.z;
        proof {
            reveal(Camera::spec_screen_x);
            reveal(Camera::spec_screen_y);
            lemma_mul_bound(point.x as int, 0x8000_0000_0000_0000, vd as int,
                MAX_VIEWPORT_PARAM as int);
            lemma_mul_bound(point.y as int, 0x8000_0000_0000_0000, vd as int,
                MAX_VIEWPORT_PARAM as int);
            lemma_mul_bound(point.x as int, absi(point.x as int), vd as int, vd as int);
            assert(absi(point.x as int) * (vd as int) <= absi(point.x as int) * (z as int))
                by (nonlinear_arith)
                requires 0 <= absi(point.x as int) && 0 < vd <= z;
            lemma_tdiv_bound(point.x as int * vd as int, z as int, absi(point.x as int));
            lemma_mul_bound(point.y as int, absi(point.y as int), vd as int, vd as int);
            assert(absi(point.y as int) * (vd as int) <= absi(point.y as int) * (z as int))
                by (nonlinear_arith)
                requires 0 <= absi(point.y as int) && 0 < vd <= z;
            lemma_tdiv_bound(point.y as int * vd as int, z as int, absi(point.y as int));
        }
        let vx = tdiv_i128(point.x as i128 * vd as i128, z as i128);
        let vy = tdiv_i128(point.y as i128 * vd as i128, z as i128);
        proof {
            lemma_mul_bound(vx as int, 0x8000_0000_0000_0000, SCALE as int, SCALE as int);
            lemma_tdiv_shrink_helper(vx as int * SCALE as int, vw as int);
            lemma_mul_bound(vy as int, 0x8000_0000_0000_0000, SCALE as int, SCALE as int);
            lemma_tdiv_shrink_helper(vy as int * SCALE as int, vh as int);
        }
        let tx = tdiv_i128(vx * (SCALE as i128), vw as i128);
        let ty = tdiv_i128(vy * (SCALE as i128), vh as i128);
        proof {
            lemma_mul_bound(
                tx as int + HALF as int,
                0x1_0000_0000_0000_0000_0000_0001,
                self.screen.width as int,
                0x1_0000,
            );
            lemma_mul_bound(
                SCALE as int - (ty as int + HALF as int),
                0x1_0000_0000_0000_0000_0000_0002,
                self.screen.height as int,
                0x1_0000,
            );
        }
        let sx = (tx + HALF as i128) * self.screen.width as i128;
        let sy = (SCALE as i128 - (ty + HALF as i128)) * self.screen.height as i128;
        screen::Point::new(sat_i32(crate::fixed::fxround_i128(sx)),
            sat_i32(crate::fixed::fxround_i128(sy)))
    }

    /// Plot a single world-space point: invisible when its camera-space
    /// depth is short of the near plane, otherwise projected and written
    /// into the framebuffer (and dropped there if it falls off screen).
    pub fn write(&mut self, val: bool, point: &Point)
        requires
            old(self).wf(),
        ensures
            final(self).wf(),
            final(self).coordinates == old(self).coordinates,
            final(self).yaw == old(self).yaw,
            final(self).pitch == old(self).pitch,
            final(self).roll == old(self).roll,
            final(self).viewport_distance == old(self).viewport_distance,
            final(self).tan_half_fov == old(self).tan_half_fov,
            final(self).screen.width == old(self).screen.width,
            final(self).screen.height == old(self).screen.height,
            ({
                let cp = old(self).spec_world_to_camera(*point);
                if cp.2 < old(self).viewport_distance as int || !old(self).spec_projectable() {
                    final(self).screen.grid() == old(self).screen.grid()
                } else {
                    final(self).screen.grid() == screen::written(
                        old(self).screen.grid(),
                        old(self).spec_screen_x(cp.0, cp.2),
                        old(self).spec_screen_y(cp.1, cp.2),
                        val,
                    )
                }
            }),
    {
        let camera_point = self.world_to_camera(point);
        if camera_point.z >= self.viewport_distance {
            let (vw, vh) = self.viewport_dims();
            if vw >= 1 && vh >= 1 {
                let sp = self.camera_to_screen(&camera_point);
                self.screen.write(val, &sp);
            }
        }
    }

    /// Plot a world-space segment, clipping it against the near plane:
    /// with both endpoints short of the plane nothing is drawn; with one
    /// short, that endpoint is replaced by the segment's intersection
    /// with the plane; the surviving segment is projected and
    /// rasterized.
    #[verifier::rlimit(100)]
    pub fn edge(&mut self, start: &Point, end: &Point)
        requires
            old(self).wf(),
        ensures
            final(self).wf(),
            final(self).coordinates == old(self).coordinates,
            final(self).yaw == old(self).yaw,
            final(self).pitch == old(self).pitch,
            final(self).roll == old(self).roll,
            final(self).viewport_distance == old(self).viewport_distance,
            final(self).tan_half_fov == old(self).tan_half_fov,
            final(self).screen.width == old(self).screen.width,
            final(self).screen.height == old(self).screen.height,
            ({
                let cs = old(self).spec_world_to_camera(*start);
                let ce = old(self).spec_world_to_camera(*end);
                let vd = old(self).viewport_distance as int;
                let g0 = old(self).screen.grid();
                let g1 = final(self).screen.grid();
                &&& ((cs.2 < vd && ce.2 < vd) || !old(self).spec_projectable()) ==> g1 == g0
                &&& (cs.2 >= vd && ce.2 >= vd && old(self).spec_projectable()) ==> draws_segment(
                    *old(self),
                    g0,
                    g1,
                    cs,
                    ce,
                )
                &&& (cs.2 < vd && ce.2 >= vd && old(self).spec_projectable()) ==> draws_segment(
                    *old(self),
                    g0,
                    g1,
                    spec_clip_point(cs, ce, vd),
                    ce,
                )
                &&& (cs.2 >= vd && ce.2 < vd && old(self).spec_projectable()) ==> draws_segment(
                    *old(self),
                    g0,
                    g1,
                    spec_clip_point(ce, cs, vd),
                    cs,
                )
            }),
    {
        let ghost g0 = self.screen.grid();
        let camera_start = self.world_to_camera(start);
        let camera_end = self.world_to_camera(end);
        let ghost cs = old(self).spec_world_to_camera(*start);
        let ghost ce = old(self).spec_world_to_camera(*end);
        let clip_start = camera_start.z < self.viewport_distance;
        let clip_end = camera_end.z < self.viewport_distance;

        if clip_start && clip_end {
            return ;
        }
        let (vw, vh) = self.viewport_dims();
        if vw < 1 || vh < 1 {
            proof {
                assert(!old(self).spec_projectable());
            }
            return ;
        }
        if !clip_start && !clip_end {
            let a = self.camera_to_screen(&camera_start);
            let b = self.camera_to_screen(&camera_end);
            let ghost sa = (a.x as int, a.y as int);
            let ghost sb = (b.x as int, b.y as int);
            self.screen.line(&a, &b);
            proof {
                let p0 = choose|p: Seq<(int, int)>|
                    #[trigger] screen::connected_path(p, sa, sb) && screen::painted(
                        g0,
                        self.screen.grid(),
                        p,
                    );
                assert(draws_segment(*old(self), g0, self.screen.grid(), cs, ce)) by {
                    assert(screen::connected_path(
                        p0,
                        (old(self).spec_screen_x(cs.0, cs.2), old(self).spec_screen_y(cs.1, cs.2)),
                        (old(self).spec_screen_x(ce.0, ce.2), old(self).spec_screen_y(ce.1, ce.2)),
                    ) && screen::painted(g0, self.screen.grid(), p0));
                }
            }
            return ;
        }
        let (clipped, unclipped) = if clip_start {
            (camera_start, camera_end)
        } else {
            (camera_end, camera_start)
        };
        let new_clipped = clip_to_viewport(&clipped, &unclipped, self.viewport_distance);
        let a = self.camera_to_screen(&new_clipped);
        let b = self.camera_to_screen(&unclipped);
        let ghost sa = (a.x as int, a.y as int);
        let ghost sb = (b.x as int, b.y as int);
        self.screen.line(&a, &b);
        proof {
            let p0 = choose|p: Seq<(int, int)>|
                #[trigger] screen::connected_path(p, sa, sb) && screen::painted(
                    g0,
                    self.screen.grid(),
                    p,
                );
            let vd = old(self).viewport_distance as int;
            let aa = if cs.2 < vd {
                spec_clip_point(cs, ce, vd)
            } else {
                spec_clip_point(ce, cs, vd)
            };
            let bb = if cs.2 < vd {
                ce
            } else {
                cs
            };
            assert(aa == (new_clipped.x as int, new_clipped.y as int, new_clipped.z as int));
            assert(bb == (unclipped.x as int, unclipped.y as int, unclipped.z as int));
            assert(draws_segment(*old(self), g0, self.screen.grid(), aa, bb)) by {
                assert(screen::connected_path(
                    p0,
                    (old(self).spec_screen_x(aa.0, aa.2), old(self).spec_screen_y(aa.1, aa.2)),
                    (old(self).spec_screen_x(bb.0, bb.2), old(self).spec_screen_y(bb.1, bb.2)),
                ) && screen::painted(g0, self.screen.grid(), p0));
            }
        }
    }

    /// Plot a whole model: every free-standing point, then every edge,
    /// each moved into world space by the model's position.  Drawing
    /// only ever sets cells, and every model point that projects onto
    /// the screen ends up lit.
    pub fn plot_model(&mut self, model: &crate::model::Model)
        requires
            old(self).wf(),
        ensures
            final(self).wf(),
            final(self).coordinates == old(self).coordinates,
            final(self).yaw == old(self).yaw,
            final(self).pitch == old(self).pitch,
            final(self).roll == old(self).roll,
            final(self).viewport_distance == old(self).viewport_distance,
            final(self).tan_half_fov == old(self).tan_half_fov,
            final(self).screen.width == old(self).screen.width,
            final(self).screen.height == old(self).screen.height,
            screen::grid_monotone(old(self).screen.grid(), final(self).screen.grid()),
            forall|i: int|
                0 <= i < model.points@.len() ==> point_plotted(
                    *old(self),
                    crate::model::spec_model_to_world(model.position, model.points@[i]),
                    final(self).screen.grid(),
                ),
            forall|j: int|
                0 <= j < model.edges@.len() ==> segment_endpoints_plotted(
                    *old(self),
                    crate::model::spec_model_to_world(model.position, model.edges@[j].0),
                    crate::model::spec_model_to_world(model.position, model.edges@[j].1),
                    final(self).screen.grid(),
                ),
    {
        let mut i: usize = 0;
        while i < model.points.len()
            invariant
                self.wf(),
                self.coordinates == old(self).coordinates,
                self.yaw == old(self).yaw,
                self.pitch == old(self).pitch,
                self.roll == old(self).roll,
                self.viewport_distance == old(self).viewport_distance,
                self.tan_half_fov == old(self).tan_half_fov,
                self.screen.width == old(self).screen.width,
                self.screen.height == old(self).screen.height,
                i <= model.points@.len(),
                screen::grid_monotone(old(self).screen.grid(), self.screen.grid()),
                forall|k: int|
                    0 <= k < i ==> point_plotted(
                        *old(self),
                        crate::model::spec_model_to_world(model.position, model.points@[k]),
                        self.screen.grid(),
                    ),
            decreases model.points@.len() - i,
        {
            let p = model.points[i];
            let w = model.model_to_world(&p);
            let ghost cam_k = *self;
            let ghost pre = self.screen.grid();
            self.write(true, &w);
            proof {
                lemma_projection_ignores_content(cam_k, *old(self));
                let cp = cam_k.spec_world_to_camera(w);
                let sx = cam_k.spec_screen_x(cp.0, cp.2);
                let sy = cam_k.spec_screen_y(cp.1, cp.2);
                if cp.2 < cam_k.viewport_distance as int || !cam_k.spec_projectable() {
                    assert(self.screen.grid() == pre);
                    assert(screen::grid_monotone(pre, self.screen.grid()));
                } else {
                    screen::lemma_written_monotone(pre, sx, sy);
                }
                screen::lemma_grid_monotone_trans(
                    old(self).screen.grid(),
                    pre,
                    self.screen.grid(),
                );
                assert(point_plotted(*old(self), w, self.screen.grid()));
                assert forall|k: int| 0 <= k < i + 1 implies point_plotted(
                    *old(self),
                    crate::model::spec_model_to_world(model.position, model.points@[k]),
                    self.screen.grid(),
                ) by {
                    if k < i {
                        if cp.2 < cam_k.viewport_distance as int || !cam_k.spec_projectable() {
                        } else {
                            lemma_point_plotted_monotone(
                                *old(self),
                                crate::model::spec_model_to_world(model.position, model.points@[k]),
                                pre,
                                self.screen.grid(),
                            );
                        }
                    }
                }
            }
            i = i + 1;
        }
        let mut j: usize = 0;
        while j < model.edges.len()
            invariant
                self.wf(),
                self.coordinates == old(self).coordinates,
                self.yaw == old(self).yaw,
                self.pitch == old(self).pitch,
                self.roll == old(self).roll,
                self.viewport_distance == old(self).viewport_distance,
                self.tan_half_fov == old(self).tan_half_fov,
                self.screen.width == old(self).screen.width,
                self.screen.height == old(self).screen.height,
                j <= model.edges@.len(),
                screen::grid_monotone(old(self).screen.grid(), self.screen.grid()),
                forall|k: int|
                    0 <= k < model.points@.len() ==> point_plotted(
                        *old(self),
                        crate::model::spec_model_to_world(model.position, model.points@[k]),
                        self.screen.grid(),
                    ),
                forall|k: int|
                    0 <= k < j ==> segment_endpoints_plotted(
                        *old(self),
                        crate::model::spec_model_to_world(model.position, model.edges@[k].0),
                        crate::model::spec_model_to_world(model.position, model.edges@[k].1),
                        self.screen.grid(),
                    ),
            decreases model.edges@.len() - j,
        {
            let e = model.edges[j];
            let ws = model.model_to_world(&e.0);
            let we = model.model_to_world(&e.1);
            let ghost cam_k = *self;
            let ghost pre = self.screen.grid();
            self.edge(&ws, &we);
            proof {
                let cs = cam_k.spec_world_to_camera(ws);
                let ce = cam_k.spec_world_to_camera(we);
                let vd = cam_k.viewport_distance as int;
                lemma_projection_ignores_content(cam_k, *old(self));
                if (cs.2 < vd && ce.2 < vd) || !cam_k.spec_projectable() {
                    assert(self.screen.grid() == pre);
                    assert(screen::grid_monotone(pre, self.screen.grid()));
                } else if cs.2 >= vd && ce.2 >= vd {
                    lemma_draws_segment_monotone(cam_k, pre, self.screen.grid(), cs, ce);
                    lemma_draws_segment_endpoints(cam_k, pre, self.screen.grid(), cs, ce);
                } else if cs.2 < vd {
                    lemma_draws_segment_monotone(
                        cam_k,
                        pre,
                        self.screen.grid(),
                        spec_clip_point(cs, ce, vd),
                        ce,
                    );
                    lemma_draws_segment_endpoints(
                        cam_k,
                        pre,
                        self.screen.grid(),
                        spec_clip_point(cs, ce, vd),
                        ce,
                    );
                } else {
                    lemma_draws_segment_monotone(
                        cam_k,
                        pre,
                        self.screen.grid(),
                        spec_clip_point(ce, cs, vd),
                        cs,
                    );
                    lemma_draws_segment_endpoints(
                        cam_k,
                        pre,
                        self.screen.grid(),
                        spec_clip_point(ce, cs, vd),
                        cs,
                    );
                }
                assert(segment_endpoints_plotted(*old(self), ws, we, self.screen.grid()));
                screen::lemma_grid_monotone_trans(
                    old(self).screen.grid(),
                    pre,
                    self.screen.grid(),
                );
                assert forall|k: int| 0 <= k < model.points@.len() implies point_plotted(
                    *old(self),
                    crate::model::spec_model_to_world(model.position, model.points@[k]),
                    self.screen.grid(),
                ) by {
                    lemma_point_plotted_monotone(
                        *old(self),
                        crate::model::spec_model_to_world(model.position, model.points@[k]),
                        pre,
                        self.screen.grid(),
                    );
                }
                assert forall|k: int| 0 <= k < j + 1 implies segment_endpoints_plotted(
                    *old(self),
                    crate::model::spec_model_to_world(model.position, model.edges@[k].0),
                    crate::model::spec_model_to_world(model.position, model.edges@[k].1),
                    self.screen.grid(),
                ) by {
                    if k < j {
                        lemma_segment_endpoints_monotone(
                            *old(self),
                            crate::model::spec_model_to_world(model.position, model.edges@[k].0),
                            crate::model::spec_model_to_world(model.position, model.edges@[k].1),
                            pre,
                            self.screen.grid(),
                        );
                    }
                }
            }
            j = j + 1;
        }
    }
}

/// The world point `w`, as seen by `cam`, once drawn: either it is
/// invisible to the camera (short of the near plane, a degenerate
/// viewport, or off screen), or its projected cell is set in `g`.
pub open spec fn point_plotted(cam: Camera, w: Point, g: Seq<Seq<bool>>) -> bool {
    let cp = cam.spec_world_to_camera(w);
    let sx = cam.spec_screen_x(cp.0, cp.2);
    let sy = cam.spec_screen_y(cp.1, cp.2);
    (cp.2 >= cam.viewport_distance as int && cam.spec_projectable() && 0 <= sx
        < cam.screen.width as int && 0 <= sy < cam.screen.height as int) ==> screen::cell_set(
        g,
        sx,
        sy,
    )
}

/// The projected cell of the camera-space point `a` is set in `g`
/// whenever it lands on the screen.
pub open spec fn projected_cell_set(cam: Camera, a: (int, int, int), g: Seq<Seq<bool>>) -> bool {
    let sx = cam.spec_screen_x(a.0, a.2);
    let sy = cam.spec_screen_y(a.1, a.2);
    (0 <= sx < cam.screen.width as int && 0 <= sy < cam.screen.height as int)
        ==> screen::cell_set(g, sx, sy)
}

/// Once the world segment from `ws` to `we` has been drawn into `g`,
/// both of its effective endpoints (after near-plane clipping) are lit
/// wherever they land on the screen; a segment wholly short of the near
/// plane, or one facing a degenerate viewport, leaves nothing to show.
pub open spec fn segment_endpoints_plotted(
    cam: Camera,
    ws: Point,
    we: Point,
    g: Seq<Seq<bool>>,
) -> bool {
    let cs = cam.spec_world_to_camera(ws);
    let ce = cam.spec_world_to_camera(we);
    let vd = cam.viewport_distance as int;
    if (cs.2 < vd && ce.2 < vd) || !cam.spec_projectable() {
        true
    } else {
        let a = if cs.2 < vd {
            spec_clip_point(cs, ce, vd)
        } else if ce.2 < vd {
            spec_clip_point(ce, cs, vd)
        } else {
            cs
        };
        let b = if cs.2 < vd {
            ce
        } else if ce.2 < vd {
            cs
        } else {
            ce
        };
        projected_cell_set(cam, a, g) && projected_cell_set(cam, b, g)
    }
}

/// Drawing a segment into a well-shaped grid lights the projected cells
/// of both of its camera-space endpoints, wherever they land on the
/// screen.
pub proof fn lemma_draws_segment_endpoints(
    cam: Camera,
    g0: Seq<Seq<bool>>,
    g1: Seq<Seq<bool>>,
    a: (int, int, int),
    b: (int, int, int),
)
    requires
        draws_segment(cam, g0, g1, a, b),
        g0.len() == cam.screen.height as int,
        forall|y: int| 0 <= y < g0.len() ==> (#[trigger] g0[y]).len() == cam.screen.width as int,
    ensures
        projected_cell_set(cam, a, g1),
        projected_cell_set(cam, b, g1),
{
    let pth = choose|p: Seq<(int, int)>|
        #[trigger] screen::connected_path(
            p,
            (cam.spec_screen_x(a.0, a.2), cam.spec_screen_y(a.1, a.2)),
            (cam.spec_screen_x(b.0, b.2), cam.spec_screen_y(b.1, b.2)),
        ) && screen::painted(g0, g1, p);
    screen::lemma_painted_path_endpoints(
        g0,
        g1,
        pth,
        (cam.spec_screen_x(a.0, a.2), cam.spec_screen_y(a.1, a.2)),
        (cam.spec_screen_x(b.0, b.2), cam.spec_screen_y(b.1, b.2)),
    );
}

/// A segment's lit endpoints stay lit across any monotone grid step.
pub proof fn lemma_segment_endpoints_monotone(
    cam: Camera,
    ws: Point,
    we: Point,
    g0: Seq<Seq<bool>>,
    g1: Seq<Seq<bool>>,
)
    requires
        segment_endpoints_plotted(cam, ws, we, g0),
        screen::grid_monotone(g0, g1),
    ensures
        segment_endpoints_plotted(cam, ws, we, g1),
{
    let cs = cam.spec_world_to_camera(ws);
    let ce = cam.spec_world_to_camera(we);
    let vd = cam.viewport_distance as int;
    if !((cs.2 < vd && ce.2 < vd) || !cam.spec_projectable()) {
        let a = if cs.2 < vd {
            spec_clip_point(cs, ce, vd)
        } else if ce.2 < vd {
            spec_clip_point(ce, cs, vd)
        } else {
            cs
        };
        let b = if cs.2 < vd {
            ce
        } else if ce.2 < vd {
            cs
        } else {
            ce
        };
        if 0 <= cam.spec_screen_x(a.0, a.2) < cam.screen.width as int && 0 <= cam.spec_screen_y(
            a.1,
            a.2,
        ) < cam.screen.height as int {
            screen::lemma_cell_set_monotone(
                g0,
                g1,
                cam.spec_screen_x(a.0, a.2),
                cam.spec_screen_y(a.1, a.2),
            );
        }
        if 0 <= cam.spec_screen_x(b.0, b.2) < cam.screen.width as int && 0 <= cam.spec_screen_y(
            b.1,
            b.2,
        ) < cam.screen.height as int {
            screen::lemma_cell_set_monotone(
                g0,
                g1,
                cam.spec_screen_x(b.0, b.2),
                cam.spec_screen_y(b.1, b.2),
            );
        }
    }
}

/// A plotted point stays plotted across any monotone grid step.
pub proof fn lemma_point_plotted_monotone(
    cam: Camera,
    w: Point,
    g0: Seq<Seq<bool>>,
    g1: Seq<Seq<bool>>,
)
    requires
        point_plotted(cam, w, g0),
        screen::grid_monotone(g0, g1),
    ensures
        point_plotted(cam, w, g1),
{
    let cp = cam.spec_world_to_camera(w);
    let sx = cam.spec_screen_x(cp.0, cp.2);
    let sy = cam.spec_screen_y(cp.1, cp.2);
    if cp.2 >= cam.viewport_distance as int && cam.spec_projectable() && 0 <= sx
        < cam.screen.width as int && 0 <= sy < cam.screen.height as int {
        screen::lemma_cell_set_monotone(g0, g1, sx, sy);
    }
}

/// A drawn segment only ever sets cells.
pub proof fn lemma_draws_segment_monotone(
    cam: Camera,
    g0: Seq<Seq<bool>>,
    g1: Seq<Seq<bool>>,
    a: (int, int, int),
    b: (int, int, int),
)
    requires
        draws_segment(cam, g0, g1, a, b),
    ensures
        screen::grid_monotone(g0, g1),
{
    let pth = choose|p: Seq<(int, int)>|
        #[trigger] screen::connected_path(
            p,
            (cam.spec_screen_x(a.0, a.2), cam.spec_screen_y(a.1, a.2)),
            (cam.spec_screen_x(b.0, b.2), cam.spec_screen_y(b.1, b.2)),
        ) && screen::painted(g0, g1, p);
    screen::lemma_painted_monotone(g0, g1, pth);
}

/// Some 8-connected path between the screen projections of the
/// camera-space endpoints `a` and `b` was painted into `g0`, giving
/// `g1`: exactly the in-bounds cells of that path are newly set.
pub open spec fn draws_segment(
    cam: Camera,
    g0: Seq<Seq<bool>>,
    g1: Seq<Seq<bool>>,
    a: (int, int, int),
    b: (int, int, int),
) -> bool {
    exists|path: Seq<(int, int)>|
        #[trigger] screen::connected_path(
            path,
            (cam.spec_screen_x(a.0, a.2), cam.spec_screen_y(a.1, a.2)),
            (cam.spec_screen_x(b.0, b.2), cam.spec_screen_y(b.1, b.2)),
        ) && screen::painted(g0, g1, path)
}

/// The intersection of the segment from `clipped` to `unclipped` with the
/// near plane `z = vd`, by linear interpolation: its depth is exactly
/// `vd`.
#[verifier::opaque]
pub open spec fn spec_clip_point(clipped: (int, int, int), unclipped: (int, int, int), vd: int) -> (
    int,
    int,
    int,
) {
    let dx = unclipped.0 - clipped.0;
    let dy = unclipped.1 - clipped.1;
    let dz = unclipped.2 - clipped.2;
    let lam = fxdiv(vd - clipped.2, dz);
    (sat(fxmul(lam, dx) + clipped.0) as int, sat(fxmul(lam, dy) + clipped.1) as int, vd)
}

/// Replace the endpoint short of the near plane by the segment's
/// intersection with the plane.
fn clip_to_viewport(clipped: &Point, unclipped: &Point, viewport_distance: i64) -> (r: Point)
    requires
        1 <= viewport_distance,
        clipped.z < viewport_distance <= unclipped.z,
    ensures
        (r.x as int, r.y as int, r.z as int) == spec_clip_point(
            (clipped.x as int, clipped.y as int, clipped.z as int),
            (unclipped.x as int, unclipped.y as int, unclipped.z as int),
            viewport_distance as int,
        ),
        r.z == viewport_distance,
{
    let dx = unclipped.x as i128 - clipped.x as i128;
    let dy = unclipped.y as i128 - clipped.y as i128;
    let dz = unclipped.z as i128 - clipped.z as i128;
    let behind = viewport_distance as i128 - clipped.z as i128;
    proof {
        reveal(spec_clip_point);
        lemma_mul_bound(behind as int, dz as int, SCALE as int, SCALE as int);
        assert(behind as int * SCALE as int <= SCALE as int * (dz as int)) by (nonlinear_arith)
            requires 0 < behind as int <= dz as int;
        assert(-(SCALE as int * (dz as int)) <= behind as int * SCALE as int) by (nonlinear_arith)
            requires 0 < behind as int && 0 < dz as int;
        lemma_tdiv_bound(behind as int * SCALE as int, dz as int, SCALE as int);
    }
    let lam = tdiv_i128(behind * (SCALE as i128), dz);
    proof {
        lemma_mul_bound(lam as int, SCALE as int, dx as int, absi(dx as int));
        lemma_tdiv_bound(lam as int * dx as int, SCALE as int, absi(dx as int));
        lemma_mul_bound(lam as int, SCALE as int, dy as int, absi(dy as int));
        lemma_tdiv_bound(lam as int * dy as int, SCALE as int, absi(dy as int));
    }
    let nx = sat_i64(crate::fixed::fxmul_i128(lam, dx) + clipped.x as i128);
    let ny = sat_i64(crate::fixed::fxmul_i128(lam, dy) + clipped.y as i128);
    Point { x: nx, y: ny, z: viewport_distance }
}

/// Truncating division never grows the magnitude (helper phrasing over
/// an explicit dividend).
proof fn lemma_tdiv_shrink_helper(a: int, b: int)
    requires
        b >= 1,
    ensures
        -absi(a) <= tdiv(a, b) <= absi(a),
{
    crate::fixed::lemma_tdiv_shrinks(a, b);
}

/// For a segment with one endpoint short of the near plane and the other
/// at or beyond it, the synthetic endpoint built by the clipper lies
/// exactly on the plane.
pub proof fn lemma_clip_meets_near_plane(
    clipped: (int, int, int),
    unclipped: (int, int, int),
    vd: int,
)
    requires
        clipped.2 < vd <= unclipped.2,
    ensures
        spec_clip_point(clipped, unclipped, vd).2 == vd,
{
    reveal(spec_clip_point);
}

/// The projection of a point depends only on the camera's pose, its
/// viewport parameters and the framebuffer's dimensions, never on the
/// framebuffer's contents.
pub proof fn lemma_projection_ignores_content(cam1: Camera, cam2: Camera)
    requires
        cam1.coordinates == cam2.coordinates,
        cam1.yaw == cam2.yaw,
        cam1.pitch == cam2.pitch,
        cam1.roll == cam2.roll,
        cam1.viewport_distance == cam2.viewport_distance,
        cam1.tan_half_fov == cam2.tan_half_fov,
        cam1.screen.width == cam2.screen.width,
        cam1.screen.height == cam2.screen.height,
    ensures
        forall|p: Point| cam1.spec_world_to_camera(p) == cam2.spec_world_to_camera(p),
        cam1.spec_viewport_width() == cam2.spec_viewport_width(),
        cam1.spec_viewport_height() == cam2.spec_viewport_height(),
        cam1.spec_projectable() == cam2.spec_projectable(),
        forall|x: int, z: int|
            #[trigger] cam1.spec_screen_x(x, z) == #[trigger] cam2.spec_screen_x(x, z),
        forall|y: int, z: int|
            #[trigger] cam1.spec_screen_y(y, z) == #[trigger] cam2.spec_screen_y(y, z),
{
    reveal(Camera::spec_world_to_camera);
    reveal(Camera::spec_viewport_width);
    reveal(Camera::spec_viewport_height);
    reveal(Camera::spec_screen_x);
    reveal(Camera::spec_screen_y);
}

/// A camera at the origin with zero yaw, pitch and roll maps every
/// on-axis point `(0, 0, z)` with `z` at or beyond the near plane to the
/// centre of the screen, whatever `z` is.
pub proof fn lemma_on_axis_projects_to_center(cam: Camera, p: Point)
    requires
        cam.wf(),
        cam.coordinates.x == 0 && cam.coordinates.y == 0 && cam.coordinates.z == 0,
        cam.yaw.sin == 0 && cam.yaw.cos == SCALE,
        cam.pitch.sin == 0 && cam.pitch.cos == SCALE,
        cam.roll.sin == 0 && cam.roll.cos == SCALE,
        p.x == 0 && p.y == 0,
        p.z >= cam.viewport_distance,
        cam.spec_projectable(),
    ensures
        cam.spec_world_to_camera(p) == (0int, 0int, p.z as int),
        cam.spec_screen_x(0, p.z as int) == (cam.screen.width as int + 1) / 2,
        cam.spec_screen_y(0, p.z as int) == (cam.screen.height as int + 1) / 2,
{
    reveal(Camera::spec_world_to_camera);
    reveal(Camera::spec_screen_x);
    reveal(Camera::spec_screen_y);
    let s = SCALE as int;
    let z = p.z as int;
    vstd::arithmetic::div_mod::lemma_div_by_multiple(z, s);
    assert(z * s == z * s);
    assert(fxmul(z, s) == z);
    assert(fxmul(0, s) == 0);
    assert(z * 0 == 0) by (nonlinear_arith);
    assert(fxmul(z, 0) == 0);
    assert(fxmul(0, 0) == 0);
    assert(cam.spec_world_to_camera(p) == (0int, 0int, z));

    let w = cam.screen.width as int;
    let h = cam.screen.height as int;
    assert(0 * cam.viewport_distance as int == 0) by (nonlinear_arith);
    vstd::arithmetic::div_mod::lemma_div_of0(z);
    assert(tdiv(0, z) == 0);
    vstd::arithmetic::div_mod::lemma_div_of0(cam.spec_viewport_width());
    vstd::arithmetic::div_mod::lemma_div_of0(cam.spec_viewport_height());
    assert(0 * s == 0) by (nonlinear_arith);
    assert(fxdiv(0, cam.spec_viewport_width()) == 0);
    assert(fxdiv(0, cam.spec_viewport_height()) == 0);
    assert((0 + HALF as int) * w == 32768 * w);
    assert((SCALE as int - (0 + HALF as int)) * h == 32768 * h);
    lemma_center_round(w);
    lemma_center_round(h);
    assert(0 <= (w + 1) / 2 <= 32768);
    assert(0 <= (h + 1) / 2 <= 32768);
}

/// Rounding `width / 2` in fixed point gives `(width + 1) / 2` exactly,
/// for any whole `width` of the screen's range.
proof fn lemma_center_round(w: int)
    requires
        0 <= w <= 0x1_0000,
    ensures
        fxround(32768 * w) == (w + 1) / 2,
{
    assert(32768 * w >= 0);
    assert(32768 * w + HALF as int == 32768 * (w + 1));
    vstd::arithmetic::div_mod::lemma_div_denominator(32768 * (w + 1), 32768, 2);
    vstd::arithmetic::div_mod::lemma_div_by_multiple(w + 1, 32768);
    assert((w + 1) * 32768 == 32768 * (w + 1));
}

/// Magnitude of an integer.
pub open spec fn absi(a: int) -> int {
    if a >= 0 {
        a
    } else {
        -a
    }
}

/// One plane rotation step of the world-to-camera transform:
/// `(u, v)` becomes `(u cos - v sin, u sin + v cos)` in fixed point.
fn rotate(u: i128, v: i128, sin: i64, cos: i64) -> (r: (i128, i128))
    requires
        -(SCALE as int) <= sin <= SCALE as int,
        -(SCALE as int) <= cos <= SCALE as int,
        absi(u as int) <= 0x1_0000_0000_0000_0000_0000,
        absi(v as int) <= 0x1_0000_0000_0000_0000_0000,
    ensures
        r.0 == fxmul(u as int, cos as int) - fxmul(v as int, sin as int),
        r.1 == fxmul(u as int, sin as int) + fxmul(v as int, cos as int),
        absi(r.0 as int) <= absi(u as int) + absi(v as int),
        absi(r.1 as int) <= absi(u as int) + absi(v as int),
{
    proof {
        lemma_mul_bound(u as int, absi(u as int), cos as int, SCALE as int);
        lemma_mul_bound(u as int, absi(u as int), sin as int, SCALE as int);
        lemma_mul_bound(v as int, absi(v as int), cos as int, SCALE as int);
        lemma_mul_bound(v as int, absi(v as int), sin as int, SCALE as int);
        lemma_tdiv_bound(u as int * cos as int, SCALE as int, absi(u as int));
        lemma_tdiv_bound(u as int * sin as int, SCALE as int, absi(u as int));
        lemma_tdiv_bound(v as int * cos as int, SCALE as int, absi(v as int));
        lemma_tdiv_bound(v as int * sin as int, SCALE as int, absi(v as int));
    }
    let uc = tdiv_i128(u * cos as i128, SCALE as i128);
    let us = tdiv_i128(u * sin as i128, SCALE as i128);
    let vc = tdiv_i128(v * cos as i128, SCALE as i128);
    let vs = tdiv_i128(v * sin as i128, SCALE as i128);
    (uc - vs, us + vc)
}

} // verus!
