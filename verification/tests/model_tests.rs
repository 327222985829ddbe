use t3d::model::Model;
use t3d::three::{Angle, Camera, Point};

fn fx(v: f32) -> i64 {
    (v * 65536.0).round() as i64
}

fn same_point(a: &Point, x: i64, y: i64, z: i64) -> bool {
    a.x == x && a.y == y && a.z == z
}

#[test]
fn new_stores_fields() {
    let m = Model::new(
        vec![Point::new(1, 2, 3)],
        vec![(Point::new(0, 0, 0), Point::new(4, 5, 6))],
        Point::new(7, 8, 9),
    );
    assert_eq!(m.points.len(), 1);
    assert_eq!(m.edges.len(), 1);
    assert!(same_point(&m.position, 7, 8, 9));
}

#[test]
fn model_to_world_adds_position() {
    let m = Model::new(Vec::new(), Vec::new(), Point::new(fx(1.0), fx(-2.0), fx(0.5)));
    let w = m.model_to_world(&Point::new(fx(0.25), fx(2.0), fx(-1.0)));
    assert!(same_point(&w, fx(1.25), 0, fx(-0.5)));
}

#[test]
fn model_to_world_saturates_at_range_edge() {
    let m = Model::new(Vec::new(), Vec::new(), Point::new(i64::MAX, i64::MIN, 0));
    let w = m.model_to_world(&Point::new(10, -10, 5));
    assert_eq!(w.x, i64::MAX);
    assert_eq!(w.y, i64::MIN);
    assert_eq!(w.z, 5);
}

#[test]
fn new_cube_has_twelve_edges_and_no_points() {
    let m = Model::new_cube(fx(2.0), Point::new(1, 2, 3));
    assert_eq!(m.points.len(), 0);
    assert_eq!(m.edges.len(), 12);
    assert!(same_point(&m.position, 1, 2, 3));
    let h = fx(1.0);
    // the first front edge joins (-h, -h, h) and (-h, h, h)
    assert!(same_point(&m.edges[0].0, -h, -h, h));
    assert!(same_point(&m.edges[0].1, -h, h, h));
    // the last edge joins rear corner (h, -h, -h) to front corner (h, -h, h)
    assert!(same_point(&m.edges[11].0, h, -h, -h));
    assert!(same_point(&m.edges[11].1, h, -h, h));
    // every corner coordinate is at half the side length
    for (a, b) in &m.edges {
        for p in [a, b] {
            assert!(p.x.abs() == h && p.y.abs() == h && p.z.abs() == h);
        }
    }
}

#[test]
fn world_bounds_covers_points_and_edges() {
    let m = Model::new(
        vec![Point::new(1, 2, 3)],
        vec![(Point::new(-5, 0, 0), Point::new(0, 7, 0))],
        Point::new(0, 0, 0),
    );
    let (lo, hi) = m.world_bounds();
    assert!(same_point(&lo, -5, 0, 0));
    assert!(same_point(&hi, 1, 7, 3));
}

#[test]
fn world_bounds_of_empty_model_is_zero() {
    let m = Model::new(Vec::new(), Vec::new(), Point::new(9, 9, 9));
    let (lo, hi) = m.world_bounds();
    assert!(same_point(&lo, 0, 0, 0));
    assert!(same_point(&hi, 0, 0, 0));
}

#[test]
fn world_bounds_single_point() {
    let m = Model::new(vec![Point::new(-3, 4, -5)], Vec::new(), Point::new(0, 0, 0));
    let (lo, hi) = m.world_bounds();
    assert!(same_point(&lo, -3, 4, -5));
    assert!(same_point(&hi, -3, 4, -5));
}

#[test]
fn plot_model_draws_visible_point() {
    let mut cam = Camera::new(
        Point::new(0, 0, 0),
        Angle::zero(),
        Angle::zero(),
        Angle::zero(),
        fx(0.1),
        fx((1.7f32 / 2.0).tan()),
    );
    cam.screen.resize(80, 44);
    let m = Model::new(
        vec![Point::new(0, 0, 0)],
        Vec::new(),
        Point::new(0, 0, fx(2.0)),
    );
    cam.plot_model(&m);
    assert!(cam.screen.content[22][40]);
}

#[test]
fn plot_model_draws_cube_edges() {
    let mut cam = Camera::new(
        Point::new(0, 0, 0),
        Angle::zero(),
        Angle::zero(),
        Angle::zero(),
        fx(0.1),
        fx((1.7f32 / 2.0).tan()),
    );
    cam.screen.resize(80, 44);
    let m = Model::new_cube(fx(1.0), Point::new(0, 0, fx(3.0)));
    cam.plot_model(&m);
    let lit = cam
        .screen
        .content
        .iter()
        .flatten()
        .filter(|&&c| c)
        .count();
    assert!(lit > 20, "cube wireframe barely drawn: {} cells", lit);
}
