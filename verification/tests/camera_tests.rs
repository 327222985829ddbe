use t3d::three::{Angle, Camera, Point};

fn fx(v: f32) -> i64 {
    (v * 65536.0).round() as i64
}

fn angle(rad: f32) -> Angle {
    Angle::new(fx(rad.sin()), fx(rad.cos()))
}

fn test_camera() -> Camera {
    let mut cam = Camera::new(
        Point::new(0, 0, 0),
        Angle::zero(),
        Angle::zero(),
        Angle::zero(),
        fx(0.1),
        fx((1.7f32 / 2.0).tan()),
    );
    cam.screen.resize(80, 44);
    cam
}

fn lit_cells(cam: &Camera) -> Vec<(usize, usize)> {
    let mut cells = Vec::new();
    for y in 0..cam.screen.content.len() {
        for x in 0..cam.screen.content[y].len() {
            if cam.screen.content[y][x] {
                cells.push((x, y));
            }
        }
    }
    cells
}

#[test]
fn on_axis_point_projects_to_center() {
    let mut cam = test_camera();
    cam.write(true, &Point::new(0, 0, fx(5.0)));
    assert_eq!(lit_cells(&cam), vec![(40, 22)]);
}

#[test]
fn on_axis_projection_is_independent_of_depth() {
    for z in [0.11f32, 0.5, 1.0, 2.0, 100.0, 5000.0] {
        let mut cam = test_camera();
        cam.write(true, &Point::new(0, 0, fx(z)));
        assert_eq!(lit_cells(&cam), vec![(40, 22)], "depth {}", z);
    }
}

#[test]
fn point_short_of_near_plane_is_not_drawn() {
    let mut cam = test_camera();
    cam.write(true, &Point::new(0, 0, fx(0.05)));
    cam.write(true, &Point::new(0, 0, 0));
    cam.write(true, &Point::new(0, 0, fx(-3.0)));
    cam.write(true, &Point::new(fx(0.2), fx(0.1), fx(0.09)));
    assert_eq!(lit_cells(&cam).len(), 0);
}

#[test]
fn point_at_near_plane_is_drawn() {
    let mut cam = test_camera();
    cam.write(true, &Point::new(0, 0, fx(0.1)));
    assert_eq!(lit_cells(&cam), vec![(40, 22)]);
}

#[test]
fn off_screen_point_is_dropped() {
    let mut cam = test_camera();
    // far off to the side: projects outside the 80x44 buffer
    cam.write(true, &Point::new(fx(100.0), 0, fx(1.0)));
    assert_eq!(lit_cells(&cam).len(), 0);
}

#[test]
fn world_to_camera_undoes_yaw() {
    let mut cam = test_camera();
    cam.yaw = angle(std::f32::consts::FRAC_PI_2);
    let p = cam.world_to_camera(&Point::new(fx(1.0), 0, 0));
    assert_eq!(p.x, 0);
    assert_eq!(p.y, 0);
    assert_eq!(p.z, fx(1.0));
}

#[test]
fn world_to_camera_translates_by_position() {
    let mut cam = test_camera();
    cam.coordinates = Point::new(fx(1.0), fx(2.0), fx(3.0));
    let p = cam.world_to_camera(&Point::new(fx(1.5), fx(1.0), fx(7.0)));
    assert_eq!(p.x, fx(0.5));
    assert_eq!(p.y, fx(-1.0));
    assert_eq!(p.z, fx(4.0));
}

#[test]
fn horizontal_segment_rasterizes_on_one_row() {
    // an 80x44 block-mode buffer; segment from (-0.1, -0.1, 1.0) to
    // (0.1, -0.1, 1.0) must give a horizontal run of cells on a single
    // row, reaching from strictly left of centre to strictly right of it
    let mut cam = test_camera();
    cam.edge(
        &Point::new(fx(-0.1), fx(-0.1), fx(1.0)),
        &Point::new(fx(0.1), fx(-0.1), fx(1.0)),
    );
    let cells = lit_cells(&cam);
    assert!(!cells.is_empty());
    let row = cells[0].1;
    for &(_, y) in &cells {
        assert_eq!(y, row, "cell outside the segment's row");
    }
    let min_x = cells.iter().map(|&(x, _)| x).min().unwrap();
    let max_x = cells.iter().map(|&(x, _)| x).max().unwrap();
    assert!(min_x < 40, "left endpoint not left of centre: {}", min_x);
    assert!(max_x > 40, "right endpoint not right of centre: {}", max_x);
}

#[test]
fn segment_fully_behind_near_plane_draws_nothing() {
    let mut cam = test_camera();
    cam.edge(
        &Point::new(fx(-1.0), fx(0.5), fx(-2.0)),
        &Point::new(fx(1.0), fx(0.5), fx(0.05)),
    );
    assert_eq!(lit_cells(&cam).len(), 0);
}

#[test]
fn segment_crossing_near_plane_is_clipped_not_dropped() {
    let mut cam = test_camera();
    cam.edge(
        &Point::new(0, fx(-0.1), fx(-1.0)),
        &Point::new(0, fx(-0.1), fx(1.0)),
    );
    // the visible half of the segment runs straight down the centre column
    let cells = lit_cells(&cam);
    assert!(!cells.is_empty());
    for &(x, _) in &cells {
        assert_eq!(x, 40);
    }
}

#[test]
fn camera_new_owns_empty_screen() {
    let cam = Camera::new(
        Point::new(1, 2, 3),
        Angle::zero(),
        Angle::zero(),
        Angle::zero(),
        fx(0.1),
        fx(1.0),
    );
    assert_eq!(cam.screen.width, 0);
    assert_eq!(cam.screen.height, 0);
    assert_eq!(cam.coordinates.x, 1);
    assert_eq!(cam.viewport_distance, fx(0.1));
}

#[test]
fn angle_clamps_to_unit_interval() {
    let a = Angle::new(100_000, -100_000);
    assert_eq!(a.sin, 65536);
    assert_eq!(a.cos, -65536);
    let b = Angle::zero();
    assert_eq!(b.sin, 0);
    assert_eq!(b.cos, 65536);
}

#[test]
fn later_draw_overwrites_at_bit_level() {
    let mut cam = test_camera();
    cam.write(true, &Point::new(0, 0, fx(1.0)));
    assert_eq!(lit_cells(&cam), vec![(40, 22)]);
    cam.write(false, &Point::new(0, 0, fx(1.0)));
    assert_eq!(lit_cells(&cam).len(), 0);
}
