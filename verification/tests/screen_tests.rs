use t3d::screen::{Point, Screen};

fn lit_cells(s: &Screen) -> Vec<(usize, usize)> {
    let mut cells = Vec::new();
    for y in 0..s.content.len() {
        for x in 0..s.content[y].len() {
            if s.content[y][x] {
                cells.push((x, y));
            }
        }
    }
    cells
}

#[test]
fn new_screen_is_empty() {
    let s = Screen::new();
    assert_eq!(s.width, 0);
    assert_eq!(s.height, 0);
    assert_eq!(s.content.len(), 0);
}

#[test]
fn resize_sets_dimensions_and_clears() {
    let mut s = Screen::new();
    s.resize(4, 3);
    assert_eq!(s.width, 4);
    assert_eq!(s.height, 3);
    assert_eq!(s.content.len(), 3);
    for row in &s.content {
        assert_eq!(row.len(), 4);
        assert!(row.iter().all(|&c| !c));
    }
}

#[test]
fn write_sets_cell_in_bounds() {
    let mut s = Screen::new();
    s.resize(4, 3);
    s.write(true, &Point::new(2, 1));
    assert!(s.content[1][2]);
    assert_eq!(lit_cells(&s).len(), 1);
    s.write(false, &Point::new(2, 1));
    assert_eq!(lit_cells(&s).len(), 0);
}

#[test]
fn write_out_of_bounds_is_dropped() {
    let mut s = Screen::new();
    s.resize(4, 3);
    s.write(true, &Point::new(-1, 0));
    s.write(true, &Point::new(0, -1));
    s.write(true, &Point::new(4, 0));
    s.write(true, &Point::new(0, 3));
    s.write(true, &Point::new(i32::MAX, i32::MIN));
    assert_eq!(lit_cells(&s).len(), 0);
}

#[test]
fn write_boundary_cells() {
    let mut s = Screen::new();
    s.resize(4, 3);
    s.write(true, &Point::new(0, 0));
    s.write(true, &Point::new(3, 2));
    let cells = lit_cells(&s);
    assert_eq!(cells, vec![(0, 0), (3, 2)]);
}

#[test]
fn clear_resets_all_cells() {
    let mut s = Screen::new();
    s.resize(4, 3);
    s.write(true, &Point::new(1, 1));
    s.write(true, &Point::new(3, 0));
    s.clear();
    assert_eq!(s.width, 4);
    assert_eq!(s.height, 3);
    assert_eq!(lit_cells(&s).len(), 0);
}

#[test]
fn resize_preserves_kept_cells() {
    let mut s = Screen::new();
    s.resize(4, 4);
    s.write(true, &Point::new(1, 2));
    s.write(true, &Point::new(3, 3));
    s.resize(3, 3);
    assert!(s.content[2][1]);
    assert_eq!(lit_cells(&s), vec![(1, 2)]);
    s.resize(5, 6);
    assert_eq!(lit_cells(&s), vec![(1, 2)]);
    for row in &s.content {
        assert_eq!(row.len(), 5);
    }
    assert_eq!(s.content.len(), 6);
}

#[test]
fn resize_round_trip_restores_grid() {
    let mut s = Screen::new();
    s.resize(3, 3);
    s.write(true, &Point::new(0, 0));
    s.write(true, &Point::new(2, 1));
    s.write(true, &Point::new(1, 2));
    let before: Vec<Vec<bool>> = s.content.clone();
    s.resize(7, 5);
    s.resize(3, 3);
    assert_eq!(s.content, before);
}

#[test]
fn line_sets_both_endpoints() {
    let mut s = Screen::new();
    s.resize(10, 10);
    s.line(&Point::new(1, 1), &Point::new(8, 5));
    assert!(s.content[1][1]);
    assert!(s.content[5][8]);
}

#[test]
fn horizontal_line_fills_row_segment() {
    let mut s = Screen::new();
    s.resize(10, 5);
    s.line(&Point::new(2, 3), &Point::new(7, 3));
    for x in 2..=7 {
        assert!(s.content[3][x], "cell {} unset", x);
    }
    assert_eq!(lit_cells(&s).len(), 6);
}

#[test]
fn vertical_line_fills_column_segment() {
    let mut s = Screen::new();
    s.resize(5, 10);
    s.line(&Point::new(2, 8), &Point::new(2, 3));
    for y in 3..=8 {
        assert!(s.content[y][2], "cell {} unset", y);
    }
    assert_eq!(lit_cells(&s).len(), 6);
}

#[test]
fn diagonal_line_is_connected() {
    let mut s = Screen::new();
    s.resize(10, 10);
    s.line(&Point::new(0, 0), &Point::new(9, 6));
    let cells = lit_cells(&s);
    assert!(cells.contains(&(0, 0)));
    assert!(cells.contains(&(9, 6)));
    // every lit cell has a lit 8-neighbour unless it is the only cell
    for &(x, y) in &cells {
        if (x, y) == (0, 0) || (x, y) == (9, 6) {
            continue;
        }
        let has_neighbour = cells.iter().any(|&(nx, ny)| {
            (nx, ny) != (x, y)
                && (nx as i64 - x as i64).abs() <= 1
                && (ny as i64 - y as i64).abs() <= 1
        });
        assert!(has_neighbour, "cell ({}, {}) isolated", x, y);
    }
}

#[test]
fn line_partly_off_screen_draws_visible_part() {
    let mut s = Screen::new();
    s.resize(4, 4);
    s.line(&Point::new(-3, 1), &Point::new(6, 1));
    for x in 0..4 {
        assert!(s.content[1][x]);
    }
    assert_eq!(lit_cells(&s).len(), 4);
}

#[test]
fn single_point_line() {
    let mut s = Screen::new();
    s.resize(4, 4);
    s.line(&Point::new(2, 2), &Point::new(2, 2));
    assert_eq!(lit_cells(&s), vec![(2, 2)]);
}

#[test]
fn fit_block_to_terminal_reserves_status_row() {
    let mut s = Screen::new();
    s.fit_block_to_terminal(40, 23);
    assert_eq!(s.width, 80);
    assert_eq!(s.height, 44);
}

#[test]
fn fit_braile_to_terminal_reserves_status_row() {
    let mut s = Screen::new();
    s.fit_braile_to_terminal(40, 23);
    assert_eq!(s.width, 80);
    assert_eq!(s.height, 88);
}
