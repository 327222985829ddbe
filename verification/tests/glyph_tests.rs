use t3d::renderer;
use t3d::screen::{block_pixel_to_char, braile_pixel_to_char, BlockPixel, BrailePixel, Dim, Point, Screen};

fn block_pixel(bits: u32) -> [[bool; 2]; 2] {
    [
        [bits & 1 != 0, bits & 2 != 0],
        [bits & 4 != 0, bits & 8 != 0],
    ]
}

fn braille_pixel(mask: u32) -> [[bool; 2]; 4] {
    [
        [mask & 0x01 != 0, mask & 0x08 != 0],
        [mask & 0x02 != 0, mask & 0x10 != 0],
        [mask & 0x04 != 0, mask & 0x20 != 0],
        [mask & 0x40 != 0, mask & 0x80 != 0],
    ]
}

#[test]
fn block_patterns_all_distinct() {
    let mut chars = Vec::new();
    for bits in 0..16 {
        chars.push(block_pixel_to_char(&block_pixel(bits)));
    }
    for i in 0..16 {
        for j in 0..16 {
            if i != j {
                assert_ne!(chars[i], chars[j]);
            }
        }
    }
}

#[test]
fn block_known_glyphs() {
    assert_eq!(block_pixel_to_char(&[[false, false], [false, false]]), ' ');
    assert_eq!(block_pixel_to_char(&[[true, false], [false, false]]), '▘');
    assert_eq!(block_pixel_to_char(&[[false, true], [false, false]]), '▝');
    assert_eq!(block_pixel_to_char(&[[true, true], [false, false]]), '▀');
    assert_eq!(block_pixel_to_char(&[[false, false], [true, true]]), '▄');
    assert_eq!(block_pixel_to_char(&[[true, false], [true, false]]), '▌');
    assert_eq!(block_pixel_to_char(&[[false, true], [true, false]]), '▞');
    assert_eq!(block_pixel_to_char(&[[true, true], [true, true]]), '█');
}

#[test]
fn tuple_and_array_block_mappings_agree() {
    for bits in 0..16 {
        let p = block_pixel(bits);
        let tuple = (p[0][0], p[0][1], p[1][0], p[1][1]);
        assert_eq!(renderer::pixel_to_char(&tuple), block_pixel_to_char(&p));
    }
}

#[test]
fn braille_every_mask_maps_to_offset_codepoint() {
    for mask in 0u32..256 {
        let c = braile_pixel_to_char(&braille_pixel(mask));
        assert_eq!(c as u32, 0x2800 + mask);
    }
}

#[test]
fn braille_known_glyphs() {
    assert_eq!(
        braile_pixel_to_char(&[[false, false]; 4]) as u32,
        0x2800
    );
    // dot 1 alone: top-left
    assert_eq!(
        braile_pixel_to_char(&[
            [true, false],
            [false, false],
            [false, false],
            [false, false]
        ]) as u32,
        0x2801
    );
    // dot 8 alone: bottom-right
    assert_eq!(
        braile_pixel_to_char(&[
            [false, false],
            [false, false],
            [false, false],
            [false, true]
        ]) as u32,
        0x2880
    );
    // all eight dots
    assert_eq!(braile_pixel_to_char(&[[true, true]; 4]) as u32, 0x28FF);
}

#[test]
fn render_block_packs_cells_and_pads() {
    let mut s = Screen::new();
    s.resize(3, 3);
    s.write(true, &Point::new(0, 0));
    s.write(true, &Point::new(1, 1));
    s.write(true, &Point::new(2, 2));
    let rows = s.render_block();
    assert_eq!(rows.len(), 2);
    assert_eq!(rows[0].len(), 2);
    assert_eq!(rows[1].len(), 2);
    // top-left cell has its top-left and bottom-right pixels lit
    assert_eq!(rows[0][0], '▚');
    // column 2 row 2 lands in the padded bottom-right glyph, top-left pixel
    assert_eq!(rows[1][1], '▘');
    assert_eq!(rows[0][1], ' ');
    assert_eq!(rows[1][0], ' ');
}

#[test]
fn render_block_empty_screen() {
    let s = Screen::new();
    let rows = s.render_block();
    assert_eq!(rows.len(), 0);
}

#[test]
fn render_braile_packs_cells_and_pads() {
    let mut s = Screen::new();
    s.resize(3, 5);
    s.write(true, &Point::new(0, 0)); // dot 1 of cell (0, 0)
    s.write(true, &Point::new(1, 3)); // dot 8 of cell (0, 0)
    s.write(true, &Point::new(2, 4)); // dot 1 of padded cell (1, 1)
    let rows = s.render_braile();
    assert_eq!(rows.len(), 2);
    assert_eq!(rows[0].len(), 2);
    assert_eq!(rows[0][0] as u32, 0x2800 | 0x81);
    assert_eq!(rows[0][1] as u32, 0x2800);
    assert_eq!(rows[1][0] as u32, 0x2800);
    assert_eq!(rows[1][1] as u32, 0x2801);
}

#[test]
fn renderer_screen_write_and_render() {
    let mut s = renderer::Screen::new(renderer::Point::new(4, 3));
    s.write(true, &renderer::Point::new(0, 0));
    s.write(true, &renderer::Point::new(1, 1));
    s.write(true, &renderer::Point::new(3, 2));
    let rows = s.render();
    assert_eq!(rows.len(), 2);
    assert_eq!(rows[0].len(), 2);
    assert_eq!(rows[0][0], '▚');
    assert_eq!(rows[0][1], ' ');
    // bottom row is padded with unlit pixels below
    assert_eq!(rows[1][1], '▝');
}

#[test]
fn renderer_clear_resets() {
    let mut s = renderer::Screen::new(renderer::Point::new(4, 4));
    s.write(true, &renderer::Point::new(2, 2));
    s.clear();
    let rows = s.render();
    for row in rows {
        for c in row {
            assert_eq!(c, ' ');
        }
    }
}

#[test]
fn dim_reads_cell_dimensions() {
    assert_eq!(<BlockPixel as Dim>::WIDTH, 2);
    assert_eq!(<BlockPixel as Dim>::HEIGHT, 2);
    assert_eq!(<BrailePixel as Dim>::WIDTH, 2);
    assert_eq!(<BrailePixel as Dim>::HEIGHT, 4);
}
