use pico_w_display::fonts::{get_colon_glyph, get_digit_glyph, Glyph};
use pico_w_display::grid::{Color, Grid, GridOrigin};

const RED: Color = Color { r: 255, g: 0, b: 0 };
const BLACK: Color = Color { r: 0, g: 0, b: 0 };
const WHITE: Color = Color { r: 255, g: 255, b: 255 };

#[test]
fn new_grid_is_black_drawn_in_white() {
    let g = Grid::<17, 289>::new(GridOrigin::TopRight);
    assert_eq!(g.pixels().len(), 289);
    assert!(g.pixels().iter().all(|c| *c == BLACK));
    assert_eq!(g.foreground(), WHITE);
    assert_eq!(g.background(), BLACK);
    assert_eq!(g.brightness(), 255);
    assert_eq!(g.orientation(), GridOrigin::TopRight);
}

fn lit_index<const W: usize, const S: usize>(g: &Grid<W, S>) -> Vec<usize> {
    g.pixels().iter().enumerate().filter(|(_, c)| **c != BLACK).map(|(i, _)| i).collect()
}

#[test]
fn set_maps_coordinates_per_orientation() {
    let cases = [
        (GridOrigin::BottomLeft, 2, 1, 19),
        (GridOrigin::TopLeft, 1, 0, 33),
        (GridOrigin::TopRight, 0, 0, 288),
        (GridOrigin::BottomRight, 0, 3, 275),
    ];
    for (o, x, y, i) in cases {
        let mut g = Grid::<17, 289>::new(o);
        g.set(x, y, RED);
        assert_eq!(lit_index(&g), vec![i]);
        assert_eq!(g.pixels()[i], RED);
    }
}

#[test]
fn rectangular_grid_indices() {
    // 4 wide, 3 rows.
    let mut g = Grid::<4, 12>::new(GridOrigin::BottomLeft);
    g.set(3, 2, RED);
    assert_eq!(lit_index(&g), vec![11]);
    let mut g = Grid::<4, 12>::new(GridOrigin::TopLeft);
    g.set(2, 3, RED);
    assert_eq!(lit_index(&g), vec![8]);
    let mut g = Grid::<4, 12>::new(GridOrigin::TopRight);
    g.set(1, 0, RED);
    assert_eq!(lit_index(&g), vec![10]);
    let mut g = Grid::<4, 12>::new(GridOrigin::BottomRight);
    g.set(0, 1, RED);
    assert_eq!(lit_index(&g), vec![9]);
}

#[test]
fn every_pixel_has_its_own_led() {
    for o in [GridOrigin::TopLeft, GridOrigin::TopRight, GridOrigin::BottomRight, GridOrigin::BottomLeft] {
        let mut seen = vec![false; 12];
        let (xs, ys) = match o {
            GridOrigin::BottomLeft | GridOrigin::TopRight => (4, 3),
            _ => (3, 4),
        };
        for x in 0..xs {
            for y in 0..ys {
                let mut g = Grid::<4, 12>::new(o);
                g.set(x, y, RED);
                let i = lit_index(&g);
                assert_eq!(i.len(), 1);
                assert!(!seen[i[0]]);
                seen[i[0]] = true;
            }
        }
        assert!(seen.iter().all(|s| *s));
    }
}

#[test]
fn on_off_and_clear_use_the_colours() {
    let mut g = Grid::<4, 12>::new(GridOrigin::BottomLeft);
    g.set_foreground(RED);
    g.on(1, 1);
    assert_eq!(g.pixels()[5], RED);
    g.set_background(Color { r: 1, g: 2, b: 3 });
    g.off(1, 1);
    assert_eq!(g.pixels()[5], Color { r: 1, g: 2, b: 3 });
    g.on(0, 0);
    g.clear();
    assert!(g.pixels().iter().all(|c| *c == Color { r: 1, g: 2, b: 3 }));
    g.set_brightness(7);
    assert_eq!(g.brightness(), 7);
}

#[test]
fn blit_draws_lit_bits_and_clears_the_box() {
    let mut g = Grid::<17, 289>::new(GridOrigin::BottomLeft);
    g.set_background(Color { r: 0, g: 0, b: 1 });
    g.set(3, 0, RED); // outside the glyph box, kept
    g.set(1, 1, RED); // inside the box, cleared
    g.blit_glyph(0, 0, get_digit_glyph(1));
    // Digit 1: columns 0b010001, 0b111111, 0b000001.
    let at = |x: usize, y: usize| g.pixels()[y * 17 + x];
    assert_eq!(at(0, 0), WHITE);
    assert_eq!(at(0, 1), Color { r: 0, g: 0, b: 1 });
    assert_eq!(at(0, 4), WHITE);
    assert_eq!(at(0, 5), Color { r: 0, g: 0, b: 1 });
    for y in 0..6 {
        assert_eq!(at(1, y), WHITE);
    }
    assert_eq!(at(2, 0), WHITE);
    assert_eq!(at(2, 1), Color { r: 0, g: 0, b: 1 });
    assert_eq!(at(3, 0), RED);
    assert_eq!(at(1, 6), BLACK);
}

#[test]
fn glyph_bitmaps() {
    let zero = get_digit_glyph(0);
    assert_eq!((zero.width(), zero.height()), (3, 6));
    assert_eq!([zero.col(0), zero.col(1), zero.col(2), zero.col(3)], [0b011110, 0b100001, 0b011110, 0]);
    let nine = get_digit_glyph(9);
    assert_eq!([nine.col(0), nine.col(1), nine.col(2)], [0b011000, 0b100101, 0b011110]);
    let colon = get_colon_glyph();
    assert_eq!((colon.width(), colon.height()), (1, 6));
    assert_eq!([colon.col(0), colon.col(1)], [0b010010, 0]);
}

#[test]
fn shown_pixels_scale_by_brightness() {
    let mut g = Grid::<4, 12>::new(GridOrigin::BottomLeft);
    g.set(0, 0, Color { r: 255, g: 200, b: 1 });
    assert_eq!(g.shown_pixels()[0], Color { r: 255, g: 200, b: 1 });
    g.set_brightness(127);
    let shown = g.shown_pixels();
    assert_eq!(shown.len(), 12);
    assert_eq!(shown[0], Color { r: 127, g: 100, b: 0 });
    assert_eq!(g.pixels()[0], Color { r: 255, g: 200, b: 1 });
    g.set_brightness(0);
    assert_eq!(g.shown_pixels()[0], Color { r: 0, g: 0, b: 0 });
}
