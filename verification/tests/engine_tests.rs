use toroidal_life::engine::Universe;
use toroidal_life::grid::{Cell, Coord};

fn live_at(u: &Universe, y: usize, x: usize) -> bool {
    u.get(Coord { y, x }) == Cell::Live
}

#[test]
fn fresh_engine_renders_blank_lines() {
    let u = Universe::new(4, 3);
    let text = u.render();
    let lines: Vec<&str> = text.split_terminator('\n').collect();
    assert_eq!(lines.len(), 3);
    for line in lines {
        assert_eq!(line, "    ");
    }
    assert_eq!(text.len(), 3 * 5);
}

#[test]
fn render_shows_live_glyphs() {
    let mut u = Universe::new(2, 2);
    u.set(Coord { y: 0, x: 0 }, Cell::Live);
    assert_eq!(u.render(), "+ \n  \n");
}

#[test]
fn getters_report_dimensions() {
    let u = Universe::new(7, 5);
    assert_eq!(u.get_width(), 7);
    assert_eq!(u.get_height(), 5);
}

#[test]
fn get_and_set_wrap_coordinates() {
    let mut u = Universe::new(4, 3);
    u.set(Coord { y: 3, x: 4 }, Cell::Live);
    assert!(live_at(&u, 0, 0));
    assert!(u.get(Coord { y: 6, x: 8 }) == Cell::Live);
    assert_eq!(u.live_count(), 1);
}

#[test]
fn neighbors_enumerates_eight_wrapped_coords() {
    let c = Coord { y: 0, x: 0 };
    let ns = c.neighbors(5, 5);
    let expected = [
        (4, 4),
        (4, 0),
        (4, 1),
        (0, 4),
        (0, 1),
        (1, 4),
        (1, 0),
        (1, 1),
    ];
    assert_eq!(ns.len(), 8);
    for (n, (ey, ex)) in ns.iter().zip(expected.iter()) {
        assert_eq!((n.y, n.x), (*ey, *ex));
    }
}

#[test]
fn lone_center_cell_dies_and_no_births() {
    let mut u = Universe::new(3, 3);
    u.set(Coord { y: 1, x: 1 }, Cell::Live);
    u.tick();
    for y in 0..3 {
        for x in 0..3 {
            assert!(!live_at(&u, y, x));
        }
    }
    assert_eq!(u.live_count(), 0);
}

#[test]
fn blinker_oscillates_with_period_two() {
    let mut u = Universe::new(5, 5);
    u.set(Coord { y: 2, x: 1 }, Cell::Live);
    u.set(Coord { y: 2, x: 2 }, Cell::Live);
    u.set(Coord { y: 2, x: 3 }, Cell::Live);
    u.tick();
    // vertical line centered on (2, 2)
    for y in 0..5 {
        for x in 0..5 {
            let expect = x == 2 && (1..=3).contains(&y);
            assert_eq!(live_at(&u, y, x), expect, "first step at ({}, {})", y, x);
        }
    }
    u.tick();
    // back to the horizontal line
    for y in 0..5 {
        for x in 0..5 {
            let expect = y == 2 && (1..=3).contains(&x);
            assert_eq!(live_at(&u, y, x), expect, "second step at ({}, {})", y, x);
        }
    }
}

#[test]
fn blinker_wraps_across_vertical_edge() {
    // horizontal blinker crossing the left/right seam: (2,4), (2,0), (2,1)
    let mut u = Universe::new(5, 5);
    u.set(Coord { y: 2, x: 4 }, Cell::Live);
    u.set(Coord { y: 2, x: 0 }, Cell::Live);
    u.set(Coord { y: 2, x: 1 }, Cell::Live);
    u.tick();
    // becomes a vertical line at column 0: only wrap-around neighboring
    // makes the seam cells see each other
    for y in 0..5 {
        for x in 0..5 {
            let expect = x == 0 && (1..=3).contains(&y);
            assert_eq!(live_at(&u, y, x), expect, "at ({}, {})", y, x);
        }
    }
}

#[test]
fn blinker_wraps_across_horizontal_edge() {
    // vertical blinker crossing the top/bottom seam: (4,2), (0,2), (1,2)
    let mut u = Universe::new(5, 5);
    u.set(Coord { y: 4, x: 2 }, Cell::Live);
    u.set(Coord { y: 0, x: 2 }, Cell::Live);
    u.set(Coord { y: 1, x: 2 }, Cell::Live);
    u.tick();
    for y in 0..5 {
        for x in 0..5 {
            let expect = y == 0 && (1..=3).contains(&x);
            assert_eq!(live_at(&u, y, x), expect, "at ({}, {})", y, x);
        }
    }
}

#[test]
fn one_by_one_torus_cell_is_its_own_neighbors() {
    // on a 1x1 torus all eight neighbor coordinates wrap to the cell itself,
    // so a live cell sees eight live neighbors and dies of overcrowding
    let mut u = Universe::new(1, 1);
    u.set(Coord { y: 0, x: 0 }, Cell::Live);
    u.tick();
    assert!(!live_at(&u, 0, 0));
    assert_eq!(u.render_pixels().len(), 4);
}

#[test]
fn randomize_is_deterministic_per_seed() {
    let mut a = Universe::new(8, 8);
    let mut b = Universe::new(8, 8);
    a.randomize(42);
    b.randomize(42);
    assert_eq!(a.render(), b.render());
    assert_eq!(a.render_pixels(), b.render_pixels());
    assert_eq!(a.live_count(), b.live_count());
    // and the two evolve identically
    a.tick();
    b.tick();
    assert_eq!(a.render(), b.render());
}

#[test]
fn randomize_actually_fills_from_the_seed() {
    // 256 cells: a zeroed or unfilled bit source would leave every cell dead
    let mut u = Universe::new(16, 16);
    u.randomize(1);
    let live = u.live_count();
    assert!(live > 0);
    assert!(live < 256);
}

#[test]
fn pixel_buffer_has_four_bytes_per_cell() {
    for (w, h) in [(1, 1), (4, 3), (16, 16), (5, 7)] {
        let mut u = Universe::new(w, h);
        assert_eq!(u.render_pixels().len(), w * h * 4);
        u.randomize(7);
        assert_eq!(u.render_pixels().len(), w * h * 4);
        u.tick();
        assert_eq!(u.render_pixels().len(), w * h * 4);
    }
}

#[test]
fn pixel_colors_are_fixed_per_cell_state() {
    let mut u = Universe::new(2, 1);
    u.set(Coord { y: 0, x: 1 }, Cell::Live);
    let px = u.render_pixels();
    assert_eq!(px, vec![0, 0, 0, 255, 255, 0, 0, 255]);
}

#[test]
fn render_is_idempotent_without_a_step() {
    let mut u = Universe::new(6, 4);
    u.randomize(99);
    assert_eq!(u.render(), u.render());
    assert_eq!(u.render_pixels(), u.render_pixels());
}

#[test]
fn live_count_counts_set_cells() {
    let mut u = Universe::new(4, 4);
    assert_eq!(u.live_count(), 0);
    u.set(Coord { y: 0, x: 0 }, Cell::Live);
    u.set(Coord { y: 1, x: 2 }, Cell::Live);
    u.set(Coord { y: 3, x: 3 }, Cell::Live);
    assert_eq!(u.live_count(), 3);
    u.set(Coord { y: 3, x: 3 }, Cell::Dead);
    assert_eq!(u.live_count(), 2);
}
