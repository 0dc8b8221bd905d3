use equart::canvas::Canvas;
use equart::grid::{Cell, Geometry, Pixel, SamplePoint};

#[test]
fn cell_is_column_and_row_from_the_origin() {
    let g = Geometry { width: 5, height: 4, origin_x: 2, origin_y: 1 };
    assert_eq!(g.cell(Pixel { index: 0 }), Cell { col: -2, row: -1 });
    assert_eq!(g.cell(Pixel { index: 7 }), Cell { col: 0, row: 0 });
    assert_eq!(g.cell(Pixel { index: 19 }), Cell { col: 2, row: 2 });
    assert_eq!(g.cell(Pixel { index: 4 }), Cell { col: 2, row: -1 });
    assert_eq!(g.cell(Pixel { index: 5 }), Cell { col: -2, row: 0 });
}

#[test]
fn origin_may_lie_outside_the_canvas() {
    let g = Geometry { width: 3, height: 2, origin_x: -4, origin_y: 10 };
    assert_eq!(g.cell(Pixel { index: 0 }), Cell { col: 4, row: -10 });
    assert_eq!(g.cell(Pixel { index: 5 }), Cell { col: 6, row: -9 });
    assert_eq!(g.pixel(Cell { col: 6, row: -9 }), Some(Pixel { index: 5 }));
    assert_eq!(g.pixel(Cell { col: 0, row: 0 }), None);
}

#[test]
fn pixel_to_cell_and_back_is_the_pixel() {
    let g = Geometry { width: 7, height: 5, origin_x: 3, origin_y: 2 };
    for index in 0..35 {
        let p = Pixel { index };
        assert_eq!(g.pixel(g.cell(p)), Some(p));
    }
}

#[test]
fn cell_to_pixel_and_back_is_the_cell() {
    let g = Geometry { width: 7, height: 5, origin_x: 3, origin_y: 2 };
    for col in -5..6 {
        for row in -4..5 {
            let cell = Cell { col, row };
            match g.pixel(cell) {
                Some(p) => {
                    assert!(-3 <= col && col < 4 && -2 <= row && row < 3);
                    assert_eq!(g.cell(p), cell);
                }
                None => assert!(!(-3 <= col && col < 4 && -2 <= row && row < 3)),
            }
        }
    }
}

#[test]
fn pixel_is_none_far_outside() {
    let g = Geometry { width: 4, height: 4, origin_x: 2, origin_y: 2 };
    assert_eq!(g.pixel(Cell { col: i64::MAX, row: 0 }), None);
    assert_eq!(g.pixel(Cell { col: 0, row: i64::MIN }), None);
    assert_eq!(g.pixel(Cell { col: 2, row: 0 }), None);
    assert_eq!(g.pixel(Cell { col: 1, row: 1 }), Some(Pixel { index: 15 }));
}

#[test]
fn lattice_point_carries_cell_and_steps() {
    let g = Geometry { width: 5, height: 4, origin_x: 2, origin_y: 1 };
    let s = g.lattice_point(Pixel { index: 13 }, 7, 6, 2);
    assert_eq!(s, SamplePoint { col: 1, row: 1, i: 6, j: 2, dim: 7 });
    let s = g.lattice_point(Pixel { index: 0 }, 2, 0, 1);
    assert_eq!(s, SamplePoint { col: -2, row: -1, i: 0, j: 1, dim: 2 });
}

#[test]
fn neighbor_stops_at_the_edges() {
    let g = Geometry { width: 3, height: 3, origin_x: 0, origin_y: 0 };
    let corner = Pixel { index: 0 };
    assert_eq!(g.neighbor(corner, -1, 0), None);
    assert_eq!(g.neighbor(corner, 0, -1), None);
    assert_eq!(g.neighbor(corner, 1, 0), Some(Pixel { index: 1 }));
    assert_eq!(g.neighbor(corner, 0, 1), Some(Pixel { index: 3 }));
    assert_eq!(g.neighbor(corner, 2, 2), Some(Pixel { index: 8 }));
    assert_eq!(g.neighbor(corner, 3, 0), None);
    // The end of one row is not next to the start of the following one.
    assert_eq!(g.neighbor(Pixel { index: 2 }, 1, 0), None);
    assert_eq!(g.neighbor(Pixel { index: 3 }, -1, 0), None);
}

#[test]
fn neighbor_is_never_the_pixel_itself() {
    let g = Geometry { width: 3, height: 3, origin_x: 1, origin_y: 1 };
    for index in 0..9 {
        assert_eq!(g.neighbor(Pixel { index }, 0, 0), None);
    }
    assert_eq!(g.neighbor(Pixel { index: 4 }, i64::MAX, i64::MIN), None);
}

#[test]
fn centre_pixel_has_eight_neighbors() {
    let g = Geometry { width: 3, height: 3, origin_x: 1, origin_y: 1 };
    let mut seen: Vec<usize> = Vec::new();
    for dy in -1..2 {
        for dx in -1..2 {
            if let Some(q) = g.neighbor(Pixel { index: 4 }, dx, dy) {
                seen.push(q.index);
            }
        }
    }
    assert_eq!(seen, vec![0, 1, 2, 3, 5, 6, 7, 8]);
}

#[test]
fn new_canvas_is_blank() {
    let canvas = Canvas::new(4, 3, 2, 1);
    assert_eq!(canvas.len(), 12);
    assert_eq!(canvas.geometry(), Geometry { width: 4, height: 3, origin_x: 2, origin_y: 1 });
    for index in 0..12 {
        assert_eq!(canvas.get(Pixel { index }), 0xFFFF_FFFF);
        assert!(!canvas.is_root(Pixel { index }));
    }
}

#[test]
fn empty_canvas_has_no_pixels() {
    assert_eq!(Canvas::new(0, 5, 0, 0).len(), 0);
    assert_eq!(Canvas::new(5, 0, 0, 0).len(), 0);
}

#[test]
fn set_changes_one_pixel() {
    let mut canvas = Canvas::new(3, 2, 0, 0);
    canvas.set(Pixel { index: 4 }, 0x11223344);
    for index in 0..6 {
        let want = if index == 4 { 0x11223344 } else { 0xFFFF_FFFF };
        assert_eq!(canvas.get(Pixel { index }), want);
    }
}

#[test]
fn root_neighbor_is_one_of_the_eight_around() {
    let mut canvas = Canvas::new(5, 5, 0, 0);
    canvas.mark_root(Pixel { index: 12 });
    let next_to: Vec<usize> =
        (0..25).filter(|&index| canvas.has_root_neighbor(Pixel { index })).collect();
    assert_eq!(next_to, vec![6, 7, 8, 11, 13, 16, 17, 18]);
}

#[test]
fn root_neighbor_does_not_wrap_round_the_edge() {
    let mut canvas = Canvas::new(4, 2, 0, 0);
    canvas.mark_root(Pixel { index: 3 });
    assert!(!canvas.has_root_neighbor(Pixel { index: 4 }));
    assert!(!canvas.has_root_neighbor(Pixel { index: 0 }));
    assert!(canvas.has_root_neighbor(Pixel { index: 2 }));
    assert!(canvas.has_root_neighbor(Pixel { index: 6 }));
    assert!(canvas.has_root_neighbor(Pixel { index: 7 }));
    assert!(!canvas.has_root_neighbor(Pixel { index: 3 }));
}
