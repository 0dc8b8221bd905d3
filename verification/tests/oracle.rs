use equart::grid::{Geometry, Pixel, SamplePoint};
use equart::canvas::Canvas;
use equart::engine::render;
use equart::oracle::{decide, sign_change, Field, Sample, Sampled};

struct Plane<G: Fn(f64, f64) -> f64> {
    cell_x: f64,
    cell_y: f64,
    f: G,
}

impl<G: Fn(f64, f64) -> f64> Field for Plane<G> {
    fn wf(&self) -> bool {
        true
    }

    fn kind_at(&self, p: SamplePoint) -> Sample {
        self.sample(p)
    }

    fn sample(&self, p: SamplePoint) -> Sample {
        let step = (p.dim - 1) as f64;
        let x = p.col as f64 * self.cell_x + (self.cell_x / step) * p.i as f64;
        let y = p.row as f64 * self.cell_y + (self.cell_y / step) * p.j as f64;
        let v = (self.f)(x, y);
        if !v.is_finite() {
            Sample::NonFinite
        } else if v > 0.0 {
            Sample::Positive
        } else {
            Sample::NonPositive
        }
    }
}

#[test]
fn decide_reports_a_change_of_sign() {
    assert!(decide(&vec![Sample::Positive, Sample::NonPositive]));
    assert!(decide(&vec![Sample::NonPositive, Sample::NonPositive, Sample::Positive]));
    assert!(!decide(&vec![Sample::Positive, Sample::Positive, Sample::Positive]));
    assert!(!decide(&vec![Sample::NonPositive, Sample::NonPositive]));
}

#[test]
fn decide_is_false_on_any_non_finite_sample() {
    assert!(!decide(&vec![Sample::Positive, Sample::NonPositive, Sample::NonFinite]));
    assert!(!decide(&vec![Sample::NonFinite, Sample::Positive, Sample::NonPositive]));
    assert!(!decide(&vec![Sample::Positive, Sample::NonFinite, Sample::NonPositive]));
}

#[test]
fn decide_is_false_without_a_second_sample() {
    assert!(!decide(&vec![]));
    assert!(!decide(&vec![Sample::Positive]));
}

#[test]
fn sign_change_finds_the_diagonal() {
    let g = Geometry { width: 4, height: 4, origin_x: 2, origin_y: 2 };
    let field = Plane { cell_x: 1.0, cell_y: 1.0, f: |x, y| x - y };
    // Pixel 10 is column 2, row 2: the cell from (0, 0) to (1, 1).
    assert!(sign_change(&field, &g, Pixel { index: 10 }, 2));
    // Pixel 3 is column 3, row 0: the cell from (1, -2) to (2, -1).
    assert!(!sign_change(&field, &g, Pixel { index: 3 }, 2));
}

#[test]
fn sign_change_counts_zero_as_not_positive() {
    let g = Geometry { width: 4, height: 4, origin_x: 2, origin_y: 2 };
    let field = Plane { cell_x: 1.0, cell_y: 1.0, f: |x, y| x - y };
    // Column 3, row 2: the cell from (1, 0) to (2, 1) touches the line with
    // one corner, where the field is zero between positive values.
    assert!(sign_change(&field, &g, Pixel { index: 11 }, 2));
    // Column 2, row 3: the cell from (0, 1) to (1, 2) touches it too, with
    // zero between negative values.
    assert!(!sign_change(&field, &g, Pixel { index: 14 }, 2));
}

#[test]
fn sign_change_sees_more_on_a_finer_lattice() {
    let g = Geometry { width: 2, height: 1, origin_x: 0, origin_y: 0 };
    // Positive only near the middle of the first cell.
    let field = Plane { cell_x: 1.0, cell_y: 1.0, f: |x, y| 0.1 - (x - 0.5).abs() - (y - 0.5).abs() };
    assert!(!sign_change(&field, &g, Pixel { index: 0 }, 2));
    assert!(sign_change(&field, &g, Pixel { index: 0 }, 3));
    assert!(!sign_change(&field, &g, Pixel { index: 0 }, 4));
    assert!(sign_change(&field, &g, Pixel { index: 0 }, 5));
    assert!(!sign_change(&field, &g, Pixel { index: 1 }, 5));
}

#[test]
fn sign_change_is_false_with_a_non_finite_sample_anywhere() {
    let g = Geometry { width: 1, height: 1, origin_x: 0, origin_y: 0 };
    // The sign changes along the first row of the lattice; one value in the
    // last row is infinite.
    let field = Sampled {
        f: |p: SamplePoint| {
            if p.i == 2 && p.j == 2 {
                Sample::NonFinite
            } else if p.i == 0 {
                Sample::Positive
            } else {
                Sample::NonPositive
            }
        },
    };
    assert!(!sign_change(&field, &g, Pixel { index: 0 }, 3));
    let finite = Sampled {
        f: |p: SamplePoint| if p.i == 0 { Sample::Positive } else { Sample::NonPositive },
    };
    assert!(sign_change(&finite, &g, Pixel { index: 0 }, 3));
}

#[test]
fn sign_change_is_the_same_every_time() {
    let g = Geometry { width: 3, height: 3, origin_x: 1, origin_y: 1 };
    let field = Plane { cell_x: 0.5, cell_y: 0.5, f: |x, y| x * x + y * y - 0.3 };
    for index in 0..9 {
        let first = sign_change(&field, &g, Pixel { index }, 4);
        for _ in 0..3 {
            assert_eq!(sign_change(&field, &g, Pixel { index }, 4), first);
        }
    }
}

#[test]
fn sign_change_asks_for_each_lattice_point_in_order() {
    let g = Geometry { width: 2, height: 2, origin_x: 1, origin_y: 0 };
    let asked = std::cell::RefCell::new(Vec::new());
    let field = Sampled {
        f: |p: SamplePoint| {
            asked.borrow_mut().push(p);
            Sample::Positive
        },
    };
    assert!(!sign_change(&field, &g, Pixel { index: 3 }, 2));
    let point = |i, j| SamplePoint { col: 0, row: 1, i, j, dim: 2 };
    assert_eq!(*asked.borrow(), vec![point(0, 0), point(1, 0), point(0, 1), point(1, 1)]);
}

#[test]
fn a_function_serves_as_a_field() {
    let field = Sampled {
        f: |p: SamplePoint| {
            // x - y on cells of size 1, in whole steps of the lattice.
            let steps = (p.dim - 1) as i64;
            let x = p.col * steps + p.i as i64;
            let y = p.row * steps + p.j as i64;
            if x - y > 0 {
                Sample::Positive
            } else {
                Sample::NonPositive
            }
        },
    };
    let mut canvas = Canvas::new(3, 3, 1, 1);
    render(&field, &mut canvas, 2);
    let marked: Vec<usize> = (0..9).filter(|&index| canvas.is_root(Pixel { index })).collect();
    assert_eq!(marked, vec![0, 1, 4, 5, 8]);
}
