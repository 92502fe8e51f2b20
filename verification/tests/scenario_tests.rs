use mandelbrot_explorer::escape::EscapeRun;
use mandelbrot_explorer::grid::grid_cells;

const RE_MIN: f64 = -2.0;
const RE_MAX: f64 = 1.5;
const IM_MIN: f64 = -1.2;
const IM_MAX: f64 = 1.2;
const WIDTH: u64 = 700;
const HEIGHT: u64 = 480;
const MAX_ITERATIONS: u64 = 255;

fn sample_re(x: u64) -> f64 {
    ((RE_MAX - RE_MIN) / (WIDTH as f64)) * x as f64 + RE_MIN
}

fn sample_im(y: u64) -> f64 {
    ((IM_MAX - IM_MIN) / (HEIGHT as f64)) * y as f64 + IM_MIN
}

fn run_escape(re: f64, im: f64, max_iterations: u64) -> u64 {
    let mut run = EscapeRun::new(max_iterations);
    let mut z_re = 0.0f64;
    let mut z_im = 0.0f64;
    while !run.finished {
        let in_radius = z_re * z_re + z_im * z_im <= 4.0;
        run.step(in_radius);
        if !run.finished {
            let next_re = z_re * z_re - z_im * z_im + re;
            let next_im = 2.0 * z_re * z_im + im;
            z_re = next_re;
            z_im = next_im;
        }
    }
    run.count
}

#[test]
fn full_region_marks_point_nearest_minus_five_quarters_non_escaping() {
    // Run the whole 700 x 480 region sequentially and check the point
    // nearest re = -1.25, im = 0.0 (inside the set) never escapes.
    let cells = grid_cells(WIDTH, HEIGHT);
    assert_eq!(cells.len(), (WIDTH * HEIGHT) as usize);
    let mut nearest_count = None;
    let mut nearest_distance = f64::INFINITY;
    for (x, y) in cells {
        let re = sample_re(x);
        let im = sample_im(y);
        let count = run_escape(re, im, MAX_ITERATIONS);
        let distance = (re + 1.25) * (re + 1.25) + im * im;
        if distance < nearest_distance {
            nearest_distance = distance;
            nearest_count = Some(count);
        }
    }
    assert_eq!(nearest_count, Some(MAX_ITERATIONS));
}

#[test]
fn inverse_sampling_recovers_every_grid_cell() {
    // Re-derive each cell's (x, y) from its sampled coordinates with the
    // inverse mapping, rounding to nearest: the round trip is exact for
    // every cell of the region.
    for (x, y) in grid_cells(WIDTH, HEIGHT) {
        let re = sample_re(x);
        let im = sample_im(y);
        let x_back = ((re - RE_MIN) / ((RE_MAX - RE_MIN) / (WIDTH as f64))).round() as u64;
        let y_back = ((im - IM_MIN) / ((IM_MAX - IM_MIN) / (HEIGHT as f64))).round() as u64;
        assert_eq!((x_back, y_back), (x, y));
    }
}
