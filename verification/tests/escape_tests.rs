use mandelbrot_explorer::escape::EscapeRun;
use mandelbrot_explorer::escape::scalar_count;

/// Drive one point's escape loop the way a renderer does: the library
/// decides when to stop, the caller does the floating-point orbit step
/// z <- z*z + c and reports each radius check.
fn run_escape(re: f64, im: f64, max_iterations: u64) -> u64 {
    let mut run = EscapeRun::new(max_iterations);
    let mut z_re = 0.0f64;
    let mut z_im = 0.0f64;
    while !run.finished {
        let in_radius = z_re * z_re + z_im * z_im <= 4.0;
        run.step(in_radius);
        if !run.finished {
            let next_re = z_re * z_re - z_im * z_im + re;
            let next_im = 2.0 * z_re * z_im + im;
            z_re = next_re;
            z_im = next_im;
        }
    }
    run.count
}

#[test]
fn origin_never_escapes() {
    // c = 0+0i: the orbit stays at 0, so the count is the cap itself.
    assert_eq!(run_escape(0.0, 0.0, 57), 57);
    assert_eq!(run_escape(0.0, 0.0, 1000), 1000);
    assert_eq!(run_escape(0.0, 0.0, 0), 0);
}

#[test]
fn far_point_escapes_on_first_check() {
    // |c| > 2: z1 = c already fails the radius check, so the count is 1.
    assert_eq!(run_escape(3.0, 0.0, 100), 1);
    assert_eq!(run_escape(3.0, 0.0, 1), 1);
    assert_eq!(run_escape(0.0, -2.5, 64), 1);
    assert_eq!(run_escape(-2.1, 0.0, 64), 1);
}

#[test]
fn known_interior_and_exterior_points() {
    // c = -1 is in the set (period-two cycle 0, -1): never escapes.
    assert_eq!(run_escape(-1.0, 0.0, 500), 500);
    // c = 1 escapes: 0, 1, 2, 5 -> |5|^2 > 4 at the fourth check.
    assert_eq!(run_escape(1.0, 0.0, 500), 3);
}

#[test]
fn scalar_count_reads_the_report_table() {
    // Reports: z0, z1 in radius, z2 out -> count 2.
    let reports = vec![true, true, false, false, false];
    assert_eq!(scalar_count(&reports, 5), 2);
    // The cap cuts the same orbit short.
    assert_eq!(scalar_count(&reports, 1), 1);
    // All checks pass: the count is the cap.
    let all_in = vec![true, true, true, true];
    assert_eq!(scalar_count(&all_in, 4), 4);
    // A cap of zero classifies every point as non-escaping at once.
    let none: Vec<bool> = Vec::new();
    assert_eq!(scalar_count(&none, 0), 0);
}

#[test]
fn escape_run_stops_the_moment_a_check_fails() {
    let mut run = EscapeRun::new(10);
    run.step(true);
    run.step(true);
    assert_eq!(run.count, 2);
    assert!(!run.finished);
    run.step(false);
    assert_eq!(run.count, 2);
    assert!(run.finished);
}

#[test]
fn escape_run_stops_at_the_cap() {
    let mut run = EscapeRun::new(2);
    run.step(true);
    run.step(true);
    assert_eq!(run.count, 2);
    run.step(true);
    assert!(run.finished);
    assert_eq!(run.count, 2);
}
