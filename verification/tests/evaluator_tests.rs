use mandelbrot_explorer::evaluate::evaluate_table;
use mandelbrot_explorer::evaluate::scalar_counts;
use mandelbrot_explorer::evaluate::EvaluationStrategy;
use mandelbrot_explorer::evaluate::vector_counts;
use mandelbrot_explorer::evaluate::vector_parallel_counts;
use mandelbrot_explorer::grid::grid_cells;

/// The radius reports of one point's orbit, tabulated far enough for the
/// given cap: report k tells whether |z_k|^2 <= 4.
fn orbit_reports(re: f64, im: f64, max_iterations: u64) -> Vec<bool> {
    let mut reports = Vec::new();
    let mut z_re = 0.0f64;
    let mut z_im = 0.0f64;
    let mut k = 0u64;
    loop {
        let in_radius = z_re * z_re + z_im * z_im <= 4.0;
        reports.push(in_radius);
        if !in_radius || k == max_iterations {
            break;
        }
        let next_re = z_re * z_re - z_im * z_im + re;
        let next_im = 2.0 * z_re * z_im + im;
        z_re = next_re;
        z_im = next_im;
        k += 1;
    }
    while (reports.len() as u64) < max_iterations {
        reports.push(false);
    }
    reports
}

/// The report table of a whole region, one row per sampled point, in the
/// sampling order of `grid_cells`.
fn region_table(
    re_min: f64,
    re_max: f64,
    im_min: f64,
    im_max: f64,
    width: u64,
    height: u64,
    max_iterations: u64,
) -> Vec<Vec<bool>> {
    let mut table = Vec::new();
    for (x, y) in grid_cells(width, height) {
        let re = ((re_max - re_min) / (width as f64)) * x as f64 + re_min;
        let im = ((im_max - im_min) / (height as f64)) * y as f64 + im_min;
        table.push(orbit_reports(re, im, max_iterations));
    }
    table
}

#[test]
fn every_evaluator_emits_one_result_per_point() {
    let table = region_table(-2.0, 1.0, -1.5, 1.5, 16, 12, 64);
    assert_eq!(table.len(), 16 * 12);
    assert_eq!(scalar_counts(&table, 64).len(), 16 * 12);
    assert_eq!(vector_counts(&table, 64).len(), 16 * 12);
    assert_eq!(vector_parallel_counts(&table, 64, 3).len(), 16 * 12);
}

#[test]
fn evaluators_agree_bit_exactly() {
    let table = region_table(-2.0, 1.0, -1.5, 1.5, 16, 12, 64);
    let scalar = scalar_counts(&table, 64);
    let mut vector = vector_counts(&table, 64);
    let mut parallel_few = vector_parallel_counts(&table, 64, 2);
    let mut parallel_many = vector_parallel_counts(&table, 64, 10);
    let mut ordered = scalar.clone();
    ordered.sort();
    vector.sort();
    parallel_few.sort();
    parallel_many.sort();
    assert_eq!(vector, ordered);
    assert_eq!(parallel_few, ordered);
    assert_eq!(parallel_many, ordered);
}

#[test]
fn scalar_results_are_in_sampling_order() {
    let table = region_table(-2.0, 1.0, -1.5, 1.5, 8, 8, 32);
    let results = scalar_counts(&table, 32);
    for (p, (point, count)) in results.iter().enumerate() {
        assert_eq!(*point, p as u64);
        assert!(*count <= 32);
    }
}

#[test]
fn evaluators_handle_small_and_empty_runs() {
    // Fewer points than lanes, and an empty run.
    let table = region_table(-2.0, 1.0, -1.0, 1.0, 3, 1, 25);
    let scalar = scalar_counts(&table, 25);
    let mut vector = vector_counts(&table, 25);
    let mut ordered = scalar.clone();
    ordered.sort();
    vector.sort();
    assert_eq!(vector, ordered);

    let empty: Vec<Vec<bool>> = Vec::new();
    assert!(scalar_counts(&empty, 25).is_empty());
    assert!(vector_counts(&empty, 25).is_empty());
    assert!(vector_parallel_counts(&empty, 25, 4).is_empty());
}

#[test]
fn cap_of_zero_marks_every_point_non_escaping() {
    let table = region_table(-2.0, 1.0, -1.0, 1.0, 4, 4, 0);
    for (_, count) in scalar_counts(&table, 0) {
        assert_eq!(count, 0);
    }
    for (_, count) in vector_counts(&table, 0) {
        assert_eq!(count, 0);
    }
}

#[test]
fn strategy_dispatch_agrees_across_all_four() {
    let table = region_table(-2.0, 1.0, -1.5, 1.5, 10, 10, 48);
    let scalar = evaluate_table(&table, 48, EvaluationStrategy::Scalar);
    assert_eq!(scalar, scalar_counts(&table, 48));
    let mut ordered = scalar.clone();
    ordered.sort();
    for strategy in [
        EvaluationStrategy::Parallel,
        EvaluationStrategy::Vector,
        EvaluationStrategy::VectorParallel { workers: 4 },
    ] {
        let mut results = evaluate_table(&table, 48, strategy);
        results.sort();
        assert_eq!(results, ordered);
    }
}
