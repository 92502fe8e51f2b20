use mandelbrot_explorer::histogram::HistogramMapper;
use mandelbrot_explorer::histogram::HistogramShade;

#[test]
fn buckets_count_escaping_points_by_their_stop() {
    let counts = vec![2, 2, 5, 9, 9, 9];
    let mapper = HistogramMapper::new(&counts, 9);
    assert_eq!(mapper.buckets.len(), 9);
    assert_eq!(mapper.buckets[2], 2);
    assert_eq!(mapper.buckets[5], 1);
    assert_eq!(mapper.buckets[0], 0);
    assert_eq!(mapper.total_escaped, 3);
}

#[test]
fn points_at_the_cap_are_black() {
    let counts = vec![2, 2, 5, 9, 9, 9];
    let mapper = HistogramMapper::new(&counts, 9);
    assert_eq!(mapper.shade(9), HistogramShade::Black);
}

#[test]
fn hue_fraction_is_the_rank_among_escapers() {
    let counts = vec![2, 2, 5, 9, 9, 9];
    let mapper = HistogramMapper::new(&counts, 9);
    // Nothing stopped before 2: the earliest escapers rank zero.
    assert_eq!(mapper.shade(2), HistogramShade::Hue { numerator: 0, denominator: 3 });
    // Both points at 2 stopped before 5.
    assert_eq!(mapper.shade(5), HistogramShade::Hue { numerator: 2, denominator: 3 });
}

#[test]
fn a_lone_escaper_gets_the_empty_sum() {
    let counts = vec![7, 7, 3, 7];
    let mapper = HistogramMapper::new(&counts, 7);
    assert_eq!(mapper.total_escaped, 1);
    assert_eq!(mapper.shade(3), HistogramShade::Hue { numerator: 0, denominator: 1 });
}

#[test]
fn an_all_black_image_has_no_escapers() {
    let counts = vec![4, 4, 4];
    let mapper = HistogramMapper::new(&counts, 4);
    assert_eq!(mapper.total_escaped, 0);
    assert_eq!(mapper.shade(4), HistogramShade::Black);
}

#[test]
fn cap_of_zero_blackens_everything() {
    let counts = vec![0, 0];
    let mapper = HistogramMapper::new(&counts, 0);
    assert_eq!(mapper.buckets.len(), 0);
    assert_eq!(mapper.total_escaped, 0);
    assert_eq!(mapper.shade(0), HistogramShade::Black);
}
