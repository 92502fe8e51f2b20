use mandelbrot_explorer::colour::Colour;
use mandelbrot_explorer::colour::ColourError;
use mandelbrot_explorer::colour::smooth_colour;
use mandelbrot_explorer::colour::smooth_colour_checked;
use mandelbrot_explorer::colour::smooth_colours;

#[test]
fn sentinel_count_is_black() {
    let palette = vec![(10, 20, 30), (40, 50, 60)];
    assert_eq!(smooth_colour(255, 255, 7, &palette), (0, 0, 0));
    assert_eq!(smooth_colour(0, 0, 7, &palette), (0, 0, 0));
}

#[test]
fn escaping_count_indexes_the_palette_modulo_its_length() {
    let palette = vec![(1, 1, 1), (2, 2, 2), (3, 3, 3)];
    assert_eq!(smooth_colour(5, 100, 0, &palette), (1, 1, 1));
    assert_eq!(smooth_colour(5, 100, 7, &palette), (2, 2, 2));
    assert_eq!(smooth_colour(5, 100, 3, &palette), (1, 1, 1));
    assert_eq!(smooth_colour(5, 100, 2, &palette), (3, 3, 3));
}

#[test]
fn escaping_count_is_never_black_unless_the_palette_is() {
    let palette = vec![(9, 9, 9)];
    for smooth_index in 0..50u64 {
        for iterations in 0..20u64 {
            let colour = smooth_colour(iterations, 20, smooth_index, &palette);
            assert_ne!(colour, (0, 0, 0));
        }
    }
    // A palette that itself contains black may of course produce it.
    let with_black = vec![(0, 0, 0)];
    assert_eq!(smooth_colour(5, 20, 1, &with_black), (0, 0, 0));
}

#[test]
fn empty_palette_is_refused() {
    let empty: Vec<(u8, u8, u8)> = Vec::new();
    assert_eq!(
        smooth_colour_checked(5, 100, 7, &empty),
        Err(ColourError::InvalidParameter)
    );
    let counts = vec![5, 100];
    let indices = vec![7, 0];
    assert_eq!(
        smooth_colours(&counts, &indices, 100, &empty),
        Err(ColourError::InvalidParameter)
    );
}

#[test]
fn whole_result_sets_are_coloured_pointwise() {
    let palette = vec![(1, 1, 1), (2, 2, 2), (3, 3, 3)];
    let counts = vec![5, 100, 17];
    let indices = vec![4, 9, 3];
    let shades = smooth_colours(&counts, &indices, 100, &palette).unwrap();
    assert_eq!(shades, vec![(2, 2, 2), (0, 0, 0), (1, 1, 1)]);
}

#[test]
fn built_in_palettes_are_non_empty_ordered_tables() {
    let default_palette = Colour::Default.to_array();
    assert_eq!(default_palette.len(), 16);
    assert_eq!(default_palette[0], (25, 7, 26));
    assert_eq!(default_palette[15], (66, 30, 15));

    let rainbow = Colour::Rainbow.to_array();
    assert_eq!(rainbow.len(), 7);
    assert_eq!(rainbow[0], (255, 0, 0));
    assert_eq!(rainbow[6], (148, 0, 211));
}
