use fractal_core::color::Color;
use fractal_core::pattern::Pattern;
use fractal_core::pattern::Pixel;
use fractal_core::pattern::ValidationError;
use fractal_core::pattern::create_base_pattern;
use fractal_core::pattern::validate_pattern;
use fractal_core::symmetry::Permutation;

const UNIT: i64 = 1_000_000;

fn uniform_pattern(color: Color, perm: Permutation) -> Pattern {
    let pixel = Pixel { color, perm };
    Pattern { pixels: [[pixel, pixel], [pixel, pixel]] }
}

#[test]
fn base_pattern_is_accepted() {
    let pattern = create_base_pattern();
    assert!(validate_pattern(&pattern).is_ok());
}

#[test]
fn color_channel_above_one_is_rejected() {
    // A red channel of 1.5 lies outside the unit interval.
    let mut pattern = create_base_pattern();
    pattern.pixels[0][1].color = Color::new(1_500_000, 0, 0, UNIT);
    assert_eq!(validate_pattern(&pattern), Err(ValidationError::ColorOutOfRange));
}

#[test]
fn negative_color_channel_is_rejected() {
    let mut pattern = create_base_pattern();
    pattern.pixels[1][0].color = Color::new(0, -1, 0, UNIT);
    assert_eq!(validate_pattern(&pattern), Err(ValidationError::ColorOutOfRange));
}

#[test]
fn out_of_range_coordinate_is_rejected() {
    let mut pattern = create_base_pattern();
    pattern.pixels[0][0].perm = Permutation { mapping: [(2, 0), (0, 1), (1, 0), (1, 1)] };
    assert_eq!(validate_pattern(&pattern), Err(ValidationError::CoordOutOfRange));
}

#[test]
fn duplicate_destination_is_rejected() {
    // Two source cells both map to (0, 0).
    let mut pattern = create_base_pattern();
    pattern.pixels[1][1].perm = Permutation { mapping: [(0, 0), (0, 0), (1, 0), (1, 1)] };
    assert_eq!(validate_pattern(&pattern), Err(ValidationError::DuplicateMapping));
}

#[test]
fn three_distinct_destinations_are_rejected() {
    // Only (0,0), (0,1) and (1,0) are ever reached; with four entries the
    // missing destination always shows up as a duplicate first.
    let mut pattern = create_base_pattern();
    pattern.pixels[0][0].perm = Permutation { mapping: [(0, 0), (0, 1), (1, 0), (0, 1)] };
    let result = validate_pattern(&pattern);
    assert_eq!(result, Err(ValidationError::DuplicateMapping));
    assert!(result.is_err());
}

#[test]
fn colors_are_checked_before_mappings() {
    // Both a bad color and a bad mapping: the color is reported first.
    let mut pattern = create_base_pattern();
    pattern.pixels[1][1].color = Color::new(0, 0, 2_000_000, UNIT);
    pattern.pixels[0][0].perm = Permutation { mapping: [(0, 0), (0, 0), (1, 0), (1, 1)] };
    assert_eq!(validate_pattern(&pattern), Err(ValidationError::ColorOutOfRange));
}

#[test]
fn mappings_are_checked_in_row_major_order() {
    // A duplicate in the first cell wins over a bad coordinate later on.
    let mut pattern = create_base_pattern();
    pattern.pixels[0][0].perm = Permutation { mapping: [(0, 0), (0, 0), (1, 0), (1, 1)] };
    pattern.pixels[1][0].perm = Permutation { mapping: [(5, 5), (0, 1), (1, 0), (1, 1)] };
    assert_eq!(validate_pattern(&pattern), Err(ValidationError::DuplicateMapping));
}

#[test]
fn boundary_channel_values_are_accepted() {
    let pattern = uniform_pattern(Color::new(0, UNIT, 0, UNIT), Permutation::identity());
    assert!(validate_pattern(&pattern).is_ok());
}

#[test]
fn messages_name_the_violated_rule() {
    assert!(ValidationError::ColorOutOfRange.message().contains("color"));
    assert!(ValidationError::CoordOutOfRange.message().contains("coordinates"));
    assert!(ValidationError::DuplicateMapping.message().contains("two cells"));
    assert!(ValidationError::IncompleteMapping.message().contains("all positions"));
}
