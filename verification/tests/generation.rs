use fractal_core::color::Color;
use fractal_core::generator::generate_fractal;
use fractal_core::pattern::Pattern;
use fractal_core::pattern::Pixel;
use fractal_core::pattern::create_base_pattern;
use fractal_core::pattern::validate_pattern;
use fractal_core::symmetry::Permutation;

const UNIT: i64 = 1_000_000;

/// A straightforward top-down reference: computes each output cell
/// recursively from the cell's ancestry, with the same fixed-point
/// formulas the engine uses, but with no in-place buffer at all.
fn reference_cell(pattern: &Pattern, decay: i64, k: u32, y: usize, x: usize) -> (Color, Permutation) {
    if k <= 1 {
        let p = pattern.pixels[y][x];
        return (p.color, p.perm);
    }
    let (pc, pp) = reference_cell(pattern, decay, k - 1, y / 2, x / 2);
    let mut blend: i64 = UNIT;
    for _ in 0..(k - 1) {
        blend = blend * decay / UNIT;
    }
    let permuted = pp.apply(pattern.pixels);
    let sub = permuted[y % 2][x % 2];
    let blend_factor = UNIT - (UNIT - blend) * pc.a / UNIT;
    let opaque = Color::new(pc.r, pc.g, pc.b, UNIT);
    (opaque.lerp(&sub.color, blend_factor), pp.compose(&sub.perm))
}

fn reference_grid(pattern: &Pattern, decay: i64, k: u32) -> Vec<Vec<Color>> {
    let n = 1usize << k;
    (0..n)
        .map(|y| (0..n).map(|x| reference_cell(pattern, decay, k, y, x).0).collect())
        .collect()
}

#[test]
fn one_iteration_returns_the_seed_colors_verbatim() {
    let pattern = create_base_pattern();
    for decay in [0, 250_000, UNIT] {
        let grid = generate_fractal(1, &pattern, decay);
        assert_eq!(grid.len(), 2);
        for y in 0..2 {
            assert_eq!(grid[y].len(), 2);
            for x in 0..2 {
                assert_eq!(grid[y][x], pattern.pixels[y][x].color);
            }
        }
    }
}

#[test]
fn full_decay_replaces_each_quadrant_with_its_permuted_seed() {
    // With decay 1.0 every blend factor is 1.0: at depth two, each
    // quadrant is the seed's own colors permuted by that quadrant's
    // seed symmetry.
    let pattern = create_base_pattern();
    let grid = generate_fractal(2, &pattern, UNIT);
    assert_eq!(grid.len(), 4);
    for qy in 0..2 {
        for qx in 0..2 {
            let permuted = pattern.pixels[qy][qx].perm.apply(pattern.pixels);
            for dy in 0..2 {
                for dx in 0..2 {
                    assert_eq!(grid[2 * qy + dy][2 * qx + dx], permuted[dy][dx].color);
                }
            }
        }
    }
}

#[test]
fn generation_is_deterministic() {
    let pattern = create_base_pattern();
    let first = generate_fractal(5, &pattern, 500_000);
    let second = generate_fractal(5, &pattern, 500_000);
    assert_eq!(first, second);
}

#[test]
fn descending_in_place_expansion_matches_the_recursive_reference() {
    let pattern = create_base_pattern();
    for decay in [0, 333_333, 500_000, UNIT] {
        for k in 1..=4u32 {
            assert_eq!(generate_fractal(k, &pattern, decay), reference_grid(&pattern, decay, k));
        }
    }
}

#[test]
fn zero_decay_still_blends_by_local_alpha() {
    // After the first doubling the running blend is 0, so an opaque
    // parent is fully replaced while a transparent parent keeps the
    // blend at 0; the engine must still match the reference.
    let mut pattern = create_base_pattern();
    pattern.pixels[0][0].color = Color::new(800_000, 100_000, 50_000, 400_000);
    assert!(validate_pattern(&pattern).is_ok());
    assert_eq!(generate_fractal(3, &pattern, 0), reference_grid(&pattern, 0, 3));
}

#[test]
fn output_side_length_doubles_with_each_iteration() {
    let pattern = create_base_pattern();
    for k in 1..=5u32 {
        let grid = generate_fractal(k, &pattern, 700_000);
        assert_eq!(grid.len(), 1usize << k);
        for row in &grid {
            assert_eq!(row.len(), 1usize << k);
        }
    }
}

#[test]
fn custom_symmetries_synthesized_by_composition_are_handled() {
    // A pattern whose cells carry a half turn, reachable only through
    // composition of the predefined generators.
    let half_turn = Permutation::rotate_90().compose(&Permutation::rotate_90());
    let mut pattern = create_base_pattern();
    pattern.pixels[1][1] = Pixel { color: Color::new(100_000, 900_000, 300_000, 600_000), perm: half_turn };
    assert!(validate_pattern(&pattern).is_ok());
    assert_eq!(
        generate_fractal(3, &pattern, 250_000),
        reference_grid(&pattern, 250_000, 3),
    );
}
