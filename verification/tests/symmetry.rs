use fractal_core::symmetry::Permutation;

fn mapping_of(p: &Permutation) -> [(usize, usize); 4] {
    p.mapping
}

#[test]
fn predefined_mappings_match_dihedral_elements() {
    assert_eq!(mapping_of(&Permutation::identity()), [(0, 0), (0, 1), (1, 0), (1, 1)]);
    assert_eq!(mapping_of(&Permutation::rotate_90()), [(0, 1), (1, 1), (0, 0), (1, 0)]);
    assert_eq!(mapping_of(&Permutation::rotate_270()), [(1, 0), (0, 0), (1, 1), (0, 1)]);
    assert_eq!(mapping_of(&Permutation::flip_h()), [(0, 1), (0, 0), (1, 1), (1, 0)]);
    assert_eq!(mapping_of(&Permutation::flip_v()), [(1, 0), (1, 1), (0, 0), (0, 1)]);
}

#[test]
fn rotations_and_flips_are_distinct() {
    assert!(Permutation::rotate_90() != Permutation::rotate_270());
    assert!(Permutation::flip_h() != Permutation::flip_v());
}

#[test]
fn get_name_recognizes_predefined_symmetries() {
    assert_eq!(Permutation::identity().get_name(), "Identity");
    assert_eq!(Permutation::rotate_90().get_name(), "Rotate 90°");
    assert_eq!(Permutation::rotate_270().get_name(), "Rotate 270°");
    assert_eq!(Permutation::flip_h().get_name(), "Flip H");
    assert_eq!(Permutation::flip_v().get_name(), "Flip V");
    let half_turn = Permutation::rotate_90().compose(&Permutation::rotate_90());
    assert_eq!(half_turn.get_name(), "Custom");
}

#[test]
fn compose_applies_left_then_right() {
    // A quarter turn followed by its reverse is the identity.
    let there_and_back = Permutation::rotate_90().compose(&Permutation::rotate_270());
    assert_eq!(there_and_back.mapping, Permutation::identity().mapping);
    // Two quarter turns the same way make a half turn.
    let half_turn = Permutation::rotate_90().compose(&Permutation::rotate_90());
    assert_eq!(half_turn.mapping, [(1, 1), (1, 0), (0, 1), (0, 0)]);
}

#[test]
fn composition_is_associative_on_sample_triples() {
    let samples = [
        Permutation::identity(),
        Permutation::rotate_90(),
        Permutation::rotate_270(),
        Permutation::flip_h(),
        Permutation::flip_v(),
    ];
    for a in &samples {
        for b in &samples {
            for c in &samples {
                let left = a.compose(b).compose(c);
                let right = a.compose(&b.compose(c));
                assert_eq!(left.mapping, right.mapping);
            }
        }
    }
}

#[test]
fn identity_is_a_two_sided_unit() {
    let id = Permutation::identity();
    let samples = [
        Permutation::rotate_90(),
        Permutation::rotate_270(),
        Permutation::flip_h(),
        Permutation::flip_v(),
    ];
    for s in &samples {
        assert_eq!(id.compose(s).mapping, s.mapping);
        assert_eq!(s.compose(&id).mapping, s.mapping);
    }
    let grid = [[1u32, 2], [3, 4]];
    assert_eq!(id.apply(grid), grid);
}

#[test]
fn apply_moves_sources_to_destinations() {
    let grid = [['a', 'b'], ['c', 'd']];
    // Quarter turn: a goes top-right, b bottom-right, c top-left, d bottom-left.
    assert_eq!(Permutation::rotate_90().apply(grid), [['c', 'a'], ['d', 'b']]);
    // Horizontal flip: columns swap.
    assert_eq!(Permutation::flip_h().apply(grid), [['b', 'a'], ['d', 'c']]);
    // Vertical flip: rows swap.
    assert_eq!(Permutation::flip_v().apply(grid), [['c', 'd'], ['a', 'b']]);
}

#[test]
fn applying_a_composition_matches_applying_in_order() {
    let samples = [
        Permutation::identity(),
        Permutation::rotate_90(),
        Permutation::rotate_270(),
        Permutation::flip_h(),
        Permutation::flip_v(),
    ];
    let grid = [[10i64, 20], [30, 40]];
    for a in &samples {
        for b in &samples {
            let composed = a.compose(b);
            assert_eq!(composed.apply(grid), b.apply(a.apply(grid)));
        }
    }
}
