//! The 2x2 seed pattern and its validation gate.
//!
//! A pattern is user-authored data: four cells, each a color and a
//! symmetry. Before the generator may consume it, the validator checks
//! every color channel against the unit interval and every mapping
//! against the bijection invariant, reporting the first violated rule.

use vstd::prelude::*;
use crate::color::COLOR_SCALE;
use crate::color::Color;
use crate::color::color_in_unit;
use crate::symmetry::Permutation;
use crate::symmetry::coord_ok;
use crate::symmetry::grid_view;
use crate::symmetry::idx_of;
use crate::symmetry::is_symmetry;
use crate::symmetry::lemma_symmetry_bijective;
use crate::symmetry::no_duplicates;
use crate::symmetry::source_of;

verus! {

/// One cell of the seed pattern: a color, and the orientation under
/// which this cell's own sub-pattern is read during expansion.
#[derive(Clone, Copy, Debug)]
pub struct Pixel {
    pub color: Color,
    pub perm: Permutation,
}

/// The user-authored 2x2 seed of colored, oriented cells from which the
/// whole image is generated.
#[derive(Clone, Copy, Debug)]
pub struct Pattern {
    pub pixels: [[Pixel; 2]; 2],
}

/// A violated pattern invariant, one variant per validation rule.
#[derive(Clone, Copy, Debug, PartialEq, Eq, Structural)]
pub enum ValidationError {
    /// Some color channel lies outside the unit interval.
    ColorOutOfRange,
    /// Some mapping entry addresses a cell outside the 2x2 grid.
    CoordOutOfRange,
    /// Two mapping entries share a destination cell.
    DuplicateMapping,
    /// Some destination cell is never mapped to.
    IncompleteMapping,
}

impl ValidationError {
    /// A short description of the violated rule.
    pub fn message(&self) -> (s: &'static str)
        ensures
            s@ == self.message_spec(),
    {
        match self {
            ValidationError::ColorOutOfRange => "color channels must lie between 0 and 1",
            ValidationError::CoordOutOfRange => "permutation coordinates must be less than 2",
            ValidationError::DuplicateMapping => "permutation maps two cells to one position",
            ValidationError::IncompleteMapping => "permutation must use all positions",
        }
    }

    /// The description returned by [`ValidationError::message`].
    pub open spec fn message_spec(self) -> Seq<char> {
        match self {
            ValidationError::ColorOutOfRange => "color channels must lie between 0 and 1"@,
            ValidationError::CoordOutOfRange => "permutation coordinates must be less than 2"@,
            ValidationError::DuplicateMapping => "permutation maps two cells to one position"@,
            ValidationError::IncompleteMapping => "permutation must use all positions"@,
        }
    }
}

/// The four seed cells flattened in row-major order.
pub open spec fn seed_flat(p: Pattern) -> Seq<Pixel> {
    grid_view(p.pixels)
}

/// Every color channel of every cell lies in the unit interval.
pub open spec fn colors_valid(p: Pattern) -> bool {
    &&& color_in_unit(p.pixels[0][0].color)
    &&& color_in_unit(p.pixels[0][1].color)
    &&& color_in_unit(p.pixels[1][0].color)
    &&& color_in_unit(p.pixels[1][1].color)
}

/// Every cell's mapping is a bijection on the four grid cells.
pub open spec fn perms_valid(p: Pattern) -> bool {
    &&& p.pixels[0][0].perm.wf()
    &&& p.pixels[0][1].perm.wf()
    &&& p.pixels[1][0].perm.wf()
    &&& p.pixels[1][1].perm.wf()
}

/// The pattern satisfies every invariant the generator relies on.
pub open spec fn pattern_valid(p: Pattern) -> bool {
    colors_valid(p) && perms_valid(p)
}

/// The scan of a mapping's entries from entry `j` on, with `used`
/// holding the destinations already seen: the first violated rule, or
/// `None` when every remaining entry is in range and fresh.
pub open spec fn entry_scan(
    m: Seq<(usize, usize)>,
    j: int,
    used: Set<(usize, usize)>,
) -> Option<ValidationError>
    decreases 4 - j,
{
    if j < 0 || j >= 4 {
        None
    } else {
        let c = m[j];
        if !coord_ok(c) {
            Some(ValidationError::CoordOutOfRange)
        } else if used.contains(c) {
            Some(ValidationError::DuplicateMapping)
        } else {
            entry_scan(m, j + 1, used.insert(c))
        }
    }
}

/// The mapping reaches all four destination cells.
pub open spec fn covers_all(m: Seq<(usize, usize)>) -> bool {
    &&& m.contains((0usize, 0usize))
    &&& m.contains((0usize, 1usize))
    &&& m.contains((1usize, 0usize))
    &&& m.contains((1usize, 1usize))
}

/// The first rule a mapping violates: coordinates and duplicates are
/// checked entry by entry, completeness once at the end.
pub open spec fn perm_error(m: Seq<(usize, usize)>) -> Option<ValidationError> {
    match entry_scan(m, 0, Set::empty()) {
        Some(e) => Some(e),
        None => if !covers_all(m) {
            Some(ValidationError::IncompleteMapping)
        } else {
            None
        },
    }
}

/// The first rule a pattern violates: all colors are checked before any
/// mapping, and cells are scanned in row-major order.
pub open spec fn pattern_error(p: Pattern) -> Option<ValidationError> {
    if !colors_valid(p) {
        Some(ValidationError::ColorOutOfRange)
    } else {
        match perm_error(p.pixels[0][0].perm.mapping@) {
            Some(e) => Some(e),
            None => match perm_error(p.pixels[0][1].perm.mapping@) {
                Some(e) => Some(e),
                None => match perm_error(p.pixels[1][0].perm.mapping@) {
                    Some(e) => Some(e),
                    None => match perm_error(p.pixels[1][1].perm.mapping@) {
                        Some(e) => Some(e),
                        None => None,
                    },
                },
            },
        }
    }
}

/// Whether all four channels lie in the unit interval.
fn color_in_range(c: &Color) -> (ok: bool)
    ensures
        ok <==> color_in_unit(*c),
{
    0 <= c.r && c.r <= COLOR_SCALE && 0 <= c.g && c.g <= COLOR_SCALE && 0 <= c.b && c.b
        <= COLOR_SCALE && 0 <= c.a && c.a <= COLOR_SCALE
}

/// The first rule this mapping violates, or `None` for a bijection.
fn mapping_error(p: &Permutation) -> (r: Option<ValidationError>)
    ensures
        r == perm_error(p.mapping@),
        r is None <==> is_symmetry(p.mapping@),
{
    let ghost m = p.mapping@;
    let mut u00 = false;
    let mut u01 = false;
    let mut u10 = false;
    let mut u11 = false;

    let (y0, x0) = p.mapping[0];
    if y0 >= 2 || x0 >= 2 {
        proof {
            reveal_with_fuel(entry_scan, 5);
        }
        return Some(ValidationError::CoordOutOfRange);
    }
    if y0 == 0 { if x0 == 0 { u00 = true; } else { u01 = true; } }
    else { if x0 == 0 { u10 = true; } else { u11 = true; } }

    let (y1, x1) = p.mapping[1];
    if y1 >= 2 || x1 >= 2 {
        proof {
            reveal_with_fuel(entry_scan, 5);
        }
        return Some(ValidationError::CoordOutOfRange);
    }
    let dup1 = if y1 == 0 { if x1 == 0 { u00 } else { u01 } } else { if x1 == 0 { u10 } else { u11 } };
    if dup1 {
        proof {
            reveal_with_fuel(entry_scan, 5);
            assert(Set::empty().insert(m[0]).contains(m[1]));
        }
        return Some(ValidationError::DuplicateMapping);
    }
    if y1 == 0 { if x1 == 0 { u00 = true; } else { u01 = true; } }
    else { if x1 == 0 { u10 = true; } else { u11 = true; } }

    let (y2, x2) = p.mapping[2];
    if y2 >= 2 || x2 >= 2 {
        proof {
            reveal_with_fuel(entry_scan, 5);
        }
        return Some(ValidationError::CoordOutOfRange);
    }
    let dup2 = if y2 == 0 { if x2 == 0 { u00 } else { u01 } } else { if x2 == 0 { u10 } else { u11 } };
    if dup2 {
        proof {
            reveal_with_fuel(entry_scan, 5);
            assert(Set::empty().insert(m[0]).insert(m[1]).contains(m[2]));
        }
        return Some(ValidationError::DuplicateMapping);
    }
    if y2 == 0 { if x2 == 0 { u00 = true; } else { u01 = true; } }
    else { if x2 == 0 { u10 = true; } else { u11 = true; } }

    let (y3, x3) = p.mapping[3];
    if y3 >= 2 || x3 >= 2 {
        proof {
            reveal_with_fuel(entry_scan, 5);
        }
        return Some(ValidationError::CoordOutOfRange);
    }
    let dup3 = if y3 == 0 { if x3 == 0 { u00 } else { u01 } } else { if x3 == 0 { u10 } else { u11 } };
    if dup3 {
        proof {
            reveal_with_fuel(entry_scan, 5);
            assert(Set::empty().insert(m[0]).insert(m[1]).insert(m[2]).contains(m[3]));
        }
        return Some(ValidationError::DuplicateMapping);
    }
    if y3 == 0 { if x3 == 0 { u00 = true; } else { u01 = true; } }
    else { if x3 == 0 { u10 = true; } else { u11 = true; } }

    proof {
        reveal_with_fuel(entry_scan, 5);
        assert(!Set::empty().insert(m[0]).contains(m[1]));
        assert(!Set::empty().insert(m[0]).insert(m[1]).contains(m[2]));
        assert(!Set::empty().insert(m[0]).insert(m[1]).insert(m[2]).contains(m[3]));
        assert(entry_scan(m, 0, Set::empty()) is None);
        assert(no_duplicates(m));
        assert(is_symmetry(m));
        // Four distinct in-range destinations must cover all four cells.
        assert(covers_all(m)) by {
            lemma_symmetry_bijective(m);
            assert(idx_of(m[source_of(m, 0)]) == 0 && coord_ok(m[source_of(m, 0)]));
            assert(m[source_of(m, 0)] == (0usize, 0usize));
            assert(idx_of(m[source_of(m, 1)]) == 1 && coord_ok(m[source_of(m, 1)]));
            assert(m[source_of(m, 1)] == (0usize, 1usize));
            assert(idx_of(m[source_of(m, 2)]) == 2 && coord_ok(m[source_of(m, 2)]));
            assert(m[source_of(m, 2)] == (1usize, 0usize));
            assert(idx_of(m[source_of(m, 3)]) == 3 && coord_ok(m[source_of(m, 3)]));
            assert(m[source_of(m, 3)] == (1usize, 1usize));
        }
    }
    if !(u00 && u01 && u10 && u11) {
        return Some(ValidationError::IncompleteMapping);
    }
    None
}

/// Checks a pattern against every invariant, in a fixed order: all
/// color channels first, then each cell's mapping in row-major order.
/// Returns the first violated rule; a pattern is accepted if and only
/// if it satisfies [`pattern_valid`].
pub fn validate_pattern(pattern: &Pattern) -> (r: Result<(), ValidationError>)
    ensures
        r is Ok <==> pattern_error(*pattern) is None,
        r is Ok <==> pattern_valid(*pattern),
        r matches Err(e) ==> pattern_error(*pattern) == Some(e),
{
    if !color_in_range(&pattern.pixels[0][0].color) || !color_in_range(&pattern.pixels[0][1].color)
        || !color_in_range(&pattern.pixels[1][0].color)
        || !color_in_range(&pattern.pixels[1][1].color) {
        return Err(ValidationError::ColorOutOfRange);
    }
    if let Some(e) = mapping_error(&pattern.pixels[0][0].perm) {
        return Err(e);
    }
    if let Some(e) = mapping_error(&pattern.pixels[0][1].perm) {
        return Err(e);
    }
    if let Some(e) = mapping_error(&pattern.pixels[1][0].perm) {
        return Err(e);
    }
    if let Some(e) = mapping_error(&pattern.pixels[1][1].perm) {
        return Err(e);
    }
    Ok(())
}

/// The built-in seed pattern: blue rotated a quarter turn, bronze
/// mirrored across the vertical axis, opaque black mirrored across the
/// horizontal axis, and a transparent cell left in place.
pub fn create_base_pattern() -> (p: Pattern)
    ensures
        p.pixels[0][0].color == (Color { r: 200_000, g: 400_000, b: 600_000, a: 1_000_000 }),
        p.pixels[0][0].perm.mapping@ == crate::symmetry::rotate_90_map(),
        p.pixels[0][1].color == (Color { r: 600_000, g: 400_000, b: 200_000, a: 1_000_000 }),
        p.pixels[0][1].perm.mapping@ == crate::symmetry::flip_h_map(),
        p.pixels[1][0].color == (Color { r: 0, g: 0, b: 0, a: 1_000_000 }),
        p.pixels[1][0].perm.mapping@ == crate::symmetry::flip_v_map(),
        p.pixels[1][1].color == (Color { r: 0, g: 0, b: 0, a: 0 }),
        p.pixels[1][1].perm.mapping@ == crate::symmetry::identity_map(),
        pattern_valid(p),
{
    Pattern {
        pixels: [
            [
                Pixel {
                    color: Color::new(200_000, 400_000, 600_000, 1_000_000),
                    perm: Permutation::rotate_90(),
                },
                Pixel {
                    color: Color::new(600_000, 400_000, 200_000, 1_000_000),
                    perm: Permutation::flip_h(),
                },
            ],
            [
                Pixel {
                    color: Color::new(0, 0, 0, 1_000_000),
                    perm: Permutation::flip_v(),
                },
                Pixel {
                    color: Color::new(0, 0, 0, 0),
                    perm: Permutation::identity(),
                },
            ],
        ],
    }
}

} // verus!
