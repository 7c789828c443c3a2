//! Permutations of the four cells of a 2x2 grid.
//!
//! A cell is addressed either by its (row, col) coordinates, both in
//! {0, 1}, or by its flattened index `2 * row + col` in {0, 1, 2, 3}.
//! A [`Permutation`] maps each source index to a destination coordinate;
//! it is a symmetry when that mapping is a bijection on the four cells.

use vstd::prelude::*;

verus! {

/// A mapping of the four cells of a 2x2 grid: entry `i` is the (row, col)
/// destination of the cell with flattened index `i`.
///
/// Values deserialized from user input may fail the bijection invariant
/// [`Permutation::wf`]; the pattern validator rejects such values before
/// they reach the generator.
#[derive(Clone, Copy, Debug)]
pub struct Permutation {
    pub mapping: [(usize, usize); 4],
}

/// The flattened index of a (row, col) coordinate.
pub open spec fn idx_of(c: (usize, usize)) -> int {
    2 * (c.0 as int) + (c.1 as int)
}

/// Both coordinates address a cell of a 2x2 grid.
pub open spec fn coord_ok(c: (usize, usize)) -> bool {
    c.0 < 2 && c.1 < 2
}

/// Every entry of the mapping is a coordinate of the 2x2 grid.
pub open spec fn coords_ok(m: Seq<(usize, usize)>) -> bool {
    &&& m.len() == 4
    &&& forall|i: int| 0 <= i < 4 ==> coord_ok(#[trigger] m[i])
}

/// No two source cells share a destination.
pub open spec fn no_duplicates(m: Seq<(usize, usize)>) -> bool {
    &&& m.len() == 4
    &&& forall|i: int, j: int| 0 <= i < j < 4 ==> m[i] != m[j]
}

/// The mapping is a bijection on the four cells: destinations are in
/// range and pairwise distinct, hence all four cells are covered.
pub open spec fn is_symmetry(m: Seq<(usize, usize)>) -> bool {
    coords_ok(m) && no_duplicates(m)
}

/// The mapping of the identity permutation.
pub open spec fn identity_map() -> Seq<(usize, usize)> {
    seq![(0usize, 0usize), (0usize, 1usize), (1usize, 0usize), (1usize, 1usize)]
}

/// The mapping that rotates the grid a quarter turn one way.
pub open spec fn rotate_90_map() -> Seq<(usize, usize)> {
    seq![(0usize, 1usize), (1usize, 1usize), (0usize, 0usize), (1usize, 0usize)]
}

/// The mapping that rotates the grid a quarter turn the other way.
pub open spec fn rotate_270_map() -> Seq<(usize, usize)> {
    seq![(1usize, 0usize), (0usize, 0usize), (1usize, 1usize), (0usize, 1usize)]
}

/// The mapping that mirrors the grid across its vertical axis.
pub open spec fn flip_h_map() -> Seq<(usize, usize)> {
    seq![(0usize, 1usize), (0usize, 0usize), (1usize, 1usize), (1usize, 0usize)]
}

/// The mapping that mirrors the grid across its horizontal axis.
pub open spec fn flip_v_map() -> Seq<(usize, usize)> {
    seq![(1usize, 0usize), (1usize, 1usize), (0usize, 0usize), (0usize, 1usize)]
}

/// The mapping of "apply `a`, then apply `b`": source cell `i` first goes
/// to `a[i]`, and the cell at that position then goes to `b[idx(a[i])]`.
pub open spec fn compose_map(
    a: Seq<(usize, usize)>,
    b: Seq<(usize, usize)>,
) -> Seq<(usize, usize)> {
    Seq::new(4, |i: int| b[idx_of(a[i])])
}

/// The source index that a bijective mapping sends to destination index `d`.
pub open spec fn source_of(m: Seq<(usize, usize)>, d: int) -> int {
    choose|i: int| 0 <= i < 4 && idx_of(#[trigger] m[i]) == d
}

/// A 2x2 grid rearranged by a bijective mapping, on flattened grids:
/// the element at destination `d` is the element whose source index is
/// sent to `d`.
pub open spec fn apply_map<T>(m: Seq<(usize, usize)>, g: Seq<T>) -> Seq<T> {
    Seq::new(4, |d: int| g[source_of(m, d)])
}

/// A 2x2 grid of grid elements, flattened in row-major order.
pub open spec fn grid_view<T>(g: [[T; 2]; 2]) -> Seq<T> {
    seq![g[0][0], g[0][1], g[1][0], g[1][1]]
}

/// A bijective mapping hits every destination index exactly once: the
/// witness returned by [`source_of`] is in range, inverts the mapping,
/// and is itself inverted by it.
pub proof fn lemma_symmetry_bijective(m: Seq<(usize, usize)>)
    requires
        is_symmetry(m),
    ensures
        forall|d: int|
            0 <= d < 4 ==> 0 <= #[trigger] source_of(m, d) < 4 && idx_of(m[source_of(m, d)]) == d,
        forall|i: int| 0 <= i < 4 ==> source_of(m, idx_of(#[trigger] m[i])) == i,
{
    assert forall|d: int| 0 <= d < 4 implies 0 <= #[trigger] source_of(m, d) < 4
        && idx_of(m[source_of(m, d)]) == d by {
        assert(exists|i: int| 0 <= i < 4 && idx_of(#[trigger] m[i]) == d) by {
            if idx_of(m[0]) == d {
                assert(0 <= 0 < 4 && idx_of(m[0]) == d);
            } else if idx_of(m[1]) == d {
                assert(0 <= 1 < 4 && idx_of(m[1]) == d);
            } else if idx_of(m[2]) == d {
                assert(0 <= 2 < 4 && idx_of(m[2]) == d);
            } else {
                assert(coord_ok(m[0]) && coord_ok(m[1]) && coord_ok(m[2]) && coord_ok(m[3]));
                assert(idx_of(m[3]) == d);
            }
        }
    }
    assert forall|i: int| 0 <= i < 4 implies source_of(m, idx_of(#[trigger] m[i])) == i by {
        let d = idx_of(m[i]);
        assert(exists|k: int| 0 <= k < 4 && idx_of(#[trigger] m[k]) == d);
        let j = source_of(m, d);
        assert(0 <= j < 4 && idx_of(m[j]) == d);
        assert(coord_ok(m[i]) && coord_ok(m[j]));
        assert(m[j] == m[i]);
    }
}

impl Permutation {
    /// The mapping is a true bijection on the four cells; the invariant
    /// every symmetry carries.
    pub open spec fn wf(self) -> bool {
        is_symmetry(self.mapping@)
    }

    /// The permutation that leaves every cell in place.
    pub fn identity() -> (r: Permutation)
        ensures
            r.mapping@ == identity_map(),
            r.wf(),
    {
        let p = Permutation { mapping: [(0, 0), (0, 1), (1, 0), (1, 1)] };
        proof {
            assert(p.mapping@ =~= identity_map());
        }
        p
    }

    /// A quarter turn: the top-left cell moves to the top-right.
    pub fn rotate_90() -> (r: Permutation)
        ensures
            r.mapping@ == rotate_90_map(),
            r.wf(),
    {
        let p = Permutation { mapping: [(0, 1), (1, 1), (0, 0), (1, 0)] };
        proof {
            assert(p.mapping@ =~= rotate_90_map());
        }
        p
    }

    /// The reverse quarter turn: the top-left cell moves to the bottom-left.
    pub fn rotate_270() -> (r: Permutation)
        ensures
            r.mapping@ == rotate_270_map(),
            r.wf(),
    {
        let p = Permutation { mapping: [(1, 0), (0, 0), (1, 1), (0, 1)] };
        proof {
            assert(p.mapping@ =~= rotate_270_map());
        }
        p
    }

    /// The mirror image across the vertical axis: columns swap.
    pub fn flip_h() -> (r: Permutation)
        ensures
            r.mapping@ == flip_h_map(),
            r.wf(),
    {
        let p = Permutation { mapping: [(0, 1), (0, 0), (1, 1), (1, 0)] };
        proof {
            assert(p.mapping@ =~= flip_h_map());
        }
        p
    }

    /// The mirror image across the horizontal axis: rows swap.
    pub fn flip_v() -> (r: Permutation)
        ensures
            r.mapping@ == flip_v_map(),
            r.wf(),
    {
        let p = Permutation { mapping: [(1, 0), (1, 1), (0, 0), (0, 1)] };
        proof {
            assert(p.mapping@ =~= flip_v_map());
        }
        p
    }

    /// The permutation "apply `self`, then apply `other`".
    pub fn compose(&self, other: &Permutation) -> (r: Permutation)
        requires
            self.wf(),
            other.wf(),
        ensures
            r.mapping@ == compose_map(self.mapping@, other.mapping@),
            r.wf(),
    {
        let (y0, x0) = self.mapping[0];
        let (y1, x1) = self.mapping[1];
        let (y2, x2) = self.mapping[2];
        let (y3, x3) = self.mapping[3];
        let p = Permutation {
            mapping: [
                other.mapping[y0 * 2 + x0],
                other.mapping[y1 * 2 + x1],
                other.mapping[y2 * 2 + x2],
                other.mapping[y3 * 2 + x3],
            ],
        };
        proof {
            assert(p.mapping@ =~= compose_map(self.mapping@, other.mapping@));
            lemma_compose_symmetry(self.mapping@, other.mapping@);
        }
        p
    }

    /// The grid rearranged by this symmetry: the element at source cell
    /// `i` is placed at destination `self.mapping[i]`.
    pub fn apply<T: Copy>(&self, grid: [[T; 2]; 2]) -> (r: [[T; 2]; 2])
        requires
            self.wf(),
        ensures
            grid_view(r) == apply_map(self.mapping@, grid_view(grid)),
    {
        let mut c00 = grid[0][0];
        let mut c01 = grid[0][0];
        let mut c10 = grid[0][0];
        let mut c11 = grid[0][0];
        let (y0, x0) = self.mapping[0];
        if y0 == 0 && x0 == 0 { c00 = grid[0][0]; }
        else if y0 == 0 { c01 = grid[0][0]; }
        else if x0 == 0 { c10 = grid[0][0]; }
        else { c11 = grid[0][0]; }
        let (y1, x1) = self.mapping[1];
        if y1 == 0 && x1 == 0 { c00 = grid[0][1]; }
        else if y1 == 0 { c01 = grid[0][1]; }
        else if x1 == 0 { c10 = grid[0][1]; }
        else { c11 = grid[0][1]; }
        let (y2, x2) = self.mapping[2];
        if y2 == 0 && x2 == 0 { c00 = grid[1][0]; }
        else if y2 == 0 { c01 = grid[1][0]; }
        else if x2 == 0 { c10 = grid[1][0]; }
        else { c11 = grid[1][0]; }
        let (y3, x3) = self.mapping[3];
        if y3 == 0 && x3 == 0 { c00 = grid[1][1]; }
        else if y3 == 0 { c01 = grid[1][1]; }
        else if x3 == 0 { c10 = grid[1][1]; }
        else { c11 = grid[1][1]; }
        let r = [[c00, c01], [c10, c11]];
        proof {
            lemma_symmetry_bijective(self.mapping@);
            assert(grid_view(r) =~= apply_map(self.mapping@, grid_view(grid)));
        }
        r
    }

    /// The display name of this permutation: one of the five predefined
    /// symmetries, or "Custom" for anything else.
    pub fn get_name(&self) -> (r: &'static str)
        ensures
            r@ == name_of(self.mapping@),
    {
        if *self == Permutation::identity() {
            "Identity"
        } else if *self == Permutation::rotate_90() {
            "Rotate 90°"
        } else if *self == Permutation::rotate_270() {
            "Rotate 270°"
        } else if *self == Permutation::flip_h() {
            "Flip H"
        } else if *self == Permutation::flip_v() {
            "Flip V"
        } else {
            "Custom"
        }
    }
}

/// The display name of a mapping, matched against the five predefined
/// symmetries in a fixed order.
pub open spec fn name_of(m: Seq<(usize, usize)>) -> Seq<char> {
    if m == identity_map() {
        "Identity"@
    } else if m == rotate_90_map() {
        "Rotate 90°"@
    } else if m == rotate_270_map() {
        "Rotate 270°"@
    } else if m == flip_h_map() {
        "Flip H"@
    } else if m == flip_v_map() {
        "Flip V"@
    } else {
        "Custom"@
    }
}

impl PartialEq for Permutation {
    fn eq(&self, other: &Permutation) -> (r: bool) {
        let r = self.mapping[0].0 == other.mapping[0].0 && self.mapping[0].1 == other.mapping[0].1
            && self.mapping[1].0 == other.mapping[1].0 && self.mapping[1].1 == other.mapping[1].1
            && self.mapping[2].0 == other.mapping[2].0 && self.mapping[2].1 == other.mapping[2].1
            && self.mapping[3].0 == other.mapping[3].0 && self.mapping[3].1 == other.mapping[3].1;
        proof {
            if r {
                assert(self.mapping@ =~= other.mapping@);
            }
        }
        r
    }
}

impl Eq for Permutation {}

impl vstd::std_specs::cmp::PartialEqSpecImpl for Permutation {
    open spec fn obeys_eq_spec() -> bool {
        true
    }

    open spec fn eq_spec(&self, other: &Permutation) -> bool {
        self.mapping@ == other.mapping@
    }
}

/// Composing two symmetries yields a symmetry.
pub proof fn lemma_compose_symmetry(a: Seq<(usize, usize)>, b: Seq<(usize, usize)>)
    requires
        is_symmetry(a),
        is_symmetry(b),
    ensures
        is_symmetry(compose_map(a, b)),
{
    let c = compose_map(a, b);
    assert forall|i: int| 0 <= i < 4 implies coord_ok(#[trigger] c[i]) by {
        assert(coord_ok(a[i]));
        assert(c[i] == b[idx_of(a[i])]);
    }
    assert forall|i: int, j: int| 0 <= i < j < 4 implies c[i] != c[j] by {
        assert(coord_ok(a[i]) && coord_ok(a[j]));
        assert(a[i] != a[j]);
        assert(idx_of(a[i]) != idx_of(a[j]));
    }
}

/// Composition is associative: permuting by `a` then `b` then `c` reads
/// the same whether the first two or the last two are combined first.
pub proof fn lemma_compose_associative(
    a: Seq<(usize, usize)>,
    b: Seq<(usize, usize)>,
    c: Seq<(usize, usize)>,
)
    requires
        is_symmetry(a),
        is_symmetry(b),
        is_symmetry(c),
    ensures
        compose_map(compose_map(a, b), c) == compose_map(a, compose_map(b, c)),
{
    let lhs = compose_map(compose_map(a, b), c);
    let rhs = compose_map(a, compose_map(b, c));
    assert forall|i: int| 0 <= i < 4 implies lhs[i] == rhs[i] by {
        assert(coord_ok(a[i]));
        assert(compose_map(a, b)[i] == b[idx_of(a[i])]);
        assert(coord_ok(b[idx_of(a[i])]));
        assert(compose_map(b, c)[idx_of(a[i])] == c[idx_of(b[idx_of(a[i])])]);
    }
    assert(lhs =~= rhs);
}

/// The identity is a two-sided unit for composition, and applying it
/// leaves any grid unchanged.
pub proof fn lemma_identity_laws<T>(m: Seq<(usize, usize)>, g: Seq<T>)
    requires
        is_symmetry(m),
        g.len() == 4,
    ensures
        compose_map(identity_map(), m) == m,
        compose_map(m, identity_map()) == m,
        apply_map(identity_map(), g) == g,
{
    assert forall|i: int| 0 <= i < 4 implies compose_map(identity_map(), m)[i] == m[i] by {
        assert(idx_of(identity_map()[i]) == i);
    }
    assert(compose_map(identity_map(), m) =~= m);
    assert forall|i: int| 0 <= i < 4 implies compose_map(m, identity_map())[i] == m[i] by {
        assert(coord_ok(m[i]));
        let d = idx_of(m[i]);
        assert(identity_map()[d] == m[i]);
    }
    assert(compose_map(m, identity_map()) =~= m);
    assert(is_symmetry(identity_map()));
    lemma_symmetry_bijective(identity_map());
    assert forall|d: int| 0 <= d < 4 implies apply_map(identity_map(), g)[d] == g[d] by {
        assert(idx_of(identity_map()[d]) == d);
        assert(source_of(identity_map(), d) == d);
    }
    assert(apply_map(identity_map(), g) =~= g);
}

/// Applying a composition agrees with applying its parts in order:
/// rearranging a grid by "`a` then `b`" equals rearranging by `a` first
/// and by `b` second.
pub proof fn lemma_compose_apply_consistent<T>(
    a: Seq<(usize, usize)>,
    b: Seq<(usize, usize)>,
    g: Seq<T>,
)
    requires
        is_symmetry(a),
        is_symmetry(b),
        g.len() == 4,
    ensures
        apply_map(compose_map(a, b), g) == apply_map(b, apply_map(a, g)),
{
    let c = compose_map(a, b);
    lemma_compose_symmetry(a, b);
    lemma_symmetry_bijective(a);
    lemma_symmetry_bijective(b);
    lemma_symmetry_bijective(c);
    assert forall|d: int| 0 <= d < 4 implies apply_map(c, g)[d] == apply_map(
        b,
        apply_map(a, g),
    )[d] by {
        let sb = source_of(b, d);
        let sa = source_of(a, sb);
        assert(apply_map(b, apply_map(a, g))[d] == apply_map(a, g)[sb]);
        assert(apply_map(a, g)[sb] == g[sa]);
        assert(idx_of(c[sa]) == idx_of(b[idx_of(a[sa])]));
        assert(idx_of(a[sa]) == sb);
        assert(idx_of(c[sa]) == d);
        assert(source_of(c, d) == sa) by {
            let j = source_of(c, d);
            assert(0 <= j < 4 && idx_of(c[j]) == d);
            if j != sa {
                assert(coord_ok(c[j]) && coord_ok(c[sa]));
                assert(c[j] == c[sa]);
                assert(false);
            }
        }
    }
    assert(apply_map(c, g) =~= apply_map(b, apply_map(a, g)));
}

} // verus!
