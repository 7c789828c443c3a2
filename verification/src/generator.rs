//! The expansion engine: a validated seed pattern, a depth and a decay
//! factor become a square color grid of side `2^depth`.
//!
//! Each level doubles the grid: every cell is replaced by the seed
//! pattern permuted under the cell's accumulated orientation, blended
//! toward the cell's own opaque color by a factor derived from the
//! running decay product and the cell's alpha. The mathematical model
//! of a generated cell is [`model_color`]; the engine's contract pins
//! every output pixel to it.

use vstd::prelude::*;
use vstd::arithmetic::div_mod::lemma_div_is_ordered;
use vstd::arithmetic::div_mod::lemma_div_multiples_vanish;
use vstd::arithmetic::div_mod::lemma_div_pos_is_pos;
use vstd::arithmetic::mul::lemma_mul_is_commutative;
use vstd::arithmetic::mul::lemma_mul_nonnegative;
use vstd::arithmetic::mul::lemma_mul_upper_bound;
use crate::color::COLOR_SCALE;
use crate::color::Color;
use crate::color::channel_in_unit;
use crate::color::color_in_unit;
use crate::color::lemma_lerp_channel_in_unit;
use crate::color::lerp_channel;
use crate::pattern::Pattern;
use crate::pattern::Pixel;
use crate::pattern::pattern_valid;
use crate::pattern::seed_flat;
use crate::symmetry::Permutation;
use crate::symmetry::apply_map;
use crate::symmetry::compose_map;
use crate::symmetry::grid_view;
use crate::symmetry::is_symmetry;
use crate::symmetry::lemma_compose_symmetry;
use crate::symmetry::lemma_symmetry_bijective;
use crate::symmetry::source_of;

verus! {

/// Two to the power `k`: the side length of the grid after `k` levels.
pub open spec fn pow2(k: nat) -> nat
    decreases k,
{
    if k == 0 {
        1
    } else {
        2 * pow2((k - 1) as nat)
    }
}

/// Powers of two are positive and monotonic in the exponent.
pub proof fn lemma_pow2_increases(a: nat, b: nat)
    requires
        a <= b,
    ensures
        1 <= pow2(a) <= pow2(b),
    decreases b,
{
    if b > 0 {
        if a == b {
            lemma_pow2_increases(0, (b - 1) as nat);
        } else {
            lemma_pow2_increases(a, (b - 1) as nat);
        }
    }
}

/// The running blend weight after `j` doublings: the decay factor
/// compounded `j` times onto 1.0, truncating at each step exactly as
/// the engine's fixed-point multiplication does.
pub open spec fn blend_after(decay: int, j: nat) -> int
    decreases j,
{
    if j == 0 {
        COLOR_SCALE as int
    } else {
        blend_after(decay, (j - 1) as nat) * decay / (COLOR_SCALE as int)
    }
}

/// The interpolation weight for a cell: `1 - (1 - blend) * alpha`.
/// An opaque cell is fully replaced by its sub-pattern; a transparent
/// cell keeps fading by the running blend weight alone.
pub open spec fn blend_factor(blend: int, alpha: int) -> int {
    COLOR_SCALE as int - (COLOR_SCALE as int - blend) * alpha / (COLOR_SCALE as int)
}

/// The color with its alpha forced to fully opaque.
pub open spec fn opaque(c: Color) -> Color {
    Color { r: c.r, g: c.g, b: c.b, a: COLOR_SCALE }
}

/// Per-channel interpolation from `c` toward `d` by factor `t`.
pub open spec fn lerp_color(c: Color, d: Color, t: int) -> Color {
    Color {
        r: lerp_channel(c.r as int, d.r as int, t) as i64,
        g: lerp_channel(c.g as int, d.g as int, t) as i64,
        b: lerp_channel(c.b as int, d.b as int, t) as i64,
        a: lerp_channel(c.a as int, d.a as int, t) as i64,
    }
}

/// The accumulated orientation of cell `(y, x)` in the level-`k` grid
/// of side `2^k`: the seed cell's own symmetry at the first level, and
/// afterwards the parent's orientation composed with the symmetry of
/// the permuted seed cell that produced this cell.
pub open spec fn model_perm(pat: Pattern, k: nat, y: int, x: int) -> Seq<(usize, usize)>
    decreases k,
{
    if k <= 1 {
        pat.pixels[y][x].perm.mapping@
    } else {
        let pp = model_perm(pat, (k - 1) as nat, y / 2, x / 2);
        let sub = seed_flat(pat)[source_of(pp, 2 * (y % 2) + x % 2)];
        compose_map(pp, sub.perm.mapping@)
    }
}

/// The color of cell `(y, x)` in the level-`k` grid of side `2^k`: the
/// seed cell's own color at the first level, and afterwards the
/// parent's opaque color blended toward the permuted seed cell's color
/// by the factor derived from the level's blend weight and the
/// parent's alpha.
pub open spec fn model_color(pat: Pattern, decay: int, k: nat, y: int, x: int) -> Color
    decreases k,
{
    if k <= 1 {
        pat.pixels[y][x].color
    } else {
        let pp = model_perm(pat, (k - 1) as nat, y / 2, x / 2);
        let pc = model_color(pat, decay, (k - 1) as nat, y / 2, x / 2);
        let sub = seed_flat(pat)[source_of(pp, 2 * (y % 2) + x % 2)];
        lerp_color(opaque(pc), sub.color, blend_factor(blend_after(decay, (k - 1) as nat), pc.a as int))
    }
}

/// The product of two unit-interval fixed-point values, truncated back
/// to the scale, stays in the unit interval.
pub proof fn lemma_unit_product(x: int, y: int)
    requires
        channel_in_unit(x),
        channel_in_unit(y),
    ensures
        channel_in_unit(x * y / (COLOR_SCALE as int)),
{
    let s = COLOR_SCALE as int;
    lemma_mul_nonnegative(x, y);
    lemma_div_pos_is_pos(x * y, s);
    lemma_mul_upper_bound(x, s, y, s);
    lemma_div_is_ordered(x * y, s * s, s);
    lemma_mul_is_commutative(s, s);
    lemma_div_multiples_vanish(s, s);
}

/// The blend weight stays in the unit interval at every level.
pub proof fn lemma_blend_in_unit(decay: int, j: nat)
    requires
        channel_in_unit(decay),
    ensures
        channel_in_unit(blend_after(decay, j)),
    decreases j,
{
    if j > 0 {
        lemma_blend_in_unit(decay, (j - 1) as nat);
        lemma_unit_product(blend_after(decay, (j - 1) as nat), decay);
    }
}

/// The blend factor stays in the unit interval whenever the blend
/// weight and the alpha do.
pub proof fn lemma_blend_factor_in_unit(blend: int, alpha: int)
    requires
        channel_in_unit(blend),
        channel_in_unit(alpha),
    ensures
        channel_in_unit(blend_factor(blend, alpha)),
{
    lemma_unit_product(COLOR_SCALE as int - blend, alpha);
}

/// Every seed cell, read off the flattened seed of a valid pattern, has
/// a unit-interval color and a bijective symmetry.
pub proof fn lemma_seed_cell_valid(pat: Pattern, i: int)
    requires
        pattern_valid(pat),
        0 <= i < 4,
    ensures
        color_in_unit(seed_flat(pat)[i].color),
        is_symmetry(seed_flat(pat)[i].perm.mapping@),
{
}

/// Every cell of the level-`k` model of a valid pattern has a
/// unit-interval color and a bijective accumulated orientation.
pub proof fn lemma_model_valid(pat: Pattern, decay: int, k: nat, y: int, x: int)
    requires
        pattern_valid(pat),
        channel_in_unit(decay),
        1 <= k,
        0 <= y < pow2(k),
        0 <= x < pow2(k),
    ensures
        color_in_unit(model_color(pat, decay, k, y, x)),
        is_symmetry(model_perm(pat, k, y, x)),
    decreases k,
{
    if k == 1 {
        assert(pow2(1) == 2);
    } else {
        let km1 = (k - 1) as nat;
        assert(pow2(k) == 2 * pow2(km1));
        lemma_model_valid(pat, decay, km1, y / 2, x / 2);
        let pp = model_perm(pat, km1, y / 2, x / 2);
        let pc = model_color(pat, decay, km1, y / 2, x / 2);
        lemma_symmetry_bijective(pp);
        let d = 2 * (y % 2) + x % 2;
        let src = source_of(pp, d);
        lemma_seed_cell_valid(pat, src);
        let sub = seed_flat(pat)[src];
        lemma_compose_symmetry(pp, sub.perm.mapping@);
        lemma_blend_in_unit(decay, km1);
        let bf = blend_factor(blend_after(decay, km1), pc.a as int);
        lemma_blend_factor_in_unit(blend_after(decay, km1), pc.a as int);
        lemma_lerp_channel_in_unit(pc.r as int, sub.color.r as int, bf);
        lemma_lerp_channel_in_unit(pc.g as int, sub.color.g as int, bf);
        lemma_lerp_channel_in_unit(pc.b as int, sub.color.b as int, bf);
        lemma_lerp_channel_in_unit(COLOR_SCALE as int, sub.color.a as int, bf);
    }
}

/// Flattened positions in an `n`-wide buffer are distinct whenever the
/// coordinates are.
proof fn lemma_flat_distinct(a: int, b: int, c: int, d: int, n: int)
    by (nonlinear_arith)
    requires
        0 <= a,
        0 <= c,
        0 <= b < n,
        0 <= d < n,
        a != c || b != d,
    ensures
        a * n + b != c * n + d,
{
}

/// A flattened position lies within the `n * n` buffer.
proof fn lemma_flat_in_range(y: int, x: int, n: int)
    by (nonlinear_arith)
    requires
        0 <= y < n,
        0 <= x < n,
    ensures
        0 <= y * n + x < n * n,
{
}

/// A buffer for sides up to `2^15` stays well within `usize` range.
proof fn lemma_buffer_bound(n: int)
    by (nonlinear_arith)
    requires
        0 <= n <= 32768,
    ensures
        n * n <= 0x4000_0000,
{
}

/// Stepping one row down in a flattened buffer adds the row width.
proof fn lemma_row_distribute(a: int, n: int)
    by (nonlinear_arith)
    ensures
        (a + 1) * n == a * n + n,
{
}

/// The buffer cell for `(y, x)` holds the level-`k` model color.
pub open spec fn cell_color_at(
    g: Seq<Pixel>,
    pat: Pattern,
    decay: int,
    n: int,
    k: nat,
    y: int,
    x: int,
) -> bool {
    g[y * n + x].color == model_color(pat, decay, k, y, x)
}

/// The buffer cell for `(y, x)` holds the level-`k` model orientation.
pub open spec fn cell_perm_at(g: Seq<Pixel>, pat: Pattern, n: int, k: nat, y: int, x: int) -> bool {
    g[y * n + x].perm.mapping@ == model_perm(pat, k, y, x)
}

/// The flattened position of child `(dy, dx)` of parent `(yy, xx)`.
pub open spec fn child_idx(n: int, yy: int, xx: int, dy: int, dx: int) -> int {
    (2 * yy + dy) * n + (2 * xx + dx)
}

/// All four children of parent `(py, px)` hold their level-`k` model
/// colors, and their model orientations too when `keep_perms` is set.
pub open spec fn child_block_done(
    g: Seq<Pixel>,
    pat: Pattern,
    decay: int,
    n: int,
    k: nat,
    keep_perms: bool,
    py: int,
    px: int,
) -> bool {
    forall|cy: int, cx: int|
        2 * py <= cy < 2 * py + 2 && 2 * px <= cx < 2 * px + 2 ==> #[trigger] cell_color_at(
            g,
            pat,
            decay,
            n,
            k,
            cy,
            cx,
        ) && (keep_perms ==> cell_perm_at(g, pat, n, k, cy, cx))
}

/// The parent cell `(py, px)` still holds its level-`k` model value,
/// color and orientation both.
pub open spec fn parent_cell_intact(
    g: Seq<Pixel>,
    pat: Pattern,
    decay: int,
    n: int,
    k: nat,
    py: int,
    px: int,
) -> bool {
    cell_color_at(g, pat, decay, n, k, py, px) && cell_perm_at(g, pat, n, k, py, px)
}

/// Unfolds the model one level down: the child at `(2yy + dy, 2xx + dx)`
/// is the parent at `(yy, xx)` blended toward its permuted seed cell.
proof fn lemma_child_model(
    pat: Pattern,
    decay: int,
    level: nat,
    yy: int,
    xx: int,
    dy: int,
    dx: int,
)
    requires
        1 <= level,
        0 <= yy,
        0 <= xx,
        0 <= dy < 2,
        0 <= dx < 2,
    ensures
        model_color(pat, decay, (level + 1) as nat, 2 * yy + dy, 2 * xx + dx) == lerp_color(
            opaque(model_color(pat, decay, level, yy, xx)),
            seed_flat(pat)[source_of(model_perm(pat, level, yy, xx), 2 * dy + dx)].color,
            blend_factor(
                blend_after(decay, level),
                model_color(pat, decay, level, yy, xx).a as int,
            ),
        ),
        model_perm(pat, (level + 1) as nat, 2 * yy + dy, 2 * xx + dx) == compose_map(
            model_perm(pat, level, yy, xx),
            seed_flat(pat)[source_of(model_perm(pat, level, yy, xx), 2 * dy + dx)].perm.mapping@,
        ),
{
    assert((2 * yy + dy) / 2 == yy);
    assert((2 * xx + dx) / 2 == xx);
    assert((2 * yy + dy) % 2 == dy);
    assert((2 * xx + dx) % 2 == dx);
}

/// The scaled product of two unit-interval fixed-point values.
fn unit_mul(x: i64, y: i64) -> (r: i64)
    requires
        channel_in_unit(x as int),
        channel_in_unit(y as int),
    ensures
        r == x as int * y as int / (COLOR_SCALE as int),
        channel_in_unit(r as int),
{
    proof {
        lemma_mul_nonnegative(x as int, y as int);
        lemma_mul_upper_bound(x as int, COLOR_SCALE as int, y as int, COLOR_SCALE as int);
        lemma_unit_product(x as int, y as int);
    }
    let p = (x as u64) * (y as u64);
    (p / (COLOR_SCALE as u64)) as i64
}

/// Expands one parent cell in place: writes the four blended,
/// re-oriented child pixels into the 2x2 block at `(2yy, 2xx)`, leaving
/// every other buffer cell untouched.
fn expand_cell(
    grid: &mut Vec<Pixel>,
    pattern: &Pattern,
    n: usize,
    size: usize,
    blend: i64,
    keep_perms: bool,
    yy: usize,
    xx: usize,
    Ghost(level): Ghost<nat>,
    Ghost(decay): Ghost<int>,
)
    requires
        pattern_valid(*pattern),
        channel_in_unit(decay),
        1 <= level,
        size == pow2(level),
        yy < size,
        xx < size,
        2 * size <= n,
        n <= 32768,
        old(grid)@.len() == n * n,
        channel_in_unit(blend as int),
        blend == blend_after(decay, level),
        parent_cell_intact(old(grid)@, *pattern, decay, n as int, level, yy as int, xx as int),
    ensures
        final(grid)@.len() == n * n,
        child_block_done(
            final(grid)@,
            *pattern,
            decay,
            n as int,
            (level + 1) as nat,
            keep_perms,
            yy as int,
            xx as int,
        ),
        forall|j: int|
            0 <= j < n * n && j != child_idx(n as int, yy as int, xx as int, 0, 0) && j
                != child_idx(n as int, yy as int, xx as int, 0, 1) && j != child_idx(
                n as int,
                yy as int,
                xx as int,
                1,
                0,
            ) && j != child_idx(n as int, yy as int, xx as int, 1, 1) ==> final(grid)@[j] == old(
                grid,
            )@[j],
{
    let ghost pat = *pattern;
    proof {
        lemma_pow2_increases(1, level);
        lemma_buffer_bound(n as int);
        lemma_flat_in_range(yy as int, xx as int, n as int);
        lemma_model_valid(pat, decay, level, yy as int, xx as int);
    }
    let parent_idx = yy * n + xx;
    let pixel = grid[parent_idx];
    let ghost m = pixel.perm.mapping@;
    let ghost pc = pixel.color;
    proof {
        assert(m == model_perm(pat, level, yy as int, xx as int));
        assert(pc == model_color(pat, decay, level, yy as int, xx as int));
        lemma_symmetry_bijective(m);
        lemma_seed_cell_valid(pat, source_of(m, 0));
        lemma_seed_cell_valid(pat, source_of(m, 1));
        lemma_seed_cell_valid(pat, source_of(m, 2));
        lemma_seed_cell_valid(pat, source_of(m, 3));
        lemma_blend_factor_in_unit(blend as int, pc.a as int);
    }
    let alpha = pixel.color.a;
    let base_color = Color::new(pixel.color.r, pixel.color.g, pixel.color.b, COLOR_SCALE);
    let permuted = pixel.perm.apply(pattern.pixels);
    let bf = COLOR_SCALE - unit_mul(COLOR_SCALE - blend, alpha);
    proof {
        assert(bf == blend_factor(blend as int, alpha as int));
        assert(base_color == opaque(pc));
        assert(grid_view(permuted) == apply_map(m, seed_flat(pat)));
        assert(grid_view(permuted)[0] == permuted[0][0]);
        assert(grid_view(permuted)[1] == permuted[0][1]);
        assert(grid_view(permuted)[2] == permuted[1][0]);
        assert(grid_view(permuted)[3] == permuted[1][1]);
    }
    let row = 2 * yy;
    let col = 2 * xx;
    proof {
        lemma_flat_in_range(row as int, col as int, n as int);
        lemma_flat_in_range(row + 1, col + 1, n as int);
        lemma_row_distribute(row as int, n as int);
    }
    let base_idx = row * n;
    let i00 = base_idx + col;
    let i01 = i00 + 1;
    let i10 = i00 + n;
    let i11 = i10 + 1;

    let sub00 = permuted[0][0];
    let p00 = Pixel {
        color: base_color.lerp(&sub00.color, bf),
        perm: if keep_perms {
            pixel.perm.compose(&sub00.perm)
        } else {
            Permutation::identity()
        },
    };
    grid.set(i00, p00);

    let sub01 = permuted[0][1];
    let p01 = Pixel {
        color: base_color.lerp(&sub01.color, bf),
        perm: if keep_perms {
            pixel.perm.compose(&sub01.perm)
        } else {
            Permutation::identity()
        },
    };
    grid.set(i01, p01);

    let sub10 = permuted[1][0];
    let p10 = Pixel {
        color: base_color.lerp(&sub10.color, bf),
        perm: if keep_perms {
            pixel.perm.compose(&sub10.perm)
        } else {
            Permutation::identity()
        },
    };
    grid.set(i10, p10);

    let sub11 = permuted[1][1];
    let p11 = Pixel {
        color: base_color.lerp(&sub11.color, bf),
        perm: if keep_perms {
            pixel.perm.compose(&sub11.perm)
        } else {
            Permutation::identity()
        },
    };
    grid.set(i11, p11);

    proof {
        let ni = n as int;
        assert(child_idx(ni, yy as int, xx as int, 0, 0) == i00);
        assert(child_idx(ni, yy as int, xx as int, 0, 1) == i01);
        assert(child_idx(ni, yy as int, xx as int, 1, 0) == i10);
        assert(child_idx(ni, yy as int, xx as int, 1, 1) == i11);
        assert(grid@[i00 as int] == p00);
        assert(grid@[i01 as int] == p01);
        assert(grid@[i10 as int] == p10);
        assert(grid@[i11 as int] == p11);
        assert forall|cy: int, cx: int|
            2 * (yy as int) <= cy < 2 * (yy as int) + 2 && 2 * (xx as int) <= cx < 2 * (xx as int)
                + 2 implies #[trigger] cell_color_at(
            grid@,
            pat,
            decay,
            ni,
            (level + 1) as nat,
            cy,
            cx,
        ) && (keep_perms ==> cell_perm_at(
            grid@,
            pat,
            ni,
            (level + 1) as nat,
            cy,
            cx,
        )) by {
            let dy = cy - 2 * (yy as int);
            let dx = cx - 2 * (xx as int);
            lemma_child_model(pat, decay, level, yy as int, xx as int, dy, dx);
            let sub = seed_flat(pat)[source_of(m, 2 * dy + dx)];
            let bfs = blend_factor(blend_after(decay, level), pc.a as int);
            lemma_lerp_channel_in_unit(pc.r as int, sub.color.r as int, bfs);
            lemma_lerp_channel_in_unit(pc.g as int, sub.color.g as int, bfs);
            lemma_lerp_channel_in_unit(pc.b as int, sub.color.b as int, bfs);
            lemma_lerp_channel_in_unit(COLOR_SCALE as int, sub.color.a as int, bfs);
            if dy == 0 && dx == 0 {
                assert(sub == sub00);
                assert(p00.color == lerp_color(opaque(pc), sub.color, bfs));
            } else if dy == 0 && dx == 1 {
                assert(sub == sub01);
                assert(p01.color == lerp_color(opaque(pc), sub.color, bfs));
            } else if dy == 1 && dx == 0 {
                assert(sub == sub10);
                assert(p10.color == lerp_color(opaque(pc), sub.color, bfs));
            } else {
                assert(sub == sub11);
                assert(p11.color == lerp_color(opaque(pc), sub.color, bfs));
            }
        }
    }
}


/// A child block other than the one at `(yi, xi)` keeps its level-`k`
/// claims across the four writes of one expansion step.
proof fn lemma_block_preserved(
    g1: Seq<Pixel>,
    g2: Seq<Pixel>,
    pat: Pattern,
    dec: int,
    ni: int,
    k: nat,
    keep_perms: bool,
    py: int,
    px: int,
    yi: int,
    xi: int,
)
    requires
        0 <= py,
        0 <= px,
        0 <= yi,
        0 <= xi,
        2 * py + 1 < ni,
        2 * px + 1 < ni,
        2 * yi + 1 < ni,
        2 * xi + 1 < ni,
        py != yi || px != xi,
        g1.len() == ni * ni,
        g2.len() == ni * ni,
        child_block_done(g1, pat, dec, ni, k, keep_perms, py, px),
        forall|j: int|
            0 <= j < ni * ni && j != child_idx(ni, yi, xi, 0, 0) && j != child_idx(
                ni,
                yi,
                xi,
                0,
                1,
            ) && j != child_idx(ni, yi, xi, 1, 0) && j != child_idx(ni, yi, xi, 1, 1) ==> g2[j]
                == g1[j],
    ensures
        child_block_done(g2, pat, dec, ni, k, keep_perms, py, px),
{
    assert forall|cy: int, cx: int|
        2 * py <= cy < 2 * py + 2 && 2 * px <= cx < 2 * px + 2 implies #[trigger] cell_color_at(
        g2,
        pat,
        dec,
        ni,
        k,
        cy,
        cx,
    ) && (keep_perms ==> cell_perm_at(g2, pat, ni, k, cy, cx)) by {
        lemma_flat_in_range(cy, cx, ni);
        lemma_flat_distinct(cy, cx, 2 * yi, 2 * xi, ni);
        lemma_flat_distinct(cy, cx, 2 * yi, 2 * xi + 1, ni);
        lemma_flat_distinct(cy, cx, 2 * yi + 1, 2 * xi, ni);
        lemma_flat_distinct(cy, cx, 2 * yi + 1, 2 * xi + 1, ni);
        assert(g2[cy * ni + cx] == g1[cy * ni + cx]);
        assert(cell_color_at(g1, pat, dec, ni, k, cy, cx));
        if keep_perms {
            assert(cell_perm_at(g1, pat, ni, k, cy, cx));
        }
    }
}

/// A parent cell lexicographically before `(yi, xi)` keeps its
/// level-`k` value across the four writes of one expansion step: the
/// written children all lie at or after the expanding parent.
proof fn lemma_parent_preserved(
    g1: Seq<Pixel>,
    g2: Seq<Pixel>,
    pat: Pattern,
    dec: int,
    ni: int,
    k: nat,
    py: int,
    px: int,
    yi: int,
    xi: int,
)
    requires
        0 <= py < ni,
        0 <= px < ni,
        0 <= yi,
        0 <= xi,
        2 * yi + 1 < ni,
        2 * xi + 1 < ni,
        py < yi || (py == yi && px < xi),
        g1.len() == ni * ni,
        g2.len() == ni * ni,
        parent_cell_intact(g1, pat, dec, ni, k, py, px),
        forall|j: int|
            0 <= j < ni * ni && j != child_idx(ni, yi, xi, 0, 0) && j != child_idx(
                ni,
                yi,
                xi,
                0,
                1,
            ) && j != child_idx(ni, yi, xi, 1, 0) && j != child_idx(ni, yi, xi, 1, 1) ==> g2[j]
                == g1[j],
    ensures
        parent_cell_intact(g2, pat, dec, ni, k, py, px),
{
    lemma_flat_in_range(py, px, ni);
    lemma_flat_distinct(py, px, 2 * yi, 2 * xi, ni);
    lemma_flat_distinct(py, px, 2 * yi, 2 * xi + 1, ni);
    lemma_flat_distinct(py, px, 2 * yi + 1, 2 * xi, ni);
    lemma_flat_distinct(py, px, 2 * yi + 1, 2 * xi + 1, ni);
    assert(g2[py * ni + px] == g1[py * ni + px]);
}

/// Once every parent block of a sweep is expanded, every cell of the
/// doubled region carries its next-level model color, and its model
/// orientation too when orientations were kept.
proof fn lemma_level_established(
    gs: Seq<Pixel>,
    pat: Pattern,
    dec: int,
    ni: int,
    size: int,
    k: nat,
    keep_perms: bool,
)
    requires
        0 <= size,
        2 * size <= ni,
        forall|py: int, px: int|
            0 <= py < size && 0 <= px < size ==> #[trigger] child_block_done(
                gs,
                pat,
                dec,
                ni,
                k,
                keep_perms,
                py,
                px,
            ),
    ensures
        forall|cy: int, cx: int|
            0 <= cy < 2 * size && 0 <= cx < 2 * size ==> #[trigger] cell_color_at(
                gs,
                pat,
                dec,
                ni,
                k,
                cy,
                cx,
            ),
        keep_perms ==> forall|cy: int, cx: int|
            0 <= cy < 2 * size && 0 <= cx < 2 * size ==> #[trigger] cell_perm_at(
                gs,
                pat,
                ni,
                k,
                cy,
                cx,
            ),
{
    assert forall|cy: int, cx: int| 0 <= cy < 2 * size && 0 <= cx < 2 * size implies
        #[trigger] cell_color_at(gs, pat, dec, ni, k, cy, cx) by {
        let py = cy / 2;
        let px = cx / 2;
        assert(child_block_done(gs, pat, dec, ni, k, keep_perms, py, px));
        assert(2 * py <= cy < 2 * py + 2 && 2 * px <= cx < 2 * px + 2);
    }
    if keep_perms {
        assert forall|cy: int, cx: int| 0 <= cy < 2 * size && 0 <= cx < 2 * size implies
            #[trigger] cell_perm_at(gs, pat, ni, k, cy, cx) by {
            let py = cy / 2;
            let px = cx / 2;
            assert(child_block_done(gs, pat, dec, ni, k, keep_perms, py, px));
            assert(2 * py <= cy < 2 * py + 2 && 2 * px <= cx < 2 * px + 2);
            assert(cell_color_at(gs, pat, dec, ni, k, cy, cx));
            assert(cell_perm_at(gs, pat, ni, k, cy, cx));
        }
    }
}

/// The rows of the output grid, viewed as a sequence of sequences.
pub open spec fn grid_seq(r: Vec<Vec<Color>>) -> Seq<Seq<Color>> {
    Seq::new(r@.len(), |y: int| r@[y]@)
}

/// The grid `g` is exactly the level-`k` expansion of `pat` under
/// `decay`: a square of side `2^k` whose every cell carries its model
/// color.
pub open spec fn generated_grid(pat: Pattern, k: nat, decay: int, g: Seq<Seq<Color>>) -> bool {
    &&& g.len() == pow2(k)
    &&& (forall|y: int| 0 <= y < g.len() ==> (#[trigger] g[y]).len() == pow2(k))
    &&& (forall|y: int, x: int|
        0 <= y < g.len() && 0 <= x < g.len() ==> #[trigger] g[y][x] == model_color(
            pat,
            decay,
            k,
            y,
            x,
        ))
}

/// Expands a validated pattern into a square color grid of side
/// `2^iterations`.
///
/// The buffer starts as transparent black, is seeded with the four
/// pattern cells, and is doubled in place level by level. Each sweep
/// walks the populated region in descending row then descending column
/// order, so a parent cell is always read before any expansion
/// overwrites it. Every cell of the result equals its [`model_color`].
///
/// Depths up to 15 are accepted so that the squared side length stays
/// within index range on every target; memory already grows as
/// `4^iterations`, so practical depths are well below that.
#[verifier::loop_isolation(false)]
pub fn generate_fractal(iterations: u32, pattern: &Pattern, decay: i64) -> (r: Vec<Vec<Color>>)
    requires
        1 <= iterations <= 15,
        pattern_valid(*pattern),
        channel_in_unit(decay as int),
    ensures
        generated_grid(*pattern, iterations as nat, decay as int, grid_seq(r)),
{
    let ghost pat = *pattern;
    let ghost dec = decay as int;

    let mut n: usize = 1;
    let mut i: u32 = 0;
    while i < iterations
        invariant
            i <= iterations,
            n == pow2(i as nat),
            n <= 32768,
        decreases iterations - i,
    {
        proof {
            lemma_pow2_increases(i as nat, 14);
            reveal_with_fuel(pow2, 16);
            assert(pow2(14) == 16384);
        }
        n = n * 2;
        i = i + 1;
    }
    proof {
        lemma_pow2_increases(1, iterations as nat);
        lemma_buffer_bound(n as int);
        assert(2 * n <= n * n) by (nonlinear_arith)
            requires
                2 <= n,
        ;
    }

    let total = n * n;
    let fill = Pixel { color: Color::new(0, 0, 0, 0), perm: Permutation::identity() };
    let mut grid: Vec<Pixel> = Vec::new();
    let mut filled: usize = 0;
    while filled < total
        invariant
            filled <= total,
            grid@.len() == filled,
        decreases total - filled,
    {
        grid.push(fill);
        filled = filled + 1;
    }

    grid.set(0, pattern.pixels[0][0]);
    grid.set(1, pattern.pixels[0][1]);
    grid.set(n, pattern.pixels[1][0]);
    grid.set(n + 1, pattern.pixels[1][1]);

    let mut blend: i64 = COLOR_SCALE;
    let mut size: usize = 2;
    let ghost mut level: nat = 1nat;
    proof {
        reveal_with_fuel(pow2, 3);
        let ni = n as int;
        assert forall|py: int, px: int| 0 <= py < 2 && 0 <= px < 2 implies #[trigger] cell_color_at(
            grid@,
            pat,
            dec,
            ni,
            1nat,
            py,
            px,
        ) by {
            assert(py * ni + px == if py == 0 { px } else { ni + px });
        }
        assert forall|py: int, px: int| 0 <= py < 2 && 0 <= px < 2 implies #[trigger] cell_perm_at(
            grid@,
            pat,
            ni,
            1nat,
            py,
            px,
        ) by {
            assert(py * ni + px == if py == 0 { px } else { ni + px });
        }
    }

    while size < n
        invariant
            1 <= level <= iterations,
            size == pow2(level),
            size <= n,
            grid@.len() == n * n,
            channel_in_unit(blend as int),
            blend == blend_after(dec, (level - 1) as nat),
            forall|py: int, px: int|
                0 <= py < size && 0 <= px < size ==> #[trigger] cell_color_at(
                    grid@,
                    pat,
                    dec,
                    n as int,
                    level,
                    py,
                    px,
                ),
            size < n ==> forall|py: int, px: int|
                0 <= py < size && 0 <= px < size ==> #[trigger] cell_perm_at(
                    grid@,
                    pat,
                    n as int,
                    level,
                    py,
                    px,
                ),
        decreases n - size,
    {
        proof {
            if iterations as nat <= level {
                lemma_pow2_increases(iterations as nat, level);
                assert(false);
            }
            lemma_pow2_increases((level + 1) as nat, iterations as nat);
            assert(pow2((level + 1) as nat) == 2 * pow2(level));
            lemma_blend_in_unit(dec, level);
        }
        blend = unit_mul(blend, decay);
        proof {
            assert(blend == blend_after(dec, level));
        }
        let keep_perms = 2 * size < n;
        let ghost lvl1 = (level + 1) as nat;

        proof {
            assert forall|py: int, px: int| 0 <= py < size && 0 <= px < size implies
                #[trigger] parent_cell_intact(grid@, pat, dec, n as int, level, py, px) by {
                assert(cell_color_at(grid@, pat, dec, n as int, level, py, px));
                assert(cell_perm_at(grid@, pat, n as int, level, py, px));
            }
        }

        let mut yy: usize = size;
        while yy > 0
            invariant
                yy <= size,
                grid@.len() == n * n,
                forall|py: int, px: int|
                    0 <= py < size && 0 <= px < size && py >= yy ==> #[trigger] child_block_done(
                        grid@,
                        pat,
                        dec,
                        n as int,
                        lvl1,
                        keep_perms,
                        py,
                        px,
                    ),
                forall|py: int, px: int|
                    0 <= py < size && 0 <= px < size && py < yy ==> #[trigger] parent_cell_intact(
                        grid@,
                        pat,
                        dec,
                        n as int,
                        level,
                        py,
                        px,
                    ),
            decreases yy,
        {
            yy = yy - 1;
            let mut xx: usize = size;
            while xx > 0
                invariant
                    xx <= size,
                    grid@.len() == n * n,
                    forall|py: int, px: int|
                        0 <= py < size && 0 <= px < size && (py > yy || (py == yy && px
                            >= xx)) ==> #[trigger] child_block_done(
                            grid@,
                            pat,
                            dec,
                            n as int,
                            lvl1,
                            keep_perms,
                            py,
                            px,
                        ),
                    forall|py: int, px: int|
                        0 <= py < size && 0 <= px < size && (py < yy || (py == yy && px
                            < xx)) ==> #[trigger] parent_cell_intact(
                            grid@,
                            pat,
                            dec,
                            n as int,
                            level,
                            py,
                            px,
                        ),
                decreases xx,
            {
                xx = xx - 1;
                let ghost g_prev = grid@;
                proof {
                    assert(parent_cell_intact(g_prev, pat, dec, n as int, level, yy as int, xx as int));
                }
                expand_cell(
                    &mut grid,
                    pattern,
                    n,
                    size,
                    blend,
                    keep_perms,
                    yy,
                    xx,
                    Ghost(level),
                    Ghost(dec),
                );
                proof {
                    let ni = n as int;
                    let gs = grid@;
                    let yi = yy as int;
                    let xi = xx as int;
                    assert forall|py: int, px: int|
                        0 <= py < size && 0 <= px < size && (py > yi || (py == yi && px
                            >= xi)) implies #[trigger] child_block_done(
                        gs,
                        pat,
                        dec,
                        ni,
                        lvl1,
                        keep_perms,
                        py,
                        px,
                    ) by {
                        if !(py == yi && px == xi) {
                            assert(child_block_done(g_prev, pat, dec, ni, lvl1, keep_perms, py, px));
                            lemma_block_preserved(
                                g_prev,
                                gs,
                                pat,
                                dec,
                                ni,
                                lvl1,
                                keep_perms,
                                py,
                                px,
                                yi,
                                xi,
                            );
                        }
                    }
                    assert forall|py: int, px: int|
                        0 <= py < size && 0 <= px < size && (py < yi || (py == yi && px
                            < xi)) implies #[trigger] parent_cell_intact(
                        gs,
                        pat,
                        dec,
                        ni,
                        level,
                        py,
                        px,
                    ) by {
                        assert(parent_cell_intact(g_prev, pat, dec, ni, level, py, px));
                        lemma_parent_preserved(g_prev, gs, pat, dec, ni, level, py, px, yi, xi);
                    }
                }
            }
        }

        proof {
            lemma_level_established(grid@, pat, dec, n as int, size as int, lvl1, keep_perms);
            level = (level + 1) as nat;
        }
        size = size * 2;
    }

    proof {
        if level < iterations as nat {
            lemma_pow2_increases((level + 1) as nat, iterations as nat);
            assert(pow2((level + 1) as nat) == 2 * pow2(level));
            assert(false);
        }
        assert(level == iterations as nat);
    }

    let mut out: Vec<Vec<Color>> = Vec::new();
    let mut y: usize = 0;
    while y < n
        invariant
            y <= n,
            out@.len() == y,
            forall|ry: int| 0 <= ry < y ==> (#[trigger] out@[ry])@.len() == n,
            forall|ry: int, rx: int|
                0 <= ry < y && 0 <= rx < n ==> #[trigger] out@[ry]@[rx] == model_color(
                    pat,
                    dec,
                    iterations as nat,
                    ry,
                    rx,
                ),
        decreases n - y,
    {
        let mut rowv: Vec<Color> = Vec::new();
        let mut x: usize = 0;
        while x < n
            invariant
                x <= n,
                rowv@.len() == x,
                forall|rx: int|
                    0 <= rx < x ==> #[trigger] rowv@[rx] == model_color(
                        pat,
                        dec,
                        iterations as nat,
                        y as int,
                        rx,
                    ),
            decreases n - x,
        {
            proof {
                lemma_flat_in_range(y as int, x as int, n as int);
                assert(cell_color_at(grid@, pat, dec, n as int, level, y as int, x as int));
            }
            let cell = grid[y * n + x];
            rowv.push(cell.color);
            x = x + 1;
        }
        out.push(rowv);
        y = y + 1;
    }

    proof {
        let g = grid_seq(out);
        assert forall|ry: int| 0 <= ry < g.len() implies (#[trigger] g[ry]).len() == pow2(
            iterations as nat,
        ) by {
            assert(g[ry] == out@[ry]@);
        }
        assert forall|ry: int, rx: int|
            0 <= ry < g.len() && 0 <= rx < g.len() implies #[trigger] g[ry][rx] == model_color(
            pat,
            dec,
            iterations as nat,
            ry,
            rx,
        ) by {
            assert(g[ry] == out@[ry]@);
        }
    }
    out
}

/// Law: generation is deterministic. Two grids that both satisfy the
/// generator's contract for the same pattern, depth and decay are
/// pixel-identical.
pub proof fn lemma_generate_deterministic(
    pat: Pattern,
    k: nat,
    decay: int,
    g1: Seq<Seq<Color>>,
    g2: Seq<Seq<Color>>,
)
    requires
        generated_grid(pat, k, decay, g1),
        generated_grid(pat, k, decay, g2),
    ensures
        g1 == g2,
{
    assert forall|y: int| 0 <= y < g1.len() implies g1[y] =~= g2[y] by {
        assert(g1[y].len() == pow2(k) && g2[y].len() == pow2(k));
        assert forall|x: int| 0 <= x < g1[y].len() implies g1[y][x] == g2[y][x] by {
            assert(g1[y][x] == model_color(pat, decay, k, y, x));
            assert(g2[y][x] == model_color(pat, decay, k, y, x));
        }
    }
    assert(g1 =~= g2);
}

/// Law: at depth one the generator returns exactly the seed's four
/// colors in row-major order; the decay factor plays no part, as the
/// right-hand side does not mention it.
pub proof fn lemma_single_iteration(pat: Pattern, decay: int, y: int, x: int)
    requires
        0 <= y < 2,
        0 <= x < 2,
    ensures
        model_color(pat, decay, 1, y, x) == pat.pixels[y][x].color,
{
}

/// Law: with the decay factor held at 1.0, the second level is the
/// seed's own colors permuted by each quadrant's seed symmetry; no
/// parent color survives the blend.
pub proof fn lemma_full_decay_level_two(pat: Pattern, y: int, x: int)
    requires
        pattern_valid(pat),
        0 <= y < 4,
        0 <= x < 4,
    ensures
        model_color(pat, COLOR_SCALE as int, 2, y, x) == seed_flat(pat)[source_of(
            pat.pixels[y / 2][x / 2].perm.mapping@,
            2 * (y % 2) + x % 2,
        )].color,
{
    let s = COLOR_SCALE as int;
    lemma_mul_is_commutative(s, s);
    lemma_div_multiples_vanish(s, s);
    reveal_with_fuel(blend_after, 3);
    assert(blend_after(s, 1) == s);
    let pp = model_perm(pat, 1, y / 2, x / 2);
    let pc = model_color(pat, s, 1, y / 2, x / 2);
    assert((s - s) * (pc.a as int) == 0);
    assert(blend_factor(s, pc.a as int) == s);
    let sub = seed_flat(pat)[source_of(pp, 2 * (y % 2) + x % 2)];
    crate::color::lemma_lerp_channel_full(pc.r as int, sub.color.r as int);
    crate::color::lemma_lerp_channel_full(pc.g as int, sub.color.g as int);
    crate::color::lemma_lerp_channel_full(pc.b as int, sub.color.b as int);
    crate::color::lemma_lerp_channel_full(s, sub.color.a as int);
    assert(model_color(pat, s, 2, y, x) == lerp_color(opaque(pc), sub.color, s));
}

} // verus!
