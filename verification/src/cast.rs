//! The ray caster: a grid digital-differential-analyzer (DDA) walk that
//! returns the distance to the first occupied cell along a ray.
//!
//! A ray starts at a rational `origin` and advances along a rational
//! `direction`. The walk visits the grid cells the ray enters, one boundary
//! crossing at a time, and stops at the first occupied cell or after
//! `max_depth` crossings. The result is the exact ray parameter `t` of the
//! hit: the hit point is `origin + t * direction`, so for a unit-length
//! direction `t` is the Euclidean hit distance.
//!
//! Rays with an axis-aligned direction take a dedicated branch that steps
//! along the single moving axis; there only the sign of the direction
//! matters for the stepping, and the crossing distance is accumulated in
//! whole grid units from the fractional part of the origin, then divided by
//! the magnitude of the moving component to give the same ray parameter.
//!
//! When the distances to the next vertical and next horizontal boundary are
//! exactly equal (the ray runs through a grid corner), the step along the
//! y axis is taken first; the x step follows at the same parameter on the
//! next iteration, so both cells adjacent to the corner are examined.

use vstd::prelude::*;
use crate::ratio::Rat;
use crate::ratio::Qr;
use crate::ratio::qr;
use crate::ratio::rat_wf;
use crate::ratio::q_lt;
use crate::ratio::lemma_mul_bound;
use crate::grid::WallMap;
use vstd::arithmetic::div_mod::lemma_fundamental_div_mod;

verus! {

/// Largest denominator accepted for an origin coordinate.
pub const ORIGIN_DEN_MAX: i64 = 64;

/// Magnitude bound on an origin coordinate, in grid units.
pub const ORIGIN_MAX: i64 = 64;

/// Magnitude bound on a direction numerator.
pub const DIR_NUM_MAX: i64 = 16777216;

/// Largest denominator accepted for a direction component.
pub const DIR_DEN_MAX: i64 = 8192;

/// Largest accepted search depth, in boundary crossings.
pub const DEPTH_MAX: i64 = 256;

/// The sign of an integer.
pub open spec fn sgn(n: int) -> int {
    if n > 0 {
        1int
    } else if n < 0 {
        -1int
    } else {
        0int
    }
}

/// Floor of a ghost rational with positive denominator (integer division
/// is Euclidean, hence floor division for a positive divisor).
pub open spec fn floor_q(q: Qr) -> int {
    q.n / q.d
}

/// Numerator of the fractional part of a ghost rational, over its own
/// denominator: `frac_n(q) / q.d == q - floor(q)`, in `[0, q.d)`.
pub open spec fn frac_n(q: Qr) -> int {
    q.n - floor_q(q) * q.d
}

/// Ray parameter at which coordinate `o + t * d` reaches the boundary `n`
/// cells beyond `floor(o)`; when `d` is negative the boundary crossed is
/// the near edge of the cell, one unit higher than the index stepped to,
/// hence the adjustment. The denominator of the result is positive.
pub open spec fn cross_t(o: Qr, d: Qr, n: int) -> Qr {
    let a: int = n * o.d - frac_n(o) + (if d.n < 0 { o.d } else { 0int });
    if d.n >= 0 {
        Qr { n: a * d.d, d: o.d * d.n }
    } else {
        Qr { n: -(a * d.d), d: -(o.d * d.n) }
    }
}

/// The general DDA walk, both direction components nonzero: from cell
/// `(cx, cy)`, step across whichever boundary the ray reaches first — the
/// y step on a tie — and return the crossing parameter of the first
/// occupied cell entered, or nothing once the fuel is spent.
pub open spec fn walk(
    m: WallMap,
    ox: Qr,
    oy: Qr,
    dx: Qr,
    dy: Qr,
    cx: int,
    cy: int,
    fuel: nat,
) -> Option<Qr>
    decreases fuel,
{
    if fuel == 0 {
        None
    } else {
        let tx = cross_t(ox, dx, cx - floor_q(ox) + sgn(dx.n));
        let ty = cross_t(oy, dy, cy - floor_q(oy) + sgn(dy.n));
        if q_lt(tx, ty) {
            let nx: int = cx + sgn(dx.n);
            if m.has(nx, cy) {
                Some(tx)
            } else {
                walk(m, ox, oy, dx, dy, nx, cy, (fuel - 1) as nat)
            }
        } else {
            let ny: int = cy + sgn(dy.n);
            if m.has(cx, ny) {
                Some(ty)
            } else {
                walk(m, ox, oy, dx, dy, cx, ny, (fuel - 1) as nat)
            }
        }
    }
}

/// The axis-aligned walk: step cell by cell along the single moving axis,
/// accumulating one whole grid unit per crossing after the first partial
/// cell. `gn / gd` is the distance in grid units to the next boundary.
pub open spec fn axis_walk(
    m: WallMap,
    cx: int,
    cy: int,
    sx: int,
    sy: int,
    gn: int,
    gd: int,
    fuel: nat,
) -> Option<Qr>
    decreases fuel,
{
    if fuel == 0 {
        None
    } else {
        let nx: int = cx + sx;
        let ny: int = cy + sy;
        if m.has(nx, ny) {
            Some(Qr { n: gn, d: gd })
        } else {
            axis_walk(m, nx, ny, sx, sy, gn + gd, gd, (fuel - 1) as nat)
        }
    }
}

/// What a cast returns: the ray parameter of the first occupied cell the
/// ray enters within `depth` boundary crossings, or nothing. The starting
/// cell itself is never tested. Axis-aligned directions take the dedicated
/// branch; its grid-unit distance is divided by the magnitude of the moving
/// component to give the ray parameter.
pub open spec fn cast_spec(m: WallMap, ox: Qr, oy: Qr, dx: Qr, dy: Qr, depth: nat) -> Option<
    Qr,
> {
    if dx.n == 0 || dy.n == 0 {
        let o = if dx.n == 0 { oy } else { ox };
        let d = if dx.n == 0 { dy } else { dx };
        let g0: int = if d.n < 0 { frac_n(o) } else { o.d - frac_n(o) };
        match axis_walk(m, floor_q(ox), floor_q(oy), sgn(dx.n), sgn(dy.n), g0, o.d, depth) {
            Some(g) => Some(Qr { n: g.n * d.d, d: o.d * (if d.n < 0 { -d.n } else { d.n }) }),
            None => None,
        }
    } else {
        walk(m, ox, oy, dx, dy, floor_q(ox), floor_q(oy), depth)
    }
}

/// An integer quotient is pinned down by the two-sided bound of the
/// fundamental division identity.
proof fn lemma_floor_unique(n: int, d: int, f: int)
    requires
        d > 0,
        d * f <= n < d * f + d,
    ensures
        f == n / d,
{
    lemma_fundamental_div_mod(n, d);
    assert(f == n / d) by (nonlinear_arith)
        requires
            d > 0,
            d * f <= n < d * f + d,
            n == d * (n / d) + n % d,
            0 <= n % d < d,
    ;
}

/// Floor of a bounded rational coordinate.
fn rat_floor(r: Rat) -> (f: i64)
    requires
        rat_wf(r),
        r.den <= ORIGIN_DEN_MAX,
        -ORIGIN_MAX * r.den <= r.num <= ORIGIN_MAX * r.den,
    ensures
        f == floor_q(qr(r)),
        -ORIGIN_MAX <= f <= ORIGIN_MAX,
{
    proof {
        lemma_mul_bound(ORIGIN_MAX as int, r.den as int, ORIGIN_MAX as int, ORIGIN_DEN_MAX as int);
        assert(-4096 <= r.num <= 4096) by (nonlinear_arith)
            requires
                0 < r.den <= 64,
                -64 * r.den <= r.num <= 64 * r.den,
        ;
    }
    let f: i64;
    if r.num >= 0 {
        let q: u64 = (r.num as u64) / (r.den as u64);
        proof {
            lemma_fundamental_div_mod(r.num as int, r.den as int);
            assert(q <= 4096) by (nonlinear_arith)
                requires
                    q == r.num as int / r.den as int,
                    0 < r.den as int,
                    0 <= r.num <= 4096,
                    r.num as int == r.den as int * (r.num as int / r.den as int) + r.num as int
                        % r.den as int,
                    0 <= r.num as int % r.den as int,
            ;
        }
        f = q as i64;
    } else {
        let m: u64 = (-r.num) as u64;
        let c: u64 = (m + (r.den as u64) - 1) / (r.den as u64);
        proof {
            let n: int = r.num as int;
            let d: int = r.den as int;
            lemma_fundamental_div_mod(m as int + d - 1, d);
            assert(c <= 4097 && d * (-(c as int)) <= n < d * (-(c as int)) + d)
                by (nonlinear_arith)
                requires
                    d > 0,
                    m == -n,
                    0 < m <= 4096,
                    c == (m as int + d - 1) / d,
                    m as int + d - 1 == d * c + (m as int + d - 1) % d,
                    0 <= (m as int + d - 1) % d < d,
            ;
            lemma_floor_unique(n, d, -(c as int));
        }
        f = -(c as i64);
    }
    proof {
        let n: int = r.num as int;
        let d: int = r.den as int;
        lemma_fundamental_div_mod(n, d);
        assert(-ORIGIN_MAX <= f <= ORIGIN_MAX) by (nonlinear_arith)
            requires
                f == n / d,
                d > 0,
                -ORIGIN_MAX * d <= n <= ORIGIN_MAX * d,
                n == d * (n / d) + n % d,
                0 <= n % d < d,
                ORIGIN_MAX == 64,
        ;
    }
    f
}

/// Casts a ray from `origin` along `direction` against the wall map,
/// examining at most `max_depth` boundary crossings.
///
/// On a hit the result is the exact ray parameter of the first occupied
/// cell entered, a non-negative rational; `None` means no occupied cell
/// within the depth bound (an open sight line, not an error). The bounds
/// in the preconditions keep every intermediate product inside `i64`.
pub fn cast(map: &WallMap, ox: Rat, oy: Rat, dx: Rat, dy: Rat, max_depth: i64) -> (r: Option<
    Rat,
>)
    requires
        rat_wf(ox),
        rat_wf(oy),
        rat_wf(dx),
        rat_wf(dy),
        ox.den <= ORIGIN_DEN_MAX,
        oy.den <= ORIGIN_DEN_MAX,
        -ORIGIN_MAX * ox.den <= ox.num <= ORIGIN_MAX * ox.den,
        -ORIGIN_MAX * oy.den <= oy.num <= ORIGIN_MAX * oy.den,
        dx.den <= DIR_DEN_MAX,
        dy.den <= DIR_DEN_MAX,
        -DIR_NUM_MAX <= dx.num <= DIR_NUM_MAX,
        -DIR_NUM_MAX <= dy.num <= DIR_NUM_MAX,
        !(dx.num == 0 && dy.num == 0),
        1 <= max_depth <= DEPTH_MAX,
    ensures
        match r {
            Some(t) => {
                &&& rat_wf(t)
                &&& 0 <= t.num <= 135798784
                &&& t.den <= 0x40000000
                &&& cast_spec(*map, qr(ox), qr(oy), qr(dx), qr(dy), max_depth as nat)
                    == Some(qr(t))
            },
            None => cast_spec(*map, qr(ox), qr(oy), qr(dx), qr(dy), max_depth as nat) is None,
        },
{
    let c0x: i64 = rat_floor(ox);
    let c0y: i64 = rat_floor(oy);
    if dx.num == 0 || dy.num == 0 {
        axis_cast(map, ox, oy, dx, dy, c0x, c0y, max_depth)
    } else {
        general_cast(map, ox, oy, dx, dy, c0x, c0y, max_depth)
    }
}

/// The axis-aligned branch of `cast`; `c0x`, `c0y` is the starting cell.
fn axis_cast(map: &WallMap, ox: Rat, oy: Rat, dx: Rat, dy: Rat, c0x: i64, c0y: i64, max_depth: i64) -> (r:
    Option<Rat>)
    requires
        rat_wf(ox),
        rat_wf(oy),
        rat_wf(dx),
        rat_wf(dy),
        ox.den <= ORIGIN_DEN_MAX,
        oy.den <= ORIGIN_DEN_MAX,
        -ORIGIN_MAX * ox.den <= ox.num <= ORIGIN_MAX * ox.den,
        -ORIGIN_MAX * oy.den <= oy.num <= ORIGIN_MAX * oy.den,
        dx.den <= DIR_DEN_MAX,
        dy.den <= DIR_DEN_MAX,
        -DIR_NUM_MAX <= dx.num <= DIR_NUM_MAX,
        -DIR_NUM_MAX <= dy.num <= DIR_NUM_MAX,
        dx.num == 0 || dy.num == 0,
        !(dx.num == 0 && dy.num == 0),
        1 <= max_depth <= DEPTH_MAX,
        c0x == floor_q(qr(ox)),
        c0y == floor_q(qr(oy)),
        -ORIGIN_MAX <= c0x <= ORIGIN_MAX,
        -ORIGIN_MAX <= c0y <= ORIGIN_MAX,
    ensures
        match r {
            Some(t) => {
                &&& rat_wf(t)
                &&& 0 <= t.num <= 135798784
                &&& t.den <= 0x40000000
                &&& cast_spec(*map, qr(ox), qr(oy), qr(dx), qr(dy), max_depth as nat)
                    == Some(qr(t))
            },
            None => cast_spec(*map, qr(ox), qr(oy), qr(dx), qr(dy), max_depth as nat) is None,
        },
{
    let o: Rat = if dx.num == 0 { oy } else { ox };
    let dv: Rat = if dx.num == 0 { dy } else { dx };
    let c0: i64 = if dx.num == 0 { c0y } else { c0x };
    let sx: i64 = if dx.num > 0 { 1 } else if dx.num < 0 { -1 } else { 0 };
    let sy: i64 = if dy.num > 0 { 1 } else if dy.num < 0 { -1 } else { 0 };
    proof {
        lemma_mul_bound(c0 as int, o.den as int, ORIGIN_MAX as int, ORIGIN_DEN_MAX as int);
        lemma_fundamental_div_mod(o.num as int, o.den as int);
        assert(0 <= frac_n(qr(o)) < o.den);
    }
    let frn: i64 = o.num - c0 * o.den;
    let g0: i64 = if dv.num < 0 { frn } else { o.den - frn };
    let gd: i64 = o.den;
    let ghost spec_walk = axis_walk(
        *map,
        c0x as int,
        c0y as int,
        sgn(qr(dx).n),
        sgn(qr(dy).n),
        g0 as int,
        gd as int,
        max_depth as nat,
    );
    let mut cx: i64 = c0x;
    let mut cy: i64 = c0y;
    let mut gn: i64 = g0;
    let mut k: i64 = 0;
    #[verifier::loop_isolation(false)]
    while k < max_depth
        invariant
            0 <= k <= max_depth,
            cx == c0x + k * sx,
            cy == c0y + k * sy,
            gn == g0 + k * gd,
            spec_walk == axis_walk(
                *map,
                cx as int,
                cy as int,
                sx as int,
                sy as int,
                gn as int,
                gd as int,
                (max_depth - k) as nat,
            ),
        decreases max_depth - k,
    {
        proof {
            assert(-DEPTH_MAX <= k * sx <= DEPTH_MAX && -DEPTH_MAX <= k * sy <= DEPTH_MAX && 0
                <= k * gd <= DEPTH_MAX * ORIGIN_DEN_MAX && 0 <= (k + 1) * gd <= (DEPTH_MAX + 1)
                * ORIGIN_DEN_MAX && (k + 1) * gd == k * gd + gd && (k + 1) * sx == k * sx + sx
                && (k + 1) * sy == k * sy + sy) by (nonlinear_arith)
                requires
                    0 <= k < DEPTH_MAX + 1,
                    -1 <= sx <= 1,
                    -1 <= sy <= 1,
                    0 < gd <= ORIGIN_DEN_MAX,
                    DEPTH_MAX == 256,
                    ORIGIN_DEN_MAX == 64,
            ;
        }
        cx = cx + sx;
        cy = cy + sy;
        if map.contains(cx, cy) {
            proof {
                lemma_mul_bound(gn as int, dv.den as int, 16512, DIR_DEN_MAX as int);
                lemma_mul_bound(o.den as int, dv.num as int, ORIGIN_DEN_MAX as int, DIR_NUM_MAX as int);
                lemma_mul_bound(o.den as int, -(dv.num as int), ORIGIN_DEN_MAX as int, DIR_NUM_MAX as int);
            }
            let tn: i64 = gn * dv.den;
            let td: i64 = if dv.num < 0 { o.den * (-dv.num) } else { o.den * dv.num };
            proof {
                assert(td > 0 && tn >= 0) by (nonlinear_arith)
                    requires
                        td == o.den * (if dv.num < 0 { -dv.num as int } else { dv.num as int }),
                        tn == gn * dv.den,
                        o.den > 0,
                        dv.den > 0,
                        dv.num != 0,
                        gn >= 0,
                ;
            }
            return Some(Rat { num: tn, den: td });
        }
        gn = gn + gd;
        k = k + 1;
    }
    None
}

/// The general branch of `cast`, both direction components nonzero;
/// `c0x`, `c0y` is the starting cell.
fn general_cast(map: &WallMap, ox: Rat, oy: Rat, dx: Rat, dy: Rat, c0x: i64, c0y: i64, max_depth: i64) -> (r:
    Option<Rat>)
    requires
        rat_wf(ox),
        rat_wf(oy),
        rat_wf(dx),
        rat_wf(dy),
        ox.den <= ORIGIN_DEN_MAX,
        oy.den <= ORIGIN_DEN_MAX,
        -ORIGIN_MAX * ox.den <= ox.num <= ORIGIN_MAX * ox.den,
        -ORIGIN_MAX * oy.den <= oy.num <= ORIGIN_MAX * oy.den,
        dx.den <= DIR_DEN_MAX,
        dy.den <= DIR_DEN_MAX,
        -DIR_NUM_MAX <= dx.num <= DIR_NUM_MAX,
        -DIR_NUM_MAX <= dy.num <= DIR_NUM_MAX,
        dx.num != 0,
        dy.num != 0,
        1 <= max_depth <= DEPTH_MAX,
        c0x == floor_q(qr(ox)),
        c0y == floor_q(qr(oy)),
        -ORIGIN_MAX <= c0x <= ORIGIN_MAX,
        -ORIGIN_MAX <= c0y <= ORIGIN_MAX,
    ensures
        match r {
            Some(t) => {
                &&& rat_wf(t)
                &&& 0 <= t.num <= 135798784
                &&& t.den <= 0x40000000
                &&& walk(
                    *map,
                    qr(ox),
                    qr(oy),
                    qr(dx),
                    qr(dy),
                    c0x as int,
                    c0y as int,
                    max_depth as nat,
                ) == Some(qr(t))
            },
            None => walk(
                *map,
                qr(ox),
                qr(oy),
                qr(dx),
                qr(dy),
                c0x as int,
                c0y as int,
                max_depth as nat,
            ) is None,
        },
{
    let sx: i64 = if dx.num > 0 { 1 } else { -1 };
    let sy: i64 = if dy.num > 0 { 1 } else { -1 };
    proof {
        lemma_mul_bound(c0x as int, ox.den as int, ORIGIN_MAX as int, ORIGIN_DEN_MAX as int);
        lemma_mul_bound(c0y as int, oy.den as int, ORIGIN_MAX as int, ORIGIN_DEN_MAX as int);
        lemma_fundamental_div_mod(ox.num as int, ox.den as int);
        lemma_fundamental_div_mod(oy.num as int, oy.den as int);
        assert(0 <= frac_n(qr(ox)) < ox.den);
        assert(0 <= frac_n(qr(oy)) < oy.den);
    }
    let frx: i64 = ox.num - c0x * ox.den;
    let fry: i64 = oy.num - c0y * oy.den;
    let adjx: i64 = if dx.num < 0 { ox.den } else { 0 };
    let adjy: i64 = if dy.num < 0 { oy.den } else { 0 };
    let ghost spec_walk = walk(
        *map,
        qr(ox),
        qr(oy),
        qr(dx),
        qr(dy),
        c0x as int,
        c0y as int,
        max_depth as nat,
    );
    let mut cx: i64 = c0x;
    let mut cy: i64 = c0y;
    let mut k: i64 = 0;
    #[verifier::loop_isolation(false)]
    while k < max_depth
        invariant
            0 <= k <= max_depth,
            if sx == 1 {
                c0x <= cx <= c0x + k
            } else {
                c0x - k <= cx <= c0x
            },
            if sy == 1 {
                c0y <= cy <= c0y + k
            } else {
                c0y - k <= cy <= c0y
            },
            spec_walk == walk(
                *map,
                qr(ox),
                qr(oy),
                qr(dx),
                qr(dy),
                cx as int,
                cy as int,
                (max_depth - k) as nat,
            ),
        decreases max_depth - k,
    {
        let nx: i64 = cx - c0x + sx;
        let ny: i64 = cy - c0y + sy;
        proof {
            lemma_mul_bound(nx as int, ox.den as int, DEPTH_MAX as int + 1, ORIGIN_DEN_MAX as int);
            lemma_mul_bound(ny as int, oy.den as int, DEPTH_MAX as int + 1, ORIGIN_DEN_MAX as int);
        }
        let ax: i64 = nx * ox.den - frx + adjx;
        let ay: i64 = ny * oy.den - fry + adjy;
        proof {
            lemma_mul_bound(ax as int, dx.den as int, 16577, DIR_DEN_MAX as int);
            lemma_mul_bound(ay as int, dy.den as int, 16577, DIR_DEN_MAX as int);
            lemma_mul_bound(ox.den as int, dx.num as int, ORIGIN_DEN_MAX as int, DIR_NUM_MAX as int);
            lemma_mul_bound(oy.den as int, dy.num as int, ORIGIN_DEN_MAX as int, DIR_NUM_MAX as int);
        }
        let txn: i64 = if dx.num > 0 { ax * dx.den } else { -(ax * dx.den) };
        let txd: i64 = if dx.num > 0 { ox.den * dx.num } else { -(ox.den * dx.num) };
        let tyn: i64 = if dy.num > 0 { ay * dy.den } else { -(ay * dy.den) };
        let tyd: i64 = if dy.num > 0 { oy.den * dy.num } else { -(oy.den * dy.num) };
        proof {
            assert(txd > 0 && tyd > 0) by (nonlinear_arith)
                requires
                    txd == (if dx.num > 0 { ox.den as int * dx.num as int } else { -(ox.den as int * dx.num as int) }),
                    tyd == (if dy.num > 0 { oy.den as int * dy.num as int } else { -(oy.den as int * dy.num as int) }),
                    ox.den > 0,
                    oy.den > 0,
                    dx.num != 0,
                    dy.num != 0,
            ;
            lemma_mul_bound(txn as int, tyd as int, 135798784, 0x40000000);
            lemma_mul_bound(tyn as int, txd as int, 135798784, 0x40000000);
            lemma_nonneg_t(qr(ox), qr(dx), cx as int, c0x as int, sx as int, ax as int, txn as int);
            lemma_nonneg_t(qr(oy), qr(dy), cy as int, c0y as int, sy as int, ay as int, tyn as int);
        }
        if txn * tyd < tyn * txd {
            cx = cx + sx;
            if map.contains(cx, cy) {
                return Some(Rat { num: txn, den: txd });
            }
        } else {
            cy = cy + sy;
            if map.contains(cx, cy) {
                return Some(Rat { num: tyn, den: tyd });
            }
        }
        k = k + 1;
    }
    None
}

/// Along the walk the next crossing never lies behind the origin: the
/// crossing numerator is non-negative.
proof fn lemma_nonneg_t(o: Qr, d: Qr, c: int, c0: int, s: int, a: int, tn: int)
    requires
        o.d > 0,
        d.d > 0,
        d.n != 0,
        s == sgn(d.n),
        if s == 1 {
            c >= c0
        } else {
            c <= c0
        },
        0 <= o.n - (o.n / o.d) * o.d < o.d,
        a == (c - c0 + s) * o.d - (o.n - (o.n / o.d) * o.d) + (if d.n < 0 { o.d } else { 0int }),
        tn == (if d.n > 0 { a * d.d } else { -(a * d.d) }),
    ensures
        tn >= 0,
{
    let fr: int = o.n - (o.n / o.d) * o.d;
    if d.n > 0 {
        assert(a >= 0 && a * d.d >= 0) by (nonlinear_arith)
            requires
                a == (c - c0 + 1) * o.d - fr,
                c >= c0,
                o.d > 0,
                d.d > 0,
                0 <= fr < o.d,
        ;
    } else {
        assert(a <= 0 && -(a * d.d) >= 0) by (nonlinear_arith)
            requires
                a == (c - c0 - 1) * o.d - fr + o.d,
                c <= c0,
                o.d > 0,
                d.d > 0,
                0 <= fr < o.d,
        ;
    }
}

} // verus!
