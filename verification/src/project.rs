//! The column projector: turns the player's pose and the wall map into a
//! shaded vertical wall slice for one screen column.
//!
//! For a column at horizontal offset `off = column - screen_w / 2` from the
//! screen centre, the view-space ray direction is the vector
//! `(focal, off)`: the column's view angle is `atan(off / focal)`, and
//! `(focal, off)` is that angle's direction scaled by its secant. Rotating
//! it by the player's facing `(c, s)` gives the world-space ray. The caller
//! supplies `focal = screen_w / (2 * tan(fov / 2))` and the facing cosine
//! and sine as rationals; everything after that is exact.
//!
//! A hit at ray parameter `t` lies at distance `t * |(focal, off)|` for a
//! unit facing. The fisheye-corrected distance — the raw distance divided
//! by the cosine of the view angle, `focal / |(focal, off)|` — is therefore
//! `t * (focal^2 + off^2) / focal`, an exact rational. The slice height is
//! `screen_h / corrected`, and the shade is `3 / corrected`, saturating at
//! full brightness.

use vstd::prelude::*;
use crate::ratio::Rat;
use crate::ratio::Qr;
use crate::ratio::qr;
use crate::ratio::rat_wf;
use crate::ratio::q_wf;
use crate::ratio::q_eq;
use crate::ratio::q_le;
use crate::ratio::q_lt;
use crate::ratio::q_mul;
use crate::ratio::q_int;
use crate::ratio::lemma_mul_bound;
use crate::ratio::lemma_pos_mul;
use crate::grid::WallMap;
use crate::pose::PlayerPose;
use crate::cast::cast;
use crate::cast::cast_spec;
use crate::cast::ORIGIN_DEN_MAX;

verus! {

/// Boundary crossings examined per ray.
pub const CAST_DEPTH: i64 = 100;

/// Largest accepted screen width and height, in columns and rows.
pub const SCREEN_MAX: i64 = 512;

/// Largest denominator accepted for the facing cosine and sine.
pub const FACING_DEN_MAX: i64 = 64;

/// Largest denominator accepted for the focal length.
pub const FOCAL_DEN_MAX: i64 = 64;

/// Largest accepted focal length, in grid units.
pub const FOCAL_MAX: i64 = 512;

/// One projected wall slice: a vertical segment at horizontal screen
/// offset `offset` (positive to the left of centre, as screen x grows
/// rightward with the column index), spanning `[-height/2, height/2]`
/// vertically, drawn at grayscale lightness `shade` in `[0, 1]`.
pub struct WallSlice {
    pub offset: Rat,
    pub height: Rat,
    pub shade: Rat,
}

/// Numerator of the squared length of the view-space ray `(focal, offm/2)`
/// over the denominator `4 * focal.d * focal.d`.
pub open spec fn view_len2_n(f: Qr, offm: int) -> int {
    4 * (f.n * f.n) + (offm * offm) * (f.d * f.d)
}

/// The fisheye-corrected distance `t * (focal^2 + off^2) / focal` for a hit
/// at ray parameter `t` on the column at view offset `off = offm / 2`.
pub open spec fn corrected_q(t: Qr, f: Qr, offm: int) -> Qr {
    Qr { n: t.n * view_len2_n(f, offm), d: t.d * (4 * (f.d * f.n)) }
}

/// Projected slice height: `screen_h / corrected`.
pub open spec fn height_q(corr: Qr, h: int) -> Qr {
    Qr { n: h * corr.d, d: corr.n }
}

/// Shade of a slice at corrected distance `corr`: `3 / corr`, saturating
/// to full brightness at distances of three grid units and nearer.
pub open spec fn shade_q(corr: Qr) -> Qr {
    if 3 * corr.d >= corr.n {
        Qr { n: 1, d: 1 }
    } else {
        Qr { n: 3 * corr.d, d: corr.n }
    }
}

/// Numerator of the world-space x component of the column's ray: the view
/// ray `(focal, offm/2)` rotated by the facing `(c, s)`, with `c.d == s.d`,
/// over the denominator `dir_d`.
pub open spec fn dir_x_n(c: Qr, s: Qr, f: Qr, offm: int) -> int {
    2 * (c.n * f.n) - (s.n * offm) * f.d
}

/// Numerator of the world-space y component of the column's ray.
pub open spec fn dir_y_n(c: Qr, s: Qr, f: Qr, offm: int) -> int {
    2 * (s.n * f.n) + (c.n * offm) * f.d
}

/// Shared denominator of the world-space ray components.
pub open spec fn dir_d(c: Qr, f: Qr) -> int {
    2 * (c.d * f.d)
}

/// Projects one screen column.
///
/// Casts a ray from the pose's position through the column's view
/// direction, with the facing supplied as the rational cosine and sine
/// pair `(c, s)` and the projection-plane distance as `focal`. Returns the
/// slice for the first wall hit, or `None` when no wall lies within
/// [`CAST_DEPTH`] boundary crossings — or when the hit is at ray parameter
/// zero, the wall's edge passing exactly through the player, leaving
/// nothing to draw.
pub fn project(
    map: &WallMap,
    pose: &PlayerPose,
    c: Rat,
    s: Rat,
    focal: Rat,
    column: i64,
    screen_w: i64,
    screen_h: i64,
) -> (r: Option<WallSlice>)
    requires
        pose.wf(),
        pose.x.den <= ORIGIN_DEN_MAX,
        pose.y.den <= ORIGIN_DEN_MAX,
        rat_wf(c),
        rat_wf(s),
        rat_wf(focal),
        c.den == s.den,
        c.den <= FACING_DEN_MAX,
        -c.den <= c.num <= c.den,
        -s.den <= s.num <= s.den,
        !(c.num == 0 && s.num == 0),
        focal.den <= FOCAL_DEN_MAX,
        0 < focal.num <= FOCAL_MAX * focal.den,
        1 <= screen_w <= SCREEN_MAX,
        0 <= column < screen_w,
        1 <= screen_h <= SCREEN_MAX,
    ensures
        ({
            let offm: int = 2 * column - screen_w;
            let dq = Qr {
                n: dir_x_n(qr(c), qr(s), qr(focal), offm),
                d: dir_d(qr(c), qr(focal)),
            };
            let eq = Qr {
                n: dir_y_n(qr(c), qr(s), qr(focal), offm),
                d: dir_d(qr(c), qr(focal)),
            };
            let hit = cast_spec(*map, qr(pose.x), qr(pose.y), dq, eq, CAST_DEPTH as nat);
            match r {
                Some(sl) => {
                    &&& hit matches Some(t)
                    &&& hit matches Some(t) ==> {
                        &&& t.n > 0
                        &&& rat_wf(sl.offset)
                        &&& rat_wf(sl.height)
                        &&& rat_wf(sl.shade)
                        &&& qr(sl.offset) == (Qr { n: screen_w - 2 * column, d: 2 })
                        &&& qr(sl.height) == height_q(
                            corrected_q(t, qr(focal), offm),
                            screen_h as int,
                        )
                        &&& qr(sl.shade) == shade_q(corrected_q(t, qr(focal), offm))
                        &&& q_lt(q_int(0), qr(sl.height))
                        &&& q_lt(q_int(0), qr(sl.shade))
                        &&& q_le(qr(sl.shade), q_int(1))
                    }
                },
                None => match hit {
                    Some(t) => t.n == 0,
                    None => true,
                },
            }
        }),
{
    let offm: i64 = 2 * column - screen_w;
    proof {
        lemma_mul_bound(c.num as int, focal.num as int, 64, 32768);
        lemma_mul_bound(s.num as int, offm as int, 64, 512);
        lemma_mul_bound(s.num as int * offm as int, focal.den as int, 32768, 64);
        lemma_mul_bound(s.num as int, focal.num as int, 64, 32768);
        lemma_mul_bound(c.num as int, offm as int, 64, 512);
        lemma_mul_bound(c.num as int * offm as int, focal.den as int, 32768, 64);
        lemma_mul_bound(c.den as int, focal.den as int, 64, 64);
        lemma_pos_mul(c.den as int, focal.den as int);
        assert(0 < focal.num <= 32768) by (nonlinear_arith)
            requires
                0 < focal.num <= FOCAL_MAX * focal.den,
                0 < focal.den <= 64,
                FOCAL_MAX == 512,
        ;
    }
    let dxn: i64 = 2 * (c.num * focal.num) - (s.num * offm) * focal.den;
    let dyn_: i64 = 2 * (s.num * focal.num) + (c.num * offm) * focal.den;
    let dd: i64 = 2 * (c.den * focal.den);
    proof {
        lemma_dir_nonzero(qr(c), qr(s), qr(focal), offm as int);
    }
    let dir_x = Rat { num: dxn, den: dd };
    let dir_y = Rat { num: dyn_, den: dd };
    let hit = cast(map, pose.x, pose.y, dir_x, dir_y, CAST_DEPTH);
    match hit {
        None => None,
        Some(t) => {
            if t.num == 0 {
                return None;
            }
            proof {
                lemma_mul_bound(focal.num as int, focal.num as int, 32768, 32768);
                lemma_mul_bound(offm as int, offm as int, 512, 512);
                lemma_mul_bound(focal.den as int, focal.den as int, 64, 64);
                lemma_mul_bound(
                    offm as int * offm as int,
                    focal.den as int * focal.den as int,
                    262144,
                    4096,
                );
                lemma_pos_mul(focal.num as int, focal.num as int);
                lemma_pos_mul(focal.den as int, focal.den as int);
                assert(offm as int * offm as int >= 0 && (offm as int * offm as int) * (
                focal.den as int * focal.den as int) >= 0) by (nonlinear_arith)
                    requires
                        focal.den as int * focal.den as int > 0,
                ;
            }
            let l2n: i64 = 4 * (focal.num * focal.num) + (offm * offm) * (focal.den * focal.den);
            proof {
                lemma_mul_bound(t.num as int, l2n as int, 135798784, 0x200000000);
                lemma_pos_mul(t.num as int, l2n as int);
                lemma_mul_bound(focal.den as int, focal.num as int, 64, 32768);
                lemma_pos_mul(focal.den as int, focal.num as int);
                lemma_mul_bound(
                    t.den as int,
                    4 * (focal.den as int * focal.num as int),
                    0x40000000,
                    0x800000,
                );
                lemma_pos_mul(t.den as int, 4 * (focal.den as int * focal.num as int));
            }
            let corr_n: i64 = t.num * l2n;
            let corr_d: i64 = t.den * (4 * (focal.den * focal.num));
            proof {
                lemma_mul_bound(screen_h as int, corr_d as int, 512, 0x20000000000000);
                lemma_pos_mul(screen_h as int, corr_d as int);
            }
            let slice = WallSlice {
                offset: Rat { num: screen_w - 2 * column, den: 2 },
                height: Rat { num: screen_h * corr_d, den: corr_n },
                shade: if 3 * corr_d >= corr_n {
                    Rat { num: 1, den: 1 }
                } else {
                    Rat { num: 3 * corr_d, den: corr_n }
                },
            };
            Some(slice)
        },
    }
}

/// Dot product of a view ray rotated by `(a, b)` with `(a, b)` itself:
/// twice the focal numerator times the squared length of `(a, b)`.
#[verifier::rlimit(100)]
proof fn lemma_rot_dot(a: int, b: int, fnum: int, fden: int, o: int)
    by (nonlinear_arith)
    ensures
        (2 * (a * fnum) - (b * o) * fden) * a + (2 * (b * fnum) + (a * o) * fden) * b == 2 * (
        fnum * (a * a + b * b)),
{
}

/// That dot product is positive for a nonzero facing.
proof fn lemma_dot_pos(a: int, b: int, fnum: int)
    by (nonlinear_arith)
    requires
        fnum > 0,
        !(a == 0 && b == 0),
    ensures
        2 * (fnum * (a * a + b * b)) > 0,
{
}

/// A rotated view ray is never the zero vector: its dot product with the
/// facing is positive.
proof fn lemma_dir_nonzero(c: Qr, s: Qr, f: Qr, offm: int)
    requires
        f.d > 0,
        f.n > 0,
        !(c.n == 0 && s.n == 0),
    ensures
        !(dir_x_n(c, s, f, offm) == 0 && dir_y_n(c, s, f, offm) == 0),
{
    let x = dir_x_n(c, s, f, offm);
    let y = dir_y_n(c, s, f, offm);
    lemma_rot_dot(c.n, s.n, f.n, f.d, offm);
    lemma_dot_pos(c.n, s.n, f.n);
    if x == 0 && y == 0 {
        assert(x * c.n == 0) by (nonlinear_arith)
            requires
                x == 0,
        ;
        assert(y * s.n == 0) by (nonlinear_arith)
            requires
                y == 0,
        ;
    }
}

/// At the central column the view offset is zero, so the fisheye
/// correction is the identity: the corrected distance equals the raw hit
/// distance `t * focal`, and the slice height is exactly
/// `screen_h / (t * focal)`.
pub proof fn lemma_center_column_exact(t: Qr, f: Qr, h: int)
    requires
        q_wf(t),
        q_wf(f),
        f.n > 0,
    ensures
        q_eq(corrected_q(t, f, 0), q_mul(t, f)),
        q_eq(height_q(corrected_q(t, f, 0), h), Qr { n: h * (t.d * f.d), d: t.n * f.n }),
{
    let l2: int = view_len2_n(f, 0);
    assert(l2 == 4 * (f.n * f.n) + (0 * 0) * (f.d * f.d));
    assert(q_eq(corrected_q(t, f, 0), q_mul(t, f)) && q_eq(
        height_q(corrected_q(t, f, 0), h),
        Qr { n: h * (t.d * f.d), d: t.n * f.n },
    )) by (nonlinear_arith)
        requires
            t.d > 0,
            f.d > 0,
            f.n > 0,
            l2 == 4 * (f.n * f.n) + (0 * 0) * (f.d * f.d),
            corrected_q(t, f, 0) == (Qr { n: t.n * l2, d: t.d * (4 * (f.d * f.n)) }),
            height_q(corrected_q(t, f, 0), h) == (Qr {
                n: h * (t.d * (4 * (f.d * f.n))),
                d: t.n * l2,
            }),
    ;
}

/// Shading falls off monotonically with distance: of two hits in front of
/// the player, the nearer is at least as bright as the farther.
pub proof fn lemma_shade_monotone(d1: Qr, d2: Qr)
    requires
        q_wf(d1),
        q_wf(d2),
        d1.n > 0,
        d2.n > 0,
        q_le(d1, d2),
    ensures
        q_le(shade_q(d2), shade_q(d1)),
{
    if 3 * d2.d >= d2.n {
        assert(3 * d1.d >= d1.n) by (nonlinear_arith)
            requires
                d1.d > 0,
                d2.d > 0,
                d1.n > 0,
                d1.n * d2.d <= d2.n * d1.d,
                3 * d2.d >= d2.n,
        ;
    } else {
        if 3 * d1.d >= d1.n {
            assert(q_le(shade_q(d2), shade_q(d1))) by (nonlinear_arith)
                requires
                    d2.d > 0,
                    d2.n > 0,
                    3 * d2.d < d2.n,
                    shade_q(d2) == (Qr { n: 3 * d2.d, d: d2.n }),
                    shade_q(d1) == (Qr { n: 1, d: 1 }),
            ;
        } else {
            assert(q_le(shade_q(d2), shade_q(d1))) by (nonlinear_arith)
                requires
                    d1.d > 0,
                    d2.d > 0,
                    d1.n > 0,
                    d2.n > 0,
                    d1.n * d2.d <= d2.n * d1.d,
                    shade_q(d2) == (Qr { n: 3 * d2.d, d: d2.n }),
                    shade_q(d1) == (Qr { n: 3 * d1.d, d: d1.n }),
            ;
        }
    }
}

} // verus!
