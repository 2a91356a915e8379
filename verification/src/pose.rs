//! The player's pose: continuous position and facing, updated from the
//! per-frame movement and turn intents.
//!
//! The facing angle is stored in fixed angle units, [`FULL_TURN`] of them
//! to a whole revolution, so that wrapping the angle into `[0, FULL_TURN)`
//! is exact integer arithmetic. The caller converts a turning speed and an
//! elapsed time into a whole number of angle units, and converts the stored
//! angle to radians (or directly to a facing cosine and sine) when it needs
//! trigonometry; those conversions are the caller's approximation, while
//! everything stated here is exact.

use vstd::prelude::*;
use crate::ratio::Rat;
use crate::ratio::Qr;
use crate::ratio::qr;
use crate::ratio::rat_wf;
use crate::ratio::q_add;
use crate::ratio::lemma_mul_bound;

verus! {

/// Angle units in one full revolution.
pub const FULL_TURN: i64 = 4294967296;

/// Largest denominator a pose coordinate may carry. A caller whose
/// denominators would outgrow this bound re-quantizes the position between
/// frames.
pub const POS_DEN_MAX: i64 = 65536;

/// The world is confined to coordinates of magnitude at most this bound.
pub const POS_MAX: i64 = 64;

/// Magnitude bound on a coordinate before a movement step, leaving room
/// for the step itself.
pub const POS_ROOM: i64 = 48;

/// Largest denominator accepted for a step length or facing component.
pub const STEP_DEN_MAX: i64 = 16;

/// Largest step length (in grid units) a single update may take.
pub const STEP_MAX: i64 = 8;

/// Net forward component of the active movement intents: `+1` for
/// forward, `-1` for backward, cancelling when both are active.
pub open spec fn intent_fwd(forward: bool, backward: bool) -> int {
    (if forward { 1int } else { 0int }) - (if backward { 1int } else { 0int })
}

/// Net leftward component of the active movement intents.
pub open spec fn intent_left(strafe_left: bool, strafe_right: bool) -> int {
    (if strafe_left { 1int } else { 0int }) - (if strafe_right { 1int } else { 0int })
}

/// Numerator of the world-space x displacement: the local intent vector
/// `(fx, fy)` rotated by the facing `(c, s)` and scaled by the step `q`.
pub open spec fn disp_x_n(fx: int, fy: int, q: Qr, c: Qr, s: Qr) -> int {
    q.n * (fx * c.n * s.d - fy * s.n * c.d)
}

/// Numerator of the world-space y displacement.
pub open spec fn disp_y_n(fx: int, fy: int, q: Qr, c: Qr, s: Qr) -> int {
    q.n * (fx * s.n * c.d + fy * c.n * s.d)
}

/// Shared denominator of the world-space displacement.
pub open spec fn disp_d(q: Qr, c: Qr, s: Qr) -> int {
    q.d * (c.d * s.d)
}

/// The player's continuous position and facing angle.
pub struct PlayerPose {
    /// World x coordinate, in grid units.
    pub x: Rat,
    /// World y coordinate, in grid units.
    pub y: Rat,
    /// Facing angle in angle units, always in `[0, FULL_TURN)`.
    pub rot: i64,
}

impl PlayerPose {
    /// Well-formedness: coordinates are bounded rationals and the angle
    /// is normalized.
    pub open spec fn wf(self) -> bool {
        &&& rat_wf(self.x)
        &&& rat_wf(self.y)
        &&& self.x.den <= POS_DEN_MAX
        &&& self.y.den <= POS_DEN_MAX
        &&& -POS_MAX * self.x.den <= self.x.num <= POS_MAX * self.x.den
        &&& -POS_MAX * self.y.den <= self.y.num <= POS_MAX * self.y.den
        &&& 0 <= self.rot < FULL_TURN
    }

    /// Builds a pose from its parts.
    pub fn new(x: Rat, y: Rat, rot: i64) -> (p: PlayerPose)
        requires
            rat_wf(x),
            rat_wf(y),
            x.den <= POS_DEN_MAX,
            y.den <= POS_DEN_MAX,
            -POS_MAX * x.den <= x.num <= POS_MAX * x.den,
            -POS_MAX * y.den <= y.num <= POS_MAX * y.den,
            0 <= rot < FULL_TURN,
        ensures
            p.wf(),
            p.x == x,
            p.y == y,
            p.rot == rot,
    {
        PlayerPose { x, y, rot }
    }

    /// Applies the turn intents for one frame. `delta` is the angle swept
    /// this frame (turning speed times elapsed time) in angle units; an
    /// active turn-left intent adds it and an active turn-right intent
    /// subtracts it, so simultaneous intents cancel. The result is reduced
    /// into `[0, FULL_TURN)`, and the position is untouched.
    pub fn turn(&mut self, left: bool, right: bool, delta: i64)
        requires
            old(self).wf(),
            0 <= delta < FULL_TURN,
        ensures
            final(self).wf(),
            final(self).x == old(self).x,
            final(self).y == old(self).y,
            0 <= final(self).rot < FULL_TURN,
            ({
                let swept = old(self).rot + (if left { delta as int } else { 0int })
                    - (if right { delta as int } else { 0int });
                final(self).rot == if swept < 0 {
                    swept + FULL_TURN
                } else if swept >= FULL_TURN {
                    swept - FULL_TURN
                } else {
                    swept
                }
            }),
    {
        let mut r = self.rot;
        if left {
            r = r + delta;
        }
        if right {
            r = r - delta;
        }
        if r < 0 {
            r = r + FULL_TURN;
        } else if r >= FULL_TURN {
            r = r - FULL_TURN;
        }
        self.rot = r;
    }

    /// Applies the movement intents for one frame.
    ///
    /// The four intents contribute the local unit vectors `(1,0)`, `(-1,0)`,
    /// `(0,1)` and `(0,-1)` (forward, backward, strafe left, strafe right);
    /// opposite intents cancel. When the sum is zero the position is
    /// unchanged, whatever the step lengths. Otherwise the sum is rotated by
    /// the supplied facing `(c, s)` into world space and scaled by `step`
    /// when it is axis-aligned, or by `diag_step` when it is diagonal, then
    /// added to the position exactly.
    ///
    /// The caller supplies `c` and `s` as its rational approximation of the
    /// cosine and sine of the facing angle, `step` as speed times elapsed
    /// time, and `diag_step` as the same divided by the square root of two
    /// (normalizing the diagonal sum to unit length); the contract is exact
    /// over whatever values are supplied. The facing angle is untouched.
    pub fn advance(
        &mut self,
        forward: bool,
        backward: bool,
        strafe_left: bool,
        strafe_right: bool,
        step: Rat,
        diag_step: Rat,
        c: Rat,
        s: Rat,
    )
        requires
            old(self).wf(),
            -POS_ROOM * old(self).x.den <= old(self).x.num <= POS_ROOM * old(self).x.den,
            -POS_ROOM * old(self).y.den <= old(self).y.num <= POS_ROOM * old(self).y.den,
            rat_wf(step),
            rat_wf(diag_step),
            rat_wf(c),
            rat_wf(s),
            step.den <= STEP_DEN_MAX,
            diag_step.den <= STEP_DEN_MAX,
            c.den <= STEP_DEN_MAX,
            s.den <= STEP_DEN_MAX,
            0 <= step.num <= STEP_MAX * step.den,
            0 <= diag_step.num <= STEP_MAX * diag_step.den,
            -c.den <= c.num <= c.den,
            -s.den <= s.num <= s.den,
            old(self).x.den * (step.den * (c.den * s.den)) <= POS_DEN_MAX,
            old(self).y.den * (step.den * (c.den * s.den)) <= POS_DEN_MAX,
            old(self).x.den * (diag_step.den * (c.den * s.den)) <= POS_DEN_MAX,
            old(self).y.den * (diag_step.den * (c.den * s.den)) <= POS_DEN_MAX,
        ensures
            final(self).wf(),
            final(self).rot == old(self).rot,
            ({
                let fx = intent_fwd(forward, backward);
                let fy = intent_left(strafe_left, strafe_right);
                if fx == 0 && fy == 0 {
                    final(self).x == old(self).x && final(self).y == old(self).y
                } else {
                    let q = if fx != 0 && fy != 0 { qr(diag_step) } else { qr(step) };
                    &&& qr(final(self).x) == q_add(
                        qr(old(self).x),
                        Qr { n: disp_x_n(fx, fy, q, qr(c), qr(s)), d: disp_d(q, qr(c), qr(s)) },
                    )
                    &&& qr(final(self).y) == q_add(
                        qr(old(self).y),
                        Qr { n: disp_y_n(fx, fy, q, qr(c), qr(s)), d: disp_d(q, qr(c), qr(s)) },
                    )
                }
            }),
    {
        let fx: i64 = (if forward { 1i64 } else { 0i64 }) - (if backward { 1i64 } else { 0i64 });
        let fy: i64 = (if strafe_left { 1i64 } else { 0i64 })
            - (if strafe_right { 1i64 } else { 0i64 });
        if fx == 0 && fy == 0 {
            return ;
        }
        let q: Rat = if fx != 0 && fy != 0 { diag_step } else { step };
        proof {
            lemma_step_fits(fx as int, fy as int, *old(self), q, c, s);
        }
        let dd: i64 = q.den * (c.den * s.den);
        let dxn: i64 = q.num * (fx * c.num * s.den - fy * s.num * c.den);
        let dyn_: i64 = q.num * (fx * s.num * c.den + fy * c.num * s.den);
        self.x = Rat { num: self.x.num * dd + dxn * self.x.den, den: self.x.den * dd };
        self.y = Rat { num: self.y.num * dd + dyn_ * self.y.den, den: self.y.den * dd };
        proof {
            lemma_new_coord_wf(
                qr(old(self).x),
                fx as int,
                fy as int,
                qr(q),
                qr(c),
                qr(s),
                disp_x_n(fx as int, fy as int, qr(q), qr(c), qr(s)),
            );
            lemma_new_coord_wf(
                qr(old(self).y),
                fx as int,
                fy as int,
                qr(q),
                qr(c),
                qr(s),
                disp_y_n(fx as int, fy as int, qr(q), qr(c), qr(s)),
            );
        }
    }
}

/// The intermediate products of a movement step fit the machine integers:
/// with the bounds of `advance`, every factor pair is well inside `i64`.
proof fn lemma_step_fits(fx: int, fy: int, p: PlayerPose, q: Rat, c: Rat, s: Rat)
    requires
        -1 <= fx <= 1,
        -1 <= fy <= 1,
        p.wf(),
        -POS_ROOM * p.x.den <= p.x.num <= POS_ROOM * p.x.den,
        -POS_ROOM * p.y.den <= p.y.num <= POS_ROOM * p.y.den,
        rat_wf(q),
        rat_wf(c),
        rat_wf(s),
        q.den <= STEP_DEN_MAX,
        c.den <= STEP_DEN_MAX,
        s.den <= STEP_DEN_MAX,
        0 <= q.num <= STEP_MAX * q.den,
        -c.den <= c.num <= c.den,
        -s.den <= s.num <= s.den,
        p.x.den * (q.den * (c.den * s.den)) <= POS_DEN_MAX,
        p.y.den * (q.den * (c.den * s.den)) <= POS_DEN_MAX,
    ensures
        ({
            let dd = q.den as int * (c.den as int * s.den as int);
            let dxn = disp_x_n(fx, fy, qr(q), qr(c), qr(s));
            let dyn_ = disp_y_n(fx, fy, qr(q), qr(c), qr(s));
            &&& 0 < c.den * s.den <= 256
            &&& 0 < dd <= 4096
            &&& -16 <= fx * c.num <= 16
            &&& -256 <= fx * c.num * s.den <= 256
            &&& -16 <= fy * s.num <= 16
            &&& -256 <= fy * s.num * c.den <= 256
            &&& -16 <= fx * s.num <= 16
            &&& -256 <= fx * s.num * c.den <= 256
            &&& -16 <= fy * c.num <= 16
            &&& -256 <= fy * c.num * s.den <= 256
            &&& 0 <= q.num <= 128
            &&& -524288 <= dxn <= 524288
            &&& -524288 <= dyn_ <= 524288
            &&& -0x1000000000 <= p.x.num * dd <= 0x1000000000
            &&& -0x1000000000 <= p.y.num * dd <= 0x1000000000
            &&& -0x2000000000 <= dxn * p.x.den <= 0x2000000000
            &&& -0x2000000000 <= dyn_ * p.y.den <= 0x2000000000
            &&& 0 < p.x.den * dd <= POS_DEN_MAX
            &&& 0 < p.y.den * dd <= POS_DEN_MAX
        }),
{
    let dd = q.den as int * (c.den as int * s.den as int);
    let dxn = disp_x_n(fx, fy, qr(q), qr(c), qr(s));
    let dyn_ = disp_y_n(fx, fy, qr(q), qr(c), qr(s));
    assert(0 < c.den * s.den <= 256 && 0 < dd <= 4096 && p.x.den * dd <= POS_DEN_MAX
        && p.y.den * dd <= POS_DEN_MAX && 0 < p.x.den * dd && 0 < p.y.den * dd)
        by (nonlinear_arith)
        requires
            0 < q.den <= STEP_DEN_MAX,
            0 < c.den <= STEP_DEN_MAX,
            0 < s.den <= STEP_DEN_MAX,
            0 < p.x.den,
            0 < p.y.den,
            p.x.den * (q.den * (c.den * s.den)) <= POS_DEN_MAX,
            p.y.den * (q.den * (c.den * s.den)) <= POS_DEN_MAX,
            dd == q.den as int * (c.den as int * s.den as int),
            STEP_DEN_MAX == 16,
            POS_DEN_MAX == 65536,
    ;
    assert(-16 <= fx * c.num <= 16 && -256 <= fx * c.num * s.den <= 256 && -16 <= fy * s.num
        <= 16 && -256 <= fy * s.num * c.den <= 256 && -16 <= fx * s.num <= 16 && -256 <= fx
        * s.num * c.den <= 256 && -16 <= fy * c.num <= 16 && -256 <= fy * c.num * s.den <= 256)
        by (nonlinear_arith)
        requires
            -1 <= fx <= 1,
            -1 <= fy <= 1,
            -c.den <= c.num <= c.den,
            -s.den <= s.num <= s.den,
            0 < c.den <= 16,
            0 < s.den <= 16,
    ;
    assert(0 <= q.num <= 128) by (nonlinear_arith)
        requires
            0 <= q.num <= STEP_MAX * q.den,
            0 < q.den <= 16,
            STEP_MAX == 8,
    ;
    assert(-524288 <= dxn <= 524288 && -524288 <= dyn_ <= 524288) by (nonlinear_arith)
        requires
            dxn == q.num * (fx * c.num * s.den - fy * s.num * c.den),
            dyn_ == q.num * (fx * s.num * c.den + fy * c.num * s.den),
            0 <= q.num <= 128,
            -256 <= fx * c.num * s.den <= 256,
            -256 <= fy * s.num * c.den <= 256,
            -256 <= fx * s.num * c.den <= 256,
            -256 <= fy * c.num * s.den <= 256,
    ;
    assert(-0x1000000000 <= p.x.num * dd <= 0x1000000000) by (nonlinear_arith)
        requires
            -48 * p.x.den <= p.x.num <= 48 * p.x.den,
            0 < p.x.den <= 65536,
            0 < dd <= 4096,
    ;
    assert(-0x1000000000 <= p.y.num * dd <= 0x1000000000) by (nonlinear_arith)
        requires
            -48 * p.y.den <= p.y.num <= 48 * p.y.den,
            0 < p.y.den <= 65536,
            0 < dd <= 4096,
    ;
    lemma_mul_bound(dxn, p.x.den as int, 524288, POS_DEN_MAX as int);
    lemma_mul_bound(dyn_, p.y.den as int, 524288, POS_DEN_MAX as int);
}

/// A coordinate moved by one step stays within the world bound, so the
/// updated pose is well formed.
proof fn lemma_new_coord_wf(x: Qr, fx: int, fy: int, q: Qr, c: Qr, s: Qr, dn: int)
    requires
        -1 <= fx <= 1,
        -1 <= fy <= 1,
        x.d > 0,
        -POS_ROOM * x.d <= x.n <= POS_ROOM * x.d,
        q.d > 0,
        c.d > 0,
        s.d > 0,
        0 <= q.n <= STEP_MAX * q.d,
        -c.d <= c.n <= c.d,
        -s.d <= s.n <= s.d,
        dn == q.n * (fx * c.n * s.d - fy * s.n * c.d) || dn == q.n * (fx * s.n * c.d + fy * c.n
            * s.d),
    ensures
        ({
            let dd = q.d * (c.d * s.d);
            let nn = x.n * dd + dn * x.d;
            let nd = x.d * dd;
            -POS_MAX * nd <= nn <= POS_MAX * nd
        }),
{
    let dd = q.d * (c.d * s.d);
    assert(0 < dd) by (nonlinear_arith)
        requires
            0 < q.d,
            0 < c.d,
            0 < s.d,
            dd == q.d * (c.d * s.d),
    ;
    assert(-(2 * (c.d * s.d)) <= fx * c.n * s.d - fy * s.n * c.d <= 2 * (c.d * s.d)
        && -(2 * (c.d * s.d)) <= fx * s.n * c.d + fy * c.n * s.d <= 2 * (c.d * s.d))
        by (nonlinear_arith)
        requires
            -1 <= fx <= 1,
            -1 <= fy <= 1,
            -c.d <= c.n <= c.d,
            -s.d <= s.n <= s.d,
            0 < c.d,
            0 < s.d,
    ;
    assert(-(16 * dd) <= dn <= 16 * dd) by (nonlinear_arith)
        requires
            dn == q.n * (fx * c.n * s.d - fy * s.n * c.d) || dn == q.n * (fx * s.n * c.d + fy
                * c.n * s.d),
            -(2 * (c.d * s.d)) <= fx * c.n * s.d - fy * s.n * c.d <= 2 * (c.d * s.d),
            -(2 * (c.d * s.d)) <= fx * s.n * c.d + fy * c.n * s.d <= 2 * (c.d * s.d),
            0 <= q.n <= STEP_MAX * q.d,
            0 < q.d,
            0 < c.d,
            0 < s.d,
            dd == q.d * (c.d * s.d),
            STEP_MAX == 8,
    ;
    assert(({
        let nn = x.n * dd + dn * x.d;
        let nd = x.d * dd;
        -POS_MAX * nd <= nn <= POS_MAX * nd
    })) by (nonlinear_arith)
        requires
            -POS_ROOM * x.d <= x.n <= POS_ROOM * x.d,
            -(16 * dd) <= dn <= 16 * dd,
            0 < x.d,
            0 < dd,
            POS_ROOM == 48,
            POS_MAX == 64,
    ;
}

} // verus!
