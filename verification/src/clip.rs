//! Liang–Barsky clipping of a line segment against an axis-aligned rectangle,
//! carried out in exact rational arithmetic.
//!
//! A segment from `(x0, y0)` to `(x1, y1)` is the set of points
//! `(x0 + t * dx, y0 + t * dy)` with `0 <= t <= 1`. Each side of the
//! rectangle admits the parameters `t` with `p * t <= q`, where `p` is the
//! component of the direction across that side and `q` the distance from the
//! start point to it. The visible part of the segment is the range of
//! parameters that all four sides admit.

use vstd::prelude::*;
use crate::rounding::{
    lemma_round_half_away_between, lemma_round_half_away_exact, round_div_signed,
    round_half_away,
};

verus! {

/// A segment parameter as an exact fraction `num / den`.
pub struct Fraction {
    pub num: int,
    pub den: int,
}

impl Fraction {
    /// `self < other`, for positive denominators.
    pub open spec fn lt(self, other: Fraction) -> bool {
        self.num * other.den < other.num * self.den
    }

    /// `self <= other`, for positive denominators.
    pub open spec fn le(self, other: Fraction) -> bool {
        self.num * other.den <= other.num * self.den
    }

    /// The fraction lies in the unit range `0 ..= 1`.
    pub open spec fn in_unit_range(self) -> bool {
        self.den > 0 && 0 <= self.num <= self.den
    }
}

/// The sub-range of parameters still visible: from `enter` to `leave`.
pub struct Window {
    pub enter: Fraction,
    pub leave: Fraction,
}

impl Window {
    /// The whole segment: parameters `0 ..= 1`.
    pub open spec fn whole() -> Window {
        Window { enter: Fraction { num: 0, den: 1 }, leave: Fraction { num: 1, den: 1 } }
    }

    /// Both ends lie in the unit range, and `enter` does not pass `leave`.
    pub open spec fn wf(self) -> bool {
        &&& self.enter.in_unit_range()
        &&& self.leave.in_unit_range()
        &&& self.enter.le(self.leave)
    }
}

/// The side with coefficients `p`, `q` admits the parameter `t`: `p * t <= q`.
pub open spec fn admits(p: int, q: int, t: Fraction) -> bool {
    p * t.num <= q * t.den
}

/// Cuts the window down to the parameters that the side `p * t <= q` admits;
/// `None` when no parameter of the window is left.
///
/// A segment parallel to the side (`p == 0`) is either wholly admitted or
/// wholly refused. Otherwise the side is crossed at `r = q / p`: going inward
/// when `p < 0`, which may raise `enter`, and outward when `p > 0`, which may
/// lower `leave`.
pub open spec fn narrow(w: Window, p: int, q: int) -> Option<Window> {
    if p == 0 {
        if q < 0 {
            None
        } else {
            Some(w)
        }
    } else if p < 0 {
        let r = Fraction { num: -q, den: -p };
        if w.leave.lt(r) {
            None
        } else if w.enter.lt(r) {
            Some(Window { enter: r, leave: w.leave })
        } else {
            Some(w)
        }
    } else {
        let r = Fraction { num: q, den: p };
        if r.lt(w.enter) {
            None
        } else if r.lt(w.leave) {
            Some(Window { enter: w.enter, leave: r })
        } else {
            Some(w)
        }
    }
}

/// `narrow` on a window that may already be empty.
pub open spec fn narrow_further(w: Option<Window>, p: int, q: int) -> Option<Window> {
    match w {
        None => None,
        Some(w) => narrow(w, p, q),
    }
}

/// The visible parameter range of `line` inside `area`, cut by the left,
/// right, bottom and top side in turn. `area` is `(left, right, bottom, top)`,
/// `line` is `(x0, y0, x1, y1)`.
pub open spec fn visible_window(area: (i32, i32, i32, i32), line: (i32, i32, i32, i32)) -> Option<
    Window,
> {
    let dx = line.2 - line.0;
    let dy = line.3 - line.1;
    let past_left = narrow(Window::whole(), -dx, line.0 - area.0);
    let past_right = narrow_further(past_left, dx, area.1 - line.0);
    let past_bottom = narrow_further(past_right, -dy, line.1 - area.2);
    narrow_further(past_bottom, dy, area.3 - line.1)
}

/// The coordinate `start + t * delta`, rounded to the nearest integer.
pub open spec fn coordinate_at(start: int, delta: int, t: Fraction) -> int {
    round_half_away(start * t.den + t.num * delta, t.den)
}

/// The part of `line` that lies inside `area`, with its end points rounded to
/// integers; `None` when no point of the segment lies inside.
pub open spec fn clipped_line(area: (i32, i32, i32, i32), line: (i32, i32, i32, i32)) -> Option<
    (int, int, int, int),
> {
    let dx = line.2 - line.0;
    let dy = line.3 - line.1;
    match visible_window(area, line) {
        None => None,
        Some(w) => Some(
            (
                coordinate_at(line.0 as int, dx, w.enter),
                coordinate_at(line.1 as int, dy, w.enter),
                coordinate_at(line.0 as int, dx, w.leave),
                coordinate_at(line.1 as int, dy, w.leave),
            ),
        ),
    }
}

/// The point `(x, y)` lies in `area`, its border included.
pub open spec fn inside(area: (i32, i32, i32, i32), x: int, y: int) -> bool {
    area.0 <= x <= area.1 && area.2 <= y <= area.3
}

/// Both end points of `line` lie strictly beyond one and the same side of
/// `area`.
pub open spec fn beyond_one_side(area: (i32, i32, i32, i32), line: (i32, i32, i32, i32)) -> bool {
    ||| line.0 < area.0 && line.2 < area.0
    ||| line.0 > area.1 && line.2 > area.1
    ||| line.1 < area.2 && line.3 < area.2
    ||| line.1 > area.3 && line.3 > area.3
}

/// A fraction between two fractions that a side admits is admitted too.
proof fn lemma_admits_between(p: int, q: int, lo: Fraction, t: Fraction, hi: Fraction)
    requires
        lo.den > 0,
        t.den > 0,
        hi.den > 0,
        lo.le(t),
        t.le(hi),
        admits(p, q, lo),
        admits(p, q, hi),
    ensures
        admits(p, q, t),
{
    if p >= 0 {
        assert(p * t.num <= q * t.den) by (nonlinear_arith)
            requires
                p >= 0,
                t.den > 0,
                hi.den > 0,
                t.num * hi.den <= hi.num * t.den,
                p * hi.num <= q * hi.den,
        {
            assert(p * (t.num * hi.den) <= p * (hi.num * t.den));
            assert((p * hi.num) * t.den <= (q * hi.den) * t.den);
            assert((p * t.num) * hi.den <= (q * t.den) * hi.den);
        }
    } else {
        assert(p * t.num <= q * t.den) by (nonlinear_arith)
            requires
                p < 0,
                t.den > 0,
                lo.den > 0,
                lo.num * t.den <= t.num * lo.den,
                p * lo.num <= q * lo.den,
        {
            assert(p * (t.num * lo.den) <= p * (lo.num * t.den));
            assert((p * lo.num) * t.den <= (q * lo.den) * t.den);
            assert((p * t.num) * lo.den <= (q * t.den) * lo.den);
        }
    }
}

/// A fraction between two fractions of the unit range lies in the unit range.
proof fn lemma_unit_range_between(lo: Fraction, t: Fraction, hi: Fraction)
    requires
        lo.in_unit_range(),
        hi.in_unit_range(),
        t.den > 0,
        lo.le(t),
        t.le(hi),
    ensures
        t.in_unit_range(),
{
    assert(t.num >= 0) by (nonlinear_arith)
        requires
            lo.den > 0,
            t.den > 0,
            lo.num >= 0,
            lo.num * t.den <= t.num * lo.den,
    ;
    assert(t.num <= t.den) by (nonlinear_arith)
        requires
            hi.den > 0,
            t.den > 0,
            hi.num <= hi.den,
            t.num * hi.den <= hi.num * t.den,
    {
        assert(hi.num * t.den <= hi.den * t.den);
    }
}

/// What `narrow` leaves is a well-formed window inside the one it was given,
/// and the side admits both of its ends.
pub proof fn lemma_narrow_sound(w: Window, p: int, q: int)
    requires
        w.wf(),
        narrow(w, p, q) is Some,
    ensures
        narrow(w, p, q).unwrap().wf(),
        w.enter.le(narrow(w, p, q).unwrap().enter),
        narrow(w, p, q).unwrap().leave.le(w.leave),
        narrow(w, p, q).unwrap().enter.le(w.leave),
        w.enter.le(narrow(w, p, q).unwrap().leave),
        admits(p, q, narrow(w, p, q).unwrap().enter),
        admits(p, q, narrow(w, p, q).unwrap().leave),
{
    assert(w.enter.le(w.enter) && w.leave.le(w.leave)) by (nonlinear_arith);
    if p == 0 {
        assert(admits(p, q, w.enter) && admits(p, q, w.leave)) by (nonlinear_arith)
            requires
                p == 0,
                q >= 0,
                w.enter.den > 0,
                w.leave.den > 0,
        ;
    } else if p < 0 {
        let r = Fraction { num: -q, den: -p };
        assert(r.le(r)) by (nonlinear_arith);
        assert forall|t: Fraction| #[trigger] admits(p, q, t) <==> r.le(t) by {
            assert(p * t.num <= q * t.den <==> (-q) * t.den <= t.num * (-p)) by (nonlinear_arith);
        }
        assert(!w.leave.lt(r));
        assert(r.le(w.leave));
        if w.enter.lt(r) {
            lemma_unit_range_between(w.enter, r, w.leave);
        }
    } else {
        let r = Fraction { num: q, den: p };
        assert(r.le(r)) by (nonlinear_arith);
        assert forall|t: Fraction| #[trigger] admits(p, q, t) <==> t.le(r) by {
            assert(p * t.num <= q * t.den <==> t.num * p <= q * t.den) by (nonlinear_arith);
        }
        assert(!r.lt(w.enter));
        assert(w.enter.le(r));
        if r.lt(w.leave) {
            lemma_unit_range_between(w.enter, r, w.leave);
        }
    }
}

/// A side that admitted both ends of a window admits both ends of every
/// window that `narrow` cuts from it.
pub proof fn lemma_narrow_keeps(w: Window, p: int, q: int, p_before: int, q_before: int)
    requires
        w.wf(),
        narrow(w, p, q) is Some,
        admits(p_before, q_before, w.enter),
        admits(p_before, q_before, w.leave),
    ensures
        admits(p_before, q_before, narrow(w, p, q).unwrap().enter),
        admits(p_before, q_before, narrow(w, p, q).unwrap().leave),
{
    let v = narrow(w, p, q).unwrap();
    lemma_narrow_sound(w, p, q);
    lemma_admits_between(p_before, q_before, w.enter, v.enter, w.leave);
    lemma_admits_between(p_before, q_before, w.enter, v.leave, w.leave);
}

/// A rounded coordinate stays on the side of a border that the unrounded one
/// is on: where the sides at `lo` and `hi` admit `t`, the coordinate at `t`
/// lies in `lo ..= hi`.
proof fn lemma_coordinate_within(start: int, delta: int, t: Fraction, lo: int, hi: int)
    requires
        t.den > 0,
        admits(-delta, start - lo, t),
        admits(delta, hi - start, t),
    ensures
        lo <= coordinate_at(start, delta, t) <= hi,
{
    let num: int = start * t.den + t.num * delta;
    assert(lo * t.den <= num <= hi * t.den) by (nonlinear_arith)
        requires
            num == start * t.den + t.num * delta,
            (-delta) * t.num <= (start - lo) * t.den,
            delta * t.num <= (hi - start) * t.den,
    ;
    lemma_round_half_away_between(num, t.den, lo, hi);
}

/// What is left of a clipped line lies inside the rectangle, border
/// included.
pub proof fn lemma_clipped_line_inside(area: (i32, i32, i32, i32), line: (i32, i32, i32, i32))
    requires
        clipped_line(area, line) is Some,
    ensures
        visible_window(area, line).unwrap().wf(),
        ({
            let c = clipped_line(area, line).unwrap();
            &&& inside(area, c.0, c.1)
            &&& inside(area, c.2, c.3)
            &&& i32::MIN <= c.0 <= i32::MAX
            &&& i32::MIN <= c.1 <= i32::MAX
            &&& i32::MIN <= c.2 <= i32::MAX
            &&& i32::MIN <= c.3 <= i32::MAX
        }),
{
    let dx: int = line.2 - line.0;
    let dy: int = line.3 - line.1;
    let (pl, ql): (int, int) = (-dx, line.0 - area.0);
    let (pr, qr): (int, int) = (dx, area.1 - line.0);
    let (pb, qb): (int, int) = (-dy, line.1 - area.2);
    let (pt, qt): (int, int) = (dy, area.3 - line.1);
    let w0 = Window::whole();
    let w1 = narrow(w0, pl, ql).unwrap();
    let w2 = narrow(w1, pr, qr).unwrap();
    let w3 = narrow(w2, pb, qb).unwrap();
    let w4 = narrow(w3, pt, qt).unwrap();
    lemma_narrow_sound(w0, pl, ql);
    lemma_narrow_sound(w1, pr, qr);
    lemma_narrow_keeps(w1, pr, qr, pl, ql);
    lemma_narrow_sound(w2, pb, qb);
    lemma_narrow_keeps(w2, pb, qb, pl, ql);
    lemma_narrow_keeps(w2, pb, qb, pr, qr);
    lemma_narrow_sound(w3, pt, qt);
    lemma_narrow_keeps(w3, pt, qt, pl, ql);
    lemma_narrow_keeps(w3, pt, qt, pr, qr);
    lemma_narrow_keeps(w3, pt, qt, pb, qb);
    assert(visible_window(area, line) == Some(w4));
    lemma_coordinate_within(line.0 as int, dx, w4.enter, area.0 as int, area.1 as int);
    lemma_coordinate_within(line.1 as int, dy, w4.enter, area.2 as int, area.3 as int);
    lemma_coordinate_within(line.0 as int, dx, w4.leave, area.0 as int, area.1 as int);
    lemma_coordinate_within(line.1 as int, dy, w4.leave, area.2 as int, area.3 as int);
}

/// Clipping leaves a line alone whose two end points lie inside the
/// rectangle: it comes back with the same end points.
pub proof fn lemma_clip_keeps_inner_line(area: (i32, i32, i32, i32), line: (i32, i32, i32, i32))
    requires
        inside(area, line.0 as int, line.1 as int),
        inside(area, line.2 as int, line.3 as int),
    ensures
        visible_window(area, line) == Some(Window::whole()),
        clipped_line(area, line) == Some(
            (line.0 as int, line.1 as int, line.2 as int, line.3 as int),
        ),
{
    let dx: int = line.2 - line.0;
    let dy: int = line.3 - line.1;
    let w0 = Window::whole();
    assert(narrow(w0, -dx, line.0 - area.0) == Some(w0));
    assert(narrow(w0, dx, area.1 - line.0) == Some(w0));
    assert(narrow(w0, -dy, line.1 - area.2) == Some(w0));
    assert(narrow(w0, dy, area.3 - line.1) == Some(w0));
    lemma_round_half_away_exact(line.0 as int, 1);
    lemma_round_half_away_exact(line.1 as int, 1);
    lemma_round_half_away_exact(line.2 as int, 1);
    lemma_round_half_away_exact(line.3 as int, 1);
}

/// Clipping is idempotent: what is left of a clipped line is left alone when
/// it is clipped again.
pub proof fn lemma_clip_idempotent(area: (i32, i32, i32, i32), line: (i32, i32, i32, i32))
    requires
        clipped_line(area, line) is Some,
    ensures
        ({
            let c = clipped_line(area, line).unwrap();
            clipped_line(area, (c.0 as i32, c.1 as i32, c.2 as i32, c.3 as i32)) == Some(c)
        }),
{
    let c = clipped_line(area, line).unwrap();
    lemma_clipped_line_inside(area, line);
    lemma_clip_keeps_inner_line(area, (c.0 as i32, c.1 as i32, c.2 as i32, c.3 as i32));
}

/// No parameter of a well-formed window is admitted by a side that refuses
/// both end points of the segment: the start (`q < 0`) and the end (`q < p`).
proof fn lemma_narrow_refuses(w: Window, p: int, q: int)
    requires
        w.wf(),
        q < 0,
        q < p,
    ensures
        narrow(w, p, q) is None,
{
    if p < 0 {
        let r = Fraction { num: -q, den: -p };
        assert(w.leave.lt(r)) by (nonlinear_arith)
            requires
                w.leave.den > 0,
                0 <= w.leave.num <= w.leave.den,
                0 < -p < -q,
                r.num == -q,
                r.den == -p,
        {
            assert(w.leave.num * (-p) <= w.leave.den * (-p));
            assert(w.leave.den * (-p) < w.leave.den * (-q));
        }
    } else if p > 0 {
        let r = Fraction { num: q, den: p };
        assert(r.lt(w.enter)) by (nonlinear_arith)
            requires
                w.enter.den > 0,
                0 <= w.enter.num,
                q < 0,
                p > 0,
                r.num == q,
                r.den == p,
        {
            assert(q * w.enter.den < 0);
            assert(w.enter.num * p >= 0);
        }
    }
}

/// Clipping rejects a line whose two end points lie beyond one and the same
/// side of the rectangle, whichever side it is.
pub proof fn lemma_clip_rejects_outer_line(area: (i32, i32, i32, i32), line: (i32, i32, i32, i32))
    requires
        beyond_one_side(area, line),
    ensures
        visible_window(area, line) is None,
        clipped_line(area, line) is None,
{
    let dx: int = line.2 - line.0;
    let dy: int = line.3 - line.1;
    let w0 = Window::whole();
    let past_left = narrow(w0, -dx, line.0 - area.0);
    let past_right = narrow_further(past_left, dx, area.1 - line.0);
    let past_bottom = narrow_further(past_right, -dy, line.1 - area.2);
    if line.0 < area.0 && line.2 < area.0 {
        lemma_narrow_refuses(w0, -dx, line.0 - area.0);
    } else if past_left is Some {
        lemma_narrow_sound(w0, -dx, line.0 - area.0);
        if line.0 > area.1 && line.2 > area.1 {
            lemma_narrow_refuses(past_left.unwrap(), dx, area.1 - line.0);
        } else if past_right is Some {
            lemma_narrow_sound(past_left.unwrap(), dx, area.1 - line.0);
            if line.1 < area.2 && line.3 < area.2 {
                lemma_narrow_refuses(past_right.unwrap(), -dy, line.1 - area.2);
            } else if past_bottom is Some {
                lemma_narrow_sound(past_right.unwrap(), -dy, line.1 - area.2);
                lemma_narrow_refuses(past_bottom.unwrap(), dy, area.3 - line.1);
            }
        }
    }
}

/// The order of fractions is transitive.
proof fn lemma_le_transitive(a: Fraction, b: Fraction, c: Fraction)
    requires
        a.den > 0,
        b.den > 0,
        c.den > 0,
        a.le(b),
        b.le(c),
    ensures
        a.le(c),
{
    assert(a.num * c.den <= c.num * a.den) by (nonlinear_arith)
        requires
            a.den > 0,
            b.den > 0,
            c.den > 0,
            a.num * b.den <= b.num * a.den,
            b.num * c.den <= c.num * b.den,
    {
        assert((a.num * b.den) * c.den <= (b.num * a.den) * c.den);
        assert((b.num * c.den) * a.den <= (c.num * b.den) * a.den);
        assert((a.num * c.den) * b.den <= (c.num * a.den) * b.den);
    }
}

/// `narrow` takes nothing away that the side admits: a parameter of the
/// window that the side admits is a parameter of the window that is left.
pub proof fn lemma_narrow_complete(w: Window, p: int, q: int, t: Fraction)
    requires
        w.wf(),
        t.den > 0,
        w.enter.le(t),
        t.le(w.leave),
        admits(p, q, t),
    ensures
        narrow(w, p, q) is Some,
        narrow(w, p, q).unwrap().enter.le(t),
        t.le(narrow(w, p, q).unwrap().leave),
{
    if p == 0 {
        assert(q >= 0) by (nonlinear_arith)
            requires
                p == 0,
                t.den > 0,
                p * t.num <= q * t.den,
        ;
    } else if p < 0 {
        let r = Fraction { num: -q, den: -p };
        assert(r.le(t)) by (nonlinear_arith)
            requires
                p * t.num <= q * t.den,
                r.num == -q,
                r.den == -p,
        ;
        lemma_le_transitive(r, t, w.leave);
    } else {
        let r = Fraction { num: q, den: p };
        assert(t.le(r)) by (nonlinear_arith)
            requires
                p * t.num <= q * t.den,
                r.num == q,
                r.den == p,
        ;
        lemma_le_transitive(w.enter, t, r);
    }
}

/// The point of `line` at the parameter `t` lies inside `area`: `t` is a
/// parameter of the segment, and all four sides of the rectangle admit it.
pub open spec fn visible_at(
    area: (i32, i32, i32, i32),
    line: (i32, i32, i32, i32),
    t: Fraction,
) -> bool {
    let dx = line.2 - line.0;
    let dy = line.3 - line.1;
    &&& t.in_unit_range()
    &&& admits(-dx, line.0 - area.0, t)
    &&& admits(dx, area.1 - line.0, t)
    &&& admits(-dy, line.1 - area.2, t)
    &&& admits(dy, area.3 - line.1, t)
}

/// The visible window is the range of the parameters at which the line lies
/// inside the rectangle, no more and no less. A line is rejected when it has
/// no such parameter.
pub proof fn lemma_window_is_the_visible_range(
    area: (i32, i32, i32, i32),
    line: (i32, i32, i32, i32),
    t: Fraction,
)
    requires
        t.den > 0,
    ensures
        visible_at(area, line, t) <==> (visible_window(area, line) matches Some(w) && w.enter.le(t)
            && t.le(w.leave)),
{
    let dx: int = line.2 - line.0;
    let dy: int = line.3 - line.1;
    let (pl, ql): (int, int) = (-dx, line.0 - area.0);
    let (pr, qr): (int, int) = (dx, area.1 - line.0);
    let (pb, qb): (int, int) = (-dy, line.1 - area.2);
    let (pt, qt): (int, int) = (dy, area.3 - line.1);
    let w0 = Window::whole();
    if visible_at(area, line, t) {
        assert(w0.enter.le(t) && t.le(w0.leave));
        lemma_narrow_complete(w0, pl, ql, t);
        let w1 = narrow(w0, pl, ql).unwrap();
        lemma_narrow_sound(w0, pl, ql);
        lemma_narrow_complete(w1, pr, qr, t);
        let w2 = narrow(w1, pr, qr).unwrap();
        lemma_narrow_sound(w1, pr, qr);
        lemma_narrow_complete(w2, pb, qb, t);
        let w3 = narrow(w2, pb, qb).unwrap();
        lemma_narrow_sound(w2, pb, qb);
        lemma_narrow_complete(w3, pt, qt, t);
    }
    if visible_window(area, line) is Some {
        let w1 = narrow(w0, pl, ql).unwrap();
        let w2 = narrow(w1, pr, qr).unwrap();
        let w3 = narrow(w2, pb, qb).unwrap();
        let w4 = narrow(w3, pt, qt).unwrap();
        lemma_narrow_sound(w0, pl, ql);
        lemma_narrow_sound(w1, pr, qr);
        lemma_narrow_keeps(w1, pr, qr, pl, ql);
        lemma_narrow_sound(w2, pb, qb);
        lemma_narrow_keeps(w2, pb, qb, pl, ql);
        lemma_narrow_keeps(w2, pb, qb, pr, qr);
        lemma_narrow_sound(w3, pt, qt);
        lemma_narrow_keeps(w3, pt, qt, pl, ql);
        lemma_narrow_keeps(w3, pt, qt, pr, qr);
        lemma_narrow_keeps(w3, pt, qt, pb, qb);
        if w4.enter.le(t) && t.le(w4.leave) {
            lemma_unit_range_between(w4.enter, t, w4.leave);
            lemma_admits_between(pl, ql, w4.enter, t, w4.leave);
            lemma_admits_between(pr, qr, w4.enter, t, w4.leave);
            lemma_admits_between(pb, qb, w4.enter, t, w4.leave);
            lemma_admits_between(pt, qt, w4.enter, t, w4.leave);
        }
    }
}

/// The largest magnitude of a difference of two `i32` values, and with it of
/// every numerator and denominator that clipping works with.
pub const SPAN: i64 = 0x1_0000_0000;

/// The visible parameter range while it is being computed: two fractions of
/// machine integers.
struct Range {
    enter_num: i64,
    enter_den: i64,
    leave_num: i64,
    leave_den: i64,
}

impl View for Range {
    type V = Window;

    closed spec fn view(&self) -> Window {
        Window {
            enter: Fraction { num: self.enter_num as int, den: self.enter_den as int },
            leave: Fraction { num: self.leave_num as int, den: self.leave_den as int },
        }
    }
}

impl Range {
    /// Every part is small enough for products of two of them to fit.
    spec fn bounded(&self) -> bool {
        &&& -SPAN <= self.enter_num <= SPAN
        &&& 0 < self.enter_den <= SPAN
        &&& -SPAN <= self.leave_num <= SPAN
        &&& 0 < self.leave_den <= SPAN
    }
}

/// The product of two integers of magnitude up to `SPAN`.
fn product(a: i64, b: i64) -> (r: i128)
    requires
        -SPAN <= a <= SPAN,
        -SPAN <= b <= SPAN,
    ensures
        r == a * b,
        -SPAN * SPAN <= r <= SPAN * SPAN,
{
    assert(-0x1_0000_0000 * 0x1_0000_0000 <= a * b <= 0x1_0000_0000 * 0x1_0000_0000)
        by (nonlinear_arith)
        requires
            -0x1_0000_0000 <= a <= 0x1_0000_0000,
            -0x1_0000_0000 <= b <= 0x1_0000_0000,
    ;
    (a as i128) * (b as i128)
}

/// Whether `a_num / a_den < b_num / b_den`.
fn less(a_num: i64, a_den: i64, b_num: i64, b_den: i64) -> (r: bool)
    requires
        -SPAN <= a_num <= SPAN,
        -SPAN <= a_den <= SPAN,
        -SPAN <= b_num <= SPAN,
        -SPAN <= b_den <= SPAN,
    ensures
        r == (Fraction { num: a_num as int, den: a_den as int }).lt(
            Fraction { num: b_num as int, den: b_den as int },
        ),
{
    product(a_num, b_den) < product(b_num, a_den)
}

/// Cuts the range down by one side of the rectangle.
fn narrow_range(w: Range, p: i64, q: i64) -> (r: Option<Range>)
    requires
        w.bounded(),
        -SPAN <= p <= SPAN,
        -SPAN <= q <= SPAN,
    ensures
        r is Some <==> narrow(w@, p as int, q as int) is Some,
        r matches Some(v) ==> v.bounded() && narrow(w@, p as int, q as int) == Some(v@),
{
    if p == 0 {
        if q < 0 {
            None
        } else {
            Some(w)
        }
    } else if p < 0 {
        if less(w.leave_num, w.leave_den, -q, -p) {
            None
        } else if less(w.enter_num, w.enter_den, -q, -p) {
            Some(
                Range {
                    enter_num: -q,
                    enter_den: -p,
                    leave_num: w.leave_num,
                    leave_den: w.leave_den,
                },
            )
        } else {
            Some(w)
        }
    } else {
        if less(q, p, w.enter_num, w.enter_den) {
            None
        } else if less(q, p, w.leave_num, w.leave_den) {
            Some(
                Range {
                    enter_num: w.enter_num,
                    enter_den: w.enter_den,
                    leave_num: q,
                    leave_den: p,
                },
            )
        } else {
            Some(w)
        }
    }
}

/// The coordinate `start + t * delta` at `t = num / den`, rounded.
fn coordinate(start: i32, delta: i64, num: i64, den: i64) -> (r: i128)
    requires
        -SPAN <= delta <= SPAN,
        -SPAN <= num <= SPAN,
        0 < den <= SPAN,
    ensures
        r == coordinate_at(
            start as int,
            delta as int,
            Fraction { num: num as int, den: den as int },
        ),
{
    let along: i128 = product(start as i64, den) + product(num, delta);
    round_div_signed(along, den as i128)
}

/// Clips the segment `line_coordinates`, given as `(x0, y0, x1, y1)`, to the
/// rectangle `clipping_area`, given as `(left, right, bottom, top)`.
///
/// Returns the part of the segment inside the rectangle, its end points
/// rounded to integers, or `None` when no point of the segment lies inside.
pub fn clip_line_liang_barsky(
    clipping_area: (i32, i32, i32, i32),
    line_coordinates: (i32, i32, i32, i32),
) -> (clipped: Option<(i32, i32, i32, i32)>)
    ensures
        clipped is Some <==> clipped_line(clipping_area, line_coordinates) is Some,
        clipped matches Some(c) ==> clipped_line(clipping_area, line_coordinates) == Some(
            (c.0 as int, c.1 as int, c.2 as int, c.3 as int),
        ),
        clipped matches Some(c) ==> inside(clipping_area, c.0 as int, c.1 as int) && inside(
            clipping_area,
            c.2 as int,
            c.3 as int,
        ),
        inside(clipping_area, line_coordinates.0 as int, line_coordinates.1 as int) && inside(
            clipping_area,
            line_coordinates.2 as int,
            line_coordinates.3 as int,
        ) ==> clipped == Some(line_coordinates),
        beyond_one_side(clipping_area, line_coordinates) ==> clipped is None,
{
    let (edge_left, edge_right, edge_bottom, edge_top) = clipping_area;
    let (x0, y0, x1, y1) = line_coordinates;
    let dx: i64 = x1 as i64 - x0 as i64;
    let dy: i64 = y1 as i64 - y0 as i64;
    proof {
        if clipped_line(clipping_area, line_coordinates) is Some {
            lemma_clipped_line_inside(clipping_area, line_coordinates);
        }
        if inside(clipping_area, x0 as int, y0 as int) && inside(
            clipping_area,
            x1 as int,
            y1 as int,
        ) {
            lemma_clip_keeps_inner_line(clipping_area, line_coordinates);
        }
        if beyond_one_side(clipping_area, line_coordinates) {
            lemma_clip_rejects_outer_line(clipping_area, line_coordinates);
        }
    }
    let whole = Range { enter_num: 0, enter_den: 1, leave_num: 1, leave_den: 1 };
    let past_left = match narrow_range(whole, -dx, x0 as i64 - edge_left as i64) {
        Some(w) => w,
        None => { return None; },
    };
    let past_right = match narrow_range(past_left, dx, edge_right as i64 - x0 as i64) {
        Some(w) => w,
        None => { return None; },
    };
    let past_bottom = match narrow_range(past_right, -dy, y0 as i64 - edge_bottom as i64) {
        Some(w) => w,
        None => { return None; },
    };
    let visible = match narrow_range(past_bottom, dy, edge_top as i64 - y0 as i64) {
        Some(w) => w,
        None => { return None; },
    };
    let x0_clip: i128 = coordinate(x0, dx, visible.enter_num, visible.enter_den);
    let y0_clip: i128 = coordinate(y0, dy, visible.enter_num, visible.enter_den);
    let x1_clip: i128 = coordinate(x0, dx, visible.leave_num, visible.leave_den);
    let y1_clip: i128 = coordinate(y0, dy, visible.leave_num, visible.leave_den);
    Some((x0_clip as i32, y0_clip as i32, x1_clip as i32, y1_clip as i32))
}

} // verus!
