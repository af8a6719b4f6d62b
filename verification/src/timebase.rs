//! Time bases and the conversion of timestamps between them.

use vstd::prelude::*;

verus! {

/// A fraction, such as the length of a tick in seconds.
#[derive(Debug, Clone, Copy, PartialEq, Eq, Structural)]
pub struct Rational(pub i32, pub i32);

impl Rational {
    /// The fraction `numerator / denominator`, as it is written.
    pub fn new(numerator: i32, denominator: i32) -> (r: Self)
        ensures
            r == Rational(numerator, denominator),
    {
        Rational(numerator, denominator)
    }

    pub fn numerator(&self) -> (n: i32)
        ensures
            n == self.0,
    {
        self.0
    }

    pub fn denominator(&self) -> (d: i32)
        ensures
            d == self.1,
    {
        self.1
    }
}

/// The value that stands for a timestamp that cannot be expressed.
pub const NO_TIMESTAMP: i64 = i64::MIN;

/// `amount * factor / divisor`, to the nearest integer, halves upwards.
pub open spec fn scaled(amount: int, factor: int, divisor: int) -> int {
    (amount * factor + divisor / 2) / divisor
}

/// A timestamp in ticks of `from`, expressed in ticks of `to`: to the nearest integer,
/// halves away from zero. Where a time base is not positive, or the result does not fit,
/// there is no such timestamp.
pub open spec fn rescaled(ts: int, from: Rational, to: Rational) -> int {
    let factor = from.0 * to.1;
    let divisor = to.0 * from.1;
    let magnitude = scaled(if ts == i64::MIN {
        i64::MAX as int
    } else if ts < 0 {
        -ts
    } else {
        ts
    }, factor, divisor);
    if divisor <= 0 || factor < 0 || magnitude > i64::MAX {
        NO_TIMESTAMP as int
    } else if ts < 0 {
        -magnitude
    } else {
        magnitude
    }
}

/// Converts a timestamp from one time base to another.
pub fn rescale_ts(ts: i64, from: Rational, to: Rational) -> (out: i64)
    ensures
        out == rescaled(ts as int, from, to),
{
    let factor: i128 = {
        assert(-0x4000_0000_0000_0000 <= from.0 * to.1 <= 0x4000_0000_0000_0000)
            by (nonlinear_arith)
            requires
                i32::MIN <= from.0 <= i32::MAX,
                i32::MIN <= to.1 <= i32::MAX,
        ;
        from.0 as i128 * to.1 as i128
    };
    let divisor: i128 = {
        assert(-0x4000_0000_0000_0000 <= to.0 * from.1 <= 0x4000_0000_0000_0000)
            by (nonlinear_arith)
            requires
                i32::MIN <= to.0 <= i32::MAX,
                i32::MIN <= from.1 <= i32::MAX,
        ;
        to.0 as i128 * from.1 as i128
    };
    if divisor <= 0 || factor < 0 {
        return NO_TIMESTAMP;
    }
    let amount: i128 = if ts == i64::MIN {
        i64::MAX as i128
    } else if ts < 0 {
        -(ts as i128)
    } else {
        ts as i128
    };
    assert(0 <= amount * factor <= 0x8000_0000_0000_0000 * 0x4000_0000_0000_0000)
        by (nonlinear_arith)
        requires
            0 <= amount <= 0x8000_0000_0000_0000,
            0 <= factor <= 0x4000_0000_0000_0000,
    ;
    let total: i128 = amount * factor + divisor / 2;
    let magnitude: i128 = total / divisor;
    assert(magnitude == scaled(amount as int, factor as int, divisor as int));
    assert(0 <= magnitude) by (nonlinear_arith)
        requires
            magnitude == total as int / divisor as int,
            total >= 0,
            divisor > 0,
    ;
    if magnitude > i64::MAX as i128 {
        NO_TIMESTAMP
    } else if ts < 0 {
        -(magnitude as i64)
    } else {
        magnitude as i64
    }
}

/// Between equal time bases nothing changes.
pub proof fn law_rescale_same_base(ts: i64, base: Rational)
    requires
        base.0 > 0,
        base.1 > 0,
        ts != i64::MIN,
    ensures
        rescaled(ts as int, base, base) == ts,
{
    let f = base.0 * base.1;
    assert(f > 0) by (nonlinear_arith)
        requires
            base.0 > 0,
            base.1 > 0,
            f == base.0 * base.1,
    ;
    let m = if ts < 0 {
        -ts
    } else {
        ts as int
    };
    assert(scaled(m, f, f) == m) by (nonlinear_arith)
        requires
            f > 0,
            m >= 0,
            scaled(m, f, f) == (m * f + f / 2) / f,
    ;
}

/// A later timestamp never comes out before an earlier one.
pub proof fn law_rescale_monotonic(a: i64, b: i64, from: Rational, to: Rational)
    requires
        i64::MIN < a <= b,
        rescaled(a as int, from, to) != NO_TIMESTAMP,
        rescaled(b as int, from, to) != NO_TIMESTAMP,
    ensures
        rescaled(a as int, from, to) <= rescaled(b as int, from, to),
{
    let factor = from.0 * to.1;
    let divisor = to.0 * from.1;
    if a >= 0 {
        lemma_scaled_monotonic(a as int, b as int, factor, divisor);
    } else if b < 0 {
        lemma_scaled_monotonic(-b as int, -a as int, factor, divisor);
    } else {
        lemma_scaled_monotonic(0, -a as int, factor, divisor);
        lemma_scaled_monotonic(0, b as int, factor, divisor);
        assert(scaled(0, factor, divisor) == 0) by (nonlinear_arith)
            requires
                divisor > 0,
                scaled(0, factor, divisor) == (0 * factor + divisor / 2) / divisor,
        ;
    }
}

proof fn lemma_scaled_monotonic(a: int, b: int, factor: int, divisor: int)
    requires
        0 <= a <= b,
        factor >= 0,
        divisor > 0,
    ensures
        scaled(a, factor, divisor) <= scaled(b, factor, divisor),
{
    assert(a * factor <= b * factor) by (nonlinear_arith)
        requires
            a <= b,
            factor >= 0,
    ;
    vstd::arithmetic::div_mod::lemma_div_is_ordered(
        a * factor + divisor / 2,
        b * factor + divisor / 2,
        divisor,
    );
}

proof fn lemma_scaled_nearest(a: int, f: int, d: int)
    requires
        a >= 0,
        f >= 0,
        d > 0,
    ensures
        2 * (a * f) - d < 2 * (scaled(a, f, d) * d) <= 2 * (a * f) + d,
        scaled(a, f, d) >= 0,
{
    let n = a * f;
    let q = (n + d / 2) / d;
    assert(n >= 0) by (nonlinear_arith)
        requires
            n == a * f,
            a >= 0,
            f >= 0,
    ;
    vstd::arithmetic::div_mod::lemma_fundamental_div_mod(n + d / 2, d);
    vstd::arithmetic::div_mod::lemma_div_pos_is_pos(n + d / 2, d);
    assert(d * q == q * d) by (nonlinear_arith);
}

/// A converted timestamp is the nearest one: the two times differ by at most half a tick of the
/// new time base.
pub proof fn law_rescale_is_nearest(ts: i64, from: Rational, to: Rational)
    requires
        from.0 > 0,
        from.1 > 0,
        to.0 > 0,
        to.1 > 0,
        ts != i64::MIN,
        rescaled(ts as int, from, to) != i64::MIN,
    ensures
        ({
            let out = rescaled(ts as int, from, to);
            let tick = to.0 * from.1;
            &&& 2 * (ts * (from.0 * to.1)) - tick <= 2 * (out * tick) <= 2 * (ts * (from.0 * to.1))
                + tick
            &&& ts >= 0 ==> out >= 0
            &&& ts <= 0 ==> out <= 0
        }),
{
    let f = from.0 * to.1;
    let d = to.0 * from.1;
    let out = rescaled(ts as int, from, to);
    assert(f > 0 && d > 0) by (nonlinear_arith)
        requires
            f == from.0 * to.1,
            d == to.0 * from.1,
            from.0 > 0,
            from.1 > 0,
            to.0 > 0,
            to.1 > 0,
    ;
    if ts < 0 {
        lemma_scaled_nearest(-ts as int, f, d);
        assert((-ts) * f == -(ts * f)) by (nonlinear_arith);
        assert((-out) * d == -(out * d)) by (nonlinear_arith);
    } else {
        lemma_scaled_nearest(ts as int, f, d);
        if ts == 0 {
            assert(0 * f == 0);
            assert(out <= 0) by (nonlinear_arith)
                requires
                    2 * (out * d) <= d,
                    d > 0,
            ;
        }
    }
}

/// A time that lies within reach of a time base: its converted timestamp fits.
pub open spec fn is_in_reach(ts: i64, from: Rational, to: Rational) -> bool {
    &&& from.0 > 0 && from.1 > 0 && to.0 > 0 && to.1 > 0
    &&& ts != i64::MIN
    &&& -0x4000_0000_0000_0000 * (to.0 * from.1) <= ts * (from.0 * to.1) <= 0x4000_0000_0000_0000
        * (to.0 * from.1)
}

/// A time that lies within reach has a timestamp.
pub proof fn law_rescale_fits(ts: i64, from: Rational, to: Rational)
    requires
        is_in_reach(ts, from, to),
    ensures
        -0x4000_0000_0000_0001 <= rescaled(ts as int, from, to) <= 0x4000_0000_0000_0001,
{
    let f = from.0 * to.1;
    let d = to.0 * from.1;
    assert(f > 0 && d > 0) by (nonlinear_arith)
        requires
            f == from.0 * to.1,
            d == to.0 * from.1,
            from.0 > 0,
            from.1 > 0,
            to.0 > 0,
            to.1 > 0,
    ;
    let m = if ts < 0 {
        -ts
    } else {
        ts as int
    };
    lemma_scaled_nearest(m, f, d);
    if ts < 0 {
        assert((-ts) * f == -(ts * f)) by (nonlinear_arith);
    }
    let q = scaled(m, f, d);
    let bound = 0x4000_0000_0000_0000int;
    assert(q <= bound + 1) by (nonlinear_arith)
        requires
            2 * (q * d) <= 2 * (m * f) + d,
            m * f <= bound * d,
            d > 0,
    ;
}

proof fn lemma_rounds_before(x: int, xf: int, xd: int, y: int, yf: int, yd: int)
    requires
        x >= 0,
        y >= 0,
        xf > 0,
        yf > 0,
        xd > 0,
        yd > 0,
        scaled(x, xf, xd) < scaled(y, yf, yd),
    ensures
        (x * xf) * yd < (y * yf) * xd,
{
    lemma_scaled_nearest(x, xf, xd);
    lemma_scaled_nearest(y, yf, yd);
    let (p, q) = (scaled(x, xf, xd), scaled(y, yf, yd));
    let (n, m) = (x * xf, y * yf);
    assert(n * yd < m * xd) by (nonlinear_arith)
        requires
            2 * n - xd < 2 * (p * xd),
            2 * (q * yd) <= 2 * m + yd,
            p + 1 <= q,
            xd > 0,
            yd > 0,
    ;
}

/// What comes out before, in one time base, was before: times that are not converted to one
/// timestamp keep their order, whatever their time bases are.
pub proof fn law_rescale_keeps_order(a: i64, from_a: Rational, b: i64, from_b: Rational, to: Rational)
    requires
        is_in_reach(a, from_a, to),
        is_in_reach(b, from_b, to),
        rescaled(a as int, from_a, to) < rescaled(b as int, from_b, to),
    ensures
        (a * from_a.0) * from_b.1 < (b * from_b.0) * from_a.1,
{
    law_rescale_fits(a, from_a, to);
    law_rescale_fits(b, from_b, to);
    law_rescale_is_nearest(a, from_a, to);
    law_rescale_is_nearest(b, from_b, to);
    let (fa, da) = (from_a.0 * to.1, to.0 * from_a.1);
    let (fb, db) = (from_b.0 * to.1, to.0 * from_b.1);
    assert(fa > 0 && da > 0 && fb > 0 && db > 0) by (nonlinear_arith)
        requires
            fa == from_a.0 * to.1,
            da == to.0 * from_a.1,
            fb == from_b.0 * to.1,
            db == to.0 * from_b.1,
            from_a.0 > 0,
            from_a.1 > 0,
            from_b.0 > 0,
            from_b.1 > 0,
            to.0 > 0,
            to.1 > 0,
    ;
    let x = a * from_a.0;
    let y = b * from_b.0;
    if a >= 0 && b >= 0 {
        lemma_rounds_before(a as int, fa, da, b as int, fb, db);
    } else if a < 0 && b < 0 {
        lemma_rounds_before(-b as int, fb, db, -a as int, fa, da);
        assert(((-b) * fb) * da == -((b * fb) * da)) by (nonlinear_arith);
        assert(((-a) * fa) * db == -((a * fa) * db)) by (nonlinear_arith);
    } else {
        assert(a < 0 && b >= 0);
        assert((a * fa) * db < 0) by (nonlinear_arith)
            requires
                a < 0,
                fa > 0,
                db > 0,
        ;
        assert((b * fb) * da >= 0) by (nonlinear_arith)
            requires
                b >= 0,
                fb > 0,
                da > 0,
        ;
    }
    assert((a * fa) * db < (b * fb) * da);
    let scale = to.0 * to.1;
    assert((a * fa) * db == (x * from_b.1) * scale) by (nonlinear_arith)
        requires
            fa == from_a.0 * to.1,
            db == to.0 * from_b.1,
            x == a * from_a.0,
            scale == to.0 * to.1,
    ;
    assert((b * fb) * da == (y * from_a.1) * scale) by (nonlinear_arith)
        requires
            fb == from_b.0 * to.1,
            da == to.0 * from_a.1,
            y == b * from_b.0,
            scale == to.0 * to.1,
    ;
    assert(scale > 0) by (nonlinear_arith)
        requires
            scale == to.0 * to.1,
            to.0 > 0,
            to.1 > 0,
    ;
    let (l, r) = (x * from_b.1, y * from_a.1);
    assert(l < r) by (nonlinear_arith)
        requires
            l * scale < r * scale,
            scale > 0,
    ;
}

/// Times that lie a tick of 1/90000 s apart have different timestamps on that clock.
pub proof fn law_rescale_apart(t: i64, tb: Rational, e: i64, eb: Rational)
    requires
        is_in_reach(t, tb, Rational(1, 90000)),
        is_in_reach(e, eb, Rational(1, 90000)),
        (t * tb.0) * (90000 * eb.1) + tb.1 * eb.1 <= (e * eb.0) * (90000 * tb.1),
    ensures
        rescaled(t as int, tb, Rational(1, 90000)) < rescaled(e as int, eb, Rational(1, 90000)),
{
    let clock = Rational(1, 90000);
    law_rescale_fits(t, tb, clock);
    law_rescale_fits(e, eb, clock);
    let (f, d) = (tb.0 * 90000, tb.1 as int);
    let (g, c) = (eb.0 * 90000, eb.1 as int);
    let (n, m) = (t * f, e * g);
    assert((t * tb.0) * (90000 * eb.1) == n * c) by (nonlinear_arith)
        requires
            n == t * f,
            f == tb.0 * 90000,
            c == eb.1,
    ;
    assert((e * eb.0) * (90000 * tb.1) == m * d) by (nonlinear_arith)
        requires
            m == e * g,
            g == eb.0 * 90000,
            d == tb.1,
    ;
    assert(n * c + d * c <= m * d);
    let (p, q) = (rescaled(t as int, tb, clock), rescaled(e as int, eb, clock));
    if t >= 0 {
        assert(e >= 0) by (nonlinear_arith)
            requires
                n * c + d * c <= m * d,
                n == t * f,
                m == e * g,
                t >= 0,
                f > 0,
                g > 0,
                d > 0,
                c > 0,
        ;
        lemma_scaled_nearest(t as int, f, d);
        lemma_scaled_nearest(e as int, g, c);
        assert(p < q) by (nonlinear_arith)
            requires
                2 * (p * d) <= 2 * n + d,
                2 * m - c < 2 * (q * c),
                n * c + d * c <= m * d,
                d > 0,
                c > 0,
        ;
    } else if e < 0 {
        lemma_scaled_nearest(-t as int, f, d);
        lemma_scaled_nearest(-e as int, g, c);
        assert((-t) * f == -n) by (nonlinear_arith)
            requires
                n == t * f,
        ;
        assert((-e) * g == -m) by (nonlinear_arith)
            requires
                m == e * g,
        ;
        assert(p < q) by (nonlinear_arith)
            requires
                2 * (-n) - d < 2 * ((-p) * d),
                2 * ((-q) * c) <= 2 * (-m) + c,
                n * c + d * c <= m * d,
                d > 0,
                c > 0,
        ;
    } else {
        law_rescale_is_nearest(t, tb, clock);
        law_rescale_is_nearest(e, eb, clock);
        if p == q {
            assert(p == 0);
            assert(2 * n <= -d || 2 * n > -d);
            lemma_scaled_nearest(-t as int, f, d);
            lemma_scaled_nearest(e as int, g, c);
            assert((-t) * f == -n) by (nonlinear_arith)
                requires
                    n == t * f,
            ;
            assert(0 * d == 0 && 0 * c == 0);
            assert(-2 * n < d && 2 * m < c);
            assert(false) by (nonlinear_arith)
                requires
                    -2 * n < d,
                    2 * m < c,
                    n * c + d * c <= m * d,
                    d > 0,
                    c > 0,
            ;
        }
    }
}

} // verus!
