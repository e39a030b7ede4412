//! Colors and the per-channel blend arithmetic.

use vstd::prelude::*;

verus! {

/// Four independent 8-bit channels; the alpha channel is blended like the others.
#[derive(Clone, Copy, Debug, PartialEq, Eq, Structural)]
pub struct RGBA {
    pub r: u8,
    pub g: u8,
    pub b: u8,
    pub a: u8,
}

/// A blend strength given as the exact fraction `num / den`.
///
/// A well-formed strength lies in `[0, 1]`: `0 / d` keeps the background,
/// `d / d` replaces it with the foreground.
#[derive(Clone, Copy, Debug, PartialEq, Eq, Structural)]
pub struct Strength {
    pub num: u32,
    pub den: u32,
}

impl Strength {
    /// The fraction has a positive denominator and lies in `[0, 1]`.
    pub open spec fn wf(self) -> bool {
        0 < self.den && self.num <= self.den
    }

    /// The strength `num / den`, or `None` when it is not a fraction in `[0, 1]`.
    pub fn new(num: u32, den: u32) -> (r: Option<Strength>)
        ensures
            r is Some <==> (0 < den && num <= den),
            r matches Some(s) ==> s.wf() && s.num == num && s.den == den,
    {
        if 0 < den && num <= den {
            Some(Strength { num, den })
        } else {
            None
        }
    }
}

/// `bg * (1 - s) + fg * s`, truncated toward zero.
pub open spec fn blend_channel_spec(bg: u8, fg: u8, s: Strength) -> int {
    (bg as int * (s.den - s.num) + fg as int * s.num) / (s.den as int)
}

/// The channel-wise blend of a background and a foreground color.
pub open spec fn blend_color_spec(bg: RGBA, fg: RGBA, s: Strength) -> RGBA {
    RGBA {
        r: blend_channel_spec(bg.r, fg.r, s) as u8,
        g: blend_channel_spec(bg.g, fg.g, s) as u8,
        b: blend_channel_spec(bg.b, fg.b, s) as u8,
        a: blend_channel_spec(bg.a, fg.a, s) as u8,
    }
}

/// The weighted average of two channel values lies between them.
pub proof fn lemma_blend_channel_bounded(bg: u8, fg: u8, s: Strength)
    requires
        s.wf(),
    ensures
        bg <= fg ==> bg <= blend_channel_spec(bg, fg, s) <= fg,
        fg <= bg ==> fg <= blend_channel_spec(bg, fg, s) <= bg,
{
    let d = s.den as int;
    let n = s.num as int;
    let sum = bg as int * (d - n) + fg as int * n;
    assert(sum == bg as int * d + (fg as int - bg as int) * n) by (nonlinear_arith)
        requires
            sum == bg as int * (d - n) + fg as int * n,
    ;
    if bg <= fg {
        assert(bg as int * d <= sum <= fg as int * d) by (nonlinear_arith)
            requires
                sum == bg as int * d + (fg as int - bg as int) * n,
                bg <= fg,
                0 <= n <= d,
        ;
    } else {
        assert(fg as int * d <= sum <= bg as int * d) by (nonlinear_arith)
            requires
                sum == bg as int * d + (fg as int - bg as int) * n,
                fg <= bg,
                0 <= n <= d,
        ;
    }
    lemma_div_between(sum, bg as int, fg as int, d);
}

/// Strength zero keeps a channel of the background; full strength gives the
/// channel of the foreground.
pub proof fn lemma_blend_channel_extremes(bg: u8, fg: u8, s: Strength)
    requires
        s.wf(),
    ensures
        s.num == 0 ==> blend_channel_spec(bg, fg, s) == bg,
        s.num == s.den ==> blend_channel_spec(bg, fg, s) == fg,
{
    let d = s.den as int;
    if s.num == 0 {
        assert(bg as int * (d - 0) + fg as int * 0 == bg as int * d) by (nonlinear_arith);
        vstd::arithmetic::div_mod::lemma_div_by_multiple(bg as int, d);
    }
    if s.num == s.den {
        assert(bg as int * (d - d) + fg as int * d == fg as int * d) by (nonlinear_arith);
        vstd::arithmetic::div_mod::lemma_div_by_multiple(fg as int, d);
    }
}

/// Strength zero keeps the background color; full strength gives the
/// foreground color, alpha channel included.
pub proof fn lemma_blend_color_extremes(bg: RGBA, fg: RGBA, s: Strength)
    requires
        s.wf(),
    ensures
        s.num == 0 ==> blend_color_spec(bg, fg, s) == bg,
        s.num == s.den ==> blend_color_spec(bg, fg, s) == fg,
{
    lemma_blend_channel_extremes(bg.r, fg.r, s);
    lemma_blend_channel_extremes(bg.g, fg.g, s);
    lemma_blend_channel_extremes(bg.b, fg.b, s);
    lemma_blend_channel_extremes(bg.a, fg.a, s);
}

/// Raising the strength moves a blended channel toward the foreground value,
/// never away from it: the blended channel is monotonic in the strength.
pub proof fn lemma_blend_channel_monotonic(bg: u8, fg: u8, s: Strength, t: Strength)
    requires
        s.wf(),
        t.wf(),
        s.num as int * t.den <= t.num as int * s.den,
    ensures
        bg <= fg ==> blend_channel_spec(bg, fg, s) <= blend_channel_spec(bg, fg, t),
        fg <= bg ==> blend_channel_spec(bg, fg, t) <= blend_channel_spec(bg, fg, s),
{
    let b = bg as int;
    let f = fg as int;
    let (n1, d1, n2, d2) = (s.num as int, s.den as int, t.num as int, t.den as int);
    let sum1 = b * (d1 - n1) + f * n1;
    let sum2 = b * (d2 - n2) + f * n2;
    if b <= f {
        assert(sum1 * d2 <= sum2 * d1) by (nonlinear_arith)
            requires
                sum1 == b * (d1 - n1) + f * n1,
                sum2 == b * (d2 - n2) + f * n2,
                b <= f,
                n1 * d2 <= n2 * d1,
        ;
        lemma_quotient_le(sum1, d1, sum2, d2);
    }
    if f <= b {
        assert(sum2 * d1 <= sum1 * d2) by (nonlinear_arith)
            requires
                sum1 == b * (d1 - n1) + f * n1,
                sum2 == b * (d2 - n2) + f * n2,
                f <= b,
                n1 * d2 <= n2 * d1,
        ;
        lemma_quotient_le(sum2, d2, sum1, d1);
    }
}

/// Floor division keeps the order of the fractions `a / d1 <= c / d2`.
proof fn lemma_quotient_le(a: int, d1: int, c: int, d2: int)
    requires
        0 < d1,
        0 < d2,
        a * d2 <= c * d1,
    ensures
        a / d1 <= c / d2,
{
    vstd::arithmetic::div_mod::lemma_fundamental_div_mod(a, d1);
    vstd::arithmetic::div_mod::lemma_fundamental_div_mod(c, d2);
    let q1 = a / d1;
    let m1 = a % d1;
    let q2 = c / d2;
    let m2 = c % d2;
    assert(q1 * d2 <= c) by (nonlinear_arith)
        requires
            a == d1 * q1 + m1,
            0 <= m1,
            0 < d1,
            0 < d2,
            a * d2 <= c * d1,
    ;
    assert(q1 <= q2) by (nonlinear_arith)
        requires
            q1 * d2 <= c,
            c == d2 * q2 + m2,
            0 <= m2 < d2,
    ;
}

proof fn lemma_div_between(sum: int, lo: int, hi: int, d: int)
    requires
        0 < d,
    ensures
        lo * d <= sum <= hi * d ==> lo <= sum / d <= hi,
        hi * d <= sum <= lo * d ==> hi <= sum / d <= lo,
{
    vstd::arithmetic::div_mod::lemma_fundamental_div_mod(sum, d);
    let q = sum / d;
    let m = sum % d;
    assert(sum == q * d + m && 0 <= m < d) by (nonlinear_arith)
        requires
            sum == d * q + m,
            0 <= m < d,
    ;
    if lo * d <= sum <= hi * d {
        assert(lo <= q) by (nonlinear_arith)
            requires
                lo * d <= q * d + m,
                0 <= m < d,
        ;
        assert(q <= hi) by (nonlinear_arith)
            requires
                q * d + m <= hi * d,
                0 <= m < d,
        ;
    }
    if hi * d <= sum <= lo * d {
        assert(hi <= q) by (nonlinear_arith)
            requires
                hi * d <= q * d + m,
                0 <= m < d,
        ;
        assert(q <= lo) by (nonlinear_arith)
            requires
                q * d + m <= lo * d,
                0 <= m < d,
        ;
    }
}

/// Blends one channel exactly as `blend_channel_spec` says.
pub fn blend_channel(bg: u8, fg: u8, s: Strength) -> (r: u8)
    requires
        s.wf(),
    ensures
        r as int == blend_channel_spec(bg, fg, s),
{
    proof {
        lemma_blend_channel_bounded(bg, fg, s);
    }
    let d = s.den as u64;
    let n = s.num as u64;
    assert((bg as u64) * (d - n) <= 255 * (d - n)) by (nonlinear_arith)
        requires n <= d;
    assert((fg as u64) * n <= 255 * n) by (nonlinear_arith);
    let sum: u64 = (bg as u64) * (d - n) + (fg as u64) * n;
    (sum / d) as u8
}

} // verus!
