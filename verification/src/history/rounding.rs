//! Where percentiles stand among ordered values. A position is a share of the
//! last one, worked out in numbers of 53 significant bits: each step keeps the
//! nearest such number, a half going to the even one.

use vstd::prelude::*;

verus! {

/// Whole numbers below this are kept as they are.
pub const PRECISION: u128 = 0x20_0000_0000_0000;

/// What one is in the unit in which shares are counted. It is fine enough for
/// the share of the first percentile.
pub const ONE: u128 = 0x800_0000_0000_0000;

/// The whole number nearest to `a / b`, a half going to the even one.
pub open spec fn nearest(a: nat, b: nat) -> nat {
    let q = a / b;
    let r = a % b;
    if 2 * r < b || (2 * r == b && q % 2 == 0) {
        q
    } else {
        q + 1
    }
}

/// How far the numbers that can be kept stand apart around `x`: a power of
/// two.
pub open spec fn spacing(x: nat) -> nat
    decreases x,
{
    if x < PRECISION {
        1
    } else {
        2 * spacing(x / 2)
    }
}

/// The number that is kept of `a / b`.
pub open spec fn kept(a: nat, b: nat) -> nat {
    let g = spacing(a / b);
    nearest(a, b * g) * g
}

/// The share of the `p`th percentile, a hundredth of `p`, in units of which
/// there are `ONE` in one.
pub open spec fn share(p: nat) -> nat {
    kept(kept(p, 1) * (ONE as nat), 100)
}

/// The position of the `p`th percentile among `n` ordered values: its share of
/// the last position, to the nearest, halves upward; the last where that is
/// beyond it.
pub open spec fn percentile_position(n: int, p: int) -> int {
    let at = kept(share(p as nat) * kept((n - 1) as nat, 1), 1);
    let whole = (at + ONE / 2) / (ONE as int);
    if whole < n {
        whole
    } else {
        n - 1
    }
}

proof fn spacing_bounds(x: nat)
    ensures
        spacing(x) >= 1,
        x < PRECISION ==> spacing(x) == 1,
        x >= PRECISION ==> (PRECISION / 2) * spacing(x) <= x,
        x < PRECISION * spacing(x),
    decreases x,
{
    if x >= PRECISION {
        let h = spacing(x / 2);
        spacing_bounds(x / 2);
        assert(spacing(x) == 2 * h);
        assert((PRECISION / 2) * (2 * h) == PRECISION * h) by (nonlinear_arith)
            requires
                PRECISION == 0x20_0000_0000_0000,
        ;
        assert(PRECISION * (2 * h) == 2 * (PRECISION * h)) by (nonlinear_arith);
        if x / 2 >= PRECISION {
            assert(PRECISION * h == 2 * ((PRECISION / 2) * h)) by (nonlinear_arith)
                requires
                    PRECISION == 0x20_0000_0000_0000,
            ;
        }
    }
}

proof fn spacing_doubles(x: nat, y: nat)
    requires
        x <= y,
    ensures
        spacing(x) == spacing(y) || 2 * spacing(x) <= spacing(y),
    decreases y,
{
    if x >= PRECISION {
        spacing_doubles(x / 2, y / 2);
    } else if y >= PRECISION {
        spacing_bounds(y / 2);
    }
}

proof fn nearest_bounds(a: nat, b: nat)
    requires
        b > 0,
    ensures
        2 * (nearest(a, b) * b) <= 2 * a + b,
        2 * a <= 2 * (nearest(a, b) * b) + b,
        b == 1 ==> nearest(a, b) == a,
{
    vstd::arithmetic::div_mod::lemma_fundamental_div_mod(a as int, b as int);
    let q = a / b;
    assert(b * q == q * b) by (nonlinear_arith);
    assert((q + 1) * b == q * b + b) by (nonlinear_arith);
    assert(a % b < b);
}

proof fn nearest_ascends(a: nat, c: nat, b: nat)
    requires
        a <= c,
        b > 0,
    ensures
        nearest(a, b) <= nearest(c, b),
{
    vstd::arithmetic::div_mod::lemma_div_is_ordered(a as int, c as int, b as int);
    vstd::arithmetic::div_mod::lemma_fundamental_div_mod(a as int, b as int);
    vstd::arithmetic::div_mod::lemma_fundamental_div_mod(c as int, b as int);
}

/// What is kept is close.
proof fn kept_is_close(a: nat, b: nat)
    requires
        b > 0,
        b == 1 || a == 0 || a >= 2 * b,
    ensures
        3 * a <= 4 * (kept(a, b) * b) <= 5 * a,
        a < PRECISION && b == 1 ==> kept(a, b) == a,
{
    let x = a / b;
    let g = spacing(x);
    let unit = b * g;
    spacing_bounds(x);
    assert(unit >= b) by (nonlinear_arith)
        requires
            unit == b * g,
            g >= 1,
    ;
    nearest_bounds(a, unit);
    let m = nearest(a, unit);
    assert((m * g) * b == m * unit) by (nonlinear_arith)
        requires
            unit == b * g,
    ;
    vstd::arithmetic::div_mod::lemma_fundamental_div_mod(a as int, b as int);
    assert(b * x <= a);
    if x >= PRECISION {
        assert(4 * unit <= a) by (nonlinear_arith)
            requires
                (PRECISION / 2) * g <= x,
                b * x <= a,
                unit == b * g,
                PRECISION == 0x20_0000_0000_0000,
                b > 0,
        ;
    } else {
        assert(unit == b) by (nonlinear_arith)
            requires
                unit == b * g,
                g == 1,
        ;
        if a == 0 {
            assert(0nat / unit == 0);
            assert(0nat % unit == 0);
            assert(m == 0);
            assert(m * unit == 0) by (nonlinear_arith)
                requires
                    m == 0,
            ;
        }
    }
    if b == 1 && a < PRECISION {
        assert(x == a);
        assert(m * g == m) by (nonlinear_arith)
            requires
                g == 1,
        ;
    }
}

/// More is kept of more.
proof fn kept_ascends(a: nat, c: nat, b: nat)
    requires
        a <= c,
        b > 0,
    ensures
        kept(a, b) <= kept(c, b),
{
    let x = a / b;
    let y = c / b;
    let g = spacing(x);
    let h = spacing(y);
    vstd::arithmetic::div_mod::lemma_div_is_ordered(a as int, c as int, b as int);
    vstd::arithmetic::div_mod::lemma_fundamental_div_mod(a as int, b as int);
    vstd::arithmetic::div_mod::lemma_fundamental_div_mod(c as int, b as int);
    spacing_bounds(x);
    spacing_bounds(y);
    spacing_doubles(x, y);
    assert(b * g > 0 && b * h > 0) by (nonlinear_arith)
        requires
            b > 0,
            g >= 1,
            h >= 1,
    ;
    let m = nearest(a, b * g);
    let k = nearest(c, b * h);
    if g == h {
        nearest_ascends(a, c, b * g);
        assert(m * g <= k * g) by (nonlinear_arith)
            requires
                m <= k,
        ;
    } else {
        let top = PRECISION as nat;
        let half = (PRECISION / 2) as nat;
        assert(y >= PRECISION);
        // What is kept of the lower number is at most `top * g`.
        assert(a < b * g * top) by (nonlinear_arith)
            requires
                a < b * x + b,
                x < top * g,
                b > 0,
        ;
        nearest_ascends(a, b * g * top, b * g);
        whole_is_kept(b * g, top);
        assert(m * g <= top * g) by (nonlinear_arith)
            requires
                m <= top,
        ;
        // What is kept of the higher number is at least `half * h`.
        assert(b * h * half <= c) by (nonlinear_arith)
            requires
                half * h <= y,
                b * y <= c,
                b > 0,
        ;
        nearest_ascends(b * h * half, c, b * h);
        whole_is_kept(b * h, half);
        assert(half * h <= k * h) by (nonlinear_arith)
            requires
                half <= k,
        ;
        assert(top * g <= half * h) by (nonlinear_arith)
            requires
                2 * g <= h,
                top == 2 * half,
        ;
    }
}

proof fn whole_is_kept(b: nat, m: nat)
    requires
        b > 0,
    ensures
        nearest(b * m, b) == m,
{
    vstd::arithmetic::div_mod::lemma_div_multiples_vanish(m as int, b as int);
    vstd::arithmetic::div_mod::lemma_mod_multiples_basic(m as int, b as int);
    assert(m * b == b * m) by (nonlinear_arith);
}

/// Higher percentiles do not stand lower.
pub proof fn positions_ascend(n: int, p: int, q: int)
    requires
        n > 0,
        0 <= p <= q,
    ensures
        0 <= percentile_position(n, p) <= percentile_position(n, q) < n,
{
    let one = ONE as nat;
    let a = kept(p as nat, 1);
    let c = kept(q as nat, 1);
    kept_ascends(p as nat, q as nat, 1);
    assert(a * one <= c * one) by (nonlinear_arith)
        requires
            a <= c,
    ;
    kept_ascends(a * one, c * one, 100);
    let last = kept((n - 1) as nat, 1);
    let s = share(p as nat);
    let t = share(q as nat);
    assert(s * last <= t * last) by (nonlinear_arith)
        requires
            s <= t,
    ;
    kept_ascends(s * last, t * last, 1);
    vstd::arithmetic::div_mod::lemma_div_is_ordered(
        kept(s * last, 1) + ONE / 2,
        kept(t * last, 1) + ONE / 2,
        ONE as int,
    );
}

/// Of up to a million million values the `p`th percentile stands at `p`
/// hundredths of the way from the first to the last, to the nearest.
pub proof fn position_is_nearest(n: int, p: int)
    requires
        0 < n <= 1_000_000_000_000,
        0 <= p <= 100,
    ensures
        -50 <= 100 * percentile_position(n, p) - p * (n - 1) <= 50,
        0 <= percentile_position(n, p) < n,
{
    let one = ONE as int;
    let k = n - 1;
    kept_is_close(p as nat, 1);
    kept_is_close(k as nat, 1);
    assert(kept(p as nat, 1) == p && kept(k as nat, 1) == k);
    // The share is close to its hundredths.
    let a = (p * one) as nat;
    let x = a / 100;
    let g = spacing(x);
    spacing_bounds(x);
    assert(g <= 128);
    nearest_bounds(a, 100 * g);
    let s = share(p as nat) as int;
    let m = nearest(a, 100 * g);
    assert((m * g) * 100 == m * (100 * g)) by (nonlinear_arith);
    assert(s == m * g);
    assert(-6400 <= 100 * s - p * one <= 6400);
    // So is its product with the last position.
    assert(0 <= s <= one + 64);
    assert(-6400 * k <= 100 * (s * k) - (p * k) * one <= 6400 * k) by (nonlinear_arith)
        requires
            -6400 <= 100 * s - p * one <= 6400,
            k >= 0,
    ;
    assert(0 <= s * k <= (one + 64) * 1_000_000_000_000) by (nonlinear_arith)
        requires
            0 <= s <= one + 64,
            0 <= k <= 1_000_000_000_000,
    ;
    let y = (s * k) as nat;
    let h = spacing(y);
    spacing_bounds(y);
    assert(y / 1 == y);
    nearest_bounds(y, 1 * h);
    let at = kept(y, 1) as int;
    assert(at == nearest(y, 1 * h) * h);
    assert(1 * h == h);
    assert(h <= 0x8000_0000_0000);
    assert(-(h as int) <= 2 * at - 2 * y <= h);
    let whole = (at + ONE / 2) / one;
    assert(whole * one <= at + ONE / 2 < whole * one + one) by (nonlinear_arith)
        requires
            whole == (at + ONE / 2) / one,
            one == 0x800_0000_0000_0000,
    ;
    assert(-50 <= 100 * whole - p * k <= 50) by (nonlinear_arith)
        requires
            -6400 * k <= 100 * y - (p * k) * one <= 6400 * k,
            0 <= k <= 1_000_000_000_000,
            -0x8000_0000_0000 <= 2 * at - 2 * y <= 0x8000_0000_0000,
            whole * one <= at + 0x400_0000_0000_0000 < whole * one + one,
            one == 0x800_0000_0000_0000,
    {
        let d = 100 * whole - p * k;
        assert(d * one == 100 * (whole * one) - (p * k) * one);
        assert(d * one < 51 * one);
        assert(d * one > -51 * one);
        assert(d < 51);
        assert(d > -51);
    }
    assert(p * k <= 100 * k) by (nonlinear_arith)
        requires
            p <= 100,
            k >= 0,
    ;
    assert(0 <= p * k) by (nonlinear_arith)
        requires
            p >= 0,
            k >= 0,
    ;
}

/// Far beyond the hundredth percentile stands the last value.
proof fn far_is_last(n: int, p: int)
    requires
        n > 0,
        p >= 512,
    ensures
        percentile_position(n, p) == n - 1,
{
    let one = ONE as nat;
    let k = (n - 1) as nat;
    let a = kept(p as nat, 1);
    let s = share(p as nat);
    let f = kept(k, 1);
    kept_is_close(p as nat, 1);
    assert(a >= 384);
    assert(a * one >= 384 * one) by (nonlinear_arith)
        requires
            a >= 384,
    ;
    kept_is_close(a * one, 100);
    assert(s >= 2 * one);
    kept_is_close(k, 1);
    kept_is_close(s * f, 1);
    let at = kept(s * f, 1);
    assert(4 * (s * f) >= 3 * (s * k)) by (nonlinear_arith)
        requires
            4 * f >= 3 * k,
    ;
    assert(s * k >= 2 * (one * k)) by (nonlinear_arith)
        requires
            s >= 2 * one,
    ;
    assert(at >= one * k);
    assert((at + ONE / 2) / (ONE as int) >= k) by (nonlinear_arith)
        requires
            at >= one * k,
            one == ONE,
            ONE == 0x800_0000_0000_0000,
    ;
}

fn spacing_of(x: u128) -> (g: u128)
    ensures
        g == spacing(x as nat),
    decreases x,
{
    if x < PRECISION {
        1
    } else {
        proof {
            spacing_bounds(x as nat);
            assert(spacing(x as nat) == 2 * spacing((x / 2) as nat));
            let g = spacing(x as nat);
            assert(g <= x) by (nonlinear_arith)
                requires
                    (PRECISION / 2) * g <= x,
                    PRECISION == 0x20_0000_0000_0000,
            ;
        }
        2 * spacing_of(x / 2)
    }
}

fn keep(a: u128, b: u128) -> (r: u128)
    requires
        0 < b,
        b == 1 || a == 0 || a >= 2 * b,
        a < 0x8000_0000_0000_0000_0000_0000_0000_0000,
    ensures
        r == kept(a as nat, b as nat),
        3 * a <= 4 * (r * b) <= 5 * a,
{
    let g = spacing_of(a / b);
    proof {
        let x = (a / b) as nat;
        spacing_bounds(x);
        kept_is_close(a as nat, b as nat);
        vstd::arithmetic::div_mod::lemma_fundamental_div_mod(a as int, b as int);
        assert(0 < b * g) by (nonlinear_arith)
            requires
                b > 0,
                g >= 1,
        ;
        if x >= PRECISION {
            assert(g <= x);
            assert(b * g <= b * x) by (nonlinear_arith)
                requires
                    g <= x,
            ;
        } else {
            assert(b * g == b) by (nonlinear_arith)
                requires
                    g == 1,
            ;
        }
        let r = kept(a as nat, b as nat);
        assert(r <= r * b) by (nonlinear_arith)
            requires
                b > 0,
                r >= 0,
        ;
    }
    let unit: u128 = b * g;
    let q: u128 = a / unit;
    let rest: u128 = a % unit;
    let m: u128 = if rest < unit - rest || (rest == unit - rest && q % 2 == 0) {
        q
    } else {
        q + 1
    };
    assert(m == nearest(a as nat, (b * g) as nat));
    m * g
}

/// The position of the `p`th percentile among `n` ordered values.
pub fn percentile_index(n: usize, p: usize) -> (r: usize)
    requires
        n > 0,
    ensures
        r == percentile_position(n as int, p as int),
        r < n,
{
    let last: usize = n - 1;
    if p >= 512 {
        proof {
            far_is_last(n as int, p as int);
        }
        return last;
    }
    proof {
        kept_is_close(p as nat, 1);
        positions_ascend(n as int, p as int, p as int);
    }
    let s: u128 = keep(p as u128 * ONE, 100);
    let f: u128 = keep(last as u128, 1);
    proof {
        assert(s <= 8 * ONE);
        assert(f <= 2 * 0x1_0000_0000_0000_0000);
        assert(s * f <= (8 * ONE) * f) by (nonlinear_arith)
            requires
                s <= 8 * ONE,
        ;
    }
    let at: u128 = keep(s * f, 1);
    let whole: u128 = (at + ONE / 2) / ONE;
    if whole < n as u128 {
        whole as usize
    } else {
        last
    }
}

} // verus!
