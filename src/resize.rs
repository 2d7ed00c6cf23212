//! Target pixel dimensions for an optional resize.
use vstd::prelude::*;

verus! {

/// `n / d` rounded to the nearest integer, halves rounded up.
pub open spec fn round_ratio(n: int, d: int) -> int
    recommends
        d > 0,
{
    (2 * n + d) / (2 * d)
}

pub open spec fn at_least_one(x: int) -> int {
    if x < 1 {
        1
    } else {
        x
    }
}

/// Dimensions of an `ow`x`oh` image scaled by the smaller of `tw/ow` and
/// `th/oh`, each side rounded to nearest and at least one pixel. A side of
/// length zero contributes no limit of its own.
pub open spec fn fitted_dims(ow: int, oh: int, tw: int, th: int) -> (int, int) {
    if ow == 0 && oh == 0 {
        (1, 1)
    } else if ow == 0 {
        (1, at_least_one(th))
    } else if oh == 0 {
        (at_least_one(tw), 1)
    } else if tw * oh <= th * ow {
        (at_least_one(tw), at_least_one(round_ratio(oh * tw, ow)))
    } else {
        (at_least_one(round_ratio(ow * th, oh)), at_least_one(th))
    }
}

/// The planned output size, or `None` where no resize is asked for.
pub open spec fn planned_size(
    orig_w: u32,
    orig_h: u32,
    width: Option<u32>,
    height: Option<u32>,
    keep_aspect: bool,
) -> Option<(int, int)> {
    match (width, height) {
        (Some(w), Some(h)) => if keep_aspect {
            Some(fitted_dims(orig_w as int, orig_h as int, w as int, h as int))
        } else {
            Some((w as int, h as int))
        },
        _ => None,
    }
}

proof fn lemma_round_ratio_bounded(n: int, d: int, t: int)
    requires
        d > 0,
        n >= 0,
        t >= 0,
        n <= t * d,
    ensures
        0 <= round_ratio(n, d) <= t,
{
    let x = 2 * n + d;
    let q = x / (2 * d);
    vstd::arithmetic::div_mod::lemma_fundamental_div_mod(x, 2 * d);
    assert(0 <= x % (2 * d) < 2 * d) by {
        vstd::arithmetic::div_mod::lemma_mod_bound(x, 2 * d);
    }
    assert(q >= 0) by {
        vstd::arithmetic::div_mod::lemma_div_pos_is_pos(x, 2 * d);
    }
    assert(q <= t) by (nonlinear_arith)
        requires
            x == 2 * d * q + x % (2 * d),
            x % (2 * d) >= 0,
            x == 2 * n + d,
            n <= t * d,
            d > 0,
    ;
}

fn wide_mul(a: u32, b: u32) -> (r: u64)
    ensures
        r as int == a as int * b as int,
{
    assert(a as int * b as int <= 0xffff_ffff * 0xffff_ffff) by (nonlinear_arith)
        requires
            a <= 0xffff_ffff,
            b <= 0xffff_ffff,
    ;
    (a as u64) * (b as u64)
}

/// Rounds `n / d` to the nearest integer, for a quotient known not to exceed `t`.
fn rounded_quotient(n: u64, d: u32, t: u32) -> (r: u32)
    requires
        d > 0,
        n <= t as int * d as int,
    ensures
        r as int == round_ratio(n as int, d as int),
{
    proof {
        lemma_round_ratio_bounded(n as int, d as int, t as int);
    }
    let x: u128 = 2 * (n as u128) + (d as u128);
    let q: u128 = x / (2 * (d as u128));
    q as u32
}

/// Plans the size that an `orig_w`x`orig_h` image is resized to. Nothing is
/// resized unless both `width` and `height` are given. Without
/// `keep_aspect` the image is stretched to exactly `width`x`height`; with it,
/// both sides are scaled by `min(width / orig_w, height / orig_h)`, rounded
/// to nearest (computed exactly, halves rounded up) and kept at one pixel or
/// more.
pub fn plan_resize(
    orig_w: u32,
    orig_h: u32,
    width: Option<u32>,
    height: Option<u32>,
    keep_aspect: bool,
) -> (r: Option<(u32, u32)>)
    ensures
        match planned_size(orig_w, orig_h, width, height, keep_aspect) {
            None => r is None,
            Some(p) => r matches Some(d) && d.0 as int == p.0 && d.1 as int == p.1,
        },
{
    match (width, height) {
        (Some(tw), Some(th)) => {
            if !keep_aspect {
                return Some((tw, th));
            }
            if orig_w == 0 && orig_h == 0 {
                Some((1, 1))
            } else if orig_w == 0 {
                Some((1, if th < 1 { 1 } else { th }))
            } else if orig_h == 0 {
                Some((if tw < 1 { 1 } else { tw }, 1))
            } else if wide_mul(tw, orig_h) <= wide_mul(th, orig_w) {
                let h = rounded_quotient(wide_mul(orig_h, tw), orig_w, th);
                Some((if tw < 1 { 1 } else { tw }, if h < 1 { 1 } else { h }))
            } else {
                assert((orig_w as int) * (th as int) <= (tw as int) * (orig_h as int)) by (nonlinear_arith)
                    requires
                        (tw as int) * (orig_h as int) > (th as int) * (orig_w as int),
                ;
                let w = rounded_quotient(wide_mul(orig_w, th), orig_h, tw);
                Some((if w < 1 { 1 } else { w }, if th < 1 { 1 } else { th }))
            }
        },
        _ => None,
    }
}

} // verus!
