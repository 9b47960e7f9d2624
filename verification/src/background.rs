//! The background: a vertical gradient from white to blue.

use vstd::prelude::*;
use crate::actor::Rgba8;
use crate::scalar::{
    lemma_product_bound, lemma_ratio_add, lemma_ratio_floor, lemma_ratio_mul, lemma_ratio_scale,
    lemma_ratio_sign, lemma_ratio_whole, ratio,
};

verus! {

/// The level of each channel of the background at the bottom of the image.
pub open spec fn white() -> real {
    8real / 10real
}

/// The red level of the background at the top of the image.
pub open spec fn blue_r() -> real {
    1real / 10real
}

/// The green level of the background at the top of the image.
pub open spec fn blue_g() -> real {
    2real / 10real
}

/// The blue level of the background at the top of the image.
pub open spec fn blue_b() -> real {
    65real / 100real
}

/// The level between `from` and `to` that belongs to a ray whose direction
/// has the vertical component `dy`, on the scale from 0 to 255: `from` at
/// `dy = -1`, `to` at `dy = 1`, and linear in between and beyond.
pub open spec fn blend(dy: real, from: real, to: real) -> real {
    let t = (dy + 1real) / 2real;
    ((1real - t) * from + t * to) * 255real
}

/// The byte for the level `v`: `v` rounded towards zero, and the nearest
/// byte where that is out of range.
pub open spec fn to_channel(v: real) -> u8 {
    if v <= 0real {
        0u8
    } else if v >= 255real {
        255u8
    } else {
        v.floor() as u8
    }
}

/// The opaque background colour for a ray whose direction has the vertical
/// component `dy`.
pub open spec fn gradient(dy: real) -> Rgba8 {
    Rgba8 {
        r: to_channel(blend(dy, white(), blue_r())),
        g: to_channel(blend(dy, white(), blue_g())),
        b: to_channel(blend(dy, white(), blue_b())),
        a: 255u8,
    }
}

/// One channel of the background: the level between `from / 20` and
/// `to / 20` for the vertical component `n / d`, as a byte.
fn channel(n: i64, d: i64, from: u8, to: u8) -> (c: u8)
    requires
        d > 0,
        from <= 20,
        to <= 20,
    ensures
        c == to_channel(
            blend(ratio(n as int, d as int), ratio(from as int, 20), ratio(to as int, 20)),
        ),
{
    let down: i128 = d as i128 - n as i128;
    let up: i128 = d as i128 + n as i128;
    proof {
        lemma_product_bound(down as int, from as int, 0x1_0000_0000_0000_0000, 20);
        lemma_product_bound(up as int, to as int, 0x1_0000_0000_0000_0000, 20);
    }
    let level: i128 = 255 * (down * (from as i128) + up * (to as i128));
    let full: i128 = 40 * (d as i128);
    proof {
        lemma_blend_ratio(n as int, d as int, from as int, to as int);
        lemma_ratio_sign(level as int, full as int);
        lemma_ratio_add(level as int, 255 * full, full as int);
        lemma_ratio_scale(255, 1, full as int);
        lemma_ratio_whole(255);
        lemma_ratio_sign(level - 255 * full, full as int);
    }
    if level <= 0 {
        0
    } else {
        let q: i128 = level / full;
        proof {
            lemma_ratio_floor(level as int, full as int);
            assert(q >= 255 <==> level >= 255 * full) by (nonlinear_arith)
                requires
                    q == level / full,
                    full > 0,
                    level > 0,
            ;
            assert(q >= 0) by (nonlinear_arith)
                requires
                    q == level / full,
                    full > 0,
                    level > 0,
            ;
        }
        if q >= 255 {
            255
        } else {
            q as u8
        }
    }
}

/// The blend for a rational vertical component between rational levels, as
/// one fraction.
proof fn lemma_blend_ratio(n: int, d: int, from: int, to: int)
    requires
        d > 0,
    ensures
        blend(ratio(n, d), ratio(from, 20), ratio(to, 20)) == ratio(
            255 * ((d - n) * from + (d + n) * to),
            40 * d,
        ),
{
    let dy = ratio(n, d);
    let t = (dy + 1real) / 2real;
    // t = (d + n) / 2d and 1 - t = (d - n) / 2d
    lemma_ratio_scale(1, 1, d);
    lemma_ratio_whole(1);
    lemma_ratio_add(n, d, d);
    lemma_ratio_mul(n + d, d, 1, 2);
    assert(ratio(1, 2) == 1real / 2real);
    assert(t == ratio(d + n, 2 * d)) by {
        assert(d * 2 == 2 * d);
        assert((n + d) * 1 == d + n);
    }
    lemma_ratio_scale(1, 1, 2 * d);
    lemma_ratio_add(2 * d, d + n, 2 * d);
    assert(1real - t == ratio(d - n, 2 * d));
    // the two products and their sum over 40d
    lemma_ratio_mul(d - n, 2 * d, from, 20);
    lemma_ratio_mul(d + n, 2 * d, to, 20);
    assert((2 * d) * 20 == 40 * d);
    lemma_ratio_add((d - n) * from, (d + n) * to, 40 * d);
    let sum = (d - n) * from + (d + n) * to;
    lemma_ratio_mul(sum, 40 * d, 255, 1);
    lemma_ratio_whole(255);
    assert(sum * 255 == 255 * sum);
    assert((40 * d) * 1 == 40 * d);
}

/// The background colour for the vertical component `n / d`.
pub fn gradient_exec(n: i64, d: i64) -> (color: Rgba8)
    requires
        d > 0,
    ensures
        color == gradient(ratio(n as int, d as int)),
{
    proof {
        lemma_levels();
    }
    Rgba8 { r: channel(n, d, 16, 2), g: channel(n, d, 16, 4), b: channel(n, d, 16, 13), a: 255 }
}

/// The background levels in twentieths.
proof fn lemma_levels()
    ensures
        white() == ratio(16, 20),
        blue_r() == ratio(2, 20),
        blue_g() == ratio(4, 20),
        blue_b() == ratio(13, 20),
{
    assert(8real / 10real == 16real / 20real) by (nonlinear_arith);
    assert(1real / 10real == 2real / 20real) by (nonlinear_arith);
    assert(2real / 10real == 4real / 20real) by (nonlinear_arith);
    assert(65real / 100real == 13real / 20real) by (nonlinear_arith);
}

} // verus!
