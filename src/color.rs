use vstd::prelude::*;

verus! {

/// Distance of `a` from `b`.
pub open spec fn dist(a: int, b: int) -> int {
    if a >= b { a - b } else { b - a }
}

/// The secondary HSV component `x = 1 - |(h / 60 mod 2) - 1|` at full
/// saturation and value, times 255 and rounded half up, for the hue
/// `h = 60 * n / d` degrees.
pub open spec fn secondary(n: int, d: int) -> int {
    let r = n % (2 * d);
    (510 * (d - dist(r, d)) + d) / (2 * d)
}

/// The RGB colour of hue `60 * n / d` degrees at full saturation and value:
/// one of six 60-degree sectors, hues of 360 degrees and more falling in the
/// last one.
pub open spec fn hue_rgb(n: int, d: int) -> Seq<int> {
    let x = secondary(n, d);
    let sector = n / d;
    if sector == 0 {
        seq![255, x, 0]
    } else if sector == 1 {
        seq![x, 255, 0]
    } else if sector == 2 {
        seq![0, 255, x]
    } else if sector == 3 {
        seq![0, x, 255]
    } else if sector == 4 {
        seq![x, 0, 255]
    } else {
        seq![255, 0, x]
    }
}

/// The colour of an escape result: black for a point that never escaped,
/// else the hue `360 * iter / max_iter`. A limit of zero leaves the hue
/// undefined; such a result is drawn red.
pub open spec fn color_spec(escape: Option<usize>, max_iter: usize) -> Seq<int> {
    match escape {
        None => seq![0, 0, 0],
        Some(iter) => if max_iter == 0 {
            seq![255, 0, 0]
        } else {
            hue_rgb(6 * iter, max_iter as int)
        },
    }
}

/// `rgb` holds the three channels of `c`.
pub open spec fn rgb_matches(rgb: [u8; 3], c: Seq<int>) -> bool {
    &&& c.len() == 3
    &&& rgb[0] as int == c[0]
    &&& rgb[1] as int == c[1]
    &&& rgb[2] as int == c[2]
}

proof fn lemma_secondary_bounds(n: int, d: int)
    requires
        n >= 0,
        d > 0,
    ensures
        0 <= n % (2 * d) < 2 * d,
        0 <= d - dist(n % (2 * d), d) <= d,
        0 <= secondary(n, d) <= 255,
{
    let r = n % (2 * d);
    let k = d - dist(r, d);
    assert(0 <= k <= d);
    assert(0 <= 510 * k + d <= 511 * d) by (nonlinear_arith)
        requires
            0 <= k <= d,
    ;
    assert((510 * k + d) / (2 * d) <= 255) by (nonlinear_arith)
        requires
            0 <= 510 * k + d <= 511 * d,
            d > 0,
    ;
    assert((510 * k + d) / (2 * d) >= 0) by (nonlinear_arith)
        requires
            0 <= 510 * k + d,
            d > 0,
    ;
}

/// The RGB colour of hue `60 * n / d` degrees, at full saturation and value.
/// The bound on `d` keeps the channel arithmetic within `u128`.
pub fn hue_to_rgb(n: u128, d: u128) -> (rgb: [u8; 3])
    requires
        0 < d < 0x1_0000_0000_0000_0000_0000,
    ensures
        rgb_matches(rgb, hue_rgb(n as int, d as int)),
{
    proof {
        lemma_secondary_bounds(n as int, d as int);
    }
    let r = n % (2 * d);
    let dist_rd = if r >= d { r - d } else { d - r };
    let x = ((510 * (d - dist_rd) + d) / (2 * d)) as u8;
    let sector = n / d;
    if sector == 0 {
        [255, x, 0]
    } else if sector == 1 {
        [x, 255, 0]
    } else if sector == 2 {
        [0, 255, x]
    } else if sector == 3 {
        [0, x, 255]
    } else if sector == 4 {
        [x, 0, 255]
    } else {
        [255, 0, x]
    }
}

/// Colours an escape result: black when the point never escaped, otherwise
/// the rainbow hue `360 * iter / max_iter` at full saturation and value.
pub fn color_from_escape(escape: Option<usize>, max_iter: usize) -> (rgb: [u8; 3])
    ensures
        rgb_matches(rgb, color_spec(escape, max_iter)),
        escape is None ==> rgb == [0u8, 0u8, 0u8],
{
    match escape {
        None => [0, 0, 0],
        Some(iter) => {
            if max_iter == 0 {
                [255, 0, 0]
            } else {
                hue_to_rgb(6 * (iter as u128), max_iter as u128)
            }
        },
    }
}

} // verus!
