use vstd::prelude::*;
use crate::color::{color_from_escape, color_spec};

verus! {

/// The three bytes of the pixel at `column`, `row` of a row-major RGB
/// buffer of the given width hold `c`.
pub open spec fn pixel_is(
    pixels: Seq<u8>,
    width: int,
    column: int,
    row: int,
    c: Seq<int>,
) -> bool {
    let offset = 3 * (row * width + column);
    &&& c.len() == 3
    &&& pixels[offset] as int == c[0]
    &&& pixels[offset + 1] as int == c[1]
    &&& pixels[offset + 2] as int == c[2]
}

/// The pixel at `column`, `row` holds the colour of an escape result that
/// `escape_at` may give for it.
pub open spec fn pixel_rendered<F: Fn((usize, usize)) -> Option<usize>>(
    pixels: Seq<u8>,
    width: usize,
    column: usize,
    row: usize,
    escape_at: F,
    max_iter: usize,
) -> bool {
    exists|e: Option<usize>|
        escape_at.ensures(((column, row),), e) && pixel_is(
            pixels,
            width as int,
            column as int,
            row as int,
            color_spec(e, max_iter),
        )
}

/// Every pixel of `pixels` holds the colour of an escape result that
/// `escape_at` may give for that pixel.
pub open spec fn is_rendering<F: Fn((usize, usize)) -> Option<usize>>(
    pixels: Seq<u8>,
    bounds: (usize, usize),
    escape_at: F,
    max_iter: usize,
) -> bool {
    &&& pixels.len() == bounds.0 * bounds.1 * 3
    &&& forall|row: usize, column: usize|
        row < bounds.1 && column < bounds.0 ==> #[trigger] pixel_rendered(
            pixels,
            bounds.0,
            column,
            row,
            escape_at,
            max_iter,
        )
}

proof fn lemma_offset_bounds(width: int, height: int, column: int, row: int)
    requires
        0 <= column < width,
        0 <= row < height,
    ensures
        0 <= row * width + column < width * height,
        3 * (row * width + column) + 2 < width * height * 3,
{
    assert(row * width + column < width * height) by (nonlinear_arith)
        requires
            0 <= column < width,
            0 <= row < height,
    ;
    assert(row * width >= 0) by (nonlinear_arith)
        requires
            0 <= column < width,
            0 <= row < height,
    ;
}

/// Offsets of distinct pixels are at least three bytes apart.
proof fn lemma_offsets_apart(width: int, c1: int, r1: int, c2: int, r2: int)
    requires
        0 <= c1 < width,
        0 <= c2 < width,
        0 <= r1,
        0 <= r2,
        (r1, c1) != (r2, c2),
    ensures
        3 * (r1 * width + c1) + 3 <= 3 * (r2 * width + c2) || 3 * (r2 * width + c2) + 3 <= 3 * (
        r1 * width + c1),
{
    if r1 == r2 {
    } else if r1 < r2 {
        assert(r1 * width + width <= r2 * width) by (nonlinear_arith)
            requires
                r1 < r2,
                width >= 0,
        ;
    } else {
        assert(r2 * width + width <= r1 * width) by (nonlinear_arith)
            requires
                r2 < r1,
                width >= 0,
        ;
    }
}

/// Fills `pixels`, a row-major RGB buffer of `bounds.0` columns and
/// `bounds.1` rows, with the colour of each pixel's escape result, as
/// `escape_at` gives it for the pixel's `(column, row)`.
pub fn render<F: Fn((usize, usize)) -> Option<usize>>(
    pixels: &mut [u8],
    bounds: (usize, usize),
    escape_at: F,
    max_iter: usize,
)
    requires
        old(pixels)@.len() == bounds.0 * bounds.1 * 3,
        forall|row: usize, column: usize|
            row < bounds.1 && column < bounds.0 ==> escape_at.requires(((column, row),)),
    ensures
        is_rendering(final(pixels)@, bounds, escape_at, max_iter),
{
    let width = bounds.0;
    let height = bounds.1;
    let len = pixels.len();
    let mut row: usize = 0;
    while row < height
        invariant
            len == pixels@.len(),
            width == bounds.0,
            height == bounds.1,
            row <= height,
            pixels@.len() == width * height * 3,
            forall|row: usize, column: usize|
                row < height && column < width ==> escape_at.requires(((column, row),)),
            forall|r: usize, c: usize|
                r < row && c < width ==> #[trigger] pixel_rendered(
                    pixels@,
                    width,
                    c,
                    r,
                    escape_at,
                    max_iter,
                ),
        decreases height - row,
    {
        let mut column: usize = 0;
        while column < width
            invariant
                width == bounds.0,
                height == bounds.1,
                row < height,
                column <= width,
                len == pixels@.len(),
                pixels@.len() == width * height * 3,
                forall|row: usize, column: usize|
                    row < height && column < width ==> escape_at.requires(((column, row),)),
                forall|r: usize, c: usize|
                    (r < row && c < width) || (r == row && c < column) ==> #[trigger] pixel_rendered(
                        pixels@,
                        width,
                        c,
                        r,
                        escape_at,
                        max_iter,
                    ),
            decreases width - column,
        {
            proof {
                lemma_offset_bounds(width as int, height as int, column as int, row as int);
            }
            let offset = 3 * (row * width + column);
            let escape = escape_at((column, row));
            let color = color_from_escape(escape, max_iter);
            let ghost before = pixels@;
            pixels[offset] = color[0];
            pixels[offset + 1] = color[1];
            pixels[offset + 2] = color[2];
            proof {
                assert forall|r: usize, c: usize|
                    (r < row && c < width) || (r == row && c < column + 1) implies #[trigger] pixel_rendered(
                        pixels@,
                        width,
                        c,
                        r,
                        escape_at,
                        max_iter,
                    ) by {
                    if r == row && c == column {
                        assert(escape_at.ensures(((c, r),), escape));
                        assert(pixel_is(
                            pixels@,
                            width as int,
                            c as int,
                            r as int,
                            color_spec(escape, max_iter),
                        ));
                    } else {
                        assert(pixel_rendered(before, width, c, r, escape_at, max_iter));
                        let e = choose|e: Option<usize>|
                            escape_at.ensures(((c, r),), e) && pixel_is(
                                before,
                                width as int,
                                c as int,
                                r as int,
                                color_spec(e, max_iter),
                            );
                        lemma_offsets_apart(
                            width as int,
                            c as int,
                            r as int,
                            column as int,
                            row as int,
                        );
                        lemma_offset_bounds(width as int, height as int, c as int, r as int);
                        assert(pixel_is(
                            pixels@,
                            width as int,
                            c as int,
                            r as int,
                            color_spec(e, max_iter),
                        ));
                    }
                }
            }
            column = column + 1;
        }
        row = row + 1;
    }
}

} // verus!

verus! {

/// Rendering is a function of its inputs: when the escape evaluator gives
/// one result per pixel, any two renderings of the same bounds, evaluator
/// and iteration limit are byte for byte the same.
pub proof fn lemma_render_deterministic<F: Fn((usize, usize)) -> Option<usize>>(
    a: Seq<u8>,
    b: Seq<u8>,
    bounds: (usize, usize),
    escape_at: F,
    max_iter: usize,
)
    requires
        is_rendering(a, bounds, escape_at, max_iter),
        is_rendering(b, bounds, escape_at, max_iter),
        forall|p: (usize, usize), e1: Option<usize>, e2: Option<usize>|
            escape_at.ensures((p,), e1) && escape_at.ensures((p,), e2) ==> e1 == e2,
    ensures
        a == b,
{
    let width = bounds.0 as int;
    let height = bounds.1 as int;
    assert forall|k: int| 0 <= k < a.len() implies a[k] == b[k] by {
        let p = k / 3;
        let row = p / width;
        let column = p % width;
        assert(width > 0 && height > 0) by (nonlinear_arith)
            requires
                0 <= k < width * height * 3,
                width >= 0,
                height >= 0,
        ;
        assert(0 <= p < width * height && k == 3 * p + k % 3 && 0 <= k % 3 < 3);
        assert(p == row * width + column && 0 <= column < width && 0 <= row) by (nonlinear_arith)
            requires
                p >= 0,
                width > 0,
                row == p / width,
                column == p % width,
        ;
        assert(row < height) by (nonlinear_arith)
            requires
                p == row * width + column,
                p < width * height,
                0 <= column,
                width > 0,
        ;
        let (r, c) = (row as usize, column as usize);
        assert(pixel_rendered(a, bounds.0, c, r, escape_at, max_iter));
        assert(pixel_rendered(b, bounds.0, c, r, escape_at, max_iter));
        let ea = choose|e: Option<usize>|
            escape_at.ensures(((c, r),), e) && pixel_is(
                a,
                width,
                column,
                row,
                color_spec(e, max_iter),
            );
        let eb = choose|e: Option<usize>|
            escape_at.ensures(((c, r),), e) && pixel_is(
                b,
                width,
                column,
                row,
                color_spec(e, max_iter),
            );
        assert(ea == eb);
    }
    assert(a =~= b);
}

} // verus!
