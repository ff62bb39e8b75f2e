//! Reading the colours of cover art: the cover is decoded and sampled on a
//! grid of about 32 × 32 points, whose colours the interface weighs to pick
//! an accent.

use vstd::prelude::*;

verus! {

/// What the `image` crate decodes `bytes` into, as RGBA8: width, height and
/// the pixels row by row, four bytes each; `None` when it cannot decode them.
pub uninterp spec fn decoded_image(bytes: Seq<u8>) -> Option<(u32, u32, Seq<u8>)>;

/// Decodes an image whose format is recognised from its content
/// (`image::load_from_memory`, then `to_rgba8`, `dimensions` and `into_raw`).
/// Claimed: the result is the decoding named by [`decoded_image`], and the
/// pixel buffer holds at least four bytes for each of the `width * height`
/// pixels, as the `ImageBuffer` type keeps it.
#[verifier::external_body]
fn decode_rgba(bytes: &[u8]) -> (r: Option<(u32, u32, Vec<u8>)>)
    ensures
        r is None <==> decoded_image(bytes@) is None,
        r matches Some(t) ==> decoded_image(bytes@) == Some((t.0, t.1, t.2@)) && t.2@.len() >= 4
            * t.0 * t.1,
{
    match image::load_from_memory(bytes) {
        Ok(img) => {
            let rgba = img.to_rgba8();
            let (w, h) = rgba.dimensions();
            Some((w, h, rgba.into_raw()))
        },
        Err(_) => None,
    }
}

/// Distance between sampled points along a side of `n` pixels: a
/// thirty-second of it, at least 1.
pub open spec fn grid_step(n: nat) -> nat {
    if n / 32 > 1 {
        n / 32
    } else {
        1
    }
}

/// Point `i` of a line of `n` pixels sampled every `step` lies inside it.
pub open spec fn on_grid(i: nat, step: nat, n: nat) -> bool {
    i * step < n
}

/// The colour (red, green, blue) of pixel `(x, y)` of an RGBA8 image `w` pixels wide.
pub open spec fn pixel_rgb(px: Seq<u8>, w: nat, x: nat, y: nat) -> (u8, u8, u8) {
    let i = (y * w + x) * 4;
    (px[i as int], px[i as int + 1], px[i as int + 2])
}

/// The grid of samples of an image: row `i` holds the points on line
/// `i * step_y`, column `j` the point at `j * step_x`, for every such line
/// and point inside the image.
pub open spec fn is_sample_grid(rows: Seq<Seq<(u8, u8, u8)>>, w: nat, h: nat, px: Seq<u8>) -> bool {
    let sx = grid_step(w);
    let sy = grid_step(h);
    &&& forall|i: nat| i < rows.len() <==> #[trigger] on_grid(i, sy, h)
    &&& forall|i: int|
        #![trigger rows[i]]
        0 <= i < rows.len() ==> {
            &&& forall|j: nat| j < rows[i].len() <==> #[trigger] on_grid(j, sx, w)
            &&& forall|j: int|
                0 <= j < rows[i].len() ==> #[trigger] rows[i][j] == pixel_rgb(
                    px,
                    w,
                    (j * sx) as nat,
                    (i * sy) as nat,
                )
        }
}

proof fn lemma_mul_mono(a: nat, b: nat, s: nat)
    requires
        a <= b,
    ensures
        a * s <= b * s,
{
    assert(a * s <= b * s) by (nonlinear_arith)
        requires
            a <= b,
    ;
}

/// The samples of an RGBA8 image `w` × `h`: the colours on the grid,
/// row by row.
pub fn sample_grid(w: u32, h: u32, px: &Vec<u8>) -> (rows: Vec<Vec<(u8, u8, u8)>>)
    requires
        px@.len() >= 4 * w * h,
    ensures
        is_sample_grid(rows.deep_view(), w as nat, h as nat, px@),
{
    let sx: u64 = if w / 32 > 1 {
        (w / 32) as u64
    } else {
        1
    };
    let sy: u64 = if h / 32 > 1 {
        (h / 32) as u64
    } else {
        1
    };
    let ghost gx = grid_step(w as nat);
    let ghost gy = grid_step(h as nat);
    assert(sx == gx && sy == gy);
    assert(sx >= 1 && sy >= 1);
    let mut rows: Vec<Vec<(u8, u8, u8)>> = Vec::new();
    let mut y: u64 = 0;
    let mut i: usize = 0;
    while y < h as u64
        invariant
            px@.len() >= 4 * w * h,
            sx == grid_step(w as nat),
            sy == grid_step(h as nat),
            sy >= 1,
            y == i * sy,
            i <= y,
            rows.len() == i,
            forall|k: nat| k < i ==> #[trigger] on_grid(k, sy as nat, h as nat),
            forall|k: int|
                #![trigger rows@[k]]
                0 <= k < rows.len() ==> {
                    &&& forall|j: nat| j < rows@[k]@.len() <==> #[trigger] on_grid(j, sx as nat, w as nat)
                    &&& forall|j: int|
                        0 <= j < rows@[k]@.len() ==> #[trigger] rows@[k]@[j] == pixel_rgb(
                            px@,
                            w as nat,
                            (j * sx) as nat,
                            (k * sy) as nat,
                        )
                },
        decreases h - i,
    {
        let mut row: Vec<(u8, u8, u8)> = Vec::new();
        let mut x: u64 = 0;
        let mut j: usize = 0;
        while x < w as u64
            invariant
                px@.len() >= 4 * w * h,
                sx == grid_step(w as nat),
                sx >= 1,
                y < h,
                x == j * sx,
                j <= x,
                row.len() == j,
                forall|k: nat| k < j ==> #[trigger] on_grid(k, sx as nat, w as nat),
                forall|k: int|
                    0 <= k < row.len() ==> #[trigger] row@[k] == pixel_rgb(
                        px@,
                        w as nat,
                        (k * sx) as nat,
                        y as nat,
                    ),
            decreases w - j,
        {
            assert((y * w + x) * 4 + 3 < 4 * w * h) by (nonlinear_arith)
                requires
                    y < h,
                    x < w,
            ;
            assert(y * w < 0x1_0000_0000_0000_0000 * 0x1_0000_0000) by (nonlinear_arith)
                requires
                    y < h,
                    h <= 0xffff_ffff,
                    w <= 0xffff_ffff,
            ;
            let base128: u128 = (y as u128 * w as u128 + x as u128) * 4;
            let n = px.len();
            assert(base128 + 2 < n);
            let base: usize = base128 as usize;
            row.push((px[base], px[base + 1], px[base + 2]));
            x = x + sx;
            j = j + 1;
            assert(x == j * sx) by (nonlinear_arith)
                requires
                    x == (j - 1) * sx + sx,
            ;
        }
        proof {
            assert forall|k: nat| k < row@.len() <==> #[trigger] on_grid(k, sx as nat, w as nat) by {
                if k >= j {
                    lemma_mul_mono(j as nat, k, sx as nat);
                }
            }
        }
        let ghost old_rows = rows@;
        rows.push(row);
        assert forall|k: int| 0 <= k < old_rows.len() implies rows@[k] == old_rows[k] by {}
        y = y + sy;
        i = i + 1;
        assert(y == i * sy) by (nonlinear_arith)
            requires
                y == (i - 1) * sy + sy,
        ;
    }
    proof {
        assert forall|k: nat| k < rows@.len() <==> #[trigger] on_grid(k, sy as nat, h as nat) by {
            if k >= i {
                lemma_mul_mono(i as nat, k, sy as nat);
            }
        }
        assert forall|k: int| 0 <= k < rows.deep_view().len() implies #[trigger] rows.deep_view()[k]
            == rows@[k]@ by {}
    }
    rows
}

/// The grid of colour samples of a cover image, or `None` when it cannot
/// be decoded.
pub fn accent_samples(image_bytes: &[u8]) -> (r: Option<Vec<Vec<(u8, u8, u8)>>>)
    ensures
        r is None <==> decoded_image(image_bytes@) is None,
        r matches Some(rows) ==> {
            let (w, h, px) = decoded_image(image_bytes@)->0;
            is_sample_grid(rows.deep_view(), w as nat, h as nat, px)
        },
{
    match decode_rgba(image_bytes) {
        Some((w, h, px)) => Some(sample_grid(w, h, &px)),
        None => None,
    }
}

} // verus!
