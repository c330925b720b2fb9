//! Pixel geometry that needs no resampling: quarter-turn orientation with
//! flips, cutting out an integer pixel rectangle, and the bookkeeping of the
//! orientation steps. Images are row-major with three values per pixel.

use vstd::prelude::*;
use rayon::iter::{IndexedParallelIterator, ParallelIterator};
use rayon::slice::ParallelSliceMut;

verus! {

/// Values per pixel.
pub const CHANNELS: usize = 3;

/// Quarter turns clockwise after rotating right once.
pub fn turn_cw(rotate90: u8) -> (r: u8)
    requires
        rotate90 < 255,
    ensures
        r == (rotate90 + 1) % 4,
{
    (rotate90 + 1) % 4
}

/// Quarter turns clockwise after rotating left once.
pub fn turn_ccw(rotate90: u8) -> (r: u8)
    requires
        rotate90 < 253,
    ensures
        r == (rotate90 + 3) % 4,
{
    (rotate90 + 3) % 4
}

/// Turning right then left (or left then right) returns to the same
/// orientation.
pub proof fn lemma_turns_cancel(rotate90: u8)
    requires
        rotate90 < 4,
    ensures
        (((rotate90 + 1) % 4) + 3) % 4 == rotate90,
        (((rotate90 + 3) % 4) + 1) % 4 == rotate90,
{
}

/// Whether the orientation step changes anything.
pub fn has_orientation(rotate90: u8, flip_h: bool, flip_v: bool) -> (r: bool)
    ensures
        r == (rotate90 % 4 != 0 || flip_h || flip_v),
{
    rotate90 % 4 != 0 || flip_h || flip_v
}

/// Dimensions after the 90° orientation step alone: an odd number of
/// quarter turns swaps width and height.
pub fn source_dims(w: usize, h: usize, rotate90: u8) -> (r: (usize, usize))
    ensures
        r == (if rotate90 % 2 == 1 { (h, w) } else { (w, h) }),
{
    if rotate90 % 2 == 1 {
        (h, w)
    } else {
        (w, h)
    }
}

/// Where the oriented image's pixel (x, y) comes from in the source: flips
/// are undone first (they act on the already-turned frame), then the `k`
/// quarter turns clockwise. `dw` x `dh` is the oriented frame, `sw` x `sh`
/// the source.
pub open spec fn oriented_from(
    x: int,
    y: int,
    dw: int,
    dh: int,
    sw: int,
    sh: int,
    k: u8,
    flip_h: bool,
    flip_v: bool,
) -> (int, int) {
    let ux = if flip_h { dw - 1 - x } else { x };
    let uy = if flip_v { dh - 1 - y } else { y };
    if k == 1 {
        (uy, sh - 1 - ux)
    } else if k == 2 {
        (sw - 1 - ux, sh - 1 - uy)
    } else if k == 3 {
        (sw - 1 - uy, ux)
    } else {
        (ux, uy)
    }
}

/// The oriented frame's size.
pub open spec fn oriented_size(sw: int, sh: int, k: u8) -> (int, int) {
    if k % 2 == 1 {
        (sh, sw)
    } else {
        (sw, sh)
    }
}

/// Index into the source of channel `c` of the oriented image's pixel
/// (x, y).
#[verifier::opaque]
pub open spec fn source_index(
    x: int,
    y: int,
    c: int,
    sw: int,
    sh: int,
    k: u8,
    flip_h: bool,
    flip_v: bool,
) -> int {
    let (dw, dh) = oriented_size(sw, sh, k);
    let (sx, sy) = oriented_from(x, y, dw, dh, sw, sh, k, flip_h, flip_v);
    (sy * sw + sx) * 3 + c
}

/// Element `i` of the oriented image.
pub open spec fn oriented_value<T>(
    src: Seq<T>,
    sw: int,
    sh: int,
    k: u8,
    flip_h: bool,
    flip_v: bool,
    i: int,
) -> T {
    let dw = oriented_size(sw, sh, k).0;
    let p = i / 3;
    src[source_index(p % dw, p / dw, i % 3, sw, sh, k, flip_h, flip_v)]
}

proof fn lemma_source_index_in_bounds(
    x: int,
    y: int,
    c: int,
    sw: int,
    sh: int,
    k: u8,
    flip_h: bool,
    flip_v: bool,
)
    requires
        k < 4,
        0 <= c < 3,
        ({
            let (dw, dh) = oriented_size(sw, sh, k);
            0 <= x < dw && 0 <= y < dh
        }),
    ensures
        0 <= source_index(x, y, c, sw, sh, k, flip_h, flip_v) < sw * sh * 3,
{
    reveal(source_index);
    let (dw, dh) = oriented_size(sw, sh, k);
    let (sx, sy) = oriented_from(x, y, dw, dh, sw, sh, k, flip_h, flip_v);
    assert(0 <= sx < sw && 0 <= sy < sh);
    lemma_pixel_index(sx, sy, sw, sh, c);
}

proof fn lemma_pixel_index(x: int, y: int, w: int, h: int, c: int)
    requires
        0 <= x < w,
        0 <= y < h,
        0 <= c < 3,
    ensures
        0 <= (y * w + x) * 3 + c < w * h * 3,
{
    assert(y * w + x < w * h) by (nonlinear_arith)
        requires
            0 <= x < w,
            0 <= y < h,
    ;
    assert((y * w + x) * 3 + c < w * h * 3) by (nonlinear_arith)
        requires
            y * w + x < w * h,
            0 <= c < 3,
    ;
    assert(0 <= y * w) by (nonlinear_arith)
        requires
            0 <= y,
            0 <= w,
    ;
}

/// Index into the source of the first channel of the oriented image's
/// pixel (x, y).
fn source_of(
    x: usize,
    y: usize,
    dw: usize,
    dh: usize,
    sw: usize,
    sh: usize,
    k: u8,
    flip_h: bool,
    flip_v: bool,
) -> (s: usize)
    requires
        k < 4,
        sw * sh * 3 <= usize::MAX,
        (dw as int, dh as int) == oriented_size(sw as int, sh as int, k),
        x < dw,
        y < dh,
    ensures
        s + 2 < sw * sh * 3,
        forall|c: int| 0 <= c < 3 ==> s + c == source_index(x as int, y as int, c, sw as int, sh as int, k, flip_h, flip_v),
{
    let ux = if flip_h {
        dw - 1 - x
    } else {
        x
    };
    let uy = if flip_v {
        dh - 1 - y
    } else {
        y
    };
    let (sx, sy) = if k == 1 {
        (uy, sh - 1 - ux)
    } else if k == 2 {
        (sw - 1 - ux, sh - 1 - uy)
    } else if k == 3 {
        (sw - 1 - uy, ux)
    } else {
        (ux, uy)
    };
    proof {
        assert(sx < sw && sy < sh);
        lemma_pixel_index(sx as int, sy as int, sw as int, sh as int, 2);
        assert forall|c: int| 0 <= c < 3 implies (sy * sw + sx) * 3 + c == source_index(
            x as int,
            y as int,
            c,
            sw as int,
            sh as int,
            k,
            flip_h,
            flip_v,
        ) by {
            reveal(source_index);
        }
    }
    (sy * sw + sx) * 3
}

/// Fill row `y` of the oriented image.
pub fn fill_oriented_row<T: Copy>(
    row: &mut [T],
    src: &[T],
    y: usize,
    sw: usize,
    sh: usize,
    k: u8,
    flip_h: bool,
    flip_v: bool,
)
    requires
        k < 4,
        src@.len() == sw * sh * 3,
        y < oriented_size(sw as int, sh as int, k).1,
        old(row)@.len() == oriented_size(sw as int, sh as int, k).0 * 3,
    ensures
        final(row)@.len() == old(row)@.len(),
        forall|j: int|
            0 <= j < final(row)@.len() ==> #[trigger] final(row)@[j] == src@[source_index(
                j / 3,
                y as int,
                j % 3,
                sw as int,
                sh as int,
                k,
                flip_h,
                flip_v,
            )],
{
    let (dw, dh) = if k % 2 == 1 {
        (sh, sw)
    } else {
        (sw, sh)
    };
    let slen = src.len();
    let rlen = row.len();
    let mut x: usize = 0;
    while x < dw
        invariant
            slen == src@.len() == sw * sh * 3,
            rlen == row@.len() == dw * 3,
            k < 4,
            (dw as int, dh as int) == oriented_size(sw as int, sh as int, k),
            y < dh,
            x <= dw,
            forall|j: int|
                0 <= j < x * 3 ==> #[trigger] row@[j] == src@[source_index(
                    j / 3,
                    y as int,
                    j % 3,
                    sw as int,
                    sh as int,
                    k,
                    flip_h,
                    flip_v,
                )],
        decreases dw - x,
    {
        let s = source_of(x, y, dw, dh, sw, sh, k, flip_h, flip_v);
        let d = x * 3;
        let ghost before = row@;
        row[d] = src[s];
        row[d + 1] = src[s + 1];
        row[d + 2] = src[s + 2];
        proof {
            assert forall|j: int| 0 <= j < (x + 1) * 3 implies #[trigger] row@[j] == src@[source_index(
                j / 3,
                y as int,
                j % 3,
                sw as int,
                sh as int,
                k,
                flip_h,
                flip_v,
            )] by {
                if j >= x * 3 {
                    assert(j / 3 == x as int);
                    assert(j % 3 == j - x * 3);
                    assert(row@[j] == src@[s + (j - x * 3)]);
                } else {
                    assert(row@[j] == before[j]);
                }
            }
        }
        x += 1;
    }
}

/// A buffer of `n` copies of `v`, to be overwritten.
fn filled<T: Copy>(v: T, n: usize) -> (r: Vec<T>)
    ensures
        r@.len() == n,
{
    let mut r: Vec<T> = Vec::new();
    let mut i: usize = 0;
    while i < n
        invariant
            i <= n,
            r@.len() == i,
        decreases n - i,
    {
        r.push(v);
        i += 1;
    }
    r
}

/// Fill `out`, row by row over rayon's threads, each row of `row_len`
/// values by `fill_oriented_row`. The contract states the whole image; it
/// rests on rayon's `par_chunks_mut` and `enumerate` handing each row, with
/// its index, to exactly one call.
#[verifier::external_body]
fn par_orient<T: Copy + Send + Sync>(
    out: &mut Vec<T>,
    row_len: usize,
    src: &[T],
    sw: usize,
    sh: usize,
    k: u8,
    flip_h: bool,
    flip_v: bool,
)
    requires
        k < 4,
        src@.len() == sw * sh * 3,
        row_len == oriented_size(sw as int, sh as int, k).0 * 3,
        row_len > 0,
        old(out)@.len() == src@.len(),
    ensures
        final(out)@.len() == src@.len(),
        forall|i: int|
            0 <= i < final(out)@.len() ==> final(out)@[i] == oriented_value(src@, sw as int, sh as int, k, flip_h, flip_v, i),
{
    out.par_chunks_mut(row_len).enumerate().for_each(
        |(y, row)| fill_oriented_row(row, src, y, sw, sh, k, flip_h, flip_v),
    );
}

/// Value `i` of the transpose of a `w` x `h` single-channel image: the
/// transpose has `w` rows of `h` values, row `x` being column `x` of the
/// source.
pub open spec fn transposed_value<T>(src: Seq<T>, w: int, h: int, i: int) -> T {
    src[(i % h) * w + i / h]
}

/// Fill `row` with column `x` of the `w` x `h` image `src`.
pub fn fill_transposed_row<T: Copy>(row: &mut [T], src: &[T], x: usize, w: usize, h: usize)
    requires
        old(row)@.len() == h,
        x < w,
        src@.len() == w * h,
    ensures
        final(row)@.len() == h,
        forall|y: int| 0 <= y < h ==> final(row)@[y] == src@[y * w + x],
{
    let n = src.len();
    let mut y: usize = 0;
    while y < h
        invariant
            row@.len() == h,
            n == src@.len() == w * h,
            x < w,
            y <= h,
            forall|j: int| 0 <= j < y ==> row@[j] == src@[j * w + x],
        decreases h - y,
    {
        proof {
            assert(y * w + x < w * h) by (nonlinear_arith)
                requires
                    y < h,
                    x < w,
            ;
            assert(y * w <= y * w + x);
        }
        row[y] = src[y * w + x];
        y += 1;
    }
}

proof fn lemma_transposed_index(i: int, w: int, h: int)
    requires
        0 <= i < w * h,
        h > 0,
    ensures
        0 <= i / h < w,
        0 <= i % h < h,
        (i % h) * w + i / h < w * h,
{
    assert(0 <= i / h < w) by (nonlinear_arith)
        requires
            0 <= i < w * h,
            h > 0,
    ;
    assert((i % h) * w + i / h < w * h) by (nonlinear_arith)
        requires
            0 <= i % h < h,
            0 <= i / h < w,
    ;
}

/// Write the transpose of `src` into `dst`, one output row per rayon task.
/// The contract states the whole result; it rests on rayon's
/// `par_chunks_mut` and `enumerate` handing each row of `h` values, with
/// its index, to exactly one call of `fill_transposed_row`.
#[verifier::external_body]
fn par_transpose<T: Copy + Send + Sync>(src: &[T], dst: &mut [T], w: usize, h: usize)
    requires
        h > 0,
        src@.len() == w * h,
        old(dst)@.len() == w * h,
    ensures
        final(dst)@.len() == w * h,
        forall|i: int|
            0 <= i < w * h ==> final(dst)@[i] == transposed_value(src@, w as int, h as int, i),
{
    dst.par_chunks_mut(h).enumerate().for_each(|(x, row)| fill_transposed_row(row, src, x, w, h));
}

/// Transpose a `w` x `h` single-channel image into `dst`, so that the
/// separable blur can run its row pass over the columns.
pub fn transpose<T: Copy + Send + Sync>(src: &[T], dst: &mut [T], w: usize, h: usize)
    requires
        h > 0,
        src@.len() == w * h,
        old(dst)@.len() == w * h,
    ensures
        final(dst)@.len() == w * h,
        forall|x: int, y: int|
            0 <= x < w && 0 <= y < h ==> #[trigger] final(dst)@[x * h + y] == src@[y * w + x],
{
    par_transpose(src, dst, w, h);
    proof {
        assert forall|x: int, y: int| 0 <= x < w && 0 <= y < h implies #[trigger] dst@[x * h + y]
            == src@[y * w + x] by {
            let i = x * h + y;
            assert(0 <= i < w * h) by (nonlinear_arith)
                requires
                    0 <= x < w,
                    0 <= y < h,
                    i == x * h + y,
            ;
            lemma_transposed_index(i, w as int, h as int);
            vstd::arithmetic::div_mod::lemma_fundamental_div_mod_converse(i, h as int, x, y);
        }
    }
}

/// Transposing the transpose gives back the image: the blur's second
/// transpose puts every value back where it came from.
pub proof fn lemma_transpose_round_trip<T>(src: Seq<T>, w: int, h: int)
    requires
        w > 0,
        h > 0,
        src.len() == w * h,
    ensures
        ({
            let t = Seq::new((w * h) as nat, |i: int| transposed_value(src, w, h, i));
            forall|i: int| 0 <= i < w * h ==> #[trigger] transposed_value(t, h, w, i) == src[i]
        }),
{
    let t = Seq::new((w * h) as nat, |i: int| transposed_value(src, w, h, i));
    assert forall|i: int| 0 <= i < w * h implies #[trigger] transposed_value(t, h, w, i) == src[i] by {
        assert(h * w == w * h) by (nonlinear_arith);
        lemma_transposed_index(i, h, w);
        let k = (i % w) * h + i / w;
        vstd::arithmetic::div_mod::lemma_fundamental_div_mod_converse(k, h, i % w, i / w);
        vstd::arithmetic::div_mod::lemma_fundamental_div_mod(i, w);
        assert(0 <= k < w * h);
        assert(t[k] == src[(k % h) * w + k / h]);
        assert((i / w) * w + i % w == i) by (nonlinear_arith)
            requires
                i == w * (i / w) + i % w,
        ;
    }
}

/// Turn the image `k` quarter turns clockwise, then flip it (flips act on
/// the already-turned frame). Returns the new pixels with the new width and
/// height. An empty image (one side zero) gives no pixels; the turned
/// width must not be zero, as rows of that width are handed out.
pub fn orient<T: Copy + Send + Sync>(
    src: &[T],
    sw: usize,
    sh: usize,
    k: u8,
    flip_h: bool,
    flip_v: bool,
) -> (r: (Vec<T>, usize, usize))
    requires
        k < 4,
        oriented_size(sw as int, sh as int, k).0 > 0,
        src@.len() == sw * sh * 3,
    ensures
        (r.1 as int, r.2 as int) == oriented_size(sw as int, sh as int, k),
        r.0@.len() == src@.len(),
        forall|i: int|
            0 <= i < r.0@.len() ==> r.0@[i] == oriented_value(src@, sw as int, sh as int, k, flip_h, flip_v, i),
{
    let (dw, dh) = if k % 2 == 1 {
        (sh, sw)
    } else {
        (sw, sh)
    };
    if src.len() == 0 {
        return (Vec::new(), dw, dh);
    }
    proof {
        assert(sw > 0 && sh > 0) by (nonlinear_arith)
            requires
                sw * sh * 3 > 0,
                sw >= 0,
                sh >= 0,
        ;
        assert(dw * 3 <= sw * sh * 3) by (nonlinear_arith)
            requires
                dw == sw || dw == sh,
                sw > 0,
                sh > 0,
        ;
    }
    let mut out = filled(src[0], src.len());
    par_orient(&mut out, dw * CHANNELS, src, sw, sh, k, flip_h, flip_v);
    (out, dw, dh)
}

/// A crop rectangle in whole pixels (x, y, w, h) held inside a `width` x
/// `height` image: the corner no further than the last pixel, the size at
/// least one pixel and no more than what is left past the corner.
pub fn clamp_region(
    raw_x: usize,
    raw_y: usize,
    raw_w: usize,
    raw_h: usize,
    width: usize,
    height: usize,
) -> (r: (usize, usize, usize, usize))
    requires
        width > 0,
        height > 0,
    ensures
        r.0 == (if raw_x < width - 1 { raw_x } else { (width - 1) as usize }),
        r.1 == (if raw_y < height - 1 { raw_y } else { (height - 1) as usize }),
        r.2 == (if raw_w < 1 { 1 } else if raw_w > width - r.0 { (width - r.0) as usize } else { raw_w }),
        r.3 == (if raw_h < 1 { 1 } else if raw_h > height - r.1 { (height - r.1) as usize } else { raw_h }),
        1 <= r.2 && r.0 + r.2 <= width,
        1 <= r.3 && r.1 + r.3 <= height,
{
    let x0 = if raw_x < width - 1 { raw_x } else { width - 1 };
    let y0 = if raw_y < height - 1 { raw_y } else { height - 1 };
    let mut w = if raw_w < 1 { 1 } else { raw_w };
    if w > width - x0 {
        w = width - x0;
    }
    let mut h = if raw_h < 1 { 1 } else { raw_h };
    if h > height - y0 {
        h = height - y0;
    }
    (x0, y0, w, h)
}

/// Element `i` of the `w` x `h` region cut from a `width`-wide image at
/// (x0, y0).
pub open spec fn region_value<T>(src: Seq<T>, width: int, x0: int, y0: int, w: int, i: int) -> T {
    let p = i / 3;
    src[((y0 + p / w) * width + x0 + p % w) * 3 + i % 3]
}

proof fn lemma_region_index(width: int, height: int, x0: int, y0: int, w: int, h: int, y: int, j: int)
    requires
        1 <= w,
        x0 + w <= width,
        y0 + h <= height,
        0 <= x0,
        0 <= y0,
        0 <= y < h,
        0 <= j < w * 3,
    ensures
        0 <= ((y0 + y) * width + x0) * 3 + j < width * height * 3,
        ((y0 + y) * width + x0) * 3 + j == ((y0 + y) * width + x0 + j / 3) * 3 + j % 3,
{
    assert(0 <= (y0 + y) * width) by (nonlinear_arith)
        requires
            0 <= y0 + y,
            0 <= width,
    ;
    assert((y0 + y) * width + x0 + w <= (y0 + y + 1) * width) by (nonlinear_arith)
        requires
            x0 + w <= width,
    ;
    assert((y0 + y + 1) * width <= height * width) by (nonlinear_arith)
        requires
            y0 + y + 1 <= height,
            0 <= width,
    ;
    assert(width * height == height * width) by (nonlinear_arith);
}

/// Fill row `y` of a region cut out of a `width` x `height` image.
pub fn fill_region_row<T: Copy>(
    row: &mut [T],
    src: &[T],
    y: usize,
    width: usize,
    height: usize,
    x0: usize,
    y0: usize,
    w: usize,
    h: usize,
)
    requires
        src@.len() == width * height * 3,
        1 <= w,
        x0 + w <= width,
        y0 + h <= height,
        y < h,
        old(row)@.len() == w * 3,
    ensures
        final(row)@.len() == old(row)@.len(),
        forall|j: int|
            0 <= j < final(row)@.len() ==> #[trigger] final(row)@[j] == src@[((y0 + y) * width + x0
                + j / 3) * 3 + j % 3],
{
    let slen = src.len();
    let n = row.len();
    proof {
        lemma_region_index(width as int, height as int, x0 as int, y0 as int, w as int, h as int, y as int, 0);
        lemma_region_index(width as int, height as int, x0 as int, y0 as int, w as int, h as int, y as int, (n - 1) as int);
    }
    let start = ((y0 + y) * width + x0) * 3;
    let mut j: usize = 0;
    while j < n
        invariant
            slen == src@.len() == width * height * 3,
            n == row@.len() == w * 3,
            1 <= w,
            x0 + w <= width,
            y0 + h <= height,
            y < h,
            start == ((y0 + y) * width + x0) * 3,
            j <= n,
            forall|k: int|
                0 <= k < j ==> #[trigger] row@[k] == src@[((y0 + y) * width + x0 + k / 3) * 3 + k % 3],
        decreases n - j,
    {
        proof {
            lemma_region_index(width as int, height as int, x0 as int, y0 as int, w as int, h as int, y as int, j as int);
        }
        row[j] = src[start + j];
        j += 1;
    }
}

/// Fill `out`, row by row over rayon's threads, each row of `row_len`
/// values by `fill_region_row`. The contract rests on rayon's
/// `par_chunks_mut` and `enumerate` handing each row, with its index, to
/// exactly one call.
#[verifier::external_body]
fn par_region<T: Copy + Send + Sync>(
    out: &mut Vec<T>,
    row_len: usize,
    src: &[T],
    width: usize,
    height: usize,
    x0: usize,
    y0: usize,
    w: usize,
    h: usize,
)
    requires
        src@.len() == width * height * 3,
        1 <= w,
        1 <= h,
        x0 + w <= width,
        y0 + h <= height,
        row_len == w * 3,
        old(out)@.len() == w * h * 3,
    ensures
        final(out)@.len() == w * h * 3,
        forall|i: int|
            0 <= i < final(out)@.len() ==> final(out)@[i] == region_value(src@, width as int, x0 as int, y0 as int, w as int, i),
{
    out.par_chunks_mut(row_len).enumerate().for_each(
        |(y, row)| fill_region_row(row, src, y, width, height, x0, y0, w, h),
    );
}

/// Cut a whole-pixel rectangle out of an image.
pub fn crop_region<T: Copy + Send + Sync>(
    src: &[T],
    width: usize,
    height: usize,
    x0: usize,
    y0: usize,
    w: usize,
    h: usize,
) -> (out: Vec<T>)
    requires
        src@.len() == width * height * 3,
        1 <= w,
        1 <= h,
        x0 + w <= width,
        y0 + h <= height,
    ensures
        out@.len() == w * h * 3,
        forall|i: int|
            0 <= i < out@.len() ==> out@[i] == region_value(src@, width as int, x0 as int, y0 as int, w as int, i),
{
    proof {
        assert(w * h * 3 <= width * height * 3) by (nonlinear_arith)
            requires
                1 <= w <= width,
                1 <= h <= height,
        ;
        assert(w * 3 <= w * h * 3) by (nonlinear_arith)
            requires
                1 <= w,
                1 <= h,
        ;
    }
    let mut out = filled(src[0], w * h * CHANNELS);
    par_region(&mut out, w * CHANNELS, src, width, height, x0, y0, w, h);
    out
}

/// Where a quarter turn clockwise takes the pixel (x, y) of a `w` x `h`
/// frame: into the `h` x `w` frame, at (h - 1 - y, x).
pub open spec fn turned_cw(p: (int, int), w: int, h: int) -> (int, int) {
    (h - 1 - p.1, p.0)
}

/// Four quarter turns put every pixel back where it was.
pub proof fn lemma_four_quarter_turns(p: (int, int), w: int, h: int)
    ensures
        turned_cw(turned_cw(turned_cw(turned_cw(p, w, h), h, w), w, h), h, w) == p,
{
}

/// Orienting by one quarter turn reads pixel (x, y) from exactly the
/// source pixel that a quarter turn moves there.
pub proof fn lemma_orient_matches_turn(x: int, y: int, w: int, h: int)
    requires
        0 <= x < h,
        0 <= y < w,
    ensures
        turned_cw(oriented_from(x, y, h, w, w, h, 1, false, false), w, h) == (x, y),
{
}

/// Flipping twice the same way is no flip.
pub proof fn lemma_flip_twice(x: int, y: int, w: int, h: int, flip_h: bool, flip_v: bool)
    ensures
        oriented_from(
            oriented_from(x, y, w, h, w, h, 0, flip_h, flip_v).0,
            oriented_from(x, y, w, h, w, h, 0, flip_h, flip_v).1,
            w,
            h,
            w,
            h,
            0,
            flip_h,
            flip_v,
        ) == (x, y),
{
}

/// Where `k` quarter turns clockwise take the pixel `p` of a `w` x `h`
/// frame.
pub open spec fn turned_k(p: (int, int), w: int, h: int, k: u8) -> (int, int) {
    if k == 1 {
        turned_cw(p, w, h)
    } else if k == 2 {
        turned_cw(turned_cw(p, w, h), h, w)
    } else if k == 3 {
        turned_cw(turned_cw(turned_cw(p, w, h), h, w), w, h)
    } else {
        p
    }
}

/// `x` mirrored within `0..n` when `flip` is set.
pub open spec fn mirrored(x: int, n: int, flip: bool) -> int {
    if flip {
        n - 1 - x
    } else {
        x
    }
}

/// Position of channel `c` of pixel (x, y) in a `w`-wide RGB buffer.
pub open spec fn pixel_pos(x: int, y: int, c: int, w: int) -> int {
    (y * w + x) * 3 + c
}

proof fn lemma_pixel_pos_parts(x: int, y: int, c: int, w: int)
    requires
        0 <= x < w,
        0 <= y,
        0 <= c < 3,
    ensures
        pixel_pos(x, y, c, w) / 3 == y * w + x,
        pixel_pos(x, y, c, w) % 3 == c,
        (pixel_pos(x, y, c, w) / 3) % w == x,
        (pixel_pos(x, y, c, w) / 3) / w == y,
{
    vstd::arithmetic::div_mod::lemma_fundamental_div_mod_converse(
        pixel_pos(x, y, c, w),
        3,
        y * w + x,
        c,
    );
    vstd::arithmetic::div_mod::lemma_fundamental_div_mod_converse(y * w + x, w, y, x);
    assert(y * w == w * y) by (nonlinear_arith);
}

/// What orienting does to every pixel: the source pixel (sx, sy) is turned
/// `k` quarter turns clockwise, then mirrored left-right (`flip_h`) and
/// top-bottom (`flip_v`) within the turned frame, and lands there with its
/// three channels.
pub proof fn lemma_orient_moves_pixels<T>(
    src: Seq<T>,
    sw: int,
    sh: int,
    k: u8,
    flip_h: bool,
    flip_v: bool,
    sx: int,
    sy: int,
    c: int,
)
    requires
        k < 4,
        0 <= sx < sw,
        0 <= sy < sh,
        0 <= c < 3,
    ensures
        ({
            let (dw, dh) = oriented_size(sw, sh, k);
            let t = turned_k((sx, sy), sw, sh, k);
            oriented_value(
                src,
                sw,
                sh,
                k,
                flip_h,
                flip_v,
                pixel_pos(mirrored(t.0, dw, flip_h), mirrored(t.1, dh, flip_v), c, dw),
            ) == src[pixel_pos(sx, sy, c, sw)]
        }),
{
    reveal(source_index);
    let (dw, dh) = oriented_size(sw, sh, k);
    let t = turned_k((sx, sy), sw, sh, k);
    let x = mirrored(t.0, dw, flip_h);
    let y = mirrored(t.1, dh, flip_v);
    assert(0 <= x < dw && 0 <= y < dh);
    lemma_pixel_pos_parts(x, y, c, dw);
    assert(oriented_from(x, y, dw, dh, sw, sh, k, flip_h, flip_v) == (sx, sy));
}

/// A flip mirrors the turned image: for every number of quarter turns, the
/// pixel (x, y) of the flipped result is the pixel of the unflipped result
/// at (dw - 1 - x, y) for a left-right flip, and at (x, dh - 1 - y) for a
/// top-bottom one.
pub proof fn lemma_orient_flip_mirrors<T>(
    src: Seq<T>,
    sw: int,
    sh: int,
    k: u8,
    flip_h: bool,
    flip_v: bool,
    x: int,
    y: int,
    c: int,
)
    requires
        k < 4,
        0 <= c < 3,
        0 <= x < oriented_size(sw, sh, k).0,
        0 <= y < oriented_size(sw, sh, k).1,
    ensures
        ({
            let (dw, dh) = oriented_size(sw, sh, k);
            oriented_value(src, sw, sh, k, flip_h, flip_v, pixel_pos(x, y, c, dw))
                == oriented_value(
                src,
                sw,
                sh,
                k,
                false,
                false,
                pixel_pos(mirrored(x, dw, flip_h), mirrored(y, dh, flip_v), c, dw),
            )
        }),
{
    reveal(source_index);
    let (dw, dh) = oriented_size(sw, sh, k);
    let mx = mirrored(x, dw, flip_h);
    let my = mirrored(y, dh, flip_v);
    lemma_pixel_pos_parts(x, y, c, dw);
    lemma_pixel_pos_parts(mx, my, c, dw);
    assert(oriented_from(x, y, dw, dh, sw, sh, k, flip_h, flip_v) == oriented_from(
        mx,
        my,
        dw,
        dh,
        sw,
        sh,
        k,
        false,
        false,
    ));
}

} // verus!
