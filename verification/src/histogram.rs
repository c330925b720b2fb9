//! RGB histogram of a rendered RGBA buffer, shadow/highlight clipping
//! overlays, and the red coverage wash that shows what a mask selects.
//! The per-pixel work is spread over threads with rayon; what each thread
//! does, and how partial results combine, is verified here.

use vstd::prelude::*;
use rayon::iter::ParallelIterator;
use rayon::slice::{ParallelSlice, ParallelSliceMut};

verus! {

/// Number of bins per channel.
pub const BINS: usize = 256;

/// Bytes per RGBA pixel.
pub const PIXEL: usize = 4;

/// Bytes (whole pixels) each thread counts at a time.
pub const CHUNK_BYTES: usize = 65536;

/// Opacity of the coverage wash where a mask selects fully.
pub const COVERAGE_ALPHA: u8 = 130;

/// Per-channel counts of an RGBA buffer, one bin per byte value.
#[derive(Clone)]
pub struct Histogram {
    pub r: Vec<u32>,
    pub g: Vec<u32>,
    pub b: Vec<u32>,
}

impl Default for Histogram {
    fn default() -> (h: Histogram)
        ensures
            h.r@.len() == 0,
            h.g@.len() == 0,
            h.b@.len() == 0,
    {
        Histogram { r: Vec::new(), g: Vec::new(), b: Vec::new() }
    }
}

/// How many of the first `n` pixels of `px` have value `v` in channel `ch`.
pub open spec fn pixel_count(px: Seq<u8>, n: nat, ch: int, v: int) -> nat
    decreases n,
{
    if n == 0 {
        0
    } else {
        pixel_count(px, (n - 1) as nat, ch, v) + (if px[4 * (n - 1) + ch] == v {
            1nat
        } else {
            0nat
        })
    }
}

/// How many whole pixels of the RGBA buffer `px` have value `v` in channel
/// `ch` (a trailing partial pixel is not counted).
pub open spec fn channel_count(px: Seq<u8>, ch: int, v: int) -> nat {
    pixel_count(px, px.len() / 4, ch, v)
}

proof fn lemma_pixel_count_bound(px: Seq<u8>, n: nat, ch: int, v: int)
    ensures
        pixel_count(px, n, ch, v) <= n,
    decreases n,
{
    if n > 0 {
        lemma_pixel_count_bound(px, (n - 1) as nat, ch, v);
    }
}

proof fn lemma_pixel_count_append(a: Seq<u8>, b: Seq<u8>, k: nat, ch: int, v: int)
    requires
        a.len() % 4 == 0,
        0 <= ch < 4,
        4 * k <= b.len(),
    ensures
        pixel_count(a + b, (a.len() / 4 + k) as nat, ch, v) == pixel_count(a, a.len() / 4, ch, v)
            + pixel_count(b, k, ch, v),
    decreases k,
{
    if k == 0 {
        lemma_pixel_count_prefix(a, b, a.len() / 4, ch, v);
    } else {
        lemma_pixel_count_append(a, b, (k - 1) as nat, ch, v);
        let n = (a.len() / 4 + k) as nat;
        assert(4 * (n - 1) + ch == a.len() + 4 * (k - 1) + ch);
        assert((a + b)[4 * (n - 1) + ch] == b[4 * (k - 1) + ch]);
    }
}

proof fn lemma_pixel_count_prefix(a: Seq<u8>, b: Seq<u8>, n: nat, ch: int, v: int)
    requires
        0 <= ch < 4,
        4 * n <= a.len(),
    ensures
        pixel_count(a + b, n, ch, v) == pixel_count(a, n, ch, v),
    decreases n,
{
    if n > 0 {
        lemma_pixel_count_prefix(a, b, (n - 1) as nat, ch, v);
        assert((a + b)[4 * (n - 1) + ch] == a[4 * (n - 1) + ch]);
    }
}

/// Counting a buffer split at a pixel boundary is counting each part and
/// adding: why the per-thread counts can be summed in any grouping.
pub proof fn lemma_count_splits(a: Seq<u8>, b: Seq<u8>, ch: int, v: int)
    requires
        a.len() % 4 == 0,
        0 <= ch < 4,
    ensures
        channel_count(a + b, ch, v) == channel_count(a, ch, v) + channel_count(b, ch, v),
{
    assert((a + b).len() / 4 == a.len() / 4 + b.len() / 4);
    lemma_pixel_count_append(a, b, b.len() / 4, ch, v);
}

/// The counts of bins `0..m` of channel `ch` over the first `n` pixels,
/// added up.
pub open spec fn bins_total(px: Seq<u8>, n: nat, ch: int, m: nat) -> nat
    decreases m,
{
    if m == 0 {
        0
    } else {
        bins_total(px, n, ch, (m - 1) as nat) + pixel_count(px, n, ch, m - 1)
    }
}

/// How many of the values `0..m` equal `x`: one if `x` is below `m`.
pub open spec fn hits(x: int, m: nat) -> nat
    decreases m,
{
    if m == 0 {
        0
    } else {
        hits(x, (m - 1) as nat) + (if x == m - 1 {
            1nat
        } else {
            0nat
        })
    }
}

proof fn lemma_hits(x: int, m: nat)
    requires
        0 <= x,
    ensures
        hits(x, m) == (if x < m {
            1nat
        } else {
            0nat
        }),
    decreases m,
{
    if m > 0 {
        lemma_hits(x, (m - 1) as nat);
    }
}

proof fn lemma_bins_total_step(px: Seq<u8>, n: nat, ch: int, m: nat)
    requires
        n > 0,
    ensures
        bins_total(px, n, ch, m) == bins_total(px, (n - 1) as nat, ch, m) + hits(
            px[4 * (n - 1) + ch] as int,
            m,
        ),
    decreases m,
{
    if m > 0 {
        lemma_bins_total_step(px, n, ch, (m - 1) as nat);
    }
}

proof fn lemma_bins_total_none(px: Seq<u8>, ch: int, m: nat)
    ensures
        bins_total(px, 0, ch, m) == 0,
    decreases m,
{
    if m > 0 {
        lemma_bins_total_none(px, ch, (m - 1) as nat);
    }
}

/// Every whole pixel lands in exactly one bin of each channel: the bins
/// of a channel add up to the number of pixels.
pub proof fn lemma_bins_add_up(px: Seq<u8>, n: nat, ch: int)
    ensures
        bins_total(px, n, ch, BINS as nat) == n,
    decreases n,
{
    if n == 0 {
        lemma_bins_total_none(px, ch, BINS as nat);
    } else {
        lemma_bins_add_up(px, (n - 1) as nat, ch);
        lemma_bins_total_step(px, n, ch, BINS as nat);
        lemma_hits(px[4 * (n - 1) + ch] as int, BINS as nat);
    }
}

/// The three channel histograms, as bins of counts.
pub type Bins = (Vec<u32>, Vec<u32>, Vec<u32>);

pub open spec fn bins_sized(h: Bins) -> bool {
    h.0@.len() == BINS && h.1@.len() == BINS && h.2@.len() == BINS
}

/// Bin `v` of channel `ch`.
pub open spec fn bin(h: Bins, ch: int, v: int) -> int {
    if ch == 0 {
        h.0@[v] as int
    } else if ch == 1 {
        h.1@[v] as int
    } else {
        h.2@[v] as int
    }
}

/// Empty bins for all three channels.
pub fn empty_bins() -> (h: Bins)
    ensures
        bins_sized(h),
        forall|ch: int, v: int| 0 <= ch < 3 && 0 <= v < BINS ==> bin(h, ch, v) == 0,
{
    (vec![0u32; BINS], vec![0u32; BINS], vec![0u32; BINS])
}

/// Add one to bin `v` of `bins`.
fn bump(bins: &mut Vec<u32>, v: u8)
    requires
        old(bins)@.len() == BINS,
        old(bins)@[v as int] < u32::MAX,
    ensures
        final(bins)@ == old(bins)@.update(v as int, (old(bins)@[v as int] + 1) as u32),
{
    let i = v as usize;
    let c = bins[i];
    bins.set(i, c + 1);
}

/// Count the whole pixels of `chunk` into `acc`.
pub fn count_chunk(acc: Bins, chunk: &[u8]) -> (h: Bins)
    requires
        bins_sized(acc),
        forall|ch: int, v: int|
            0 <= ch < 3 && 0 <= v < BINS ==> bin(acc, ch, v) + chunk@.len() / 4 <= u32::MAX,
    ensures
        bins_sized(h),
        forall|ch: int, v: int|
            0 <= ch < 3 && 0 <= v < BINS ==> bin(h, ch, v) == bin(acc, ch, v) + channel_count(
                chunk@,
                ch,
                v,
            ),
{
    let (mut r, mut g, mut b) = acc;
    let len = chunk.len();
    let n = len / PIXEL;
    let mut p: usize = 0;
    while p < n
        invariant
            len == chunk@.len(),
            n == chunk@.len() / 4,
            p <= n,
            bins_sized((r, g, b)),
            forall|ch: int, v: int|
                0 <= ch < 3 && 0 <= v < BINS ==> bin(acc, ch, v) + chunk@.len() / 4 <= u32::MAX,
            forall|ch: int, v: int|
                0 <= ch < 3 && 0 <= v < BINS ==> #[trigger] bin((r, g, b), ch, v) == bin(acc, ch, v)
                    + pixel_count(chunk@, p as nat, ch, v),
        decreases n - p,
    {
        proof {
            assert(p * 4 + 4 <= chunk@.len()) by (nonlinear_arith)
                requires
                    p < n,
                    n == chunk@.len() / 4,
            ;
        }
        let i = p * 4;
        let (pr, pg, pb) = (chunk[i], chunk[i + 1], chunk[i + 2]);
        proof {
            lemma_pixel_count_bound(chunk@, p as nat, 0, pr as int);
            lemma_pixel_count_bound(chunk@, p as nat, 1, pg as int);
            lemma_pixel_count_bound(chunk@, p as nat, 2, pb as int);
            assert(bin((r, g, b), 0, pr as int) == r@[pr as int]);
            assert(bin((r, g, b), 1, pg as int) == g@[pg as int]);
            assert(bin((r, g, b), 2, pb as int) == b@[pb as int]);
        }
        let ghost before = (r, g, b);
        bump(&mut r, pr);
        bump(&mut g, pg);
        bump(&mut b, pb);
        proof {
            assert forall|ch: int, v: int| 0 <= ch < 3 && 0 <= v < BINS implies #[trigger] bin(
                (r, g, b),
                ch,
                v,
            ) == bin(acc, ch, v) + pixel_count(chunk@, (p + 1) as nat, ch, v) by {
                assert(bin(before, ch, v) == bin(acc, ch, v) + pixel_count(chunk@, p as nat, ch, v));
                assert(4 * p + 0 == i && 4 * p + 1 == i + 1 && 4 * p + 2 == i + 2);
            }
        }
        p += 1;
    }
    (r, g, b)
}

/// Bin-by-bin sum of two sets of bins.
pub fn merge_bins(a: Bins, b: Bins) -> (h: Bins)
    requires
        bins_sized(a),
        bins_sized(b),
        forall|ch: int, v: int| 0 <= ch < 3 && 0 <= v < BINS ==> bin(a, ch, v) + bin(b, ch, v) <= u32::MAX,
    ensures
        bins_sized(h),
        forall|ch: int, v: int|
            0 <= ch < 3 && 0 <= v < BINS ==> bin(h, ch, v) == bin(a, ch, v) + bin(b, ch, v),
{
    let (mut r, mut g, mut bl) = a;
    let mut v: usize = 0;
    while v < BINS
        invariant
            v <= BINS,
            bins_sized((r, g, bl)),
            bins_sized(b),
            forall|ch: int, w: int| 0 <= ch < 3 && 0 <= w < BINS ==> bin(a, ch, w) + bin(b, ch, w) <= u32::MAX,
            forall|ch: int, w: int|
                0 <= ch < 3 && 0 <= w < v ==> #[trigger] bin((r, g, bl), ch, w) == bin(a, ch, w) + bin(b, ch, w),
            forall|ch: int, w: int|
                0 <= ch < 3 && v <= w < BINS ==> #[trigger] bin((r, g, bl), ch, w) == bin(a, ch, w),
        decreases BINS - v,
    {
        proof {
            assert(bin(a, 0, v as int) + bin(b, 0, v as int) <= u32::MAX);
            assert(bin(a, 1, v as int) + bin(b, 1, v as int) <= u32::MAX);
            assert(bin(a, 2, v as int) + bin(b, 2, v as int) <= u32::MAX);
            assert(bin((r, g, bl), 0, v as int) == bin(a, 0, v as int));
            assert(bin((r, g, bl), 1, v as int) == bin(a, 1, v as int));
            assert(bin((r, g, bl), 2, v as int) == bin(a, 2, v as int));
        }
        let ghost before = (r, g, bl);
        let x = r[v] + b.0[v];
        r.set(v, x);
        let y = g[v] + b.1[v];
        g.set(v, y);
        let z = bl[v] + b.2[v];
        bl.set(v, z);
        proof {
            assert forall|ch: int, w: int| 0 <= ch < 3 && 0 <= w < BINS implies #[trigger] bin(
                (r, g, bl),
                ch,
                w,
            ) == if w == v {
                bin(a, ch, w) + bin(b, ch, w)
            } else {
                bin(before, ch, w)
            } by {}
        }
        v += 1;
    }
    (r, g, bl)
}

/// Counts of every channel of an RGBA buffer, computed in parallel: rayon
/// splits the buffer into chunks of whole pixels, `count_chunk` counts each
/// chunk into bins that start out empty, and `merge_bins` adds the partial
/// bins together. The contract states the resulting counts; that they come
/// out right whatever grouping rayon picks rests on rayon's `fold` and
/// `reduce` combining every chunk exactly once (see `lemma_count_splits`).
#[verifier::external_body]
fn par_count(rgba: &[u8]) -> (h: Bins)
    requires
        rgba@.len() / 4 <= u32::MAX,
    ensures
        bins_sized(h),
        forall|ch: int, v: int|
            0 <= ch < 3 && 0 <= v < BINS ==> bin(h, ch, v) == channel_count(rgba@, ch, v),
{
    rgba.par_chunks(CHUNK_BYTES).fold(empty_bins, |acc, chunk| count_chunk(acc, chunk)).reduce(
        empty_bins,
        merge_bins,
    )
}

/// Count each channel of an RGBA buffer into 256 bins.
pub fn compute(rgba: &[u8]) -> (h: Histogram)
    requires
        rgba@.len() / 4 <= u32::MAX,
    ensures
        h.r@.len() == BINS && h.g@.len() == BINS && h.b@.len() == BINS,
        forall|v: int| 0 <= v < BINS ==> h.r@[v] == channel_count(rgba@, 0, v),
        forall|v: int| 0 <= v < BINS ==> h.g@[v] == channel_count(rgba@, 1, v),
        forall|v: int| 0 <= v < BINS ==> h.b@[v] == channel_count(rgba@, 2, v),
{
    let bins = par_count(rgba);
    proof {
        assert forall|v: int| 0 <= v < BINS implies bins.0@[v] == channel_count(rgba@, 0, v) by {
            assert(bin(bins, 0, v) == channel_count(rgba@, 0, v));
        }
        assert forall|v: int| 0 <= v < BINS implies bins.1@[v] == channel_count(rgba@, 1, v) by {
            assert(bin(bins, 1, v) == channel_count(rgba@, 1, v));
        }
        assert forall|v: int| 0 <= v < BINS implies bins.2@[v] == channel_count(rgba@, 2, v) by {
            assert(bin(bins, 2, v) == channel_count(rgba@, 2, v));
        }
    }
    let (r, g, b) = bins;
    Histogram { r, g, b }
}

/// The largest of `s[lo..hi]`, or 0 when the range is empty.
pub open spec fn peak(s: Seq<u32>, lo: int, hi: int) -> u32
    decreases hi - lo,
{
    if hi <= lo {
        0
    } else {
        let rest = peak(s, lo, hi - 1);
        if s[hi - 1] > rest {
            s[hi - 1]
        } else {
            rest
        }
    }
}

/// The largest count in `s[lo..hi]` (0 for an empty range).
fn peak_of(s: &Vec<u32>, lo: usize, hi: usize) -> (m: u32)
    requires
        lo <= hi <= s@.len(),
    ensures
        m == peak(s@, lo as int, hi as int),
{
    let mut m: u32 = 0;
    let mut i = lo;
    while i < hi
        invariant
            lo <= i <= hi <= s@.len(),
            m == peak(s@, lo as int, i as int),
        decreases hi - i,
    {
        if s[i] > m {
            m = s[i];
        }
        i += 1;
    }
    m
}

fn max_u32(a: u32, b: u32) -> (r: u32)
    ensures
        r == (if a > b { a } else { b }),
{
    if a > b {
        a
    } else {
        b
    }
}

/// The larger of two counts.
pub open spec fn larger(a: u32, b: u32) -> u32 {
    if a > b {
        a
    } else {
        b
    }
}

impl Histogram {
    /// Max bin count ignoring the two extreme bins at each end (which spike
    /// on any clipped image and would flatten the rest of the plot); at
    /// least 1. Each channel holds at least the bins up to `BINS - 2`, which
    /// are read.
    pub fn display_max(&self) -> (m: u32)
        requires
            self.r@.len() >= BINS - 2,
            self.g@.len() >= BINS - 2,
            self.b@.len() >= BINS - 2,
        ensures
            m == larger(
                larger(
                    larger(peak(self.r@, 2, BINS - 2), peak(self.g@, 2, BINS - 2)),
                    peak(self.b@, 2, BINS - 2),
                ),
                1,
            ),
    {
        let r = peak_of(&self.r, 2, BINS - 2);
        let g = peak_of(&self.g, 2, BINS - 2);
        let b = peak_of(&self.b, 2, BINS - 2);
        max_u32(max_u32(max_u32(r, g), b), 1)
    }
}

/// The first bin plotted in screen column `cx` of `cols`.
pub open spec fn column_start(cx: int, cols: int) -> int {
    cx * BINS / cols
}

/// One past the last bin plotted in column `cx`: at least one bin, never
/// past the end.
pub open spec fn column_end(cx: int, cols: int) -> int {
    let e = (cx + 1) * BINS / cols;
    let e = if e > column_start(cx, cols) + 1 { e } else { column_start(cx, cols) + 1 };
    if e < BINS { e } else { BINS as int }
}

/// The height to plot in screen column `cx` of a `cols`-wide histogram: the
/// largest count among the bins that column covers.
pub fn column_peak(bins: &Vec<u32>, cx: usize, cols: usize) -> (m: u32)
    requires
        bins@.len() == BINS,
        cx < cols,
        cols <= usize::MAX / BINS,
    ensures
        m == peak(bins@, column_start(cx as int, cols as int), column_end(cx as int, cols as int)),
{
    proof {
        assert(cx * BINS < cols * BINS) by (nonlinear_arith)
            requires
                cx < cols,
        ;
        assert((cx + 1) * BINS <= cols * BINS) by (nonlinear_arith)
            requires
                cx < cols,
        ;
        assert(cols * BINS <= usize::MAX) by (nonlinear_arith)
            requires
                cols <= usize::MAX / BINS,
        ;
        assert(cx * BINS / (cols as int) < BINS) by (nonlinear_arith)
            requires
                cx < cols,
                cols > 0,
        ;
    }
    let b0 = cx * BINS / cols;
    let mut b1 = (cx + 1) * BINS / cols;
    if b1 < b0 + 1 {
        b1 = b0 + 1;
    }
    if b1 > BINS {
        b1 = BINS;
    }
    peak_of(bins, b0, b1)
}

/// When the plot has no more columns than there are bins, its columns tile
/// the bins: the first starts at bin 0, each ends where the next starts,
/// the last ends at the last bin, and none is empty.
pub proof fn lemma_columns_tile(cx: int, cols: int)
    requires
        0 <= cx < cols,
        cols <= BINS,
    ensures
        column_start(0, cols) == 0,
        column_start(cx, cols) < column_end(cx, cols),
        cx + 1 < cols ==> column_end(cx, cols) == column_start(cx + 1, cols),
        cx + 1 == cols ==> column_end(cx, cols) == BINS,
{
    let n = BINS as int;
    let a = cx * n / cols;
    let b = (cx + 1) * n / cols;
    assert(0 * n / cols == 0) by (nonlinear_arith)
        requires
            cols > 0,
    ;
    assert(b >= a + 1) by (nonlinear_arith)
        requires
            cols <= n,
            cols > 0,
            0 <= cx,
            a == cx * n / cols,
            b == (cx + 1) * n / cols,
    {
        assert((cx + 1) * n == cx * n + n);
        assert(cx * n >= cols * a);
        assert(cx * n < cols * a + cols);
        assert((cx + 1) * n >= cols * (a + 1));
    }
    assert(b <= n) by (nonlinear_arith)
        requires
            cx + 1 <= cols,
            cols > 0,
            n > 0,
            b == (cx + 1) * n / cols,
    {
        assert((cx + 1) * n <= cols * n);
    }
    if cx + 1 == cols {
        assert(b == n) by (nonlinear_arith)
            requires
                cx + 1 == cols,
                cols > 0,
                b == (cx + 1) * n / cols,
        ;
    }
}

/// Whether any of the first three bytes of `px` is `v`.
pub open spec fn any_channel(s: Seq<u8>, base: int, v: u8) -> bool {
    s[base] == v || s[base + 1] == v || s[base + 2] == v
}

/// Byte `i` of an RGBA buffer after clipping is marked: where a pixel has a
/// channel at 255 and highlights are marked it turns red (235, 60, 60);
/// otherwise where it has a channel at 0 and shadows are marked it turns
/// blue (70, 120, 235). Alpha, and pixels cut short at the end, stay.
pub open spec fn clip_marked(s: Seq<u8>, i: int, shadows: bool, highlights: bool) -> u8 {
    let base = i - i % 4;
    let c = i % 4;
    if c < 3 && base + 2 < s.len() {
        if highlights && any_channel(s, base, 255) {
            if c == 0 { 235 } else if c == 1 { 60 } else { 60 }
        } else if shadows && any_channel(s, base, 0) {
            if c == 0 { 70 } else if c == 1 { 120 } else { 235 }
        } else {
            s[i]
        }
    } else {
        s[i]
    }
}

/// Mark one pixel (the first three bytes of `px`) for clipping.
pub fn mark_pixel(px: &mut [u8], shadows: bool, highlights: bool)
    requires
        old(px)@.len() >= 3,
    ensures
        final(px)@.len() == old(px)@.len(),
        forall|i: int|
            0 <= i < old(px)@.len() && i < 4 ==> final(px)@[i] == clip_marked(
                old(px)@,
                i,
                shadows,
                highlights,
            ),
        forall|i: int| 4 <= i < old(px)@.len() ==> final(px)@[i] == old(px)@[i],
{
    let hi = px[0] == 255 || px[1] == 255 || px[2] == 255;
    let lo = px[0] == 0 || px[1] == 0 || px[2] == 0;
    if highlights && hi {
        px[0] = 235;
        px[1] = 60;
        px[2] = 60;
    } else if shadows && lo {
        px[0] = 70;
        px[1] = 120;
        px[2] = 235;
    }
}

/// Paint clipping indicators into the display buffer, chunk by chunk over
/// rayon's threads: every 4-byte pixel goes through `mark_pixel`. The
/// contract states the whole buffer's result; it rests on rayon's
/// `par_chunks_mut(4)` visiting each pixel once with no overlap.
#[verifier::external_body]
fn par_mark(rgba: &mut [u8], shadows: bool, highlights: bool)
    requires
        old(rgba)@.len() % 4 == 0 || old(rgba)@.len() % 4 == 3,
    ensures
        final(rgba)@ == Seq::new(
            old(rgba)@.len(),
            |i: int| clip_marked(old(rgba)@, i, shadows, highlights),
        ),
{
    rgba.par_chunks_mut(PIXEL).for_each(|px| mark_pixel(px, shadows, highlights));
}

/// Paint clipping indicators into the display buffer, Lightroom-style:
/// blue where any channel hits 0 (crushed shadows), red where any channel
/// hits 255 (blown highlights). Highlights win where both apply.
pub fn mark_clipping(rgba: &mut [u8], shadows: bool, highlights: bool)
    requires
        shadows || highlights ==> old(rgba)@.len() % 4 == 0 || old(rgba)@.len() % 4 == 3,
    ensures
        final(rgba)@ == Seq::new(
            old(rgba)@.len(),
            |i: int| clip_marked(old(rgba)@, i, shadows, highlights),
        ),
{
    if !shadows && !highlights {
        assert(rgba@ =~= Seq::new(
            rgba@.len(),
            |i: int| clip_marked(rgba@, i, shadows, highlights),
        ));
        return;
    }
    par_mark(rgba, shadows, highlights);
}

/// Byte `i` of the coverage wash: opaque-ish red, each pixel's alpha the
/// mask's coverage scaled to `COVERAGE_ALPHA`; pixels past the coverage
/// map stay transparent black.
pub open spec fn wash_byte(cov: Seq<u8>, i: int) -> u8 {
    let p = i / 4;
    let c = i % 4;
    if p < cov.len() {
        if c == 0 {
            255
        } else if c == 1 {
            60
        } else if c == 2 {
            60
        } else {
            (cov[p] * COVERAGE_ALPHA / 255) as u8
        }
    } else {
        0
    }
}

/// Turn a mask's coverage map (one byte per pixel) into a translucent red
/// RGBA wash of `pixels` pixels.
pub fn coverage_wash(cov: &[u8], pixels: usize) -> (r: Vec<u8>)
    requires
        pixels * 4 <= usize::MAX,
    ensures
        r@.len() == pixels * 4,
        forall|i: int| 0 <= i < pixels * 4 ==> r@[i] == wash_byte(cov@, i),
{
    let total = pixels * 4;
    let mut out: Vec<u8> = Vec::new();
    let mut i: usize = 0;
    while i < total
        invariant
            total == pixels * 4,
            i <= total,
            out@.len() == i,
            forall|k: int| 0 <= k < i ==> out@[k] == wash_byte(cov@, k),
        decreases total - i,
    {
        let p = i / 4;
        let c = i % 4;
        let b: u8 = if p < cov.len() {
            if c == 0 {
                255
            } else if c == 1 {
                60
            } else if c == 2 {
                60
            } else {
                let a: u32 = cov[p] as u32;
                assert(a * 130 <= 255 * 130) by (nonlinear_arith)
                    requires
                        a <= 255,
                ;
                (a * 130u32 / 255u32) as u8
            }
        } else {
            0
        };
        out.push(b);
        i += 1;
    }
    out
}

/// The height plotted for a range of bins is their largest count: no count
/// in `s[lo..hi]` exceeds it, and (for a non-empty range) it is one of them.
/// An empty range plots nothing.
pub proof fn lemma_peak_is_max(s: Seq<u32>, lo: int, hi: int)
    requires
        0 <= lo,
        hi <= s.len(),
    ensures
        forall|i: int| lo <= i < hi ==> s[i] <= #[trigger] peak(s, lo, hi),
        lo < hi ==> exists|i: int| lo <= i < hi && s[i] == peak(s, lo, hi),
        hi <= lo ==> peak(s, lo, hi) == 0,
    decreases hi - lo,
{
    if lo < hi {
        lemma_peak_is_max(s, lo, hi - 1);
        if lo < hi - 1 {
            let j = choose|j: int| lo <= j < hi - 1 && s[j] == peak(s, lo, hi - 1);
            if s[hi - 1] > peak(s, lo, hi - 1) {
                assert(s[hi - 1] == peak(s, lo, hi));
            } else {
                assert(s[j] == peak(s, lo, hi));
            }
        } else {
            assert(s[lo] == peak(s, lo, hi));
        }
        assert forall|i: int| lo <= i < hi implies s[i] <= #[trigger] peak(s, lo, hi) by {
            if i < hi - 1 {
                assert(s[i] <= peak(s, lo, hi - 1));
            }
        }
    }
}

/// What clipping marks do to one whole pixel (bytes `4p .. 4p + 2`, with
/// alpha at `4p + 3`): red (235, 60, 60) when highlights are shown and some
/// colour byte is 255; otherwise blue (70, 120, 235) when shadows are shown
/// and some colour byte is 0; otherwise the pixel is left as it was. Alpha
/// is never touched.
pub proof fn lemma_clip_marks_pixel(s: Seq<u8>, p: int, shadows: bool, highlights: bool)
    requires
        0 <= p,
        4 * p + 2 < s.len(),
    ensures
        ({
            let b = 4 * p;
            let hot = s[b] == 255 || s[b + 1] == 255 || s[b + 2] == 255;
            let crushed = s[b] == 0 || s[b + 1] == 0 || s[b + 2] == 0;
            let out0 = clip_marked(s, b, shadows, highlights);
            let out1 = clip_marked(s, b + 1, shadows, highlights);
            let out2 = clip_marked(s, b + 2, shadows, highlights);
            &&& highlights && hot ==> out0 == 235 && out1 == 60 && out2 == 60
            &&& shadows && crushed && !(highlights && hot) ==> out0 == 70 && out1 == 120 && out2
                == 235
            &&& !(highlights && hot) && !(shadows && crushed) ==> out0 == s[b] && out1 == s[b
                + 1] && out2 == s[b + 2]
            &&& b + 3 < s.len() ==> clip_marked(s, b + 3, shadows, highlights) == s[b + 3]
        }),
{
    let b = 4 * p;
    assert(b % 4 == 0 && (b + 1) % 4 == 1 && (b + 2) % 4 == 2 && (b + 3) % 4 == 3);
    assert(b - b % 4 == b);
    assert((b + 1) - (b + 1) % 4 == b);
    assert((b + 2) - (b + 2) % 4 == b);
}

} // verus!
