use photo_editor::histogram::{column_peak, compute, coverage_wash, mark_clipping, Histogram, BINS};

#[test]
fn counts_pixels_per_bin() {
    // Two pixels: one black, one mid-gray.
    let rgba = [0u8, 0, 0, 255, 128, 128, 128, 255];
    let h = compute(&rgba);
    assert_eq!(h.r[0], 1);
    assert_eq!(h.r[128], 1);
    assert_eq!(h.g[128], 1);
    assert_eq!(h.r.iter().sum::<u32>(), 2);
}

#[test]
fn clipping_marks_only_requested_ends() {
    let mut rgba = [255u8, 255, 255, 255, 0, 0, 0, 255, 128, 128, 128, 255];
    mark_clipping(&mut rgba, true, false);
    // Highlight pixel untouched (highlights off), shadow pixel blue.
    assert_eq!(rgba[0], 255);
    assert_eq!(&rgba[4..7], &[70, 120, 235]);
    // Midtone untouched.
    assert_eq!(rgba[8], 128);

    let mut rgba2 = [255u8, 128, 128, 255];
    mark_clipping(&mut rgba2, false, true);
    assert_eq!(&rgba2[0..3], &[235, 60, 60]);
}

#[test]
fn compute_ignores_alpha_and_a_partial_pixel() {
    let rgba = [10u8, 20, 30, 40, 10, 21, 31, 41, 99, 99];
    let h = compute(&rgba);
    assert_eq!(h.r.len(), BINS);
    assert_eq!(h.r[10], 2);
    assert_eq!(h.g[20], 1);
    assert_eq!(h.g[21], 1);
    assert_eq!(h.b[30], 1);
    assert_eq!(h.b[31], 1);
    assert_eq!(h.r[99], 0);
    assert_eq!(h.r[40], 0);
    assert_eq!(h.b.iter().sum::<u32>(), 2);
}

#[test]
fn compute_over_many_chunks_counts_every_pixel() {
    let n = 40_000usize;
    let mut rgba = Vec::with_capacity(n * 4);
    for i in 0..n {
        rgba.extend_from_slice(&[(i % 256) as u8, 7, 200, 255]);
    }
    let h = compute(&rgba);
    assert_eq!(h.r.iter().sum::<u32>(), n as u32);
    assert_eq!(h.g[7], n as u32);
    assert_eq!(h.b[200], n as u32);
    assert_eq!(h.r[0], (n / 256 + 1) as u32);
}

#[test]
fn clipping_highlight_needs_a_channel_at_255() {
    let mut rgba = [254u8, 254, 254, 255, 1, 1, 1, 255, 0, 255, 10, 255];
    mark_clipping(&mut rgba, true, true);
    assert_eq!(&rgba[0..4], &[254, 254, 254, 255]);
    assert_eq!(&rgba[4..8], &[1, 1, 1, 255]);
    // A pixel with a channel at 0 and one at 255 is a highlight clip.
    assert_eq!(&rgba[8..12], &[235, 60, 60, 255]);
}

#[test]
fn display_max_skips_the_end_bins() {
    let mut h = Histogram { r: vec![0; BINS], g: vec![0; BINS], b: vec![0; BINS] };
    h.r[0] = 1000;
    h.g[255] = 900;
    h.b[1] = 800;
    h.r[50] = 7;
    h.b[253] = 9;
    assert_eq!(h.display_max(), 9);
    let empty = Histogram { r: vec![0; BINS], g: vec![0; BINS], b: vec![0; BINS] };
    assert_eq!(empty.display_max(), 1);
}

#[test]
fn column_peak_takes_the_largest_bin_of_the_column() {
    let mut bins = vec![0u32; BINS];
    bins[4] = 3;
    bins[6] = 8;
    bins[8] = 5;
    // 64 columns: 4 bins each.
    assert_eq!(column_peak(&bins, 1, 64), 8);
    assert_eq!(column_peak(&bins, 2, 64), 5);
    assert_eq!(column_peak(&bins, 0, 64), 0);
    // More columns than bins: each column shows at least one bin.
    assert_eq!(column_peak(&bins, 12, 512), 8);
}

#[test]
fn coverage_wash_is_translucent_red() {
    let cov = [255u8, 0, 128];
    let w = coverage_wash(&cov, 4);
    assert_eq!(w.len(), 16);
    assert_eq!(&w[0..4], &[255, 60, 60, 130]);
    assert_eq!(&w[4..8], &[255, 60, 60, 0]);
    assert_eq!(&w[8..12], &[255, 60, 60, 65]);
    assert_eq!(&w[12..16], &[0, 0, 0, 0]);
}

#[test]
fn display_max_reads_only_up_to_the_last_two_bins() {
    let mut h = Histogram { r: vec![0; BINS - 2], g: vec![0; BINS - 2], b: vec![0; BINS] };
    h.g[253] = 4;
    h.b[254] = 50;
    assert_eq!(h.display_max(), 4);
}
