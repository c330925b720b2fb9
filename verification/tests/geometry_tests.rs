use photo_editor::geometry::{
    clamp_region, crop_region, has_orientation, orient, source_dims, transpose, turn_ccw, turn_cw,
};

fn img(w: usize, h: usize) -> Vec<f32> {
    let mut data = Vec::with_capacity(w * h * 3);
    for y in 0..h {
        for x in 0..w {
            data.extend_from_slice(&[x as f32, y as f32, 0.0]);
        }
    }
    data
}

fn px(data: &[f32], width: usize, x: usize, y: usize) -> [f32; 3] {
    let i = (y * width + x) * 3;
    [data[i], data[i + 1], data[i + 2]]
}

#[test]
fn rotate90_cw_moves_topleft_to_topright() {
    let src = img(4, 3);
    let (out, w, h) = orient(&src, 4, 3, 1, false, false);
    assert_eq!((w, h), (3, 4));
    // src (0,0) should land at dest (h_src-1 - 0, 0) = (2, 0)
    assert_eq!(px(&out, w, 2, 0), [0.0, 0.0, 0.0]);
    // src (3,2) → dest (0, 3)
    assert_eq!(px(&out, w, 0, 3), [3.0, 2.0, 0.0]);
}

#[test]
fn four_quarter_turns_is_identity() {
    assert!(!has_orientation(4, false, false)); // 4 % 4 == 0
    assert!(has_orientation(5, false, false));
    assert!(has_orientation(0, true, false));
}

#[test]
fn flip_h_mirrors() {
    let src = img(4, 2);
    let (out, w, _) = orient(&src, 4, 2, 0, true, false);
    assert_eq!(px(&out, w, 0, 0), [3.0, 0.0, 0.0]);
    assert_eq!(px(&out, w, 3, 0), [0.0, 0.0, 0.0]);
}

#[test]
fn crop_quarter() {
    let src = img(8, 8);
    let (x0, y0, w, h) = clamp_region(4, 4, 4, 4, 8, 8);
    let out = crop_region(&src, 8, 8, x0, y0, w, h);
    assert_eq!((w, h), (4, 4));
    assert_eq!(px(&out, w, 0, 0), [4.0, 4.0, 0.0]);
}

#[test]
fn rotate_ccw_and_flip_v() {
    let src = img(4, 3);
    let (out, w, h) = orient(&src, 4, 3, 3, false, false);
    assert_eq!((w, h), (3, 4));
    // Turning left puts the top-right corner at the top-left.
    assert_eq!(px(&out, w, 0, 0), [3.0, 0.0, 0.0]);
    let (out, w, _) = orient(&src, 4, 3, 0, false, true);
    assert_eq!(px(&out, w, 0, 0), [0.0, 2.0, 0.0]);
    let (out, w, h) = orient(&src, 4, 3, 2, false, false);
    assert_eq!((w, h), (4, 3));
    assert_eq!(px(&out, w, 0, 0), [3.0, 2.0, 0.0]);
}

#[test]
fn flipping_twice_gives_back_the_image() {
    let src = img(5, 3);
    let (once, w, h) = orient(&src, 5, 3, 0, true, true);
    let (twice, _, _) = orient(&once, w, h, 0, true, true);
    assert_eq!(twice, src);
}

#[test]
fn four_single_turns_give_back_the_image() {
    let src = img(3, 2);
    let (mut cur, mut w, mut h) = (src.clone(), 3, 2);
    for _ in 0..4 {
        let (next, nw, nh) = orient(&cur, w, h, 1, false, false);
        cur = next;
        w = nw;
        h = nh;
    }
    assert_eq!((w, h), (3, 2));
    assert_eq!(cur, src);
}

#[test]
fn clamp_region_holds_the_rect_inside() {
    assert_eq!(clamp_region(10, 2, 5, 0, 8, 6), (7, 2, 1, 1));
    assert_eq!(clamp_region(3, 3, 100, 100, 8, 6), (3, 3, 5, 3));
    assert_eq!(clamp_region(0, 0, 8, 6, 8, 6), (0, 0, 8, 6));
}

#[test]
fn quarter_turn_bookkeeping() {
    assert_eq!(turn_cw(3), 0);
    assert_eq!(turn_cw(1), 2);
    assert_eq!(turn_ccw(0), 3);
    assert_eq!(turn_ccw(2), 1);
    assert_eq!(source_dims(300, 200, 1), (200, 300));
    assert_eq!(source_dims(300, 200, 2), (300, 200));
}

#[test]
fn transpose_swaps_rows_and_columns() {
    // 3 wide, 2 high.
    let src = [1.0f32, 2.0, 3.0, 4.0, 5.0, 6.0];
    let mut dst = [0.0f32; 6];
    transpose(&src, &mut dst, 3, 2);
    assert_eq!(dst, [1.0, 4.0, 2.0, 5.0, 3.0, 6.0]);
}

#[test]
fn transposing_back_restores_the_image() {
    let src: Vec<u16> = (0..12).collect();
    let mut once = vec![0u16; 12];
    transpose(&src, &mut once, 4, 3);
    let mut twice = vec![0u16; 12];
    transpose(&once, &mut twice, 3, 4);
    assert_eq!(twice, src);
}

#[test]
fn orienting_an_empty_image_gives_no_pixels() {
    let src: Vec<f32> = Vec::new();
    assert_eq!(orient(&src, 3, 0, 0, true, false), (Vec::new(), 3, 0));
    assert_eq!(orient(&src, 0, 2, 1, false, false), (Vec::new(), 2, 0));
}
