use pixel_convolve::convolve::{
    apply_kernel, clamp_product, convert_i32_to_u8, identity_kernel, laplacian_kernel,
    process_image, resolve_coord,
};
use pixel_convolve::matrix::{is_rectangular, Pixel};

fn px(r: u8, g: u8, b: u8, a: u8) -> Pixel {
    Pixel { r, g, b, a }
}

fn uniform(height: usize, width: usize, p: Pixel) -> Vec<Vec<Pixel>> {
    let mut m: Vec<Vec<Pixel>> = Vec::new();
    for _ in 0..height {
        let mut row: Vec<Pixel> = Vec::new();
        for _ in 0..width {
            row.push(p);
        }
        m.push(row);
    }
    m
}

#[test]
fn convert_clamps_into_byte_range() {
    assert_eq!(convert_i32_to_u8(-5), 0);
    assert_eq!(convert_i32_to_u8(i32::MIN), 0);
    assert_eq!(convert_i32_to_u8(0), 0);
    assert_eq!(convert_i32_to_u8(100), 100);
    assert_eq!(convert_i32_to_u8(255), 255);
    assert_eq!(convert_i32_to_u8(256), 255);
    assert_eq!(convert_i32_to_u8(i32::MAX), 255);
}

#[test]
fn clamp_product_matches_clamped_product() {
    assert_eq!(clamp_product(10, 3), 30);
    assert_eq!(clamp_product(10, -3), 0);
    assert_eq!(clamp_product(255, i32::MAX), 255);
    assert_eq!(clamp_product(255, i32::MIN), 0);
    assert_eq!(clamp_product(0, -1), 0);
    assert_eq!(clamp_product(100, 2), 200);
}

#[test]
fn resolve_coord_applies_fallback_rule() {
    // interior: the candidate target - 1 + offset is used as it stands
    assert_eq!(resolve_coord(2, 0, 5), 1);
    assert_eq!(resolve_coord(2, 1, 5), 2);
    assert_eq!(resolve_coord(2, 2, 5), 3);
    // candidate below 0 falls back to the target itself, not to 0
    assert_eq!(resolve_coord(0, 0, 5), 0);
    // candidate past the limit falls back to the target, not to limit - 1
    assert_eq!(resolve_coord(4, 2, 5), 4);
    // a 1-wide axis always resolves to its only coordinate
    assert_eq!(resolve_coord(0, 0, 1), 0);
    assert_eq!(resolve_coord(0, 1, 1), 0);
    assert_eq!(resolve_coord(0, 2, 1), 0);
}

#[test]
fn identity_kernel_keeps_interior_pixels() {
    let mut m: Vec<Vec<Pixel>> = Vec::new();
    let mut v: u8 = 0;
    for _ in 0..3 {
        let mut row: Vec<Pixel> = Vec::new();
        for _ in 0..3 {
            row.push(px(v, v.wrapping_add(1), v.wrapping_add(2), 255));
            v = v.wrapping_add(10);
        }
        m.push(row);
    }
    let out = process_image(&m, &identity_kernel());
    assert_eq!(out[1][1], m[1][1]);
}

#[test]
fn single_pixel_matrix_replicates_its_pixel() {
    // every window cell of a 1x1 matrix resolves to (0, 0), so an
    // all-ones 3x3 kernel sums the sole pixel nine times, wrapping
    let m = vec![vec![px(10, 20, 30, 40)]];
    let ones = vec![vec![1, 1, 1], vec![1, 1, 1], vec![1, 1, 1]];
    let out = process_image(&m, &ones);
    assert_eq!(out.len(), 1);
    assert_eq!(out[0].len(), 1);
    assert_eq!(out[0][0], px(90, 180, 14, 255)); // 9*30 = 270 wraps to 14
}

#[test]
fn alpha_is_always_opaque() {
    let m = uniform(4, 5, px(7, 8, 9, 0));
    let out = process_image(&m, &laplacian_kernel());
    for row in &out {
        for p in row {
            assert_eq!(p.a, 255);
        }
    }
}

#[test]
fn output_dimensions_equal_input_dimensions() {
    let m = uniform(2, 3, px(1, 2, 3, 4));
    let out = process_image(&m, &laplacian_kernel());
    assert_eq!(out.len(), 2);
    for row in &out {
        assert_eq!(row.len(), 3);
    }
}

#[test]
fn laplacian_on_uniform_input() {
    // Each product is clamped to [0, 255] on its own before the byte-wide
    // accumulation, so the -1 weights contribute 0 and a uniform region
    // yields clamp(4*v) per channel. A standard saturating convolution
    // would give 0 here; the per-term clamp plus wraparound accumulation
    // is the intended semantics, kept deliberately.
    let m = uniform(3, 3, px(100, 50, 0, 255));
    let out = process_image(&m, &laplacian_kernel());
    for row in &out {
        for p in row {
            assert_eq!(*p, px(255, 200, 0, 255)); // clamp(400), clamp(200), clamp(0)
        }
    }
    // a uniformly black region is fully suppressed
    let black = uniform(3, 3, px(0, 0, 0, 255));
    let out_black = process_image(&black, &laplacian_kernel());
    assert_eq!(out_black[1][1], px(0, 0, 0, 255));
}

#[test]
fn accumulation_wraps_past_255() {
    // four terms of 200 make 800, which wraps to 800 - 3*256 = 32
    let m = uniform(4, 4, px(200, 0, 0, 255));
    let k = vec![vec![1, 1], vec![1, 1]];
    let out = process_image(&m, &k);
    assert_eq!(out[2][2], px(32, 0, 0, 255));
}

#[test]
fn empty_matrix_yields_empty_output() {
    let m: Vec<Vec<Pixel>> = Vec::new();
    let out = process_image(&m, &laplacian_kernel());
    assert!(out.is_empty());
}

#[test]
fn apply_kernel_on_one_window() {
    let window = vec![
        vec![px(1, 2, 3, 9), px(4, 5, 6, 9), px(7, 8, 9, 9)],
        vec![px(10, 11, 12, 9), px(13, 14, 15, 9), px(16, 17, 18, 9)],
        vec![px(19, 20, 21, 9), px(22, 23, 24, 9), px(25, 26, 27, 9)],
    ];
    let out = apply_kernel(&window, &identity_kernel());
    assert_eq!(out, px(13, 14, 15, 255));
}

#[test]
fn kernel_builders_hold_the_expected_weights() {
    assert_eq!(
        laplacian_kernel(),
        vec![vec![0, -1, 0], vec![-1, 4, -1], vec![0, -1, 0]]
    );
    assert_eq!(
        identity_kernel(),
        vec![vec![0, 0, 0], vec![0, 1, 0], vec![0, 0, 0]]
    );
}

#[test]
fn rectangularity_check() {
    let good = uniform(2, 3, px(0, 0, 0, 0));
    assert!(is_rectangular(&good));
    let jagged = vec![vec![px(0, 0, 0, 0)], vec![px(0, 0, 0, 0), px(0, 0, 0, 0)]];
    assert!(!is_rectangular(&jagged));
    let empty: Vec<Vec<Pixel>> = Vec::new();
    assert!(is_rectangular(&empty));
}
