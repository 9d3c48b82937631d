use pixel_convolve::convolve::{identity_kernel, laplacian_kernel, process_image};
use pixel_convolve::imageio::{convolve_image, create_image_from_matrix, extract_pixel_matrix};
use pixel_convolve::matrix::Pixel;

fn px(r: u8, g: u8, b: u8, a: u8) -> Pixel {
    Pixel { r, g, b, a }
}

fn rgba_image(width: u32, height: u32, bytes: Vec<u8>) -> image::DynamicImage {
    image::DynamicImage::ImageRgba8(image::RgbaImage::from_vec(width, height, bytes).unwrap())
}

#[test]
fn extract_reads_pixels_row_major() {
    let img = rgba_image(
        2,
        2,
        vec![
            10, 20, 30, 255, 40, 50, 60, 255, 70, 80, 90, 255, 100, 110, 120, 255,
        ],
    );
    let m = extract_pixel_matrix(&img);
    assert_eq!(m.len(), 2);
    assert_eq!(m[0].len(), 2);
    assert_eq!(m[0][0], px(10, 20, 30, 255));
    assert_eq!(m[0][1], px(40, 50, 60, 255));
    assert_eq!(m[1][0], px(70, 80, 90, 255));
    assert_eq!(m[1][1], px(100, 110, 120, 255));
}

#[test]
fn create_image_flattens_row_major() {
    let m = vec![
        vec![px(1, 2, 3, 4), px(5, 6, 7, 8)],
        vec![px(9, 10, 11, 12), px(13, 14, 15, 16)],
    ];
    let img = create_image_from_matrix(&m);
    assert_eq!(image::GenericImageView::dimensions(&img), (2, 2));
    assert_eq!(
        img.as_bytes(),
        &[1, 2, 3, 4, 5, 6, 7, 8, 9, 10, 11, 12, 13, 14, 15, 16]
    );
}

#[test]
fn identity_round_trip_on_known_image() {
    let bytes: Vec<u8> = vec![
        10, 20, 30, 255, 40, 50, 60, 255, 70, 80, 90, 255, 100, 110, 120, 255,
    ];
    let img = rgba_image(2, 2, bytes.clone());
    let m = extract_pixel_matrix(&img);
    let out = process_image(&m, &identity_kernel());
    let out_img = create_image_from_matrix(&out);
    assert_eq!(out_img.as_bytes(), bytes.as_slice());
}

#[test]
fn convolve_image_runs_the_whole_pass() {
    // uniform input: the Laplacian gives clamp(4*v) per channel, alpha 255
    let img = rgba_image(2, 2, vec![10, 20, 30, 0].repeat(4));
    let out = convolve_image(&img, &laplacian_kernel()).unwrap();
    assert_eq!(image::GenericImageView::dimensions(&out), (2, 2));
    assert_eq!(out.as_bytes(), vec![40, 80, 120, 255].repeat(4).as_slice());
}

#[test]
fn convolve_image_of_empty_image_is_none() {
    let img = rgba_image(0, 0, Vec::new());
    assert!(convolve_image(&img, &laplacian_kernel()).is_none());
}

#[test]
fn decode_failure_is_reported_and_batch_continues() {
    // a path that does not exist yields a reportable error, not a crash
    let missing = image::open("this_path_does_not_exist.png");
    assert!(missing.is_err());
    // the batch goes on: the next, valid image still processes
    let img = rgba_image(1, 1, vec![5, 5, 5, 255]);
    let out = convolve_image(&img, &laplacian_kernel()).unwrap();
    assert_eq!(out.as_bytes(), &[20, 20, 20, 255]);
}
