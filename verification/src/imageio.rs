use vstd::prelude::*;
use vstd::pervasive::unreached;
use crate::matrix::{Pixel, grid_view, rectangular};
use crate::convolve::{conv_pixel, process_image, window};

verus! {

#[verifier::external_type_specification]
#[verifier::external_body]
pub struct ExDynamicImage(image::DynamicImage);

/// The RGBA pixel grid that an image exposes through the crate's
/// per-coordinate lookup: row y, column x, four byte channels.
pub uninterp spec fn image_grid(img: image::DynamicImage) -> Seq<Seq<Pixel>>;

/// Byte offset of channel 0 of the pixel at row `y`, column `x` in a
/// row-major RGBA buffer of the given width.
pub open spec fn byte_index(y: int, x: int, width: int) -> int {
    4 * (y * width + x)
}

/// Relies on image::GenericImageView::dimensions for DynamicImage: it
/// returns (width, height), the extent of the image's pixel grid.
#[verifier::external_body]
fn image_dimensions(img: &image::DynamicImage) -> (r: (u32, u32))
    ensures
        r.1 as int == image_grid(*img).len(),
        forall|y: int| 0 <= y < image_grid(*img).len() ==> #[trigger] image_grid(*img)[y].len()
            == r.0 as int,
{
    image::GenericImageView::dimensions(img)
}

/// Relies on image::GenericImageView::get_pixel for DynamicImage: within
/// the image's extent it returns the RGBA pixel at column x, row y.
#[verifier::external_body]
fn image_get_pixel(img: &image::DynamicImage, x: u32, y: u32) -> (r: Pixel)
    requires
        (y as int) < image_grid(*img).len(),
        (x as int) < image_grid(*img)[y as int].len(),
    ensures
        r == image_grid(*img)[y as int][x as int],
{
    let p = image::GenericImageView::get_pixel(img, x, y);
    Pixel { r: p.0[0], g: p.0[1], b: p.0[2], a: p.0[3] }
}

/// Relies on image::ImageBuffer::from_vec (as RgbaImage): the buffer is
/// accepted exactly when it holds at least width*height*4 bytes, and the
/// resulting image reads back those bytes row-major, four per pixel.
#[verifier::external_body]
fn rgba_image_from_bytes(width: u32, height: u32, buf: Vec<u8>) -> (r: Option<
    image::DynamicImage,
>)
    ensures
        r is Some <==> 4 * (width as int) * (height as int) <= buf@.len(),
        r matches Some(img) ==> image_grid(img).len() == height as int,
        r matches Some(img) ==> forall|y: int|
            0 <= y < height as int ==> #[trigger] image_grid(img)[y].len() == width as int,
        r matches Some(img) ==> forall|y: int, x: int|
            0 <= y < height as int && 0 <= x < width as int ==> #[trigger] image_grid(img)[y][x]
                == (Pixel {
                r: buf@[byte_index(y, x, width as int)],
                g: buf@[byte_index(y, x, width as int) + 1],
                b: buf@[byte_index(y, x, width as int) + 2],
                a: buf@[byte_index(y, x, width as int) + 3],
            }),
{
    match image::RgbaImage::from_vec(width, height, buf) {
        Some(b) => Some(image::DynamicImage::ImageRgba8(b)),
        None => None,
    }
}

/// Extract a decoded image into a row-major pixel matrix: `m[y][x]` holds
/// the image's pixel at column x, row y.
pub fn extract_pixel_matrix(img: &image::DynamicImage) -> (m: Vec<Vec<Pixel>>)
    ensures
        grid_view(m) == image_grid(*img),
        rectangular(grid_view(m)),
        m@.len() <= u32::MAX,
        m@.len() > 0 ==> m@[0]@.len() <= u32::MAX,
{
    let (width, height) = image_dimensions(img);
    let ghost g = image_grid(*img);
    let mut m: Vec<Vec<Pixel>> = Vec::new();
    let mut y: u32 = 0;
    while y < height
        invariant
            y <= height,
            height as int == g.len(),
            g == image_grid(*img),
            forall|t: int| 0 <= t < g.len() ==> #[trigger] g[t].len() == width as int,
            m@.len() == y as int,
            forall|t: int| 0 <= t < y as int ==> #[trigger] m@[t]@ == g[t],
        decreases height - y,
    {
        let mut line: Vec<Pixel> = Vec::new();
        let mut x: u32 = 0;
        while x < width
            invariant
                x <= width,
                y < height,
                height as int == g.len(),
                g == image_grid(*img),
                forall|t: int| 0 <= t < g.len() ==> #[trigger] g[t].len() == width as int,
                line@.len() == x as int,
                forall|t: int| 0 <= t < x as int ==> #[trigger] line@[t] == g[y as int][t],
            decreases width - x,
        {
            let px: Pixel = image_get_pixel(img, x, y);
            line.push(px);
            x += 1;
        }
        proof {
            assert(line@ =~= g[y as int]);
        }
        m.push(line);
        y += 1;
    }
    proof {
        assert(grid_view(m) =~~= g);
    }
    m
}

/// Flatten a rectangular, non-empty pixel matrix row-major into RGBA
/// bytes and rebuild an image of the same extent and pixels.
pub fn create_image_from_matrix(matrix: &Vec<Vec<Pixel>>) -> (r: image::DynamicImage)
    requires
        rectangular(grid_view(*matrix)),
        matrix@.len() > 0,
        matrix@.len() <= u32::MAX,
        matrix@[0]@.len() <= u32::MAX,
    ensures
        image_grid(r) == grid_view(*matrix),
{
    let height: usize = matrix.len();
    let width: usize = matrix[0].len();
    let ghost mv = grid_view(*matrix);
    proof {
        assert(mv[0] == matrix@[0]@);
    }
    let mut buf: Vec<u8> = Vec::new();
    let mut y: usize = 0;
    while y < height
        invariant
            y <= height,
            height == matrix@.len(),
            height > 0,
            width == matrix@[0]@.len(),
            mv == grid_view(*matrix),
            rectangular(mv),
            buf@.len() == byte_index(y as int, 0, width as int),
            forall|py: int, px: int|
                0 <= py < y as int && 0 <= px < width as int ==> #[trigger] byte_index(
                    py,
                    px,
                    width as int,
                ) >= 0 && byte_index(py, px, width as int) + 3 < buf@.len() && buf@[byte_index(
                    py,
                    px,
                    width as int,
                )] == mv[py][px].r && buf@[byte_index(py, px, width as int) + 1] == mv[py][px].g
                && buf@[byte_index(py, px, width as int) + 2] == mv[py][px].b && buf@[byte_index(
                    py,
                    px,
                    width as int,
                ) + 3] == mv[py][px].a,
        decreases height - y,
    {
        let mut x: usize = 0;
        while x < width
            invariant
                x <= width,
                y < height,
                height == matrix@.len(),
                width == matrix@[0]@.len(),
                mv == grid_view(*matrix),
                rectangular(mv),
                buf@.len() == byte_index(y as int, x as int, width as int),
                forall|py: int, px: int|
                    (0 <= py < y as int && 0 <= px < width as int) || (py == y as int && 0 <= px
                        < x as int) ==> #[trigger] byte_index(py, px, width as int) >= 0
                        && byte_index(py, px, width as int) + 3 < buf@.len() && buf@[byte_index(
                        py,
                        px,
                        width as int,
                    )] == mv[py][px].r && buf@[byte_index(py, px, width as int) + 1] == mv[py][px].g
                        && buf@[byte_index(py, px, width as int) + 2] == mv[py][px].b
                        && buf@[byte_index(py, px, width as int) + 3] == mv[py][px].a,
            decreases width - x,
        {
            proof {
                assert(mv[y as int] == matrix@[y as int]@);
                assert(mv[y as int].len() == mv[0].len());
            }
            let p: Pixel = matrix[y][x];
            buf.push(p.r);
            buf.push(p.g);
            buf.push(p.b);
            buf.push(p.a);
            x += 1;
            proof {
                assert(byte_index(y as int, x as int, width as int) == byte_index(
                    y as int,
                    x as int - 1,
                    width as int,
                ) + 4);
            }
        }
        y += 1;
        proof {
            assert(byte_index(y as int, 0, width as int) == byte_index(
                y as int - 1,
                width as int,
                width as int,
            )) by (nonlinear_arith);
        }
    }
    proof {
        assert(buf@.len() == 4 * (width as int) * (height as int)) by (nonlinear_arith)
            requires
                buf@.len() == byte_index(height as int, 0, width as int),
        ;
    }
    let opt = rgba_image_from_bytes(width as u32, height as u32, buf);
    match opt {
        Some(img) => {
            proof {
                assert forall|py: int, px: int|
                    0 <= py < height as int && 0 <= px < width as int implies #[trigger] image_grid(
                    img,
                )[py][px] == mv[py][px] by {
                    assert(byte_index(py, px, width as int) >= 0);
                }
                assert forall|py: int| 0 <= py < height as int implies #[trigger] image_grid(
                    img,
                )[py] =~= mv[py] by {
                    assert(image_grid(img)[py].len() == width as int);
                    assert(mv[py].len() == mv[0].len());
                }
                assert(image_grid(img) =~= mv);
            }
            img
        },
        None => unreached(),
    }
}

/// One full pass over a decoded image: extract its pixel matrix, convolve
/// it with the kernel, and rebuild an image of the same extent. An image
/// without rows yields None: there is nothing to rebuild.
pub fn convolve_image(img: &image::DynamicImage, kernel: &Vec<Vec<i32>>) -> (r: Option<
    image::DynamicImage,
>)
    requires
        rectangular(grid_view(*kernel)),
        kernel@.len() > 0,
    ensures
        r is Some <==> image_grid(*img).len() > 0,
        r matches Some(out) ==> image_grid(out).len() == image_grid(*img).len(),
        r matches Some(out) ==> forall|y: int|
            0 <= y < image_grid(*img).len() ==> #[trigger] image_grid(out)[y].len() == image_grid(
                *img,
            )[0].len(),
        r matches Some(out) ==> forall|y: int, x: int|
            0 <= y < image_grid(*img).len() && 0 <= x < image_grid(*img)[0].len()
                ==> #[trigger] image_grid(out)[y][x] == conv_pixel(
                window(image_grid(*img), y, x, kernel@.len(), kernel@[0]@.len()),
                grid_view(*kernel),
            ),
{
    let matrix: Vec<Vec<Pixel>> = extract_pixel_matrix(img);
    if matrix.len() == 0 {
        return None;
    }
    let out_matrix: Vec<Vec<Pixel>> = process_image(&matrix, kernel);
    proof {
        assert(grid_view(out_matrix).len() == out_matrix@.len());
        assert(out_matrix@.len() == matrix@.len());
        assert(grid_view(out_matrix)[0] == out_matrix@[0]@);
        assert(grid_view(matrix)[0] == matrix@[0]@);
        assert forall|t: int| 0 <= t < grid_view(out_matrix).len()
            implies #[trigger] grid_view(out_matrix)[t].len() == grid_view(out_matrix)[0].len() by {
            assert(grid_view(out_matrix)[t] == out_matrix@[t]@);
        }
        assert(rectangular(grid_view(out_matrix)));
    }
    let out_img: image::DynamicImage = create_image_from_matrix(&out_matrix);
    proof {
        let g = image_grid(*img);
        let ov = grid_view(out_matrix);
        assert forall|y: int| 0 <= y < g.len() implies #[trigger] image_grid(out_img)[y].len()
            == g[0].len() by {
            assert(ov[y] == out_matrix@[y]@);
            assert(grid_view(matrix)[0] == matrix@[0]@);
        }
        assert forall|y: int, x: int| 0 <= y < g.len() && 0 <= x < g[0].len()
            implies #[trigger] image_grid(out_img)[y][x] == conv_pixel(
            window(g, y, x, kernel@.len(), kernel@[0]@.len()),
            grid_view(*kernel),
        ) by {
            assert(grid_view(matrix)[0] == matrix@[0]@);
            assert(ov[y] == out_matrix@[y]@);
            assert(out_matrix@[y]@[x] == conv_pixel(
                window(grid_view(matrix), y, x, kernel@.len(), kernel@[0]@.len()),
                grid_view(*kernel),
            ));
        }
    }
    Some(out_img)
}

} // verus!
