use vstd::prelude::*;
use vstd::arithmetic::div_mod::{lemma_add_mod_noop, lemma_small_mod};
use crate::matrix::{Pixel, chan, grid_view, rectangular};

verus! {

/// Clamp an integer into the byte range `[0, 255]`.
pub open spec fn clamp_byte(v: int) -> int {
    if v < 0 {
        0
    } else if v > 255 {
        255
    } else {
        v
    }
}

/// Clamp a signed value into `[0, 255]` and narrow it to a byte.
pub fn convert_i32_to_u8(value: i32) -> (r: u8)
    ensures
        r as int == clamp_byte(value as int),
{
    if value < 0 {
        0
    } else if value > 255 {
        255
    } else {
        value as u8
    }
}

/// Clamp the product of a channel value and a kernel weight to a byte.
pub fn clamp_product(channel: u8, weight: i32) -> (r: u8)
    ensures
        r as int == clamp_byte(channel as int * weight as int),
{
    proof {
        assert((channel as int) * (weight as int) <= 255 * (i32::MAX as int) && (channel as int)
            * (weight as int) >= 255 * (i32::MIN as int)) by (nonlinear_arith)
            requires
                0 <= channel as int <= 255,
                i32::MIN as int <= weight as int <= i32::MAX as int,
        ;
    }
    let prod: i64 = (channel as i64) * (weight as i64);
    if prod < 0 {
        0
    } else if prod > 255 {
        255
    } else {
        prod as u8
    }
}

/// Resolve a window coordinate: the candidate index sits at `target - 1 + offset`;
/// a candidate outside `[0, limit)` falls back to `target` itself.
pub open spec fn resolve_index(target: int, offset: int, limit: int) -> int {
    if 0 <= target - 1 + offset && target - 1 + offset < limit {
        target - 1 + offset
    } else {
        target
    }
}

/// Executable form of the boundary rule.
pub fn resolve_coord(target: usize, offset: usize, limit: usize) -> (r: usize)
    requires
        target < limit,
    ensures
        r as int == resolve_index(target as int, offset as int, limit as int),
        r < limit,
{
    if offset == 0 {
        if target >= 1 {
            target - 1
        } else {
            target
        }
    } else {
        if offset - 1 < limit - target {
            target + (offset - 1)
        } else {
            target
        }
    }
}

/// Sum of the first `n` per-term-clamped products of one window row
/// against one kernel row, for channel `c`.
pub open spec fn row_sum(nrow: Seq<Pixel>, krow: Seq<i32>, c: int, n: int) -> int
    decreases n,
{
    if n <= 0 {
        0
    } else {
        row_sum(nrow, krow, c, n - 1) + clamp_byte(chan(nrow[n - 1], c) * krow[n - 1] as int)
    }
}

/// Sum of the per-term-clamped products over the first `rows` rows of a
/// window against a kernel, for channel `c`.
pub open spec fn grid_sum(neigh: Seq<Seq<Pixel>>, kern: Seq<Seq<i32>>, c: int, rows: int) -> int
    decreases rows,
{
    if rows <= 0 {
        0
    } else {
        grid_sum(neigh, kern, c, rows - 1) + row_sum(
            neigh[rows - 1],
            kern[rows - 1],
            c,
            kern[rows - 1].len() as int,
        )
    }
}

/// Channel `c` of the kernel application: every product is clamped to a
/// byte first, and the terms then accumulate into a byte with wraparound.
pub open spec fn conv_channel(neigh: Seq<Seq<Pixel>>, kern: Seq<Seq<i32>>, c: int) -> int {
    grid_sum(neigh, kern, c, kern.len() as int) % 256
}

/// The output pixel for one window: red, green and blue from the wrapped
/// clamped sums; alpha fixed at fully opaque.
pub open spec fn conv_pixel(neigh: Seq<Seq<Pixel>>, kern: Seq<Seq<i32>>) -> Pixel {
    Pixel {
        r: conv_channel(neigh, kern, 0) as u8,
        g: conv_channel(neigh, kern, 1) as u8,
        b: conv_channel(neigh, kern, 2) as u8,
        a: 255,
    }
}

/// The kernel-shaped window of `m` around `(i, j)`: cell `(l, k)` comes
/// from row `resolve_index(i, l, height)` and column `resolve_index(j, k, width)`.
pub open spec fn window(m: Seq<Seq<Pixel>>, i: int, j: int, kh: nat, kw: nat) -> Seq<Seq<Pixel>> {
    Seq::new(
        kh,
        |l: int|
            Seq::new(
                kw,
                |k: int|
                    m[resolve_index(i, l, m.len() as int)][resolve_index(
                        j,
                        k,
                        m[0].len() as int,
                    )],
            ),
    )
}

/// Add one clamped term into the running byte, wrapping past 255.
fn wrap_add_byte(acc: u8, term: u8) -> (r: u8)
    ensures
        r as int == (acc as int + term as int) % 256,
{
    (((acc as u16) + (term as u16)) % 256) as u8
}

/// Apply a kernel to one window of pixels of the same shape.
///
/// The per-product clamp does not keep the running per-channel sum from
/// wrapping past 255: the accumulation is deliberately byte-width.
pub fn apply_kernel(neighborhood: &Vec<Vec<Pixel>>, kernel: &Vec<Vec<i32>>) -> (result: Pixel)
    requires
        neighborhood@.len() == kernel@.len(),
        forall|t: int| 0 <= t < kernel@.len() ==> #[trigger] neighborhood@[t]@.len()
            == kernel@[t]@.len(),
    ensures
        result == conv_pixel(grid_view(*neighborhood), grid_view(*kernel)),
        result.a == 255,
{
    let ghost nv = grid_view(*neighborhood);
    let ghost kv = grid_view(*kernel);
    let mut racc: u8 = 0;
    let mut gacc: u8 = 0;
    let mut bacc: u8 = 0;
    let mut i: usize = 0;
    while i < kernel.len()
        invariant
            i <= kernel@.len(),
            neighborhood@.len() == kernel@.len(),
            forall|t: int| 0 <= t < kernel@.len() ==> #[trigger] neighborhood@[t]@.len()
                == kernel@[t]@.len(),
            nv == grid_view(*neighborhood),
            kv == grid_view(*kernel),
            racc as int == grid_sum(nv, kv, 0, i as int) % 256,
            gacc as int == grid_sum(nv, kv, 1, i as int) % 256,
            bacc as int == grid_sum(nv, kv, 2, i as int) % 256,
        decreases kernel@.len() - i,
    {
        let mut j: usize = 0;
        while j < kernel[i].len()
            invariant
                i < kernel@.len(),
                j <= kernel@[i as int]@.len(),
                neighborhood@.len() == kernel@.len(),
                forall|t: int| 0 <= t < kernel@.len() ==> #[trigger] neighborhood@[t]@.len()
                    == kernel@[t]@.len(),
                nv == grid_view(*neighborhood),
                kv == grid_view(*kernel),
                racc as int == (grid_sum(nv, kv, 0, i as int) + row_sum(
                    nv[i as int],
                    kv[i as int],
                    0,
                    j as int,
                )) % 256,
                gacc as int == (grid_sum(nv, kv, 1, i as int) + row_sum(
                    nv[i as int],
                    kv[i as int],
                    1,
                    j as int,
                )) % 256,
                bacc as int == (grid_sum(nv, kv, 2, i as int) + row_sum(
                    nv[i as int],
                    kv[i as int],
                    2,
                    j as int,
                )) % 256,
            decreases kernel@[i as int]@.len() - j,
        {
            let w: i32 = kernel[i][j];
            let p: Pixel = neighborhood[i][j];
            let tr: u8 = clamp_product(p.r, w);
            let tg: u8 = clamp_product(p.g, w);
            let tb: u8 = clamp_product(p.b, w);
            proof {
                assert(nv[i as int] == neighborhood@[i as int]@);
                assert(kv[i as int] == kernel@[i as int]@);
                lemma_add_term_mod(
                    grid_sum(nv, kv, 0, i as int) + row_sum(nv[i as int], kv[i as int], 0, j as int),
                    tr as int,
                );
                lemma_add_term_mod(
                    grid_sum(nv, kv, 1, i as int) + row_sum(nv[i as int], kv[i as int], 1, j as int),
                    tg as int,
                );
                lemma_add_term_mod(
                    grid_sum(nv, kv, 2, i as int) + row_sum(nv[i as int], kv[i as int], 2, j as int),
                    tb as int,
                );
            }
            racc = wrap_add_byte(racc, tr);
            gacc = wrap_add_byte(gacc, tg);
            bacc = wrap_add_byte(bacc, tb);
            j += 1;
        }
        i += 1;
    }
    Pixel { r: racc, g: gacc, b: bacc, a: 255 }
}

/// Folding one more term into a running sum commutes with the byte wraparound.
proof fn lemma_add_term_mod(s: int, t: int)
    requires
        0 <= t < 256,
    ensures
        (s % 256 + t) % 256 == (s + t) % 256,
{
    lemma_small_mod(t as nat, 256);
    lemma_add_mod_noop(s, t, 256);
}

/// Convolve a whole pixel matrix with a kernel.
///
/// Every coordinate of the input gets the kernel applied to its window,
/// with out-of-range window cells falling back to the coordinate's own
/// row or column. An empty matrix yields an empty matrix.
pub fn process_image(matrix: &Vec<Vec<Pixel>>, kernel: &Vec<Vec<i32>>) -> (result: Vec<Vec<Pixel>>)
    requires
        rectangular(grid_view(*matrix)),
        rectangular(grid_view(*kernel)),
        kernel@.len() > 0,
    ensures
        result@.len() == matrix@.len(),
        forall|i: int| 0 <= i < matrix@.len() ==> #[trigger] result@[i]@.len()
            == matrix@[0]@.len(),
        forall|i: int, j: int|
            0 <= i < matrix@.len() && 0 <= j < matrix@[0]@.len() ==> #[trigger] result@[i]@[j]
                == conv_pixel(
                window(grid_view(*matrix), i, j, kernel@.len(), kernel@[0]@.len()),
                grid_view(*kernel),
            ),
        forall|i: int, j: int|
            0 <= i < matrix@.len() && 0 <= j < matrix@[0]@.len() ==> (#[trigger] result@[i]@[j]).a
                == 255,
{
    let height: usize = matrix.len();
    if height == 0 {
        let empty: Vec<Vec<Pixel>> = Vec::new();
        return empty;
    }
    let width: usize = matrix[0].len();
    let kh: usize = kernel.len();
    let kw: usize = kernel[0].len();
    let ghost mv = grid_view(*matrix);
    let ghost kv = grid_view(*kernel);
    proof {
        assert(mv.len() == height);
        assert(mv[0] == matrix@[0]@);
    }
    let mut result: Vec<Vec<Pixel>> = Vec::new();
    let mut i: usize = 0;
    while i < height
        invariant
            i <= height,
            height == matrix@.len(),
            height > 0,
            width == matrix@[0]@.len(),
            kh == kernel@.len(),
            kw == kernel@[0]@.len(),
            kh > 0,
            mv == grid_view(*matrix),
            kv == grid_view(*kernel),
            rectangular(mv),
            rectangular(kv),
            result@.len() == i,
            forall|a: int| 0 <= a < i ==> #[trigger] result@[a]@.len() == width,
            forall|a: int, b: int|
                0 <= a < i && 0 <= b < width ==> #[trigger] result@[a]@[b] == conv_pixel(
                    window(mv, a, b, kh as nat, kw as nat),
                    kv,
                ),
        decreases height - i,
    {
        let mut row: Vec<Pixel> = Vec::new();
        let mut j: usize = 0;
        while j < width
            invariant
                i < height,
                j <= width,
                height == matrix@.len(),
                height > 0,
                width == matrix@[0]@.len(),
                kh == kernel@.len(),
                kw == kernel@[0]@.len(),
                kh > 0,
                mv == grid_view(*matrix),
                kv == grid_view(*kernel),
                rectangular(mv),
                rectangular(kv),
                row@.len() == j,
                forall|b: int| 0 <= b < j ==> #[trigger] row@[b] == conv_pixel(
                    window(mv, i as int, b, kh as nat, kw as nat),
                    kv,
                ),
            decreases width - j,
        {
            let ghost win = window(mv, i as int, j as int, kh as nat, kw as nat);
            let mut neighborhood: Vec<Vec<Pixel>> = Vec::new();
            let mut l: usize = 0;
            while l < kh
                invariant
                    l <= kh,
                    i < height,
                    j < width,
                    height == matrix@.len(),
                    width == matrix@[0]@.len(),
                    mv == grid_view(*matrix),
                    rectangular(mv),
                    win == window(mv, i as int, j as int, kh as nat, kw as nat),
                    neighborhood@.len() == l,
                    forall|a: int| 0 <= a < l ==> #[trigger] neighborhood@[a]@.len() == kw,
                    forall|a: int, b: int|
                        0 <= a < l && 0 <= b < kw ==> #[trigger] neighborhood@[a]@[b] == win[a][b],
                decreases kh - l,
            {
                let mut pixel_line: Vec<Pixel> = Vec::new();
                let mut k: usize = 0;
                while k < kw
                    invariant
                        k <= kw,
                        l < kh,
                        i < height,
                        j < width,
                        height == matrix@.len(),
                        width == matrix@[0]@.len(),
                        mv == grid_view(*matrix),
                        rectangular(mv),
                        win == window(mv, i as int, j as int, kh as nat, kw as nat),
                        pixel_line@.len() == k,
                        forall|b: int| 0 <= b < k ==> #[trigger] pixel_line@[b] == win[l as int][b],
                    decreases kw - k,
                {
                    let pos_i: usize = resolve_coord(i, l, height);
                    let pos_j: usize = resolve_coord(j, k, width);
                    proof {
                        assert(mv[pos_i as int] == matrix@[pos_i as int]@);
                        assert(mv[pos_i as int].len() == mv[0].len());
                    }
                    let px: Pixel = matrix[pos_i][pos_j];
                    proof {
                        assert(win[l as int][k as int] == mv[resolve_index(
                            i as int,
                            l as int,
                            mv.len() as int,
                        )][resolve_index(j as int, k as int, mv[0].len() as int)]);
                        assert(px == win[l as int][k as int]);
                    }
                    pixel_line.push(px);
                    k += 1;
                }
                neighborhood.push(pixel_line);
                l += 1;
            }
            proof {
                assert forall|t: int| 0 <= t < kernel@.len() implies #[trigger] neighborhood@[t]@.len()
                    == kernel@[t]@.len() by {
                    assert(neighborhood@[t]@.len() == kw);
                    assert(kv[t] == kernel@[t]@);
                    assert(kv[t].len() == kv[0].len());
                }
            }
            let out: Pixel = apply_kernel(&neighborhood, kernel);
            proof {
                assert(grid_view(neighborhood) =~~= win);
                assert(out == conv_pixel(win, kv));
            }
            row.push(out);
            j += 1;
        }
        result.push(row);
        i += 1;
    }
    result
}

/// The discrete Laplacian weights.
pub open spec fn laplacian_kernel_seq() -> Seq<Seq<i32>> {
    seq![seq![0i32, -1i32, 0i32], seq![-1i32, 4i32, -1i32], seq![0i32, -1i32, 0i32]]
}

/// The identity weights: a single central 1.
pub open spec fn identity_kernel_seq() -> Seq<Seq<i32>> {
    seq![seq![0i32, 0i32, 0i32], seq![0i32, 1i32, 0i32], seq![0i32, 0i32, 0i32]]
}

/// Build the discrete Laplacian edge-detection kernel.
pub fn laplacian_kernel() -> (k: Vec<Vec<i32>>)
    ensures
        grid_view(k) == laplacian_kernel_seq(),
        rectangular(grid_view(k)),
        k@.len() == 3,
        k@[0]@.len() == 3,
{
    let r0: Vec<i32> = vec![0, -1, 0];
    let r1: Vec<i32> = vec![-1, 4, -1];
    let r2: Vec<i32> = vec![0, -1, 0];
    let mut k: Vec<Vec<i32>> = Vec::new();
    k.push(r0);
    k.push(r1);
    k.push(r2);
    proof {
        assert(grid_view(k) =~~= laplacian_kernel_seq());
    }
    k
}

/// Build the identity kernel.
pub fn identity_kernel() -> (k: Vec<Vec<i32>>)
    ensures
        grid_view(k) == identity_kernel_seq(),
        rectangular(grid_view(k)),
        k@.len() == 3,
        k@[0]@.len() == 3,
{
    let r0: Vec<i32> = vec![0, 0, 0];
    let r1: Vec<i32> = vec![0, 1, 0];
    let r2: Vec<i32> = vec![0, 0, 0];
    let mut k: Vec<Vec<i32>> = Vec::new();
    k.push(r0);
    k.push(r1);
    k.push(r2);
    proof {
        assert(grid_view(k) =~~= identity_kernel_seq());
    }
    k
}

/// A row sum over three cells, written out term by term.
proof fn lemma_row_sum3(nrow: Seq<Pixel>, krow: Seq<i32>, c: int)
    requires
        krow.len() == 3,
    ensures
        row_sum(nrow, krow, c, 3) == clamp_byte(chan(nrow[0], c) * krow[0] as int) + clamp_byte(
            chan(nrow[1], c) * krow[1] as int,
        ) + clamp_byte(chan(nrow[2], c) * krow[2] as int),
{
    reveal_with_fuel(row_sum, 4);
}

/// A grid sum over three rows, written out row by row.
proof fn lemma_grid_sum3(neigh: Seq<Seq<Pixel>>, kern: Seq<Seq<i32>>, c: int)
    requires
        kern.len() == 3,
        kern[0].len() == 3,
        kern[1].len() == 3,
        kern[2].len() == 3,
    ensures
        grid_sum(neigh, kern, c, 3) == row_sum(neigh[0], kern[0], c, 3) + row_sum(
            neigh[1],
            kern[1],
            c,
            3,
        ) + row_sum(neigh[2], kern[2], c, 3),
{
    reveal_with_fuel(grid_sum, 4);
}

/// Identity law: applying the identity kernel at an interior coordinate
/// leaves the colour channels unchanged and sets alpha to 255; the whole
/// pixel is unchanged whenever its alpha already was 255.
pub proof fn lemma_identity_kernel_interior(m: Seq<Seq<Pixel>>, i: int, j: int)
    requires
        rectangular(m),
        0 < i && i + 1 < m.len(),
        0 < j && j + 1 < m[0].len(),
    ensures
        conv_pixel(window(m, i, j, 3, 3), identity_kernel_seq()) == (Pixel {
            r: m[i][j].r,
            g: m[i][j].g,
            b: m[i][j].b,
            a: 255,
        }),
{
    let w = window(m, i, j, 3, 3);
    let kk = identity_kernel_seq();
    assert(resolve_index(i, 1, m.len() as int) == i);
    assert(resolve_index(j, 1, m[0].len() as int) == j);
    assert(w[1][1] == m[i][j]);
    assert forall|c: int| 0 <= c < 3 implies conv_channel(w, kk, c) == chan(m[i][j], c) by {
        lemma_row_sum3(w[0], kk[0], c);
        lemma_row_sum3(w[1], kk[1], c);
        lemma_row_sum3(w[2], kk[2], c);
        lemma_grid_sum3(w, kk, c);
        assert(chan(w[0][0], c) * (0i32 as int) == 0);
        assert(chan(w[0][1], c) * (0i32 as int) == 0);
        assert(chan(w[0][2], c) * (0i32 as int) == 0);
        assert(chan(w[1][0], c) * (0i32 as int) == 0);
        assert(chan(w[1][1], c) * (1i32 as int) == chan(w[1][1], c));
        assert(chan(w[1][2], c) * (0i32 as int) == 0);
        assert(chan(w[2][0], c) * (0i32 as int) == 0);
        assert(chan(w[2][1], c) * (0i32 as int) == 0);
        assert(chan(w[2][2], c) * (0i32 as int) == 0);
        assert(clamp_byte(chan(m[i][j], c)) == chan(m[i][j], c));
        assert(grid_sum(w, kk, c, 3) == chan(m[i][j], c));
        lemma_small_mod(chan(m[i][j], c) as nat, 256);
    }
}

/// Boundary law for a 1×1 matrix: whatever the kernel shape, every window
/// cell falls back to coordinate (0, 0) and so holds the sole pixel.
pub proof fn lemma_single_pixel_window(m: Seq<Seq<Pixel>>, kh: nat, kw: nat, l: int, k: int)
    requires
        m.len() == 1,
        m[0].len() == 1,
        0 <= l < kh,
        0 <= k < kw,
    ensures
        window(m, 0, 0, kh, kw)[l][k] == m[0][0],
{
    assert(resolve_index(0, l, 1) == 0);
    assert(resolve_index(0, k, 1) == 0);
}

/// On a uniform matrix the discrete Laplacian yields `clamp_byte(4·v)` on
/// each colour channel: every negative product clamps to 0 before the
/// summation, so the channels cancel only where they are already 0, as on
/// a uniformly black input.
pub proof fn lemma_laplacian_uniform(m: Seq<Seq<Pixel>>, p: Pixel, i: int, j: int)
    requires
        rectangular(m),
        m.len() > 0,
        m[0].len() > 0,
        0 <= i < m.len(),
        0 <= j < m[0].len(),
        forall|a: int, b: int| 0 <= a < m.len() && 0 <= b < m[0].len() ==> #[trigger] m[a][b] == p,
    ensures
        conv_pixel(window(m, i, j, 3, 3), laplacian_kernel_seq()) == (Pixel {
            r: clamp_byte(4 * p.r as int) as u8,
            g: clamp_byte(4 * p.g as int) as u8,
            b: clamp_byte(4 * p.b as int) as u8,
            a: 255,
        }),
{
    let w = window(m, i, j, 3, 3);
    let kk = laplacian_kernel_seq();
    assert forall|l: int, k: int| 0 <= l < 3 && 0 <= k < 3 implies #[trigger] w[l][k] == p by {
        let ri = resolve_index(i, l, m.len() as int);
        let rj = resolve_index(j, k, m[0].len() as int);
        assert(0 <= ri < m.len());
        assert(0 <= rj < m[0].len());
        assert(m[ri][rj] == p);
    }
    assert forall|c: int| 0 <= c < 3 implies conv_channel(w, kk, c) == clamp_byte(
        4 * chan(p, c),
    ) by {
        lemma_row_sum3(w[0], kk[0], c);
        lemma_row_sum3(w[1], kk[1], c);
        lemma_row_sum3(w[2], kk[2], c);
        lemma_grid_sum3(w, kk, c);
        assert(chan(p, c) * (0i32 as int) == 0);
        assert(chan(p, c) * ((-1i32) as int) == -chan(p, c));
        assert(chan(p, c) * (4i32 as int) == 4 * chan(p, c));
        assert(clamp_byte(-chan(p, c)) == 0);
        assert(grid_sum(w, kk, c, 3) == clamp_byte(4 * chan(p, c)));
        lemma_small_mod(clamp_byte(4 * chan(p, c)) as nat, 256);
    }
}

} // verus!
