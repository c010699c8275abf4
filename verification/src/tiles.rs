use vstd::prelude::*;

verus! {

/// How many values `0, step, 2 * step, ...` lie below `len`.
pub open spec fn step_count(len: int, step: int) -> int {
    if len <= 0 {
        0
    } else {
        (len - 1) / step + 1
    }
}

/// The end of the span starting at `start` of length `step`, cut at `len`.
pub open spec fn span_end(start: int, step: int, len: int) -> int {
    if start + step <= len {
        start + step
    } else {
        len
    }
}

/// The `k`-th tile, in row-major order, of an image of `width` by `height`
/// pixels cut into tiles of `tile_width` by `tile_height`, as
/// `(x_start, y_start, x_end, y_end)`.
pub open spec fn tile_rect(
    k: int,
    height: usize,
    width: usize,
    tile_width: usize,
    tile_height: usize,
) -> (usize, usize, usize, usize) {
    let nx = step_count(width as int, tile_width as int);
    let i = k % nx;
    let j = k / nx;
    (
        (i * tile_width) as usize,
        (j * tile_height) as usize,
        span_end(i * tile_width, tile_width as int, width as int) as usize,
        span_end(j * tile_height, tile_height as int, height as int) as usize,
    )
}

/// All tiles of the image, row by row, each row from left to right.
pub open spec fn spec_tiles(height: usize, width: usize, tile_width: usize, tile_height: usize) -> Seq<
    (usize, usize, usize, usize),
> {
    Seq::new(
        (step_count(height as int, tile_height as int) * step_count(
            width as int,
            tile_width as int,
        )) as nat,
        |k: int| tile_rect(k, height, width, tile_width, tile_height),
    )
}

/// Whether the tile `(x_start, y_start, x_end, y_end)` holds pixel `(x, y)`.
pub open spec fn rect_contains(tile: (usize, usize, usize, usize), x: int, y: int) -> bool {
    tile.0 <= x < tile.2 && tile.1 <= y < tile.3
}

/// The index of the tile that holds pixel `(x, y)`.
pub open spec fn pixel_tile_index(x: int, y: int, width: usize, tile_width: usize, tile_height: usize) -> int {
    (y / tile_height as int) * step_count(width as int, tile_width as int) + x / tile_width as int
}

/// Facts about the `i`-th step of `step` below `len`.
pub proof fn lemma_step(i: int, step: int, len: int)
    requires
        0 <= i,
        0 < step,
        i * step < len,
    ensures
        i < step_count(len, step),
        (i * step + step >= len) == (i + 1 == step_count(len, step)),
{
    let q = (len - 1) / step;
    let r = (len - 1) % step;
    assert(len - 1 == q * step + r && 0 <= r < step) by {
        vstd::arithmetic::div_mod::lemma_fundamental_div_mod(len - 1, step);
    }
    assert(i <= q) by (nonlinear_arith)
        requires
            i * step <= q * step + r,
            0 <= r < step,
            0 < step,
    ;
    assert((i * step + step >= len) == (i == q)) by (nonlinear_arith)
        requires
            i <= q,
            0 <= i,
            len - 1 == q * step + r,
            0 <= r < step,
            0 < step,
    ;
}

/// Splitting `k = j * n + i` with `i < n` back into `j` and `i`.
pub proof fn lemma_index_split(j: int, i: int, n: int)
    requires
        0 <= j,
        0 <= i < n,
    ensures
        (j * n + i) / n == j,
        (j * n + i) % n == i,
{
    vstd::arithmetic::div_mod::lemma_fundamental_div_mod_converse(j * n + i, n, j, i);
}

/// Splits an image of `width` by `height` pixels into tiles of `tile_width`
/// by `tile_height` pixels, row by row, each row from left to right. Tiles on
/// the right and bottom edges are cut at the image border. Each tile is
/// `(x_start, y_start, x_end, y_end)` with exclusive ends.
pub fn generate_tiles(height: usize, width: usize, tile_width: usize, tile_height: usize) -> (tiles:
    Vec<(usize, usize, usize, usize)>)
    requires
        tile_width > 0,
        tile_height > 0,
    ensures
        tiles@ == spec_tiles(height, width, tile_width, tile_height),
{
    let ghost nx = step_count(width as int, tile_width as int);
    let ghost ny = step_count(height as int, tile_height as int);
    let mut tiles: Vec<(usize, usize, usize, usize)> = Vec::new();
    if height == 0 || width == 0 {
        assert(tiles@ =~= spec_tiles(height, width, tile_width, tile_height)) by {
            assert(ny * nx == 0) by (nonlinear_arith)
                requires
                    ny == 0 || nx == 0,
            ;
        }
        return tiles;
    }
    let mut ty: usize = 0;
    let ghost mut j: int = 0;
    loop
        invariant_except_break
            0 <= j < ny,
            ty == j * tile_height,
            ty < height,
            tiles@.len() == j * nx,
        invariant
            tile_width > 0,
            tile_height > 0,
            width > 0,
            height > 0,
            nx == step_count(width as int, tile_width as int),
            ny == step_count(height as int, tile_height as int),
            forall|k: int|
                0 <= k < tiles@.len() ==> #[trigger] tiles@[k] == tile_rect(
                    k,
                    height,
                    width,
                    tile_width,
                    tile_height,
                ),
        ensures
            tiles@ =~= spec_tiles(height, width, tile_width, tile_height),
        decreases height - ty,
    {
        proof {
            lemma_step(j, tile_height as int, height as int);
        }
        let y_end = if height - ty < tile_height {
            height
        } else {
            ty + tile_height
        };
        let mut tx: usize = 0;
        let ghost mut i: int = 0;
        loop
            invariant_except_break
                0 <= i < nx,
                tx == i * tile_width,
                tx < width,
                tiles@.len() == j * nx + i,
            invariant
                tile_width > 0,
                tile_height > 0,
                width > 0,
                nx == step_count(width as int, tile_width as int),
                0 <= j,
                ty == j * tile_height,
                y_end == span_end(j * tile_height, tile_height as int, height as int),
                forall|k: int|
                    0 <= k < tiles@.len() ==> #[trigger] tiles@[k] == tile_rect(
                        k,
                        height,
                        width,
                        tile_width,
                        tile_height,
                    ),
            ensures
                tiles@.len() == (j + 1) * nx,
                forall|k: int|
                    0 <= k < tiles@.len() ==> #[trigger] tiles@[k] == tile_rect(
                        k,
                        height,
                        width,
                        tile_width,
                        tile_height,
                    ),
            decreases width - tx,
        {
            proof {
                lemma_step(i, tile_width as int, width as int);
                lemma_index_split(j, i, nx);
            }
            let x_end = if width - tx < tile_width {
                width
            } else {
                tx + tile_width
            };
            tiles.push((tx, ty, x_end, y_end));
            if width - tx <= tile_width {
                assert(tiles@.len() == (j + 1) * nx) by (nonlinear_arith)
                    requires
                        tiles@.len() == j * nx + i + 1,
                        i + 1 == nx,
                ;
                break;
            }
            tx = tx + tile_width;
            proof {
                i = i + 1;
                assert(tx == i * tile_width) by (nonlinear_arith)
                    requires
                        tx == (i - 1) * tile_width + tile_width,
                ;
            }
        }
        if height - ty <= tile_height {
            assert(j + 1 == ny);
            assert(tiles@.len() == ny * nx);
            break;
        }
        ty = ty + tile_height;
        proof {
            j = j + 1;
            assert(ty == j * tile_height) by (nonlinear_arith)
                requires
                    ty == (j - 1) * tile_height + tile_height,
            ;
        }
    }
    tiles
}

/// Every tile is a non-empty rectangle inside the image, at most
/// `tile_width` by `tile_height` pixels.
pub proof fn lemma_tiles_inside_image(
    height: usize,
    width: usize,
    tile_width: usize,
    tile_height: usize,
    k: int,
)
    requires
        tile_width > 0,
        tile_height > 0,
        0 <= k < spec_tiles(height, width, tile_width, tile_height).len(),
    ensures
        ({
            let t = spec_tiles(height, width, tile_width, tile_height)[k];
            &&& t.0 < t.2 <= width
            &&& t.1 < t.3 <= height
            &&& t.2 - t.0 <= tile_width
            &&& t.3 - t.1 <= tile_height
        }),
{
    let nx = step_count(width as int, tile_width as int);
    let ny = step_count(height as int, tile_height as int);
    assert(nx > 0 && ny > 0) by (nonlinear_arith)
        requires
            0 <= k < ny * nx,
            nx >= 0,
            ny >= 0,
    ;
    let i = k % nx;
    let j = k / nx;
    assert(0 <= i < nx && 0 <= j < ny) by {
        vstd::arithmetic::div_mod::lemma_fundamental_div_mod(k, nx);
        assert(j < ny) by (nonlinear_arith)
            requires
                k == nx * j + i,
                0 <= i < nx,
                k < ny * nx,
                nx > 0,
        ;
        assert(j >= 0) by (nonlinear_arith)
            requires
                k == nx * j + i,
                0 <= i < nx,
                k >= 0,
                nx > 0,
        ;
    }
    lemma_step_below(i, tile_width as int, width as int);
    lemma_step_below(j, tile_height as int, height as int);
}

/// The `i`-th step below `step_count(len, step)` starts below `len`.
pub proof fn lemma_step_below(i: int, step: int, len: int)
    requires
        0 <= i < step_count(len, step),
        step > 0,
    ensures
        0 <= i * step < len,
{
    let q = (len - 1) / step;
    let r = (len - 1) % step;
    assert(len - 1 == q * step + r && 0 <= r < step) by {
        vstd::arithmetic::div_mod::lemma_fundamental_div_mod(len - 1, step);
    }
    assert(0 <= i * step < len) by (nonlinear_arith)
        requires
            0 <= i <= q,
            len - 1 == q * step + r,
            0 <= r,
            step > 0,
    ;
}

/// `x` splits into a whole number of steps and a remainder in exactly one way.
pub proof fn lemma_unique_step(x: int, step: int, i: int)
    requires
        step > 0,
        0 <= i,
        i * step <= x < i * step + step,
    ensures
        i == x / step,
{
    vstd::arithmetic::div_mod::lemma_fundamental_div_mod_converse(x, step, i, x - i * step);
}

/// Every pixel of the image lies in exactly one tile: the one at
/// `pixel_tile_index`.
pub proof fn lemma_tiles_partition_image(
    height: usize,
    width: usize,
    tile_width: usize,
    tile_height: usize,
    x: int,
    y: int,
)
    requires
        tile_width > 0,
        tile_height > 0,
        0 <= x < width,
        0 <= y < height,
    ensures
        0 <= pixel_tile_index(x, y, width, tile_width, tile_height) < spec_tiles(
            height,
            width,
            tile_width,
            tile_height,
        ).len(),
        rect_contains(
            spec_tiles(height, width, tile_width, tile_height)[pixel_tile_index(
                x,
                y,
                width,
                tile_width,
                tile_height,
            )],
            x,
            y,
        ),
        forall|k: int|
            0 <= k < spec_tiles(height, width, tile_width, tile_height).len() && rect_contains(
                #[trigger] spec_tiles(height, width, tile_width, tile_height)[k],
                x,
                y,
            ) ==> k == pixel_tile_index(x, y, width, tile_width, tile_height),
{
    let tw = tile_width as int;
    let th = tile_height as int;
    let nx = step_count(width as int, tw);
    let ny = step_count(height as int, th);
    let i = x / tw;
    let j = y / th;
    assert(0 <= i && i * tw <= x < i * tw + tw) by {
        vstd::arithmetic::div_mod::lemma_fundamental_div_mod(x, tw);
        assert(0 <= i) by (nonlinear_arith)
            requires
                x == tw * i + x % tw,
                0 <= x % tw < tw,
                x >= 0,
        ;
    }
    assert(0 <= j && j * th <= y < j * th + th) by {
        vstd::arithmetic::div_mod::lemma_fundamental_div_mod(y, th);
        assert(0 <= j) by (nonlinear_arith)
            requires
                y == th * j + y % th,
                0 <= y % th < th,
                y >= 0,
        ;
    }
    lemma_step(i, tw, width as int);
    lemma_step(j, th, height as int);
    let k0 = j * nx + i;
    assert(0 <= k0 < ny * nx) by (nonlinear_arith)
        requires
            0 <= i < nx,
            0 <= j < ny,
            k0 == j * nx + i,
    ;
    lemma_index_split(j, i, nx);
    assert forall|k: int|
        0 <= k < spec_tiles(height, width, tile_width, tile_height).len() && rect_contains(
            #[trigger] spec_tiles(height, width, tile_width, tile_height)[k],
            x,
            y,
        ) implies k == pixel_tile_index(x, y, width, tile_width, tile_height) by {
        lemma_tiles_inside_image(height, width, tile_width, tile_height, k);
        let i2 = k % nx;
        let j2 = k / nx;
        assert(nx > 0);
        vstd::arithmetic::div_mod::lemma_fundamental_div_mod(k, nx);
        assert(0 <= j2) by (nonlinear_arith)
            requires
                k == nx * j2 + i2,
                0 <= i2 < nx,
                k >= 0,
                nx > 0,
        ;
        assert(j2 < ny) by (nonlinear_arith)
            requires
                k == nx * j2 + i2,
                0 <= i2 < nx,
                k < ny * nx,
                nx > 0,
        ;
        lemma_step_below(i2, tw, width as int);
        lemma_step_below(j2, th, height as int);
        lemma_unique_step(x, tw, i2);
        lemma_unique_step(y, th, j2);
        assert(k == j * nx + i) by (nonlinear_arith)
            requires
                k == nx * j2 + i2,
                i2 == i,
                j2 == j,
        ;
    }
}

/// A pixel of a tile lies in the same tile column and row as the tile's
/// top left pixel.
pub proof fn lemma_tile_start_column(
    height: usize,
    width: usize,
    tile_width: usize,
    tile_height: usize,
    k: int,
    x: int,
    y: int,
)
    requires
        tile_width > 0,
        tile_height > 0,
        0 <= k < spec_tiles(height, width, tile_width, tile_height).len(),
        rect_contains(spec_tiles(height, width, tile_width, tile_height)[k], x, y),
    ensures
        (spec_tiles(height, width, tile_width, tile_height)[k].0 as int) / (tile_width as int) == x / (tile_width as int),
        (spec_tiles(height, width, tile_width, tile_height)[k].1 as int) / (tile_height as int) == y / (tile_height as int),
{
    let tw = tile_width as int;
    let th = tile_height as int;
    let nx = step_count(width as int, tw);
    let ny = step_count(height as int, th);
    let t = spec_tiles(height, width, tile_width, tile_height)[k];
    lemma_tiles_inside_image(height, width, tile_width, tile_height, k);
    assert(nx > 0) by (nonlinear_arith)
        requires
            0 <= k < ny * nx,
            nx >= 0,
            ny >= 0,
    ;
    let i = k % nx;
    let j = k / nx;
    vstd::arithmetic::div_mod::lemma_fundamental_div_mod(k, nx);
    assert(0 <= j < ny) by (nonlinear_arith)
        requires
            k == nx * j + i,
            0 <= i < nx,
            0 <= k < ny * nx,
            nx > 0,
    ;
    lemma_step_below(i, tw, width as int);
    lemma_step_below(j, th, height as int);
    assert(t.0 == i * tw && t.1 == j * th);
    lemma_unique_step(x, tw, i);
    lemma_unique_step(t.0 as int, tw, i);
    lemma_unique_step(y, th, j);
    lemma_unique_step(t.1 as int, th, j);
}

} // verus!
