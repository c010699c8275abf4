use vstd::prelude::*;
use std::ops::Range;
use crate::tiles::{generate_tiles as generate_rects, spec_tiles, step_count, span_end, rect_contains, pixel_tile_index, lemma_tiles_partition_image, lemma_tiles_inside_image, lemma_index_split, lemma_step, lemma_step_below, lemma_unique_step, lemma_tile_start_column};

verus! {

/// The `k`-th work item of rendering `num_samples` samples per pixel: image
/// tiles in row-major order, repeated once for each batch of
/// `sample_batch_size` samples. Each item is `(x range, y range, sample range)`.
pub open spec fn batched_tile(
    k: int,
    height: usize,
    width: usize,
    num_samples: usize,
    tile_width: usize,
    tile_height: usize,
    sample_batch_size: usize,
) -> (Range<usize>, Range<usize>, Range<usize>) {
    let rects = spec_tiles(height, width, tile_width, tile_height);
    let c = rects.len() as int;
    let r = rects[k % c];
    let s = k / c;
    (
        Range { start: r.0, end: r.2 },
        Range { start: r.1, end: r.3 },
        Range {
            start: (s * sample_batch_size) as usize,
            end: span_end(s * sample_batch_size, sample_batch_size as int, num_samples as int) as usize,
        },
    )
}

/// All work items: every image tile for the first batch of samples, then
/// every image tile for the next batch, and so on.
pub open spec fn spec_batched_tiles(
    height: usize,
    width: usize,
    num_samples: usize,
    tile_width: usize,
    tile_height: usize,
    sample_batch_size: usize,
) -> Seq<(Range<usize>, Range<usize>, Range<usize>)> {
    Seq::new(
        (step_count(num_samples as int, sample_batch_size as int) * spec_tiles(
            height,
            width,
            tile_width,
            tile_height,
        ).len()) as nat,
        |k: int|
            batched_tile(
                k,
                height,
                width,
                num_samples,
                tile_width,
                tile_height,
                sample_batch_size,
            ),
    )
}

/// Splits rendering into work items: for each batch of `sample_batch_size`
/// of the `num_samples` samples, every tile of `tile_width` by `tile_height`
/// pixels of the `width` by `height` image, row by row. Ranges at the image
/// border and the last sample batch are cut short.
pub fn generate_tiles(
    height: usize,
    width: usize,
    num_samples: usize,
    tile_width: usize,
    tile_height: usize,
    sample_batch_size: usize,
) -> (tiles: Vec<(Range<usize>, Range<usize>, Range<usize>)>)
    requires
        tile_width > 0,
        tile_height > 0,
        sample_batch_size > 0,
    ensures
        tiles@ == spec_batched_tiles(
            height,
            width,
            num_samples,
            tile_width,
            tile_height,
            sample_batch_size,
        ),
{
    let rects = generate_rects(height, width, tile_width, tile_height);
    let ghost c = rects@.len() as int;
    let ghost nb = step_count(num_samples as int, sample_batch_size as int);
    let mut tiles: Vec<(Range<usize>, Range<usize>, Range<usize>)> = Vec::new();
    if num_samples == 0 {
        assert(tiles@ =~= spec_batched_tiles(
            height,
            width,
            num_samples,
            tile_width,
            tile_height,
            sample_batch_size,
        ));
        return tiles;
    }
    let mut si: usize = 0;
    let ghost mut s: int = 0;
    loop
        invariant_except_break
            0 <= s < nb,
            si == s * sample_batch_size,
            si < num_samples,
            tiles@.len() == s * c,
        invariant
            sample_batch_size > 0,
            num_samples > 0,
            rects@ == spec_tiles(height, width, tile_width, tile_height),
            c == rects@.len(),
            nb == step_count(num_samples as int, sample_batch_size as int),
            forall|k: int|
                0 <= k < tiles@.len() ==> #[trigger] tiles@[k] == batched_tile(
                    k,
                    height,
                    width,
                    num_samples,
                    tile_width,
                    tile_height,
                    sample_batch_size,
                ),
        ensures
            tiles@.len() == nb * c,
        decreases num_samples - si,
    {
        proof {
            lemma_step(s, sample_batch_size as int, num_samples as int);
        }
        let s_end = if num_samples - si < sample_batch_size {
            num_samples
        } else {
            si + sample_batch_size
        };
        let mut idx: usize = 0;
        while idx < rects.len()
            invariant
                0 <= s,
                si == s * sample_batch_size,
                s_end == span_end(s * sample_batch_size, sample_batch_size as int, num_samples as int),
                0 <= idx <= rects@.len(),
                c == rects@.len(),
                rects@ == spec_tiles(height, width, tile_width, tile_height),
                tiles@.len() == s * c + idx,
                forall|k: int|
                    0 <= k < tiles@.len() ==> #[trigger] tiles@[k] == batched_tile(
                        k,
                        height,
                        width,
                        num_samples,
                        tile_width,
                        tile_height,
                        sample_batch_size,
                    ),
            decreases rects@.len() - idx,
        {
            proof {
                lemma_index_split(s, idx as int, c);
            }
            let (x0, y0, x1, y1) = rects[idx];
            tiles.push((x0..x1, y0..y1, si..s_end));
            idx += 1;
        }
        if num_samples - si <= sample_batch_size {
            assert(tiles@.len() == nb * c) by (nonlinear_arith)
                requires
                    tiles@.len() == s * c + c,
                    s + 1 == nb,
            ;
            break;
        }
        si = si + sample_batch_size;
        proof {
            s = s + 1;
            assert(si == s * sample_batch_size) by (nonlinear_arith)
                requires
                    si == (s - 1) * sample_batch_size + sample_batch_size,
            ;
            assert(tiles@.len() == s * c) by (nonlinear_arith)
                requires
                    tiles@.len() == (s - 1) * c + c,
            ;
        }
    }
    assert(tiles@ =~= spec_batched_tiles(
        height,
        width,
        num_samples,
        tile_width,
        tile_height,
        sample_batch_size,
    ));
    tiles
}

/// Whether the work item holds sample `sample` of pixel `(x, y)`.
pub open spec fn item_contains(item: (Range<usize>, Range<usize>, Range<usize>), x: int, y: int, sample: int) -> bool {
    &&& item.0.start <= x < item.0.end
    &&& item.1.start <= y < item.1.end
    &&& item.2.start <= sample < item.2.end
}

/// Every sample of every pixel is rendered by exactly one work item.
pub proof fn lemma_batched_tiles_partition_work(
    height: usize,
    width: usize,
    num_samples: usize,
    tile_width: usize,
    tile_height: usize,
    sample_batch_size: usize,
    x: int,
    y: int,
    sample: int,
)
    requires
        tile_width > 0,
        tile_height > 0,
        sample_batch_size > 0,
        0 <= x < width,
        0 <= y < height,
        0 <= sample < num_samples,
    ensures
        exists|k: int|
            0 <= k < spec_batched_tiles(
                height,
                width,
                num_samples,
                tile_width,
                tile_height,
                sample_batch_size,
            ).len() && item_contains(
                #[trigger] spec_batched_tiles(
                    height,
                    width,
                    num_samples,
                    tile_width,
                    tile_height,
                    sample_batch_size,
                )[k],
                x,
                y,
                sample,
            ),
        forall|k1: int, k2: int|
            0 <= k1 < spec_batched_tiles(
                height,
                width,
                num_samples,
                tile_width,
                tile_height,
                sample_batch_size,
            ).len() && 0 <= k2 < spec_batched_tiles(
                height,
                width,
                num_samples,
                tile_width,
                tile_height,
                sample_batch_size,
            ).len() && item_contains(
                #[trigger] spec_batched_tiles(
                    height,
                    width,
                    num_samples,
                    tile_width,
                    tile_height,
                    sample_batch_size,
                )[k1],
                x,
                y,
                sample,
            ) && item_contains(
                #[trigger] spec_batched_tiles(
                    height,
                    width,
                    num_samples,
                    tile_width,
                    tile_height,
                    sample_batch_size,
                )[k2],
                x,
                y,
                sample,
            ) ==> k1 == k2,
{
    let items = spec_batched_tiles(
        height,
        width,
        num_samples,
        tile_width,
        tile_height,
        sample_batch_size,
    );
    let rects = spec_tiles(height, width, tile_width, tile_height);
    let c = rects.len() as int;
    let b = sample_batch_size as int;
    let nb = step_count(num_samples as int, b);
    lemma_tiles_partition_image(height, width, tile_width, tile_height, x, y);
    let p = pixel_tile_index(x, y, width, tile_width, tile_height);
    let s = sample / b;
    assert(0 <= s && s * b <= sample < s * b + b) by {
        vstd::arithmetic::div_mod::lemma_fundamental_div_mod(sample, b);
        assert(0 <= s) by (nonlinear_arith)
            requires
                sample == b * s + sample % b,
                0 <= sample % b < b,
                sample >= 0,
        ;
    }
    lemma_step(s, b, num_samples as int);
    let k0 = s * c + p;
    assert(0 <= k0 < nb * c) by (nonlinear_arith)
        requires
            0 <= s < nb,
            0 <= p < c,
            k0 == s * c + p,
    ;
    lemma_index_split(s, p, c);
    assert(item_contains(items[k0], x, y, sample));
    assert forall|k: int| 0 <= k < items.len() && item_contains(#[trigger] items[k], x, y, sample) implies k == k0 by {
        let r = k % c;
        let s2 = k / c;
        assert(c > 0) by (nonlinear_arith)
            requires
                0 <= k < nb * c,
                nb >= 0,
                c >= 0,
        ;
        vstd::arithmetic::div_mod::lemma_fundamental_div_mod(k, c);
        assert(0 <= s2 < nb) by (nonlinear_arith)
            requires
                k == c * s2 + r,
                0 <= r < c,
                0 <= k < nb * c,
                c > 0,
        ;
        lemma_tiles_inside_image(height, width, tile_width, tile_height, r);
        assert(rect_contains(rects[r], x, y));
        assert(r == p);
        lemma_step_below(s2, b, num_samples as int);
        lemma_unique_step(sample, b, s2);
        assert(k == s * c + p) by (nonlinear_arith)
            requires
                k == c * s2 + r,
                r == p,
                s2 == s,
        ;
    }
}

/// The buffer index of pixel `(x, y)` of an image `w` pixels wide.
pub open spec fn pixel_index(x: int, y: int, w: int) -> int {
    x + y * w
}

/// Whether a pixel `(x, y)` with `xs <= x < xe` and `ys <= y < ye` has
/// buffer index `p` in an image `w` pixels wide.
pub open spec fn hits(xs: int, xe: int, ys: int, ye: int, p: int, w: int) -> bool {
    exists|x: int, y: int| xs <= x < xe && ys <= y < ye && p == #[trigger] pixel_index(x, y, w)
}

/// Whether work item `t` covers buffer index `p` of an image `w` pixels wide.
pub open spec fn covers(t: (Range<usize>, Range<usize>, Range<usize>), p: int, w: int) -> bool {
    hits(t.0.start as int, t.0.end as int, t.1.start as int, t.1.end as int, p, w)
}

/// The preview color of the tile whose top left pixel is
/// `(x_start, y_start)`: tiles alternate between two grays like the squares
/// of a checkerboard.
pub open spec fn checker_color(x_start: int, y_start: int, tile_width: int, tile_height: int) -> u32 {
    if (x_start / tile_width + y_start / tile_height) % 2 == 0 {
        0x999999
    } else {
        0xaaaaaa
    }
}

/// The color of buffer index `p` of the preview once the first `n` work
/// items were drawn: each item of the first sample batch paints its pixels
/// with its tile's checker color, later items over earlier ones; pixels
/// that no item paints stay black.
pub open spec fn preview_color(
    tiles: Seq<(Range<usize>, Range<usize>, Range<usize>)>,
    n: int,
    p: int,
    w: int,
    tile_width: int,
    tile_height: int,
) -> u32
    decreases n,
{
    if n <= 0 {
        0
    } else if tiles[n - 1].2.start == 0 && covers(tiles[n - 1], p, w) {
        checker_color(tiles[n - 1].0.start as int, tiles[n - 1].1.start as int, tile_width, tile_height)
    } else {
        preview_color(tiles, n - 1, p, w, tile_width, tile_height)
    }
}

/// Whether drawing work item `t` stays inside a `w` by `h` buffer: the last
/// pixel of a painted, non-empty item has an index below `w * h`.
pub open spec fn drawable(t: (Range<usize>, Range<usize>, Range<usize>), w: int, h: int) -> bool {
    t.2.start == 0 && t.0.start < t.0.end && t.1.start < t.1.end ==> pixel_index(t.0.end - 1, t.1.end - 1, w) < w * h
}

proof fn lemma_hits_next_col(xs: int, x: int, y: int, p: int, w: int)
    requires
        xs <= x,
    ensures
        hits(xs, x + 1, y, y + 1, p, w) == (hits(xs, x, y, y + 1, p, w) || p == pixel_index(x, y, w)),
{
    if hits(xs, x + 1, y, y + 1, p, w) {
        let (a, b) = choose|a: int, b: int| xs <= a < x + 1 && y <= b < y + 1 && p == #[trigger] pixel_index(a, b, w);
        if a < x {
            assert(hits(xs, x, y, y + 1, p, w));
        }
    }
    if hits(xs, x, y, y + 1, p, w) {
        let (a, b) = choose|a: int, b: int| xs <= a < x && y <= b < y + 1 && p == #[trigger] pixel_index(a, b, w);
        assert(hits(xs, x + 1, y, y + 1, p, w));
    }
    if p == pixel_index(x, y, w) {
        assert(hits(xs, x + 1, y, y + 1, p, w));
    }
}

proof fn lemma_hits_next_row(xs: int, xe: int, ys: int, y: int, p: int, w: int)
    requires
        ys <= y,
    ensures
        hits(xs, xe, ys, y + 1, p, w) == (hits(xs, xe, ys, y, p, w) || hits(xs, xe, y, y + 1, p, w)),
{
    if hits(xs, xe, ys, y + 1, p, w) {
        let (a, b) = choose|a: int, b: int| xs <= a < xe && ys <= b < y + 1 && p == #[trigger] pixel_index(a, b, w);
        if b < y {
            assert(hits(xs, xe, ys, y, p, w));
        } else {
            assert(hits(xs, xe, y, y + 1, p, w));
        }
    }
    if hits(xs, xe, ys, y, p, w) {
        let (a, b) = choose|a: int, b: int| xs <= a < xe && ys <= b < y && p == #[trigger] pixel_index(a, b, w);
        assert(hits(xs, xe, ys, y + 1, p, w));
    }
    if hits(xs, xe, y, y + 1, p, w) {
        let (a, b) = choose|a: int, b: int| xs <= a < xe && y <= b < y + 1 && p == #[trigger] pixel_index(a, b, w);
        assert(hits(xs, xe, ys, y + 1, p, w));
    }
}

/// The checker color, computed without overflow.
fn checker_color_of(x_start: usize, y_start: usize, tile_width: usize, tile_height: usize) -> (c: u32)
    requires
        tile_width > 0,
        tile_height > 0,
    ensures
        c == checker_color(x_start as int, y_start as int, tile_width as int, tile_height as int),
{
    let a = x_start / tile_width;
    let b = y_start / tile_height;
    proof {
        vstd::arithmetic::div_mod::lemma_add_mod_noop(a as int, b as int, 2);
    }
    if (a % 2 + b % 2) % 2 == 0 {
        0x999999
    } else {
        0xaaaaaa
    }
}

/// Paints one work item into the preview buffer with `color`.
fn paint_item(buffer: &mut Vec<u32>, width: usize, height: usize, item: &(Range<usize>, Range<usize>, Range<usize>), color: u32)
    requires
        old(buffer)@.len() == width * height,
        width * height <= usize::MAX,
        item.2.start == 0,
        drawable(*item, width as int, height as int),
    ensures
        final(buffer)@.len() == width * height,
        forall|p: int|
            0 <= p < width * height ==> #[trigger] final(buffer)@[p] == if covers(*item, p, width as int) {
                color
            } else {
                old(buffer)@[p]
            },
{
    let ghost prev = buffer@;
    let ghost w = width as int;
    let xs = item.0.start;
    let xe = item.0.end;
    let ys = item.1.start;
    let ye = item.1.end;
    let mut y = ys;
    while y < ye
        invariant
            buffer@.len() == width * height,
            prev.len() == width * height,
            w == width as int,
            xs == item.0.start,
            xe == item.0.end,
            ys == item.1.start,
            ye == item.1.end,
            ys <= y,
            ys < ye ==> y <= ye,
            ye <= ys ==> y == ys,
            width * height <= usize::MAX,
            drawable(*item, width as int, height as int),
            item.2.start == 0,
            forall|p: int|
                0 <= p < width * height ==> #[trigger] buffer@[p] == if hits(xs as int, xe as int, ys as int, y as int, p, w) {
                    color
                } else {
                    prev[p]
                },
        decreases ye - y,
    {
        let mut x = xs;
        while x < xe
            invariant
                buffer@.len() == width * height,
                prev.len() == width * height,
                w == width as int,
                xs == item.0.start,
                xe == item.0.end,
                ys == item.1.start,
                ye == item.1.end,
                ys <= y < ye,
                xs <= x,
                xs < xe ==> x <= xe,
                xe <= xs ==> x == xs,
                width * height <= usize::MAX,
                drawable(*item, width as int, height as int),
                item.2.start == 0,
                forall|p: int|
                    0 <= p < width * height ==> #[trigger] buffer@[p] == if hits(xs as int, xe as int, ys as int, y as int, p, w)
                        || hits(xs as int, x as int, y as int, y + 1, p, w) {
                        color
                    } else {
                        prev[p]
                    },
            decreases xe - x,
        {
            assert(pixel_index(x as int, y as int, w) <= pixel_index(xe - 1, ye - 1, w)) by (nonlinear_arith)
                requires
                    x < xe,
                    y < ye,
                    w >= 0,
            ;
            assert(0 <= y * w <= pixel_index(x as int, y as int, w)) by (nonlinear_arith)
                requires
                    x >= 0,
                    y >= 0,
                    w >= 0,
            ;
            let idx = x + y * width;
            let ghost before = buffer@;
            buffer.set(idx, color);
            proof {
                assert forall|p: int| 0 <= p < width * height implies #[trigger] buffer@[p] == if hits(xs as int, xe as int, ys as int, y as int, p, w)
                    || hits(xs as int, x + 1, y as int, y + 1, p, w) {
                    color
                } else {
                    prev[p]
                } by {
                    lemma_hits_next_col(xs as int, x as int, y as int, p, w);
                    if p != idx {
                        assert(buffer@[p] == before[p]);
                    }
                }
            }
            x = x + 1;
        }
        proof {
            assert forall|p: int| 0 <= p < width * height implies #[trigger] buffer@[p] == if hits(xs as int, xe as int, ys as int, y + 1, p, w) {
                color
            } else {
                prev[p]
            } by {
                lemma_hits_next_row(xs as int, xe as int, ys as int, y as int, p, w);
                if xs >= xe {
                    assert(!hits(xs as int, x as int, y as int, y + 1, p, w));
                    assert(!hits(xs as int, xe as int, y as int, y + 1, p, w));
                }
            }
        }
        y = y + 1;
    }
    proof {
        assert forall|p: int| 0 <= p < width * height implies #[trigger] buffer@[p] == if covers(*item, p, width as int) {
            color
        } else {
            prev[p]
        } by {
            if ys >= ye {
                assert(!hits(xs as int, xe as int, ys as int, y as int, p, w));
                assert(!covers(*item, p, width as int));
            }
        }
    }
}

/// The preview shown while rendering: a `width` by `height` buffer of
/// `0x00RRGGBB` pixels in which the work items of the first sample batch are
/// drawn as a checkerboard of their tiles, as `preview_color` describes.
pub fn preview_checkerboard(
    width: usize,
    height: usize,
    tile_width: usize,
    tile_height: usize,
    tiles: &Vec<(Range<usize>, Range<usize>, Range<usize>)>,
) -> (buffer: Vec<u32>)
    requires
        tile_width > 0,
        tile_height > 0,
        width * height <= usize::MAX,
        forall|k: int| 0 <= k < tiles@.len() ==> drawable(#[trigger] tiles@[k], width as int, height as int),
    ensures
        buffer@.len() == width * height,
        forall|p: int|
            0 <= p < width * height ==> #[trigger] buffer@[p] == preview_color(
                tiles@,
                tiles@.len() as int,
                p,
                width as int,
                tile_width as int,
                tile_height as int,
            ),
{
    let size = width * height;
    let mut buffer: Vec<u32> = vec![0u32; size];
    let mut k: usize = 0;
    while k < tiles.len()
        invariant
            size == width * height,
            tile_width > 0,
            tile_height > 0,
            k <= tiles@.len(),
            buffer@.len() == size,
            forall|j: int| 0 <= j < tiles@.len() ==> drawable(#[trigger] tiles@[j], width as int, height as int),
            forall|p: int|
                0 <= p < size ==> #[trigger] buffer@[p] == preview_color(
                    tiles@,
                    k as int,
                    p,
                    width as int,
                    tile_width as int,
                    tile_height as int,
                ),
        decreases tiles@.len() - k,
    {
        let item = &tiles[k];
        assert(drawable(tiles@[k as int], width as int, height as int));
        if item.2.start == 0 {
            let color = checker_color_of(item.0.start, item.1.start, tile_width, tile_height);
            paint_item(&mut buffer, width, height, item, color);
        }
        k += 1;
    }
    buffer
}

/// Items that do not paint a pixel leave its preview color as it was.
proof fn lemma_preview_unchanged(
    tiles: Seq<(Range<usize>, Range<usize>, Range<usize>)>,
    m: int,
    n: int,
    p: int,
    w: int,
    tile_width: int,
    tile_height: int,
)
    requires
        0 <= m <= n,
        forall|j: int| m <= j < n ==> !(#[trigger] tiles[j].2.start == 0 && covers(tiles[j], p, w)),
    ensures
        preview_color(tiles, n, p, w, tile_width, tile_height) == preview_color(tiles, m, p, w, tile_width, tile_height),
    decreases n - m,
{
    if n > m {
        assert(!(tiles[n - 1].2.start == 0 && covers(tiles[n - 1], p, w)));
        lemma_preview_unchanged(tiles, m, n - 1, p, w, tile_width, tile_height);
    }
}

/// A pixel index of an image `w` pixels wide names one pixel.
proof fn lemma_pixel_index_unique(a: int, b: int, x: int, y: int, w: int)
    requires
        0 <= a < w,
        0 <= x < w,
        0 <= b,
        0 <= y,
        pixel_index(a, b, w) == pixel_index(x, y, w),
    ensures
        a == x,
        b == y,
{
    vstd::arithmetic::div_mod::lemma_fundamental_div_mod_converse(a + b * w, w, b, a);
    vstd::arithmetic::div_mod::lemma_fundamental_div_mod_converse(x + y * w, w, y, x);
}

/// Every work item lies inside the image, so the preview can draw it.
pub proof fn lemma_batched_tiles_drawable(
    height: usize,
    width: usize,
    num_samples: usize,
    tile_width: usize,
    tile_height: usize,
    sample_batch_size: usize,
    k: int,
)
    requires
        tile_width > 0,
        tile_height > 0,
        sample_batch_size > 0,
        0 <= k < spec_batched_tiles(height, width, num_samples, tile_width, tile_height, sample_batch_size).len(),
    ensures
        drawable(
            spec_batched_tiles(height, width, num_samples, tile_width, tile_height, sample_batch_size)[k],
            width as int,
            height as int,
        ),
{
    let rects = spec_tiles(height, width, tile_width, tile_height);
    let c = rects.len() as int;
    let nb = step_count(num_samples as int, sample_batch_size as int);
    assert(c > 0) by (nonlinear_arith)
        requires
            0 <= k < nb * c,
            nb >= 0,
            c >= 0,
    ;
    let r = k % c;
    vstd::arithmetic::div_mod::lemma_fundamental_div_mod(k, c);
    lemma_tiles_inside_image(height, width, tile_width, tile_height, r);
    let t = rects[r];
    assert(pixel_index(t.2 - 1, t.3 - 1, width as int) < width * height) by (nonlinear_arith)
        requires
            0 < t.2 <= width,
            0 < t.3 <= height,
    ;
}

/// While rendering, the preview starts out as a checkerboard of the image's
/// tiles: once every work item was drawn, pixel `(x, y)` has the gray of
/// the parity of its tile's column `x / tile_width` plus its tile's row
/// `y / tile_height`.
pub proof fn lemma_preview_is_checkerboard(
    height: usize,
    width: usize,
    num_samples: usize,
    tile_width: usize,
    tile_height: usize,
    sample_batch_size: usize,
    x: int,
    y: int,
)
    requires
        tile_width > 0,
        tile_height > 0,
        sample_batch_size > 0,
        num_samples > 0,
        0 <= x < width,
        0 <= y < height,
    ensures
        preview_color(
            spec_batched_tiles(height, width, num_samples, tile_width, tile_height, sample_batch_size),
            spec_batched_tiles(height, width, num_samples, tile_width, tile_height, sample_batch_size).len() as int,
            pixel_index(x, y, width as int),
            width as int,
            tile_width as int,
            tile_height as int,
        ) == (if (x / tile_width as int + y / tile_height as int) % 2 == 0 {
            0x999999u32
        } else {
            0xaaaaaau32
        }),
{
    let items = spec_batched_tiles(height, width, num_samples, tile_width, tile_height, sample_batch_size);
    let rects = spec_tiles(height, width, tile_width, tile_height);
    let c = rects.len() as int;
    let nb = step_count(num_samples as int, sample_batch_size as int);
    let w = width as int;
    let p = pixel_index(x, y, w);
    lemma_batched_tiles_partition_work(height, width, num_samples, tile_width, tile_height, sample_batch_size, x, y, 0);
    let k0 = choose|k: int| 0 <= k < items.len() && item_contains(#[trigger] items[k], x, y, 0);
    assert(c > 0) by (nonlinear_arith)
        requires
            0 <= k0 < nb * c,
            nb >= 0,
            c >= 0,
    ;
    // The item that holds sample 0 of the pixel paints it.
    assert(items[k0].2.start == 0);
    assert(items[k0].0.start <= x < items[k0].0.end && items[k0].1.start <= y < items[k0].1.end && p == pixel_index(x, y, w));
    assert(covers(items[k0], p, w));
    // No later item of the first batch paints it.
    assert forall|j: int| k0 + 1 <= j < items.len() implies !(#[trigger] items[j].2.start == 0 && covers(items[j], p, w)) by {
        if items[j].2.start == 0 && covers(items[j], p, w) {
            let (a, b) = choose|a: int, b: int|
                items[j].0.start <= a < items[j].0.end && items[j].1.start <= b < items[j].1.end && p == #[trigger] pixel_index(a, b, w);
            let r = j % c;
            let s = j / c;
            vstd::arithmetic::div_mod::lemma_fundamental_div_mod(j, c);
            lemma_tiles_inside_image(height, width, tile_width, tile_height, r);
            lemma_pixel_index_unique(a, b, x, y, w);
            assert(s * sample_batch_size == 0);
            assert(s == 0) by (nonlinear_arith)
                requires
                    s * sample_batch_size == 0,
                    sample_batch_size > 0,
            ;
            assert(items[j].2.end > 0);
            assert(item_contains(items[j], x, y, 0));
        }
    }
    lemma_preview_unchanged(items, k0 + 1, items.len() as int, p, w, tile_width as int, tile_height as int);
    // Its tile lies in the pixel's tile column and row.
    let r0 = k0 % c;
    vstd::arithmetic::div_mod::lemma_fundamental_div_mod(k0, c);
    assert(rect_contains(rects[r0], x, y));
    lemma_tile_start_column(height, width, tile_width, tile_height, r0, x, y);
}

/// Packs 8-bit red, green and blue channels into a `0x00RRGGBB` pixel.
pub fn pack_rgb(r: u8, g: u8, b: u8) -> (p: u32)
    ensures
        p == r * 65536 + g * 256 + b,
{
    let p = (r as u32) << 16 | (g as u32) << 8 | b as u32;
    assert(((r as u32) << 16 | (g as u32) << 8 | b as u32) == r * 65536 + g * 256 + b) by (bit_vector);
    p
}

/// Tracks the left mouse button of the preview window between frames.
/// Given whether it was down in the last frame and whether it is down now,
/// gives whether it counts as down from now on and whether it was just
/// released, which is when a click is reported.
pub fn track_left_button(was_down: bool, is_down: bool) -> (r: (bool, bool))
    ensures
        r.0 == is_down,
        r.1 == (was_down && !is_down),
{
    if is_down {
        (true, false)
    } else if was_down {
        (false, true)
    } else {
        (false, false)
    }
}

} // verus!
