use craytracer::geometry::{Axis, CameraType, Film, SplitMethod};
use craytracer::render::{generate_tiles as generate_work, pack_rgb, track_left_button};
use craytracer::sampling::{SobolSampler, UniformSampler};
use craytracer::tiles::generate_tiles;

#[test]
fn tiles_exact_split() {
    assert_eq!(
        generate_tiles(4, 4, 2, 2),
        vec![(0, 0, 2, 2), (2, 0, 4, 2), (0, 2, 2, 4), (2, 2, 4, 4)]
    );
}

#[test]
fn tiles_cut_at_border() {
    // 5 wide, 3 high, tiles of 2 by 2
    assert_eq!(
        generate_tiles(3, 5, 2, 2),
        vec![
            (0, 0, 2, 2),
            (2, 0, 4, 2),
            (4, 0, 5, 2),
            (0, 2, 2, 3),
            (2, 2, 4, 3),
            (4, 2, 5, 3),
        ]
    );
    assert_eq!(generate_tiles(10, 10, 64, 64), vec![(0, 0, 10, 10)]);
}

#[test]
fn tiles_of_empty_image() {
    assert_eq!(generate_tiles(0, 10, 4, 4), vec![]);
    assert_eq!(generate_tiles(10, 0, 4, 4), vec![]);
}

#[test]
fn tiles_cover_every_pixel_once() {
    let (h, w) = (37, 53);
    let tiles = generate_tiles(h, w, 8, 5);
    for y in 0..h {
        for x in 0..w {
            let n = tiles
                .iter()
                .filter(|(x0, y0, x1, y1)| *x0 <= x && x < *x1 && *y0 <= y && y < *y1)
                .count();
            assert_eq!(n, 1, "pixel ({x}, {y})");
        }
    }
    for (x0, y0, x1, y1) in tiles {
        assert!(x0 < x1 && x1 <= w && y0 < y1 && y1 <= h);
    }
}

#[test]
fn work_items_in_batches() {
    let items = generate_work(2, 3, 5, 2, 2, 2);
    let as_tuples: Vec<_> = items
        .iter()
        .map(|(x, y, s)| (x.start, x.end, y.start, y.end, s.start, s.end))
        .collect();
    assert_eq!(
        as_tuples,
        vec![
            (0, 2, 0, 2, 0, 2),
            (2, 3, 0, 2, 0, 2),
            (0, 2, 0, 2, 2, 4),
            (2, 3, 0, 2, 2, 4),
            (0, 2, 0, 2, 4, 5),
            (2, 3, 0, 2, 4, 5),
        ]
    );
    assert!(generate_work(4, 4, 0, 2, 2, 8).is_empty());
    assert!(generate_work(0, 4, 8, 2, 2, 8).is_empty());
}

#[test]
fn work_items_cover_every_pixel_sample_once() {
    let (h, w, n) = (9, 13, 11);
    let items = generate_work(h, w, n, 4, 3, 4);
    for y in 0..h {
        for x in 0..w {
            for s in 0..n {
                let c = items
                    .iter()
                    .filter(|(xr, yr, sr)| xr.contains(&x) && yr.contains(&y) && sr.contains(&s))
                    .count();
                assert_eq!(c, 1, "pixel ({x}, {y}) sample {s}");
            }
        }
    }
}

#[test]
fn rgb_packing() {
    assert_eq!(pack_rgb(0, 0, 0), 0);
    assert_eq!(pack_rgb(255, 255, 255), 0xffffff);
    assert_eq!(pack_rgb(0x12, 0x34, 0x56), 0x123456);
    assert_eq!(pack_rgb(1, 0, 0), 0x010000);
}

#[test]
fn left_button_release_is_a_click() {
    assert_eq!(track_left_button(false, true), (true, false));
    assert_eq!(track_left_button(true, true), (true, false));
    assert_eq!(track_left_button(true, false), (false, true));
    assert_eq!(track_left_button(false, false), (false, false));
}

#[test]
fn uniform_sampler_grid() {
    let mut s = UniformSampler::new(4, 2);
    assert_eq!(s.num_samples(), 8);
    s.start_pixel(10, 20, 6);
    assert_eq!(s.cell(), (2, 1));
    assert_eq!(s.slot(), (6, 8));
    s.start_pixel(0, 0, 3);
    assert_eq!(s.cell(), (3, 0));
    assert_eq!(s.slot(), (3, 8));
}

#[test]
fn sobol_sampler_dimensions() {
    let mut s = SobolSampler::new(7, 16);
    assert_eq!(s.num_samples(), 16);
    s.start_pixel_with_hash(0x1_0000_0005, 3);
    assert_eq!(s.next_dimension(), (3, 0, 5));
    assert_eq!(s.next_dimension(), (3, 1, 5));
    s.start_pixel_with_hash(9, 4);
    assert_eq!(s.next_dimension(), (4, 0, 9));
}

#[test]
fn sobol_sampler_pixel_seed_is_deterministic() {
    let mut a = SobolSampler::new(1, 4);
    let mut b = SobolSampler::new(1, 4);
    a.start_pixel(3, 4, 2);
    b.start_pixel(3, 4, 2);
    let da = a.next_dimension();
    let db = b.next_dimension();
    assert_eq!(da, db);
    assert_eq!((da.0, da.1), (2, 0));
    assert_eq!(a.next_dimension().1, 1);
}

#[test]
fn plain_enums_and_film() {
    assert_ne!(Axis::X, Axis::Y);
    assert_eq!(Axis::Z, Axis::Z);
    assert_ne!(SplitMethod::Median, SplitMethod::SAH);
    assert_ne!(CameraType::Perspective, CameraType::Orthographic);
    let f = Film { width: 400, height: 300 };
    assert_eq!(f, Film { width: 400, height: 300 });
}

use craytracer::obj::{material_kind, mesh_triangles, ObjMaterialKind};
use craytracer::render::preview_checkerboard;
use craytracer::scene_parser::{decimal_string, Location};
use std::ops::Range;

#[test]
fn preview_starts_as_checkerboard() {
    let (h, w, tw, th) = (5, 7, 2, 3);
    let items = generate_work(h, w, 9, tw, th, 4);
    let buffer = preview_checkerboard(w, h, tw, th, &items);
    assert_eq!(buffer.len(), w * h);
    for y in 0..h {
        for x in 0..w {
            let expected = if (x / tw + y / th) % 2 == 0 { 0x999999 } else { 0xaaaaaa };
            assert_eq!(buffer[x + y * w], expected, "pixel ({x}, {y})");
        }
    }
}

#[test]
fn preview_paints_only_the_first_batch() {
    let items: Vec<(Range<usize>, Range<usize>, Range<usize>)> = vec![
        (0..2, 0..1, 4..8),
        (1..3, 0..2, 0..4),
        (2..4, 0..1, 0..4),
    ];
    let buffer = preview_checkerboard(3, 2, 2, 1, &items);
    // item 0 is not of the first batch; item 1 (tile column 0) paints indices
    // 1, 2, 4, 5; item 2 (tile column 1) paints 2 and, past the row's end, 3.
    assert_eq!(buffer, vec![0, 0x999999, 0xaaaaaa, 0xaaaaaa, 0x999999, 0x999999]);
    let buffer = preview_checkerboard(3, 2, 1, 1, &vec![(1..2, 0..1, 0..1), (0..2, 0..1, 0..1)]);
    assert_eq!(buffer, vec![0x999999, 0x999999, 0, 0, 0, 0]);
    let buffer = preview_checkerboard(3, 2, 1, 1, &vec![(0..2, 0..1, 0..1), (1..2, 0..1, 0..1)]);
    assert_eq!(buffer, vec![0x999999, 0xaaaaaa, 0, 0, 0, 0]);
}

#[test]
fn obj_triangles_and_materials() {
    assert_eq!(mesh_triangles(&vec![0, 1, 2, 2, 3, 0, 7]), vec![(0, 1, 2), (2, 3, 0)]);
    assert_eq!(mesh_triangles(&vec![]), vec![]);
    assert_eq!(material_kind(true, true, Some(5)), ObjMaterialKind::Emissive);
    assert_eq!(material_kind(false, true, Some(5)), ObjMaterialKind::Glass);
    assert_eq!(material_kind(false, false, Some(3)), ObjMaterialKind::Metal);
    assert_eq!(material_kind(false, false, Some(9)), ObjMaterialKind::Metal);
    assert_eq!(material_kind(false, false, Some(2)), ObjMaterialKind::Plastic);
    assert_eq!(material_kind(false, false, Some(10)), ObjMaterialKind::Plastic);
    assert_eq!(material_kind(false, false, None), ObjMaterialKind::Plastic);
}

#[test]
fn locations_in_decimal() {
    assert_eq!(decimal_string(0), "0");
    assert_eq!(decimal_string(7), "7");
    assert_eq!(decimal_string(1234567890), "1234567890");
    assert_eq!(decimal_string(usize::MAX), usize::MAX.to_string());
    assert_eq!(Location { line: 12, column: 3 }.to_string(), "12:3");
}

#[test]
fn sampler_getters() {
    let s = UniformSampler::new(3, 5);
    assert_eq!((s.num_x_samples(), s.num_y_samples()), (3, 5));
    let mut t = SobolSampler::new(0, 1);
    assert_eq!(t.dimension(), 0);
    t.next_dimension();
    t.next_dimension();
    assert_eq!(t.dimension(), 2);
    t.start_pixel(1, 1, 0);
    assert_eq!(t.dimension(), 0);
}
