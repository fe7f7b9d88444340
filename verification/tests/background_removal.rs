use base64::Engine;
use devtools_core::background::{estimate_background, BackgroundColor};
use devtools_core::cutout::cut_background;
use devtools_core::feather::{
    apply_mask, feather_alpha, integer_sqrt, nearest_gap, ramp_value, FEATHER_RADIUS,
};
use devtools_core::fill::flood_fill;
use devtools_core::grid::{Mask, PixelGrid, Rgba};
use devtools_core::removal::{
    cut_decoded, grid_from_raw, image_bytes, publish, remove_background, RemovalError, PNG_PREFIX,
};
use devtools_core::codec::RawImage;
use devtools_core::transfer::{find_comma, strip_prefix};

const WHITE: [u8; 4] = [255, 255, 255, 255];
const RED: [u8; 4] = [255, 0, 0, 255];

fn grid_of(width: u32, height: u32, paint: &dyn Fn(u32, u32) -> [u8; 4]) -> PixelGrid {
    let mut data = Vec::new();
    for y in 0..height {
        for x in 0..width {
            data.extend_from_slice(&paint(x, y));
        }
    }
    PixelGrid::from_raw(width, height, data).expect("four bytes per pixel")
}

fn ring_and_block() -> PixelGrid {
    grid_of(4, 4, &|x, y| if (1..=2).contains(&x) && (1..=2).contains(&y) { RED } else { WHITE })
}

fn png_of(grid: &PixelGrid) -> Vec<u8> {
    let mut out = std::io::Cursor::new(Vec::new());
    image::write_buffer_with_format(
        &mut out,
        &grid.data,
        grid.width,
        grid.height,
        image::ExtendedColorType::Rgba8,
        image::ImageFormat::Png,
    )
    .expect("png encodes");
    out.into_inner()
}

fn payload_of(grid: &PixelGrid) -> String {
    base64::engine::general_purpose::STANDARD.encode(png_of(grid))
}

fn decode_result(text: &str) -> PixelGrid {
    assert!(text.starts_with("data:image/png;base64,"));
    let body = &text["data:image/png;base64,".len()..];
    let bytes = base64::engine::general_purpose::STANDARD.decode(body).expect("base64");
    assert_eq!(&bytes[..8], &[0x89, b'P', b'N', b'G', 0x0d, 0x0a, 0x1a, 0x0a]);
    let rgba = image::load_from_memory(&bytes).expect("png").into_rgba8();
    let (w, h) = (rgba.width(), rgba.height());
    PixelGrid::from_raw(w, h, rgba.into_raw()).expect("rgba")
}

#[test]
fn from_raw_wants_four_bytes_per_pixel() {
    assert!(PixelGrid::from_raw(2, 2, vec![0; 16]).is_some());
    assert!(PixelGrid::from_raw(2, 2, vec![0; 15]).is_none());
    assert!(PixelGrid::from_raw(2, 2, vec![0; 17]).is_none());
    assert!(PixelGrid::from_raw(0, 5, Vec::new()).is_some());
    assert!(PixelGrid::from_raw(u32::MAX, u32::MAX, vec![0; 4]).is_none());
}

#[test]
fn pixels_are_read_row_by_row() {
    let grid = grid_of(3, 2, &|x, y| [x as u8, y as u8, (10 * y + x) as u8, 200]);
    assert_eq!(grid.width(), 3);
    assert_eq!(grid.height(), 2);
    assert_eq!(grid.get(2, 1), Rgba { r: 2, g: 1, b: 12, a: 200 });
    assert_eq!(grid.offset(2, 1), 20);
    assert_eq!(grid.pixel_at(0, 1), Some(Rgba { r: 0, g: 1, b: 10, a: 200 }));
    assert_eq!(grid.pixel_at(3, 0), None);
    assert_eq!(grid.pixel_at(0, 2), None);
    assert_eq!(grid.into_raw().len(), 24);
}

#[test]
fn background_is_the_border_mean_with_corners_twice() {
    // 3x3: corners 90, edges 30, centre 7. Rows give 90+30+90 twice, columns the same.
    let grid = grid_of(3, 3, &|x, y| {
        let v = if x == 1 && y == 1 {
            7
        } else if x != 1 && y != 1 {
            90
        } else {
            30
        };
        [v, 2 * v, 0, 255]
    });
    let bg = estimate_background(&grid);
    assert_eq!(bg, BackgroundColor { sum_r: 840, sum_g: 1680, sum_b: 0, samples: 12 });
}

#[test]
fn background_ignores_alpha() {
    let opaque = grid_of(2, 2, &|_, _| [10, 20, 30, 255]);
    let clear = grid_of(2, 2, &|x, _| [10, 20, 30, x as u8]);
    assert_eq!(estimate_background(&opaque), estimate_background(&clear));
}

#[test]
fn background_of_a_single_pixel() {
    let grid = grid_of(1, 1, &|_, _| [9, 8, 7, 6]);
    let bg = estimate_background(&grid);
    assert_eq!(bg, BackgroundColor { sum_r: 36, sum_g: 32, sum_b: 28, samples: 4 });
}

#[test]
fn is_background_compares_squared_distance_strictly() {
    // mean (100, 100, 100); a pixel 10 off in every channel is at squared distance 300
    let bg = BackgroundColor { sum_r: 400, sum_g: 400, sum_b: 400, samples: 4 };
    let p = Rgba { r: 110, g: 90, b: 110, a: 0 };
    assert!(!bg.is_background(10, p));
    assert!(bg.is_background(11, p));
    let q = Rgba { r: 110, g: 100, b: 100, a: 255 };
    assert!(bg.is_background(6, q));
    assert!(!bg.is_background(5, q));
}

#[test]
fn is_background_with_a_fractional_mean() {
    // mean red 0.5: a pixel with red 1 is at squared distance 0.25 < 3
    let bg = BackgroundColor { sum_r: 2, sum_g: 0, sum_b: 0, samples: 4 };
    assert!(bg.is_background(1, Rgba { r: 1, g: 0, b: 0, a: 255 }));
    assert!(bg.is_background(1, Rgba { r: 0, g: 0, b: 0, a: 255 }));
    // red 2 is at squared distance 2.25 < 3, red 3 at 6.25
    assert!(bg.is_background(1, Rgba { r: 2, g: 0, b: 0, a: 255 }));
    assert!(!bg.is_background(1, Rgba { r: 3, g: 0, b: 0, a: 255 }));
}

#[test]
fn tolerance_zero_matches_nothing() {
    let bg = BackgroundColor { sum_r: 400, sum_g: 400, sum_b: 400, samples: 4 };
    assert!(!bg.is_background(0, Rgba { r: 100, g: 100, b: 100, a: 255 }));
}

#[test]
fn large_tolerance_matches_everything() {
    let bg = BackgroundColor { sum_r: 0, sum_g: 0, sum_b: 0, samples: 4 };
    let far = Rgba { r: 255, g: 255, b: 255, a: 255 };
    assert!(!bg.is_background(255, far));
    assert!(bg.is_background(256, far));
    assert!(bg.is_background(257, far));
    assert!(bg.is_background(u32::MAX, far));
}

#[test]
fn fill_marks_the_ring_and_not_the_block() {
    let grid = ring_and_block();
    let bg = estimate_background(&grid);
    assert_eq!(bg, BackgroundColor { sum_r: 4080, sum_g: 4080, sum_b: 4080, samples: 16 });
    let mask = flood_fill(&grid, &bg, 10);
    assert_eq!(mask.width, 4);
    assert_eq!(mask.height, 4);
    let mut marked = 0;
    for y in 0..4 {
        for x in 0..4 {
            let inner = (1..=2).contains(&x) && (1..=2).contains(&y);
            assert_eq!(mask.get(x, y), !inner, "cell {x},{y}");
            if mask.get(x, y) {
                marked += 1;
            }
        }
    }
    assert_eq!(marked, 12);
}

#[test]
fn fill_does_not_enter_an_enclosed_island() {
    // white border ring, red ring inside it, white centre
    let grid = grid_of(5, 5, &|x, y| {
        let ring = x.min(4 - x).min(y.min(4 - y));
        if ring == 1 { RED } else { WHITE }
    });
    let bg = estimate_background(&grid);
    let mask = flood_fill(&grid, &bg, 10);
    assert!(!mask.get(2, 2));
    assert!(!mask.get(1, 1));
    assert!(mask.get(0, 0));
    assert!(mask.get(4, 2));
    let mut cut = grid_of(5, 5, &|x, y| {
        let ring = x.min(4 - x).min(y.min(4 - y));
        if ring == 1 { RED } else { WHITE }
    });
    cut_background(&mut cut, 10);
    assert_eq!(cut.get(2, 2), Rgba { r: 255, g: 255, b: 255, a: 255 });
    assert_eq!(cut.get(1, 3), Rgba { r: 255, g: 0, b: 0, a: 255 });
}

#[test]
fn fill_passes_through_a_diagonal_gap() {
    // black image with a white staircase from the corner: only corners touch
    let grid = grid_of(8, 8, &|x, y| if x == y { WHITE } else { [0, 0, 0, 255] });
    let bg = BackgroundColor { sum_r: 255, sum_g: 255, sum_b: 255, samples: 1 };
    let mask = flood_fill(&grid, &bg, 1);
    for y in 0..8 {
        for x in 0..8 {
            assert_eq!(mask.get(x, y), x == y);
        }
    }
}

#[test]
fn fill_on_an_empty_grid() {
    let grid = PixelGrid::from_raw(0, 3, Vec::new()).unwrap();
    let bg = BackgroundColor { sum_r: 0, sum_g: 0, sum_b: 0, samples: 1 };
    let mask = flood_fill(&grid, &bg, 10);
    assert_eq!(mask.bits.len(), 0);
}

#[test]
fn integer_sqrt_rounds_down() {
    assert_eq!(integer_sqrt(0), 0);
    assert_eq!(integer_sqrt(1), 1);
    assert_eq!(integer_sqrt(3), 1);
    assert_eq!(integer_sqrt(4), 2);
    assert_eq!(integer_sqrt(260100), 510);
    assert_eq!(integer_sqrt(520200), 721);
    assert_eq!(integer_sqrt(u64::MAX), 0xffff_ffff);
}

#[test]
fn ramp_rounds_to_nearest() {
    // 255 * d / 2 for d = 0, 1, sqrt 2, sqrt 3, 2
    assert_eq!(ramp_value(0, 2), 0);
    assert_eq!(ramp_value(1, 2), 128);
    assert_eq!(ramp_value(2, 2), 180);
    assert_eq!(ramp_value(3, 2), 221);
    assert_eq!(ramp_value(4, 2), 255);
    assert_eq!(ramp_value(1, 1), 255);
    assert_eq!(ramp_value(1, 3), 85);
    assert_eq!(ramp_value(2, 3), 120);
    assert_eq!(ramp_value(1, 255), 1);
    assert_eq!(ramp_value(255 * 255, 255), 255);
}

#[test]
fn ramp_is_monotone_in_the_distance() {
    for radius in [1u8, 2, 3, 7, 50, 255] {
        let limit = radius as u32 * radius as u32;
        let mut last = 0;
        for q in 0..=limit.min(3000) {
            let a = ramp_value(q, radius);
            assert!(last <= a, "radius {radius}, q {q}");
            last = a;
        }
        assert_eq!(ramp_value(limit, radius), 255);
    }
}

fn mask_of(width: u32, height: u32, marked: &dyn Fn(u32, u32) -> bool) -> Mask {
    let mut bits = Vec::new();
    for y in 0..height {
        for x in 0..width {
            bits.push(marked(x, y));
        }
    }
    Mask { width, height, bits }
}

#[test]
fn nearest_gap_is_euclidean_and_bounded_by_the_radius() {
    // one kept cell at (3, 3) in a 7x7 mask
    let mask = mask_of(7, 7, &|x, y| !(x == 3 && y == 3));
    assert_eq!(nearest_gap(&mask, 3, 3, 2), Some(0));
    assert_eq!(nearest_gap(&mask, 2, 3, 2), Some(1));
    assert_eq!(nearest_gap(&mask, 2, 2, 2), Some(2));
    assert_eq!(nearest_gap(&mask, 3, 1, 2), Some(4));
    // a knight's move away: inside the square window, outside the radius
    assert_eq!(nearest_gap(&mask, 1, 2, 2), None);
    assert_eq!(nearest_gap(&mask, 1, 1, 2), None);
    assert_eq!(nearest_gap(&mask, 0, 3, 2), None);
    assert_eq!(nearest_gap(&mask, 1, 2, 3), Some(5));
    assert_eq!(nearest_gap(&mask, 2, 3, 0), None);
    assert_eq!(nearest_gap(&mask, 3, 3, 0), Some(0));
}

#[test]
fn feather_alpha_never_raises_alpha() {
    let mask = mask_of(7, 7, &|x, y| !(x == 3 && y == 3));
    assert_eq!(feather_alpha(&mask, 2, 3, 2, 255), 128);
    assert_eq!(feather_alpha(&mask, 2, 3, 2, 100), 100);
    assert_eq!(feather_alpha(&mask, 2, 2, 2, 255), 180);
    assert_eq!(feather_alpha(&mask, 3, 5, 2, 255), 255);
    assert_eq!(feather_alpha(&mask, 3, 5, 2, 17), 17);
    assert_eq!(feather_alpha(&mask, 0, 0, 2, 255), 0);
    assert_eq!(feather_alpha(&mask, 2, 3, 0, 255), 0);
}

#[test]
fn apply_mask_leaves_kept_pixels_and_colours() {
    let mut grid = grid_of(7, 7, &|x, y| [x as u8, y as u8, 9, 200]);
    let mask = mask_of(7, 7, &|x, y| !(x == 3 && y == 3));
    apply_mask(&mut grid, &mask, FEATHER_RADIUS);
    assert_eq!(grid.get(3, 3), Rgba { r: 3, g: 3, b: 9, a: 200 });
    assert_eq!(grid.get(4, 3), Rgba { r: 4, g: 3, b: 9, a: 128 });
    assert_eq!(grid.get(4, 4), Rgba { r: 4, g: 4, b: 9, a: 180 });
    assert_eq!(grid.get(5, 3), Rgba { r: 5, g: 3, b: 9, a: 200 });
    assert_eq!(grid.get(5, 4), Rgba { r: 5, g: 4, b: 9, a: 0 });
    assert_eq!(grid.get(6, 6), Rgba { r: 6, g: 6, b: 9, a: 0 });
    assert_eq!(grid.width(), 7);
    assert_eq!(grid.height(), 7);
}

#[test]
fn uniform_image_becomes_transparent() {
    for tolerance in [1, 10, 255, 1000] {
        let mut grid = grid_of(6, 4, &|_, _| [12, 200, 77, 255]);
        cut_background(&mut grid, tolerance);
        for y in 0..4 {
            for x in 0..6 {
                assert_eq!(grid.get(x, y), Rgba { r: 12, g: 200, b: 77, a: 0 });
            }
        }
    }
}

#[test]
fn uniform_image_with_tolerance_zero_is_kept() {
    let mut grid = grid_of(6, 4, &|_, _| [12, 200, 77, 255]);
    cut_background(&mut grid, 0);
    for y in 0..4 {
        for x in 0..6 {
            assert_eq!(grid.get(x, y), Rgba { r: 12, g: 200, b: 77, a: 255 });
        }
    }
}

#[test]
fn narrow_images_are_handled() {
    for (w, h) in [(1, 1), (1, 9), (9, 1), (2, 1), (1, 2)] {
        let mut grid = grid_of(w, h, &|_, _| WHITE);
        cut_background(&mut grid, 10);
        assert_eq!(grid.width(), w);
        assert_eq!(grid.height(), h);
        for y in 0..h {
            for x in 0..w {
                assert_eq!(grid.get(x, y).a, 0);
            }
        }
    }
    // a line with a dark middle: the ends match the mean of the ends less well
    let mut line = grid_of(5, 1, &|x, _| if x == 2 { [0, 0, 0, 255] } else { WHITE });
    cut_background(&mut line, 80);
    let alphas: Vec<u8> = (0..5).map(|x| line.get(x, 0).a).collect();
    assert_eq!(alphas, vec![255, 128, 255, 128, 255]);
}

#[test]
fn ring_and_block_scenario() {
    let mut grid = ring_and_block();
    cut_background(&mut grid, 10);
    let expected_alpha = [
        [180, 128, 128, 180],
        [128, 255, 255, 128],
        [128, 255, 255, 128],
        [180, 128, 128, 180],
    ];
    for y in 0..4u32 {
        for x in 0..4u32 {
            let inner = (1..=2).contains(&x) && (1..=2).contains(&y);
            let p = grid.get(x, y);
            assert_eq!(p.a, expected_alpha[y as usize][x as usize], "alpha at {x},{y}");
            assert_eq!((p.r, p.g, p.b), if inner { (255, 0, 0) } else { (255, 255, 255) });
        }
    }
}

#[test]
fn deep_background_becomes_fully_transparent() {
    // 9x9 white with a red pixel in the middle
    let mut grid = grid_of(9, 9, &|x, y| if x == 4 && y == 4 { RED } else { WHITE });
    cut_background(&mut grid, 10);
    assert_eq!(grid.get(4, 4).a, 255);
    assert_eq!(grid.get(3, 4).a, 128);
    assert_eq!(grid.get(5, 5).a, 180);
    assert_eq!(grid.get(4, 6).a, 255);
    assert_eq!(grid.get(3, 6).a, 0);
    assert_eq!(grid.get(0, 0).a, 0);
    assert_eq!(grid.get(4, 7).a, 0);
}

#[test]
fn find_comma_gives_the_first() {
    assert_eq!(find_comma("abc"), None);
    assert_eq!(find_comma(""), None);
    assert_eq!(find_comma(","), Some(0));
    assert_eq!(find_comma("data:image/png;base64,AAAA,BB"), Some(21));
    assert_eq!(find_comma("é,x"), Some(1));
}

#[test]
fn strip_prefix_keeps_what_follows_the_first_comma() {
    assert_eq!(strip_prefix("data:image/png;base64,AAAA"), "AAAA");
    assert_eq!(strip_prefix("AAAA"), "AAAA");
    assert_eq!(strip_prefix("a,b,c"), "b,c");
    assert_eq!(strip_prefix("a,"), "");
    assert_eq!(strip_prefix(""), "");
    assert_eq!(strip_prefix("é,ü"), "ü");
}

#[test]
fn removal_end_to_end() {
    let payload = payload_of(&ring_and_block());
    let plain = remove_background(&payload, 10).expect("removal succeeds");
    let wrapped =
        remove_background(&format!("data:image/png;base64,{payload}"), 10).expect("succeeds");
    assert_eq!(plain, wrapped);
    assert!(plain.starts_with(PNG_PREFIX));
    let out = decode_result(&plain);
    assert_eq!((out.width(), out.height()), (4, 4));
    assert_eq!(out.get(0, 0), Rgba { r: 255, g: 255, b: 255, a: 180 });
    assert_eq!(out.get(1, 0), Rgba { r: 255, g: 255, b: 255, a: 128 });
    assert_eq!(out.get(1, 1), Rgba { r: 255, g: 0, b: 0, a: 255 });
    assert_eq!(out.get(2, 2), Rgba { r: 255, g: 0, b: 0, a: 255 });
}

#[test]
fn removal_preserves_dimensions() {
    for (w, h) in [(1, 1), (3, 7), (16, 2), (1, 5)] {
        let grid = grid_of(w, h, &|x, y| [(x * 40) as u8, (y * 30) as u8, 5, 255]);
        let text = remove_background(&payload_of(&grid), 20).expect("removal succeeds");
        let out = decode_result(&text);
        assert_eq!((out.width(), out.height()), (w, h));
    }
}

#[test]
fn removal_reads_other_formats() {
    let grid = grid_of(4, 4, &|_, _| [0, 0, 255, 255]);
    let mut out = std::io::Cursor::new(Vec::new());
    image::write_buffer_with_format(
        &mut out,
        &grid.data,
        4,
        4,
        image::ExtendedColorType::Rgba8,
        image::ImageFormat::Bmp,
    )
    .unwrap();
    let payload = base64::engine::general_purpose::STANDARD.encode(out.into_inner());
    let text = remove_background(&payload, 5).expect("bmp is read");
    let cut = decode_result(&text);
    assert_eq!(cut.get(2, 2), Rgba { r: 0, g: 0, b: 255, a: 0 });
}

#[test]
fn removal_rejects_bad_base64() {
    let wanted = base64::engine::general_purpose::STANDARD
        .decode("@@@not base64@@@")
        .unwrap_err()
        .to_string();
    match remove_background("data:image/png;base64,@@@not base64@@@", 10) {
        Err(RemovalError::TransferDecode(detail)) => assert_eq!(detail, wanted),
        other => panic!("unexpected {other:?}"),
    }
    match remove_background("data:image/png;base64,@@@not base64@@@", 10) {
        Err(error) => {
            assert_eq!(error.message(), "Failed to decode base64: Invalid symbol 64, offset 0.")
        }
        other => panic!("unexpected {other:?}"),
    }
}

#[test]
fn removal_rejects_bytes_that_are_no_image() {
    let payload = base64::engine::general_purpose::STANDARD.encode(b"certainly not an image");
    let wanted = image::load_from_memory(b"certainly not an image").unwrap_err().to_string();
    match remove_background(&payload, 10) {
        Err(RemovalError::ImageDecode(detail)) => assert_eq!(detail, wanted),
        other => panic!("unexpected {other:?}"),
    }
}

#[test]
fn image_bytes_strips_and_decodes() {
    assert_eq!(image_bytes("data:text/plain;base64,aGk=").unwrap(), b"hi".to_vec());
    assert_eq!(image_bytes("aGk=").unwrap(), b"hi".to_vec());
    assert_eq!(image_bytes("x,").unwrap(), Vec::<u8>::new());
    match image_bytes("aGk") {
        Err(RemovalError::TransferDecode(detail)) => assert_eq!(detail, "Invalid padding"),
        other => panic!("unexpected {other:?}"),
    }
    // only what follows the first comma is payload, a second comma is part of it
    let wanted = base64::engine::general_purpose::STANDARD
        .decode("aGk=,aGk=")
        .unwrap_err()
        .to_string();
    match image_bytes("a,aGk=,aGk=") {
        Err(RemovalError::TransferDecode(detail)) => assert_eq!(detail, wanted),
        other => panic!("unexpected {other:?}"),
    }
}

#[test]
fn cut_decoded_passes_the_decoder_error_on() {
    match cut_decoded(Err("no decoder took it".to_string()), 10) {
        Err(RemovalError::ImageDecode(detail)) => assert_eq!(detail, "no decoder took it"),
        other => panic!("unexpected {other:?}"),
    }
}

#[test]
fn cut_decoded_rejects_images_without_pixels() {
    match cut_decoded(Ok(RawImage { width: 0, height: 3, pixels: Vec::new() }), 10) {
        Err(RemovalError::ImageDecode(detail)) => assert_eq!(detail, "the image has no pixels"),
        other => panic!("unexpected {other:?}"),
    }
    match cut_decoded(Ok(RawImage { width: 3, height: 0, pixels: vec![0; 40] }), 10) {
        Err(RemovalError::ImageDecode(detail)) => assert_eq!(detail, "the image has no pixels"),
        other => panic!("unexpected {other:?}"),
    }
    match cut_decoded(Ok(RawImage { width: 2, height: 2, pixels: vec![0; 15] }), 10) {
        Err(RemovalError::ImageDecode(detail)) => assert_eq!(detail, "the image lacks samples"),
        other => panic!("unexpected {other:?}"),
    }
}

#[test]
fn cut_decoded_cuts_and_publishes() {
    let ring = ring_and_block();
    let raw = RawImage { width: 4, height: 4, pixels: ring.data.clone() };
    let text = cut_decoded(Ok(raw), 10).expect("removal succeeds");
    let mut cut = ring_and_block();
    cut_background(&mut cut, 10);
    assert_eq!(text, publish(&cut).unwrap());
    assert_eq!(text, remove_background(&payload_of(&ring), 10).unwrap());
    let out = decode_result(&text);
    assert_eq!((out.width(), out.height()), (4, 4));
    assert_eq!(out.data, cut.data);
}

#[test]
fn removal_rejects_an_empty_payload() {
    assert!(matches!(
        remove_background("data:image/png;base64,", 10),
        Err(RemovalError::ImageDecode(_))
    ));
    assert!(matches!(remove_background("", 10), Err(RemovalError::ImageDecode(_))));
}

#[test]
fn error_messages_name_the_stage() {
    assert_eq!(
        RemovalError::TransferDecode("x".to_string()).message(),
        "Failed to decode base64: x"
    );
    assert_eq!(RemovalError::ImageDecode("y".to_string()).message(), "Failed to load image: y");
    assert_eq!(RemovalError::ImageEncode("z".to_string()).message(), "Failed to encode image: z");
}

#[test]
fn grid_from_raw_checks_the_image() {
    let ok = grid_from_raw(RawImage { width: 1, height: 2, pixels: vec![1, 2, 3, 4, 5, 6, 7, 8, 9] });
    let grid = ok.expect("enough samples");
    assert_eq!(grid.data, vec![1, 2, 3, 4, 5, 6, 7, 8]);
    assert!(matches!(
        grid_from_raw(RawImage { width: 0, height: 2, pixels: Vec::new() }),
        Err(RemovalError::ImageDecode(_))
    ));
    assert!(matches!(
        grid_from_raw(RawImage { width: 2, height: 0, pixels: Vec::new() }),
        Err(RemovalError::ImageDecode(_))
    ));
    match grid_from_raw(RawImage { width: 1, height: 2, pixels: vec![0; 7] }) {
        Err(RemovalError::ImageDecode(detail)) => assert_eq!(detail, "the image lacks samples"),
        other => panic!("unexpected {other:?}"),
    }
}

#[test]
fn publish_wraps_a_png() {
    let grid = ring_and_block();
    let text = publish(&grid).expect("png");
    let back = decode_result(&text);
    assert_eq!(back.data, grid.data);
}
