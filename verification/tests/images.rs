use flakesim::canvas::{glyph, Canvas};
use flakesim::diagram::{first_position, jobs, Chart, Mark, Tile};
use flakesim::encode::{encode_gif, encode_png, still_outcome, step_outcome, ImageError};
use flakesim::iso::{crossing, Crossing, IsoCanvas};
use flakesim::order::{painters_order, sort};
use flakesim::raster::{flatten, rgba, samples, GifPalette, Level};

const SKY: [u8; 3] = [6, 12, 34];

fn pixel(c: &Canvas, x: usize, y: usize) -> [u8; 3] {
    let i = (y * c.width + x) * 3;
    [c.rgb[i], c.rgb[i + 1], c.rgb[i + 2]]
}

#[test]
fn canvas_paints_and_clips() {
    let mut c = Canvas::new(5, 4);
    assert!((0..4).all(|y| (0..5).all(|x| pixel(&c, x, y) == SKY)));
    c.put(2, 1, [1, 2, 3]);
    c.put(5, 1, [9, 9, 9]);
    c.put(2, 4, [9, 9, 9]);
    assert_eq!(pixel(&c, 2, 1), [1, 2, 3]);
    assert_eq!(c.rgb.iter().filter(|&&b| b == 9).count(), 0);
    c.hline(1, 3, 3, [4, 4, 4]);
    c.vline(4, 0, 9, [5, 5, 5]);
    assert_eq!(
        (0..5).map(|x| pixel(&c, x, 3)[0]).collect::<Vec<u8>>(),
        vec![6, 4, 4, 6, 5]
    );
    assert!((0..4).all(|y| pixel(&c, 4, y) == [5, 5, 5]));
    c.blit(3, 2, 2, 2, &vec![10, 0, 0, 20, 0, 0, 30, 0, 0, 40, 0, 0]);
    assert_eq!(pixel(&c, 3, 2)[0], 10);
    assert_eq!(pixel(&c, 4, 3)[0], 40);
}

#[test]
fn labels_are_set_in_the_bitmap_font() {
    assert_eq!(glyph('0'), Some([0b111, 0b101, 0b101, 0b101, 0b111]));
    assert_eq!(glyph('1'), Some([0b010, 0b110, 0b010, 0b010, 0b111]));
    assert_eq!(glyph('r'), Some([0b000, 0b000, 0b110, 0b100, 0b100]));
    assert_eq!(glyph('x'), None);
    let mut c = Canvas::new(20, 12);
    // The character without a glyph takes no room.
    c.text(1, 1, "1x-", [7, 7, 7]);
    let mut expected = Canvas::new(20, 12);
    for (at, g) in [(1usize, glyph('1').unwrap()), (9, glyph('-').unwrap())] {
        for (row, bits) in g.iter().enumerate() {
            for col in 0..3 {
                if bits & (0b100 >> col) != 0 {
                    for dy in 0..2 {
                        for dx in 0..2 {
                            expected.put(at + col * 2 + dx, 1 + row * 2 + dy, [7, 7, 7]);
                        }
                    }
                }
            }
        }
    }
    assert_eq!(c.rgb, expected.rgb);
}

#[test]
fn charts_put_humid_rows_on_top() {
    let tile = 16;
    let image = |v: u8| vec![v; tile * tile * 3];
    let chart = Chart {
        tile,
        with_relief: true,
        temperatures: vec!["-2C".to_string(), "-5C".to_string()],
        supersaturations: vec!["0.05".to_string(), "0.10".to_string()],
        tiles: vec![
            Tile { column: 0, level: 0, radius: 1, top: image(100), relief: Some(image(101)) },
            Tile { column: 1, level: 1, radius: 12, top: image(200), relief: None },
        ],
    };
    assert!(chart.is_drawable());
    let c = chart.draw();
    assert_eq!((c.width, c.height), (68 + 32, 22 + 64));
    // Bottom left, and its relief below.
    assert_eq!(pixel(&c, 68 + 15, 22 + 32 + 1), [100, 100, 100]);
    assert_eq!(pixel(&c, 68 + 15, 22 + 48 + 3), [101, 101, 101]);
    // Top right.
    assert_eq!(pixel(&c, 68 + 16 + 15, 22 + 1), [200, 200, 200]);
    // Grid lines go on top.
    assert_eq!(pixel(&c, 68, 22 + 5), [40, 55, 90]);
    assert_eq!(pixel(&c, 68 + 3, 22), [40, 55, 90]);
    let labels: Vec<String> = chart
        .marks()
        .into_iter()
        .filter_map(|m| match m {
            Mark::Label { text, .. } => Some(text),
            _ => None,
        })
        .collect();
    assert_eq!(labels, vec!["-2C", "-5C", "0.10", "0.05", "r=1", "r=12"]);
    let wrong = Chart { tile: 17, ..chart };
    assert!(!wrong.is_drawable());
}

#[test]
fn diagram_cells_are_grown_level_by_level() {
    assert_eq!(
        jobs(3, 2),
        vec![(0, 0), (1, 0), (2, 0), (0, 1), (1, 1), (2, 1)]
    );
    assert_eq!(first_position(&vec![4, 7, 4, 9], 4), Some(0));
    assert_eq!(first_position(&vec![4, 7, 4, 9], 9), Some(3));
    assert_eq!(first_position(&vec![4, 7, 4, 9], 5), None);
}

#[test]
fn palettes_have_a_place_for_every_level() {
    for lit in [false, true] {
        let p = GifPalette::for_raster(lit);
        let levels = p.levels();
        assert_eq!(levels.len(), 256);
        let positions = p.indices(&levels);
        assert_eq!(positions, (0..=255).collect::<Vec<u8>>());
    }
    let p = GifPalette::for_raster(true);
    assert_eq!(p.index(Level { coverage: 3, thickness: 7, shade: 7 }), 255);
    assert_eq!(p.index(Level { coverage: 1, thickness: 2, shade: 3 }), (8 + 2) * 8 + 3);
    let p = GifPalette::for_raster(false);
    assert_eq!(p.index(Level { coverage: 1, thickness: 2, shade: 0 }), 18);
}

#[test]
fn pixels_are_packed() {
    assert_eq!(flatten(&vec![[1, 2, 3], [4, 5, 6]]), vec![1, 2, 3, 4, 5, 6]);
    assert_eq!(rgba(&vec![1, 2, 3, 4, 5, 6]), vec![1, 2, 3, 255, 4, 5, 6, 255]);
    assert_eq!(rgba(&vec![1, 2, 3, 4]), vec![1, 2, 3, 255, 4, 255]);
    assert_eq!(samples(1, 0, 2, 3, 2), vec![2, 3, 8, 9]);
    let mut all: Vec<usize> = (0..2)
        .flat_map(|y| (0..3).flat_map(move |x| samples(x, y, 3, 3, 2)))
        .collect();
    all.sort();
    assert_eq!(all, (0..54).collect::<Vec<usize>>());
}

#[test]
fn png_files_decode_to_their_pixels() {
    let rgb: Vec<u8> = (0..60).map(|i| (i * 37 % 251) as u8).collect();
    let file = encode_png(5, 4, &rgb).unwrap();
    let mut reader = png::Decoder::new(std::io::Cursor::new(file)).read_info().unwrap();
    let mut out = vec![0; reader.output_buffer_size().unwrap()];
    let info = reader.next_frame(&mut out).unwrap();
    assert_eq!((info.width, info.height), (5, 4));
    assert_eq!(info.color_type, png::ColorType::Rgb);
    assert_eq!(info.bit_depth, png::BitDepth::Eight);
    assert_eq!(out, rgb);
    assert_eq!(encode_png(5, 5, &rgb), Err(ImageError::Encoder));
    assert_eq!(encode_png(0, 4, &vec![]), Err(ImageError::Encoder));
    let canvas = Canvas::new(3, 2);
    assert_eq!(canvas.png(), encode_png(3, 2, &canvas.rgb));
}

#[test]
fn gif_files_hold_their_frames() {
    let palette: Vec<u8> = (0..768).map(|i| (i % 256) as u8).collect();
    let frames: Vec<Vec<u8>> = (0..3u8).map(|k| (0..12).map(|i| i * 20 + k).collect()).collect();
    let file = encode_gif(4, 3, &palette, &frames, 65, 2500).unwrap();
    assert_eq!(&file[..13], b"GIF89a\x04\x00\x03\x00\xf7\x00\x00");
    assert_eq!(&file[13..781], &palette[..]);
    assert_eq!(&file[781..800], b"\x21\xff\x0bNETSCAPE2.0\x03\x01\x00\x00\x00");
    assert_eq!(
        &file[800..818],
        b"\x21\xf9\x04\x04\x06\x00\x00\x00\x2c\x00\x00\x00\x00\x04\x00\x03\x00\x00"
    );
    assert_eq!(file[file.len() - 1], 0x3b);
    let mut decoder = gif::DecodeOptions::new().read_info(&file[..]).unwrap();
    assert_eq!(decoder.repeat(), gif::Repeat::Infinite);
    let mut delays = Vec::new();
    let mut seen = Vec::new();
    while let Some(frame) = decoder.read_next_frame().unwrap() {
        delays.push(frame.delay);
        seen.push(frame.buffer.to_vec());
    }
    assert_eq!(seen, frames);
    // Hundredths of a second; the last frame is held.
    assert_eq!(delays, vec![6, 6, 250]);
    // Short delays are raised to two hundredths.
    let fast = encode_gif(4, 3, &palette, &frames, 5, 19).unwrap();
    assert_eq!(fast[804], 2);
}

#[test]
fn gifs_of_empty_frames_are_written() {
    let palette: Vec<u8> = (0..768).map(|i| (i % 256) as u8).collect();
    for (width, height) in [(0, 3), (4, 0), (0, 0)] {
        let file = encode_gif(width, height, &palette, &vec![vec![], vec![]], 100, 700).unwrap();
        assert_eq!(&file[6..10], &[width as u8, 0, height as u8, 0]);
        // Each frame is its head and the code size, one block with the codes
        // that start and end the data, and the end of the blocks.
        let frame = |delay: u8| {
            let mut bytes = vec![0x21, 0xf9, 4, 4, delay, 0, 0, 0, 0x2c, 0, 0, 0, 0];
            bytes.extend([width as u8, 0, height as u8, 0, 0, 2, 1, 0x2c, 0]);
            bytes
        };
        assert_eq!(&file[800..822], &frame(10)[..]);
        assert_eq!(&file[822..844], &frame(70)[..]);
        assert_eq!(&file[844..], &[0x3b]);
        assert_eq!(
            encode_gif(width, height, &palette, &vec![], 100, 700),
            Err(ImageError::NoFrames)
        );
    }
}

#[test]
fn gif_faults_have_their_errors() {
    let palette = vec![0; 768];
    assert_eq!(
        encode_gif(4, 3, &palette, &vec![], 60, 60),
        Err(ImageError::NoFrames)
    );
    assert_eq!(
        encode_gif(4, 3, &palette, &vec![vec![0; 12], vec![0; 11]], 60, 60),
        Err(ImageError::FrameTooSmall)
    );
}

#[test]
fn refusals_of_the_encoders_are_reported() {
    assert_eq!(still_outcome(Ok(vec![1, 2])), Ok(vec![1, 2]));
    let refused = Err(png::EncodingError::LimitsExceeded);
    assert_eq!(still_outcome(refused), Err(ImageError::Encoder));
    assert_eq!(step_outcome(Ok(())), Ok(()));
    let refused = Err(gif::EncodingError::OutOfMemory);
    assert_eq!(step_outcome(refused), Err(ImageError::Encoder));
}

/// Fill a convex polygon scanline by scanline.
fn fill(c: &mut IsoCanvas, pts: &[(f64, f64)], t: f32, shade: f32) {
    let code = |y: f64| flakesim::number::order_code(y.to_bits()).unwrap();
    for py in 0..c.h {
        let yc = py as f64 + 0.5;
        let (mut xl, mut xr) = (f64::MAX, f64::MIN);
        for i in 0..pts.len() {
            let (a, b) = (pts[i], pts[(i + 1) % pts.len()]);
            let (lo, hi) = match crossing(code(a.1), code(b.1), code(yc)) {
                Crossing::Misses => continue,
                Crossing::Down => (a, b),
                Crossing::Up => (b, a),
            };
            let x = lo.0 + (hi.0 - lo.0) * (yc - lo.1) / (hi.1 - lo.1);
            xl = xl.min(x);
            xr = xr.max(x);
        }
        if xl <= xr {
            let x0 = (xl - 0.5).ceil().max(0.0) as usize;
            let x1 = (xr - 0.5).ceil().clamp(0.0, c.w as f64) as usize;
            c.fill_span(py, x0, x1, t.to_bits(), shade.to_bits());
        }
    }
}

#[test]
fn fill_tiles_shared_edges_exactly_once() {
    let mut c = IsoCanvas::new(8, 8);
    // Two squares sharing the edge x = 4.
    fill(&mut c, &[(0.0, 0.0), (4.0, 0.0), (4.0, 8.0), (0.0, 8.0)], 0.2, 1.0);
    fill(&mut c, &[(4.0, 0.0), (8.0, 0.0), (8.0, 8.0), (4.0, 8.0)], 0.8, 1.0);
    let left = c.thickness.iter().filter(|&&t| t == 0.2f32.to_bits()).count();
    let right = c.thickness.iter().filter(|&&t| t == 0.8f32.to_bits()).count();
    assert_eq!((left, right), (32, 32));
    assert!(c.covered.iter().all(|&b| b));
    assert!(c.shade.iter().all(|&s| s == 1.0f32.to_bits()));
}

#[test]
fn crossings_are_half_open() {
    assert_eq!(crossing(1, 5, 1), Crossing::Down);
    assert_eq!(crossing(1, 5, 5), Crossing::Misses);
    assert_eq!(crossing(5, 1, 1), Crossing::Up);
    assert_eq!(crossing(5, 1, 5), Crossing::Misses);
    assert_eq!(crossing(3, 3, 3), Crossing::Misses);
}

#[test]
fn painting_goes_back_to_front_and_is_stable() {
    assert_eq!(painters_order(&vec![5, -3, 5, 0, -3]), vec![1, 4, 3, 0, 2]);
    assert_eq!(painters_order(&vec![]), Vec::<usize>::new());
    assert_eq!(painters_order(&vec![i64::MAX, i64::MIN]), vec![1, 0]);
    let mut keys = vec![9u128, 1, 5, 1];
    sort(&mut keys);
    assert_eq!(keys, vec![1, 1, 5, 9]);
}
